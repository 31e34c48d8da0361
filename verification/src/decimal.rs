//! Decimal text to prices: the fallback source writes its prices as decimal
//! numbers in text, and the engine holds them as whole numbers of one part in
//! `PRICE_SCALE`.

use crate::datapoint::PRICE_SCALE;
use vstd::prelude::*;
use vstd::string::*;

verus! {

/// The decimal places a price keeps.
pub const PRICE_PLACES: usize = 8;

/// Whether `c` is one of the ten digits.
pub open spec fn is_digit(c: char) -> bool {
    '0' <= c && c <= '9'
}

/// The number a digit stands for.
pub open spec fn digit_value(c: char) -> int {
    c as int - '0' as int
}

/// Whether every character is a digit.
pub open spec fn all_digits(s: Seq<char>) -> bool {
    forall|i: int| 0 <= i < s.len() ==> is_digit(#[trigger] s[i])
}

/// The number that a row of digits stands for; the empty row stands for zero.
pub open spec fn digits_value(s: Seq<char>) -> int
    decreases s.len(),
{
    if s.len() == 0 {
        0
    } else {
        10 * digits_value(s.drop_last()) + digit_value(s.last())
    }
}

/// Ten to the power of `n`.
pub open spec fn pow10(n: nat) -> int
    decreases n,
{
    if n == 0 {
        1
    } else {
        10 * pow10((n - 1) as nat)
    }
}

/// The digits after the point as a whole number of parts in `PRICE_SCALE`: the
/// first eight of them count, and missing ones count as zero.
pub open spec fn fraction_value(s: Seq<char>) -> int {
    if s.len() >= PRICE_PLACES {
        digits_value(s.take(PRICE_PLACES as int))
    } else {
        digits_value(s) * pow10((PRICE_PLACES - s.len()) as nat)
    }
}

/// The index of the first point at or after `from`, or the length of the text.
pub open spec fn dot_index(s: Seq<char>, from: int) -> int
    decreases s.len() - from,
{
    if from < 0 || from >= s.len() {
        s.len() as int
    } else if s[from] == '.' {
        from
    } else {
        dot_index(s, from + 1)
    }
}

/// The length of the sign at the head of the text: one for a minus or a plus, else
/// zero.
pub open spec fn sign_len(s: Seq<char>) -> int {
    if s.len() > 0 && (s[0] == '-' || s[0] == '+') {
        1
    } else {
        0
    }
}

/// Whether the text begins with a minus.
pub open spec fn is_negative(s: Seq<char>) -> bool {
    s.len() > 0 && s[0] == '-'
}

/// The digits before the point.
pub open spec fn whole_part(s: Seq<char>) -> Seq<char> {
    s.subrange(sign_len(s), dot_index(s, sign_len(s)))
}

/// The digits after the point, if there is a point.
pub open spec fn fraction_part(s: Seq<char>) -> Seq<char> {
    let dot = dot_index(s, sign_len(s));
    if dot < s.len() {
        s.subrange(dot + 1, s.len() as int)
    } else {
        Seq::empty()
    }
}

/// The price that a decimal number in text stands for, in parts of `PRICE_SCALE`.
/// The text is an optional minus or plus, digits, and optionally a point and
/// further digits, with at least one digit before or after the point. Digits after
/// the eighth decimal place are cut off. Any other text stands for nothing: so
/// does a number with an exponent, an infinity, a value that is not a number, and
/// a number too large for 64 bits.
pub open spec fn decimal_value(s: Seq<char>) -> Option<int> {
    let whole = whole_part(s);
    let fraction = fraction_part(s);
    let magnitude = digits_value(whole) * PRICE_SCALE + fraction_value(fraction);
    if (whole.len() > 0 || fraction.len() > 0) && all_digits(whole) && all_digits(fraction)
        && magnitude <= i64::MAX {
        Some(if is_negative(s) { -magnitude } else { magnitude })
    } else {
        None
    }
}

/// Ten to the power of the places a price keeps is `PRICE_SCALE`.
pub proof fn lemma_pow10_eight()
    ensures
        pow10(PRICE_PLACES as nat) == PRICE_SCALE,
{
    reveal_with_fuel(pow10, 9);
}

/// A row of digits stands for a number that is not negative and has no more
/// digits than the row.
pub proof fn lemma_digits_value_bounds(s: Seq<char>)
    requires
        all_digits(s),
    ensures
        0 <= digits_value(s) < pow10(s.len()),
    decreases s.len(),
{
    if s.len() > 0 {
        assert(is_digit(s[s.len() - 1]));
        assert forall|i: int| 0 <= i < s.drop_last().len() implies is_digit(
            #[trigger] s.drop_last()[i],
        ) by {
            assert(s.drop_last()[i] == s[i]);
        }
        lemma_digits_value_bounds(s.drop_last());
    }
}

/// Where no point stands from `from` up to `to`, the first point at or after
/// `from` is the first at or after `to`.
proof fn lemma_dot_index_skips(s: Seq<char>, from: int, to: int)
    requires
        0 <= from <= to <= s.len(),
        forall|k: int| from <= k < to ==> s[k] != '.',
    ensures
        dot_index(s, from) == dot_index(s, to),
    decreases to - from,
{
    if from < to {
        lemma_dot_index_skips(s, from + 1, to);
    }
}

/// The first point at or after `from` stands at or after `from`, within the text
/// or at its end, and it is a point where it stands within the text.
proof fn lemma_dot_index_bounds(s: Seq<char>, from: int)
    requires
        0 <= from <= s.len(),
    ensures
        from <= dot_index(s, from) <= s.len(),
        dot_index(s, from) < s.len() ==> s[dot_index(s, from)] == '.',
    decreases s.len() - from,
{
    if from < s.len() && s[from] != '.' {
        lemma_dot_index_bounds(s, from + 1);
    }
}

/// A whole part of this size or more stands for no price: scaled, it is beyond 64
/// bits. The whole part is counted up to here and no further.
const WHOLE_LIMIT: u64 = 100_000_000_000;

/// Reads a price from a decimal number in text: an optional sign, digits, and
/// optionally a point and further digits. A number with an exponent is not read.
pub fn parse_decimal(text: &str) -> (r: Option<i64>)
    ensures
        match decimal_value(text@) {
            Some(v) => r == Some(v as i64) && -i64::MAX <= v <= i64::MAX,
            None => r is None,
        },
{
    let n = text.unicode_len();
    let negative = n > 0 && text.get_char(0) == '-';
    let start: usize = if negative || (n > 0 && text.get_char(0) == '+') {
        1
    } else {
        0
    };
    let ghost s = text@;
    let mut whole: u64 = 0;
    let mut i: usize = start;
    while i < n && text.get_char(i) != '.'
        invariant
            s == text@,
            n == s.len(),
            start == sign_len(s),
            start <= i <= n,
            forall|k: int| start <= k < i ==> is_digit(#[trigger] s[k]) && s[k] != '.',
            whole <= WHOLE_LIMIT,
            whole == (if digits_value(s.subrange(start as int, i as int)) < WHOLE_LIMIT {
                digits_value(s.subrange(start as int, i as int))
            } else {
                WHOLE_LIMIT as int
            }),
        decreases n - i,
    {
        let c = text.get_char(i);
        if !(c >= '0' && c <= '9') {
            proof {
                lemma_dot_index_skips(s, start as int, i as int);
                lemma_dot_index_bounds(s, i + 1);
                let dot = dot_index(s, start as int);
                assert(s[i as int] != '.');
                assert(dot == dot_index(s, i + 1));
                assert(whole_part(s)[i - start] == s[i as int]);
            }
            return None;
        }
        let d: u64 = (c as u32 - '0' as u32) as u64;
        proof {
            let longer = s.subrange(start as int, i + 1);
            assert(longer.drop_last() =~= s.subrange(start as int, i as int));
            assert(longer.last() == c);
            assert forall|k: int| 0 <= k < i - start implies is_digit(
                #[trigger] s.subrange(start as int, i as int)[k],
            ) by {
                assert(s.subrange(start as int, i as int)[k] == s[start + k]);
            }
            lemma_digits_value_bounds(s.subrange(start as int, i as int));
        }
        let next = whole * 10 + d;
        whole = if next < WHOLE_LIMIT {
            next
        } else {
            WHOLE_LIMIT
        };
        i = i + 1;
    }
    let dot = i;
    proof {
        lemma_dot_index_skips(s, start as int, dot as int);
        assert(dot_index(s, start as int) == dot);
        assert forall|k: int| 0 <= k < whole_part(s).len() implies is_digit(
            #[trigger] whole_part(s)[k],
        ) by {
            assert(whole_part(s)[k] == s[start + k]);
        }
    }
    let ghost fraction = fraction_part(s);
    let mut parts: u64 = 0;
    let mut places: usize = 0;
    let mut j: usize = if dot < n {
        dot + 1
    } else {
        n
    };
    let first: usize = j;
    proof {
        reveal_with_fuel(pow10, 9);
        assert(fraction.take(0) =~= Seq::<char>::empty());
    }
    while j < n
        invariant
            s == text@,
            n == s.len(),
            first <= j <= n,
            fraction == fraction_part(s),
            fraction == s.subrange(first as int, n as int),
            forall|k: int| 0 <= k < j - first ==> is_digit(#[trigger] fraction[k]),
            places == (if j - first < PRICE_PLACES {
                j - first
            } else {
                PRICE_PLACES as int
            }),
            parts == digits_value(fraction.take(places as int)),
            0 <= parts < pow10(places as nat),
            pow10(places as nat) <= 100_000_000,
        decreases n - j,
    {
        let c = text.get_char(j);
        if !(c >= '0' && c <= '9') {
            proof {
                assert(fraction[j - first] == c);
            }
            return None;
        }
        if places < PRICE_PLACES {
            proof {
                reveal_with_fuel(pow10, 9);
                let longer = fraction.take(places + 1);
                assert(longer.drop_last() =~= fraction.take(places as int));
                assert(longer.last() == c);
                assert(fraction[j - first] == c);
            }
            parts = parts * 10 + (c as u32 - '0' as u32) as u64;
            places = places + 1;
        } else {
            proof {
                assert(fraction[j - first] == c);
            }
        }
        j = j + 1;
    }
    proof {
        assert(all_digits(fraction));
        assert(whole_part(s).len() == dot - start);
        assert(fraction.len() == n - first);
    }
    if dot == start && first == n {
        return None;
    }
    let mut scaled: u64 = parts;
    let mut filled: usize = places;
    while filled < PRICE_PLACES
        invariant
            places <= filled <= PRICE_PLACES,
            scaled == parts * pow10((filled - places) as nat),
            0 <= parts < pow10(places as nat),
            scaled < pow10(filled as nat),
            pow10(filled as nat) <= 100_000_000,
        decreases PRICE_PLACES - filled,
    {
        proof {
            reveal_with_fuel(pow10, 9);
            assert(parts * pow10((filled + 1 - places) as nat) == 10 * (parts * pow10(
                (filled - places) as nat,
            ))) by (nonlinear_arith)
                requires
                    pow10((filled + 1 - places) as nat) == 10 * pow10((filled - places) as nat),
            ;
        }
        scaled = scaled * 10;
        filled = filled + 1;
    }
    proof {
        reveal_with_fuel(pow10, 9);
        if fraction.len() >= PRICE_PLACES {
            assert(places == PRICE_PLACES);
            assert(pow10(0) == 1);
            assert(scaled == parts) by (nonlinear_arith)
                requires
                    scaled == parts * 1,
            ;
        } else {
            assert(places == fraction.len());
            assert(fraction.take(places as int) =~= fraction);
        }
        assert(scaled == fraction_value(fraction));
        assert(pow10(8) == 100_000_000);
    }
    if whole >= WHOLE_LIMIT {
        proof {
            let value = digits_value(whole_part(s));
            assert(value >= WHOLE_LIMIT);
            assert(value * PRICE_SCALE >= 10_000_000_000_000_000_000) by (nonlinear_arith)
                requires
                    value >= 100_000_000_000,
                    PRICE_SCALE == 100_000_000,
            ;
        }
        return None;
    }
    proof {
        assert(whole * PRICE_SCALE <= 100_000_000_000 * 100_000_000) by (nonlinear_arith)
            requires
                0 <= whole <= 100_000_000_000,
                PRICE_SCALE == 100_000_000,
        ;
    }
    let magnitude: u128 = (whole as u128) * (PRICE_SCALE as u128) + (scaled as u128);
    if magnitude > 0x7fff_ffff_ffff_ffff {
        return None;
    }
    if negative {
        Some(-(magnitude as i64))
    } else {
        Some(magnitude as i64)
    }
}

/// The digit that stands for a number below ten.
pub open spec fn digit_char(d: int) -> char {
    if d == 0 {
        '0'
    } else if d == 1 {
        '1'
    } else if d == 2 {
        '2'
    } else if d == 3 {
        '3'
    } else if d == 4 {
        '4'
    } else if d == 5 {
        '5'
    } else if d == 6 {
        '6'
    } else if d == 7 {
        '7'
    } else if d == 8 {
        '8'
    } else {
        '9'
    }
}

/// The digits of a number, without leading zeros; zero is one digit.
pub open spec fn digits_text(n: int) -> Seq<char>
    decreases n,
{
    if n < 10 {
        seq![digit_char(n)]
    } else {
        digits_text(n / 10).push(digit_char(n % 10))
    }
}

/// The last `width` digits of a number, with leading zeros.
pub open spec fn fixed_digits(n: int, width: nat) -> Seq<char>
    decreases width,
{
    if width == 0 {
        Seq::empty()
    } else {
        fixed_digits(n / 10, (width - 1) as nat).push(digit_char(n % 10))
    }
}

/// The size of a number without its sign.
pub open spec fn magnitude(v: int) -> int {
    if v < 0 {
        -v
    } else {
        v
    }
}

/// A price as a decimal number in text: a minus where it is negative, the whole
/// part, a point, and all eight decimal places.
pub open spec fn decimal_text(v: int) -> Seq<char> {
    let sign = if v < 0 {
        seq!['-']
    } else {
        Seq::<char>::empty()
    };
    sign + digits_text(magnitude(v) / PRICE_SCALE as int).push('.') + fixed_digits(
        magnitude(v) % PRICE_SCALE as int,
        PRICE_PLACES as nat,
    )
}

/// The text of one digit.
fn digit_str(d: u64) -> (text: &'static str)
    requires
        d < 10,
    ensures
        text@ == seq![digit_char(d as int)],
{
    proof {
        reveal_strlit("0");
        reveal_strlit("1");
        reveal_strlit("2");
        reveal_strlit("3");
        reveal_strlit("4");
        reveal_strlit("5");
        reveal_strlit("6");
        reveal_strlit("7");
        reveal_strlit("8");
        reveal_strlit("9");
    }
    let text = if d == 0 {
        "0"
    } else if d == 1 {
        "1"
    } else if d == 2 {
        "2"
    } else if d == 3 {
        "3"
    } else if d == 4 {
        "4"
    } else if d == 5 {
        "5"
    } else if d == 6 {
        "6"
    } else if d == 7 {
        "7"
    } else if d == 8 {
        "8"
    } else {
        "9"
    };
    proof {
        assert(text@ =~= seq![digit_char(d as int)]);
    }
    text
}

/// Appends the digits of `n`, without leading zeros.
fn push_digits(text: &mut String, n: u64)
    ensures
        final(text)@ == old(text)@ + digits_text(n as int),
    decreases n,
{
    if n >= 10 {
        push_digits(text, n / 10);
    }
    text.append(digit_str(n % 10));
    proof {
        if n >= 10 {
            assert(text@ =~= old(text)@ + digits_text(n as int));
        }
    }
}

/// Appends the last `width` digits of `n`, with leading zeros.
fn push_fixed_digits(text: &mut String, n: u64, width: usize)
    ensures
        final(text)@ == old(text)@ + fixed_digits(n as int, width as nat),
    decreases width,
{
    if width > 0 {
        push_fixed_digits(text, n / 10, width - 1);
        text.append(digit_str(n % 10));
        proof {
            assert(text@ =~= old(text)@ + fixed_digits(n as int, width as nat));
        }
    } else {
        proof {
            assert(text@ =~= old(text)@ + fixed_digits(n as int, width as nat));
        }
    }
}

/// Writes a price as a decimal number in text, with all eight decimal places.
pub fn format_decimal(price: i64) -> (text: String)
    ensures
        text@ == decimal_text(price as int),
{
    let mut text = String::new();
    let size: u64 = if price < 0 {
        proof {
            reveal_strlit("-");
        }
        text.append("-");
        ((-(price as i128)) as u64)
    } else {
        price as u64
    };
    let scale: u64 = PRICE_SCALE as u64;
    push_digits(&mut text, size / scale);
    proof {
        reveal_strlit(".");
    }
    text.append(".");
    push_fixed_digits(&mut text, size % scale, PRICE_PLACES);
    proof {
        assert(text@ =~= decimal_text(price as int));
    }
    text
}

/// The digit of a number below ten is a digit, stands for that number, and is
/// neither a point nor a sign.
pub proof fn lemma_digit_char(d: int)
    requires
        0 <= d < 10,
    ensures
        is_digit(digit_char(d)),
        digit_value(digit_char(d)) == d,
        digit_char(d) != '.',
        digit_char(d) != '-',
        digit_char(d) != '+',
{
}

/// The digits of a number are digits, at least one, and stand for the number.
pub proof fn lemma_digits_text(n: int)
    requires
        n >= 0,
    ensures
        all_digits(digits_text(n)),
        digits_text(n).len() >= 1,
        digits_value(digits_text(n)) == n,
    decreases n,
{
    if n < 10 {
        lemma_digit_char(n);
        let t = digits_text(n);
        assert(t.drop_last() =~= Seq::<char>::empty());
        assert(digits_value(t.drop_last()) == 0);
    } else {
        lemma_digits_text(n / 10);
        lemma_digit_char(n % 10);
        let front = digits_text(n / 10);
        let t = digits_text(n);
        assert(t.drop_last() =~= front);
        assert forall|i: int| 0 <= i < t.len() implies is_digit(#[trigger] t[i]) by {
            if i < front.len() {
                assert(t[i] == front[i]);
            }
        }
    }
}

/// The last `width` digits of a number are digits, `width` of them, and stand for
/// the remainder of the number by ten to the power of `width`.
pub proof fn lemma_fixed_digits(n: int, width: nat)
    requires
        n >= 0,
    ensures
        all_digits(fixed_digits(n, width)),
        fixed_digits(n, width).len() == width,
        digits_value(fixed_digits(n, width)) == n % pow10(width),
    decreases width,
{
    if width == 0 {
    } else {
        let rest = (width - 1) as nat;
        lemma_fixed_digits(n / 10, rest);
        lemma_digit_char(n % 10);
        let front = fixed_digits(n / 10, rest);
        let t = fixed_digits(n, width);
        assert(t.drop_last() =~= front);
        assert forall|i: int| 0 <= i < t.len() implies is_digit(#[trigger] t[i]) by {
            if i < front.len() {
                assert(t[i] == front[i]);
            }
        }
        lemma_pow10_positive(rest);
        vstd::arithmetic::div_mod::lemma_breakdown(n, 10, pow10(rest));
    }
}

/// A power of ten is at least one.
pub proof fn lemma_pow10_positive(n: nat)
    ensures
        pow10(n) >= 1,
    decreases n,
{
    if n > 0 {
        lemma_pow10_positive((n - 1) as nat);
    }
}

/// Reading what was written gives the price back: for every price but the least
/// 64-bit number, the text of the price stands for the price.
pub proof fn lemma_decimal_round_trip(v: int)
    requires
        -i64::MAX <= v <= i64::MAX,
    ensures
        decimal_value(decimal_text(v)) == Some(v),
{
    let size = magnitude(v);
    let scale = PRICE_SCALE as int;
    let whole = digits_text(size / scale);
    let fraction = fixed_digits(size % scale, PRICE_PLACES as nat);
    let sign = if v < 0 {
        seq!['-']
    } else {
        Seq::<char>::empty()
    };
    let t = decimal_text(v);
    let start = sign.len() as int;
    assert(t =~= sign + whole.push('.') + fraction);
    lemma_digits_text(size / scale);
    lemma_fixed_digits(size % scale, PRICE_PLACES as nat);
    lemma_pow10_eight();
    assert(t[start] == whole[0]);
    assert(is_digit(whole[0]));
    assert(sign_len(t) == start);
    assert(is_negative(t) == (v < 0));
    let dot = start + whole.len();
    assert(t[dot] == '.');
    assert forall|k: int| start <= k < dot implies t[k] != '.' by {
        assert(t[k] == whole[k - start]);
        assert(is_digit(whole[k - start]));
    }
    lemma_dot_index_skips(t, start, dot);
    assert(dot_index(t, dot) == dot);
    assert(whole_part(t) =~= whole);
    assert(fraction_part(t) =~= fraction);
    assert(fraction.take(PRICE_PLACES as int) =~= fraction);
    vstd::arithmetic::div_mod::lemma_fundamental_div_mod(size, scale);
    vstd::arithmetic::div_mod::lemma_mod_bound(size, scale);
    vstd::arithmetic::div_mod::lemma_small_mod((size % scale) as nat, scale as nat);
    assert(fraction_value(fraction) == size % scale);
    assert(digits_value(whole) * scale + fraction_value(fraction) == size) by (nonlinear_arith)
        requires
            digits_value(whole) == size / scale,
            fraction_value(fraction) == size % scale,
            size == scale * (size / scale) + size % scale,
    ;
}

} // verus!
