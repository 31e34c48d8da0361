//! Chronological order: sorting datapoints by timestamp without reordering those of
//! equal timestamp, and dropping all but the first of each timestamp.

use crate::datapoint::{ascending, strictly_increasing, Datapoint};
use vstd::prelude::*;

verus! {

/// `sorted` with `p` put in after every point that is not later than `p`.
pub open spec fn insert_by_time(sorted: Seq<Datapoint>, p: Datapoint) -> Seq<Datapoint>
    decreases sorted.len(),
{
    if sorted.len() == 0 || sorted.last().timestamp <= p.timestamp {
        sorted.push(p)
    } else {
        insert_by_time(sorted.drop_last(), p).push(sorted.last())
    }
}

/// The points in ascending order of timestamp. Points of equal timestamp keep the
/// order they came in.
pub open spec fn chronological(points: Seq<Datapoint>) -> Seq<Datapoint>
    decreases points.len(),
{
    if points.len() == 0 {
        Seq::empty()
    } else {
        insert_by_time(chronological(points.drop_last()), points.last())
    }
}

/// The points without those whose timestamp the point kept before them already has.
pub open spec fn without_repeats(points: Seq<Datapoint>) -> Seq<Datapoint>
    decreases points.len(),
{
    if points.len() == 0 {
        Seq::empty()
    } else {
        let rest = without_repeats(points.drop_last());
        if rest.len() > 0 && rest.last().timestamp == points.last().timestamp {
            rest
        } else {
            rest.push(points.last())
        }
    }
}

/// Inserting keeps the points, adds the new one, and keeps ascending order.
pub proof fn lemma_insert_by_time(sorted: Seq<Datapoint>, p: Datapoint)
    ensures
        insert_by_time(sorted, p).len() == sorted.len() + 1,
        insert_by_time(sorted, p).to_multiset() == sorted.to_multiset().insert(p),
        ascending(sorted) ==> ascending(insert_by_time(sorted, p)),
    decreases sorted.len(),
{
    broadcast use vstd::seq_lib::group_to_multiset_ensures;

    if sorted.len() == 0 || sorted.last().timestamp <= p.timestamp {
        if ascending(sorted) {
            let out = sorted.push(p);
            assert forall|i: int, j: int| 0 <= i <= j < out.len() implies out[i].timestamp
                <= out[j].timestamp by {
                if j == sorted.len() && i < sorted.len() {
                    assert(sorted[i].timestamp <= sorted[sorted.len() - 1].timestamp);
                }
            }
        }
    } else {
        let front = sorted.drop_last();
        lemma_insert_by_time(front, p);
        let inner = insert_by_time(front, p);
        let out = inner.push(sorted.last());
        assert(sorted =~= front.push(sorted.last()));
        assert(sorted.to_multiset() == front.to_multiset().insert(sorted.last()));
        assert(out.to_multiset() =~= sorted.to_multiset().insert(p));
        if ascending(sorted) {
            assert(ascending(front)) by {
                assert forall|i: int, j: int| 0 <= i <= j < front.len() implies front[i].timestamp
                    <= front[j].timestamp by {
                    assert(front[i] == sorted[i] && front[j] == sorted[j]);
                }
            }
            lemma_insert_bounded(front, p, sorted.last().timestamp as int);
            assert forall|i: int, j: int| 0 <= i <= j < out.len() implies out[i].timestamp
                <= out[j].timestamp by {
                if j == inner.len() && i < inner.len() {
                    assert(out[i] == inner[i]);
                } else if j < inner.len() {
                    assert(out[i] == inner[i] && out[j] == inner[j]);
                }
            }
        }
    }
}

/// If no point of `sorted` and not `p` is later than `bound`, no point of the
/// insertion is.
proof fn lemma_insert_bounded(sorted: Seq<Datapoint>, p: Datapoint, bound: int)
    requires
        p.timestamp <= bound,
        forall|i: int| 0 <= i < sorted.len() ==> sorted[i].timestamp <= bound,
    ensures
        forall|i: int|
            0 <= i < insert_by_time(sorted, p).len() ==> insert_by_time(sorted, p)[i].timestamp
                <= bound,
    decreases sorted.len(),
{
    if sorted.len() == 0 || sorted.last().timestamp <= p.timestamp {
    } else {
        let front = sorted.drop_last();
        assert forall|i: int| 0 <= i < front.len() implies front[i].timestamp <= bound by {
            assert(front[i] == sorted[i]);
        }
        lemma_insert_bounded(front, p, bound);
        let inner = insert_by_time(front, p);
        let out = inner.push(sorted.last());
        assert forall|i: int| 0 <= i < out.len() implies out[i].timestamp <= bound by {
            if i < inner.len() {
                assert(out[i] == inner[i]);
            } else {
                assert(out[i] == sorted[sorted.len() - 1]);
            }
        }
    }
}

/// Sorting gives the same points, each as often as before, in ascending order of
/// timestamp.
pub proof fn lemma_chronological(points: Seq<Datapoint>)
    ensures
        chronological(points).len() == points.len(),
        chronological(points).to_multiset() == points.to_multiset(),
        ascending(chronological(points)),
    decreases points.len(),
{
    broadcast use vstd::seq_lib::group_to_multiset_ensures;

    if points.len() == 0 {
        assert(chronological(points) =~= points);
    } else {
        let front = points.drop_last();
        lemma_chronological(front);
        lemma_insert_by_time(chronological(front), points.last());
        assert(points =~= front.push(points.last()));
        assert(points.to_multiset() == front.to_multiset().insert(points.last()));
    }
}

/// Points that are in ascending order already are left as they are.
pub proof fn lemma_chronological_of_ascending(points: Seq<Datapoint>)
    requires
        ascending(points),
    ensures
        chronological(points) == points,
    decreases points.len(),
{
    if points.len() == 0 {
        assert(chronological(points) =~= points);
    } else {
        let front = points.drop_last();
        assert(ascending(front)) by {
            assert forall|i: int, j: int| 0 <= i <= j < front.len() implies front[i].timestamp
                <= front[j].timestamp by {
                assert(front[i] == points[i] && front[j] == points[j]);
            }
        }
        lemma_chronological_of_ascending(front);
        if front.len() > 0 {
            assert(front.last() == points[points.len() - 2]);
            assert(points[points.len() - 2].timestamp <= points[points.len() - 1].timestamp);
        }
        assert(front.push(points.last()) =~= points);
    }
}

/// Puts `p` into the ascending `sorted`, after every point that is not later.
fn insert(sorted: &mut Vec<Datapoint>, p: Datapoint)
    ensures
        final(sorted)@ == insert_by_time(old(sorted)@, p),
{
    let ghost before = sorted@;
    sorted.push(p);
    let mut j: usize = sorted.len() - 1;
    proof {
        assert(before.take(j as int) =~= before);
        assert(insert_by_time(before, p) + before.subrange(j as int, before.len() as int)
            =~= insert_by_time(before, p));
    }
    while j > 0 && sorted[j - 1].timestamp > p.timestamp
        invariant
            0 <= j <= before.len(),
            sorted@.len() == before.len() + 1,
            forall|k: int| 0 <= k < j ==> sorted@[k] == before[k],
            forall|k: int| j < k <= before.len() ==> sorted@[k] == before[k - 1],
            insert_by_time(before, p) == insert_by_time(before.take(j as int), p) + before.subrange(
                j as int,
                before.len() as int,
            ),
        decreases j,
    {
        let moved = sorted[j - 1];
        sorted.set(j, moved);
        proof {
            let head = before.take(j as int);
            assert(head.last() == before[j - 1]);
            assert(head.drop_last() =~= before.take(j - 1));
            assert(insert_by_time(head, p) == insert_by_time(before.take(j - 1), p).push(
                before[j - 1],
            ));
            assert(insert_by_time(before.take(j - 1), p).push(before[j - 1]) + before.subrange(
                j as int,
                before.len() as int,
            ) =~= insert_by_time(before.take(j - 1), p) + before.subrange(
                j - 1,
                before.len() as int,
            ));
        }
        j = j - 1;
    }
    sorted.set(j, p);
    proof {
        let head = before.take(j as int);
        if j > 0 {
            assert(head.last() == before[j - 1]);
        }
        assert(insert_by_time(head, p) == head.push(p));
        assert(sorted@ =~= head.push(p) + before.subrange(j as int, before.len() as int));
    }
}

/// Sorts the points by timestamp, ascending. Points of equal timestamp keep their
/// order. Points that are nearly in order already are sorted in nearly linear time.
pub fn sort_by_timestamp(points: &Vec<Datapoint>) -> (out: Vec<Datapoint>)
    ensures
        out@ == chronological(points@),
        out@.len() == points@.len(),
        out@.to_multiset() == points@.to_multiset(),
        ascending(out@),
        ascending(points@) ==> out@ == points@,
{
    let mut out: Vec<Datapoint> = Vec::new();
    let mut i: usize = 0;
    while i < points.len()
        invariant
            i <= points.len(),
            out@ == chronological(points@.take(i as int)),
        decreases points.len() - i,
    {
        proof {
            let next = points@.take(i + 1);
            assert(next.drop_last() =~= points@.take(i as int));
            assert(next.last() == points@[i as int]);
        }
        insert(&mut out, points[i]);
        i = i + 1;
    }
    proof {
        assert(points@.take(points.len() as int) =~= points@);
        lemma_chronological(points@);
        if ascending(points@) {
            lemma_chronological_of_ascending(points@);
        }
    }
    out
}

/// Drops every point whose timestamp the point kept before it already has.
pub fn drop_repeats(points: &Vec<Datapoint>) -> (out: Vec<Datapoint>)
    ensures
        out@ == without_repeats(points@),
{
    let mut out: Vec<Datapoint> = Vec::new();
    let mut i: usize = 0;
    while i < points.len()
        invariant
            i <= points.len(),
            out@ == without_repeats(points@.take(i as int)),
        decreases points.len() - i,
    {
        let p = points[i];
        proof {
            let next = points@.take(i + 1);
            assert(next.drop_last() =~= points@.take(i as int));
            assert(next.last() == p);
        }
        let n = out.len();
        if n == 0 || out[n - 1].timestamp != p.timestamp {
            out.push(p);
        }
        i = i + 1;
    }
    proof {
        assert(points@.take(points.len() as int) =~= points@);
    }
    out
}

/// Whether some point of `points` has the timestamp `t`.
pub open spec fn has_timestamp(points: Seq<Datapoint>, t: i64) -> bool {
    exists|j: int| 0 <= j < points.len() && #[trigger] points[j].timestamp == t
}

/// Whether `p` is a point of `points` and the first one with its timestamp.
pub open spec fn is_first_of_its_time(points: Seq<Datapoint>, p: Datapoint) -> bool {
    exists|i: int|
        0 <= i < points.len() && #[trigger] points[i] == p && no_earlier_same_time(points, i)
}

/// Whether no point before the `i`-th has the timestamp of the `i`-th.
pub open spec fn no_earlier_same_time(points: Seq<Datapoint>, i: int) -> bool {
    forall|h: int| 0 <= h < i ==> #[trigger] points[h].timestamp != points[i].timestamp
}

/// Of points in ascending order, what is left after dropping repeats is in strictly
/// ascending order, holds a point for every timestamp there was, and holds for each
/// timestamp the first point that had it.
pub proof fn lemma_without_repeats(points: Seq<Datapoint>)
    requires
        ascending(points),
    ensures
        strictly_increasing(without_repeats(points)),
        without_repeats(points).len() <= points.len(),
        points.len() > 0 ==> without_repeats(points).len() > 0 && without_repeats(
            points,
        ).last().timestamp == points.last().timestamp,
        forall|i: int|
            0 <= i < points.len() ==> has_timestamp(
                without_repeats(points),
                #[trigger] points[i].timestamp,
            ),
        forall|j: int|
            0 <= j < without_repeats(points).len() ==> is_first_of_its_time(
                points,
                #[trigger] without_repeats(points)[j],
            ),
    decreases points.len(),
{
    if points.len() > 0 {
        let front = points.drop_last();
        let last = points.last();
        assert(ascending(front)) by {
            assert forall|i: int, j: int| 0 <= i <= j < front.len() implies front[i].timestamp
                <= front[j].timestamp by {
                assert(front[i] == points[i] && front[j] == points[j]);
            }
        }
        lemma_without_repeats(front);
        let rest = without_repeats(front);
        let out = without_repeats(points);
        if front.len() > 0 {
            assert(front.last() == points[points.len() - 2]);
            assert(points[points.len() - 2].timestamp <= points[points.len() - 1].timestamp);
        }
        assert forall|i: int, j: int| 0 <= i < j < out.len() implies out[i].timestamp
            < out[j].timestamp by {
            if j == rest.len() {
                assert(out[i] == rest[i]);
                if i < rest.len() - 1 {
                    assert(rest[i].timestamp < rest[rest.len() - 1].timestamp);
                }
            } else {
                assert(out[i] == rest[i] && out[j] == rest[j]);
            }
        }
        assert forall|i: int| 0 <= i < points.len() implies has_timestamp(
            out,
            #[trigger] points[i].timestamp,
        ) by {
            if i < front.len() {
                assert(front[i] == points[i]);
                assert(has_timestamp(rest, front[i].timestamp));
                let j = choose|j: int|
                    0 <= j < rest.len() && #[trigger] rest[j].timestamp == front[i].timestamp;
                assert(out[j] == rest[j]);
            } else {
                assert(out[out.len() - 1].timestamp == points[i].timestamp);
            }
        }
        assert forall|j: int| 0 <= j < out.len() implies is_first_of_its_time(
            points,
            #[trigger] out[j],
        ) by {
            if j < rest.len() {
                assert(out[j] == rest[j]);
                assert(is_first_of_its_time(front, rest[j]));
                let i = choose|i: int|
                    0 <= i < front.len() && #[trigger] front[i] == rest[j] && no_earlier_same_time(
                        front,
                        i,
                    );
                assert(points[i] == front[i]);
                assert forall|h: int| 0 <= h < i implies #[trigger] points[h].timestamp
                    != points[i].timestamp by {
                    assert(points[h] == front[h]);
                    assert(front[h].timestamp != front[i].timestamp);
                }
            } else {
                let i = points.len() - 1;
                assert(out[j] == points[i]);
                assert forall|h: int| 0 <= h < i implies #[trigger] points[h].timestamp
                    != points[i].timestamp by {
                    assert(points[h] == front[h]);
                    assert(has_timestamp(rest, front[h].timestamp));
                    let g = choose|g: int|
                        0 <= g < rest.len() && #[trigger] rest[g].timestamp == front[h].timestamp;
                    if g < rest.len() - 1 {
                        assert(rest[g].timestamp < rest[rest.len() - 1].timestamp);
                    }
                    assert(rest.last().timestamp == front.last().timestamp);
                    assert(front[h].timestamp <= front[front.len() - 1].timestamp);
                }
            }
        }
    }
}

} // verus!
