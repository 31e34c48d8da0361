//! The series of one pair: two parallel append-only sequences, timestamps and prices,
//! behind one type that only ever reads and writes them in step.

use crate::datapoint::Datapoint;
use crate::error::EngineError;
use vstd::prelude::*;

verus! {

/// The position in a list of `len` items that the index `idx` names: counted from the
/// head where it is not negative, and from the tail, `-1` being the last item, where
/// it is.
pub open spec fn position(idx: int, len: int) -> int {
    if idx < 0 {
        len + idx
    } else {
        idx
    }
}

/// The first position of the window from `start` to `stop` in a list of `len` items.
pub open spec fn window_low(start: int, len: int) -> int {
    if position(start, len) < 0 {
        0
    } else {
        position(start, len)
    }
}

/// The last position of the window from `start` to `stop` in a list of `len` items.
pub open spec fn window_high(stop: int, len: int) -> int {
    if position(stop, len) >= len {
        len - 1
    } else {
        position(stop, len)
    }
}

/// The items of `items` from the index `start` to the index `stop`, both included.
/// Indexes that reach beyond the list are cut to it, and a window that ends before
/// it begins is empty.
pub open spec fn window<T>(items: Seq<T>, start: int, stop: int) -> Seq<T> {
    let low = window_low(start, items.len() as int);
    let high = window_high(stop, items.len() as int);
    if low > high {
        Seq::empty()
    } else {
        items.subrange(low, high + 1)
    }
}

/// The datapoints that two columns hold together: as many as the shorter column has,
/// the `i`-th made of the `i`-th timestamp and the `i`-th price.
pub open spec fn paired(timestamps: Seq<i64>, prices: Seq<i64>) -> Seq<Datapoint> {
    Seq::new(
        if timestamps.len() <= prices.len() {
            timestamps.len()
        } else {
            prices.len()
        },
        |i: int| Datapoint { price: prices[i], timestamp: timestamps[i] },
    )
}

/// The stored series of one pair.
pub struct Series {
    timestamps: Vec<i64>,
    prices: Vec<i64>,
}

impl View for Series {
    type V = Seq<Datapoint>;

    closed spec fn view(&self) -> Seq<Datapoint> {
        paired(self.timestamps@, self.prices@)
    }
}

impl Series {
    /// The two sequences have the same length. Every way to make a series
    /// establishes this, and every operation keeps it.
    pub closed spec fn wf(&self) -> bool {
        self.timestamps@.len() == self.prices@.len()
    }

    /// A series without samples.
    pub fn new() -> (s: Series)
        ensures
            s.wf(),
            s@ == Seq::<Datapoint>::empty(),
    {
        let s = Series { timestamps: Vec::new(), prices: Vec::new() };
        proof {
            assert(s@ =~= Seq::<Datapoint>::empty());
        }
        s
    }

    /// The series that two columns read from a store hold together. Columns of
    /// different lengths are cut to the shorter one, and the mismatch is reported
    /// beside the series instead of failing the read.
    pub fn from_columns(timestamps: Vec<i64>, prices: Vec<i64>) -> (r: (Series, Option<EngineError>))
        ensures
            r.0.wf(),
            r.0@ == paired(timestamps@, prices@),
            timestamps@.len() == prices@.len() ==> r.1 is None,
            timestamps@.len() != prices@.len() ==> r.1 == Some(EngineError::DataIntegrity),
    {
        let mut timestamps = timestamps;
        let mut prices = prices;
        let ghost all_timestamps = timestamps@;
        let ghost all_prices = prices@;
        let mismatch = if timestamps.len() == prices.len() {
            None
        } else {
            Some(EngineError::DataIntegrity)
        };
        if timestamps.len() > prices.len() {
            timestamps.truncate(prices.len());
        } else if prices.len() > timestamps.len() {
            prices.truncate(timestamps.len());
        }
        let s = Series { timestamps, prices };
        proof {
            assert(s@ =~= paired(all_timestamps, all_prices));
        }
        (s, mismatch)
    }

    /// The number of stored samples.
    pub fn len(&self) -> (n: usize)
        requires
            self.wf(),
        ensures
            n == self@.len(),
    {
        self.timestamps.len()
    }

    /// The two columns as they are stored: timestamps first, then prices. They have
    /// the same length.
    pub fn columns(&self) -> (r: (Vec<i64>, Vec<i64>))
        requires
            self.wf(),
        ensures
            r.0@.len() == r.1@.len(),
            r.0@.len() == self@.len(),
            paired(r.0@, r.1@) == self@,
    {
        (self.timestamps.clone(), self.prices.clone())
    }

    /// Pushes one datapoint onto the tail of both sequences.
    pub fn append(&mut self, datapoint: Datapoint)
        requires
            old(self).wf(),
        ensures
            final(self).wf(),
            final(self)@ == old(self)@.push(datapoint),
    {
        self.timestamps.push(datapoint.timestamp);
        self.prices.push(datapoint.price);
        proof {
            assert(self@ =~= old(self)@.push(datapoint));
        }
    }

    /// The timestamp of the most recent sample.
    pub fn last_timestamp(&self) -> (r: Result<i64, EngineError>)
        requires
            self.wf(),
        ensures
            self@.len() == 0 ==> r == Err::<i64, EngineError>(EngineError::EmptySeries),
            self@.len() > 0 ==> r == Ok::<i64, EngineError>(self@.last().timestamp),
    {
        let n = self.timestamps.len();
        if n == 0 {
            Err(EngineError::EmptySeries)
        } else {
            Ok(self.timestamps[n - 1])
        }
    }

    /// The stored samples from the index `start` to the index `stop`, both included,
    /// oldest first. A negative index counts from the tail, `-1` naming the most
    /// recent sample.
    pub fn range(&self, start: i64, stop: i64) -> (out: Vec<Datapoint>)
        requires
            self.wf(),
        ensures
            out@ == window(self@, start as int, stop as int),
    {
        let len: i128 = self.timestamps.len() as i128;
        let from: i128 = if start < 0 {
            len + (start as i128)
        } else {
            start as i128
        };
        let to: i128 = if stop < 0 {
            len + (stop as i128)
        } else {
            stop as i128
        };
        let low: i128 = if from < 0 {
            0
        } else {
            from
        };
        let high: i128 = if to >= len {
            len - 1
        } else {
            to
        };
        let mut out: Vec<Datapoint> = Vec::new();
        if low > high {
            return out;
        }
        let end: usize = (high + 1) as usize;
        let mut i: usize = low as usize;
        while i < end
            invariant
                low <= i <= end,
                end == high + 1,
                0 <= low,
                end <= self.timestamps@.len(),
                self.timestamps@.len() == self.prices@.len(),
                out@ == self@.subrange(low as int, i as int),
            decreases end - i,
        {
            out.push(Datapoint { price: self.prices[i], timestamp: self.timestamps[i] });
            proof {
                assert(out@ =~= self@.subrange(low as int, i + 1));
            }
            i = i + 1;
        }
        out
    }
}

} // verus!
