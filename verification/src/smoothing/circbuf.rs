use vstd::prelude::*;

use crate::circbuf::ring_step;
use crate::stream::fits_i64;
use crate::stream::seq_sum;
use crate::stream::sums_fit;
use crate::stream::to_ints;

verus! {

/// The smoothing variant of the fixed-capacity circular store: same
/// oldest-overwrite semantics as [`crate::circbuf::CircBuf`], but instead of
/// an item walk it offers the running total of its scalar contents.
pub struct CircBuf<T> {
    buf: Vec<T>,
    index: usize,
    cap: usize,
}

impl<T> CircBuf<T> {
    /// The stored items, oldest first.
    pub closed spec fn contents(self) -> Seq<T> {
        self.buf@.subrange(self.index as int, self.buf@.len() as int)
            + self.buf@.subrange(0, self.index as int)
    }

    pub closed spec fn capacity(self) -> nat {
        self.cap as nat
    }

    pub closed spec fn well_formed(self) -> bool {
        &&& self.buf@.len() <= self.cap
        &&& (self.buf@.len() < self.cap ==> self.index == 0)
        &&& (self.index < self.buf@.len() || self.index == 0)
    }

    pub fn new(size: usize) -> (r: Self)
        ensures
            r.well_formed(),
            r.capacity() == size,
            r.contents() == Seq::<T>::empty(),
    {
        let r = CircBuf { buf: Vec::new(), index: 0, cap: size };
        proof {
            assert(r.contents() =~= Seq::<T>::empty());
        }
        r
    }

    /// Store `t`. While the buffer is not yet full this appends and evicts
    /// nothing; once full it replaces and returns the oldest surviving item.
    pub fn push(&mut self, t: T) -> (evicted: Option<T>)
        requires
            old(self).well_formed(),
            old(self).capacity() > 0,
        ensures
            final(self).well_formed(),
            final(self).capacity() == old(self).capacity(),
            final(self).contents() == ring_step(old(self).contents(), old(self).capacity(), t).0,
            evicted == ring_step(old(self).contents(), old(self).capacity(), t).1,
    {
        if self.buf.len() < self.cap {
            self.buf.push(t);
            proof {
                assert(self.contents() =~= old(self).contents().push(t));
            }
            return None;
        }
        let ghost prev = *self;
        let mut tmp = t;
        core::mem::swap(&mut self.buf[self.index], &mut tmp);
        self.index = self.index + 1;
        if self.index == self.buf.len() {
            self.index = 0;
        }
        proof {
            assert(self.contents() =~= prev.contents().drop_first().push(t));
            assert(tmp == prev.contents()[0]);
        }
        Some(tmp)
    }
}

impl CircBuf<i64> {
    /// The total of the stored scalars, oldest-first summation order.
    pub fn sum(&self) -> (r: i64)
        requires
            self.well_formed(),
            sums_fit(to_ints(self.contents())),
        ensures
            r as int == seq_sum(to_ints(self.contents())),
    {
        let ghost cs = to_ints(self.contents());
        let len = self.buf.len();
        let mut acc: i64 = 0;
        let mut j: usize = 0;
        while j < len
            invariant
                self.well_formed(),
                sums_fit(cs),
                cs == to_ints(self.contents()),
                len == self.buf@.len(),
                cs.len() == len,
                j <= len,
                acc as int == seq_sum(cs.take(j as int)),
            decreases len - j,
        {
            let idx = if self.index < len - j {
                j + self.index
            } else {
                j - (len - self.index)
            };
            let v = self.buf[idx];
            proof {
                assert(v as int == cs[j as int]);
                assert(cs.take(j as int + 1).drop_last() =~= cs.take(j as int));
                assert(cs.take(j as int + 1).last() == cs[j as int]);
                assert(fits_i64(seq_sum(cs.take(j as int + 1))));
            }
            acc = acc + v;
            j = j + 1;
        }
        proof {
            assert(cs.take(len as int) =~= cs);
        }
        acc
    }
}

} // verus!
