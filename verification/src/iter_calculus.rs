use vstd::prelude::*;

use crate::stream::Stream;
use crate::stream::fits_i64;
use crate::stream::opt_int;

verus! {

/// What an unweighted differentiator emits over input `xs`, starting with
/// retained value `last`: the additive identity on the first step when
/// nothing is retained, then the raw delta `current - last` at every step.
pub open spec fn diff_raw_out(last: Option<int>, xs: Seq<int>) -> Seq<int>
    decreases xs.len(),
{
    if xs.len() == 0 {
        Seq::empty()
    } else {
        let head = match last {
            Option::None => 0,
            Option::Some(l) => xs[0] - l,
        };
        seq![head] + diff_raw_out(Option::Some(xs[0]), xs.drop_first())
    }
}

/// Every raw delta of the differentiation fits in `i64`.
pub open spec fn diff_raw_fits(last: Option<int>, xs: Seq<int>) -> bool
    decreases xs.len(),
{
    if xs.len() == 0 {
        true
    } else {
        (match last {
            Option::None => true,
            Option::Some(l) => fits_i64(xs[0] - l),
        }) && diff_raw_fits(Option::Some(xs[0]), xs.drop_first())
    }
}

/// What an unweighted integrator emits over input `xs`, starting from
/// accumulator `acc`: the running sum, emitted after every step.
pub open spec fn integ_raw_out(acc: int, xs: Seq<int>) -> Seq<int>
    decreases xs.len(),
{
    if xs.len() == 0 {
        Seq::empty()
    } else {
        seq![acc + xs[0]] + integ_raw_out(acc + xs[0], xs.drop_first())
    }
}

/// Every running sum of the integration fits in `i64`.
pub open spec fn integ_raw_fits(acc: int, xs: Seq<int>) -> bool
    decreases xs.len(),
{
    if xs.len() == 0 {
        true
    } else {
        fits_i64(acc + xs[0]) && integ_raw_fits(acc + xs[0], xs.drop_first())
    }
}

/// Stateful discrete derivative over a single stream, without a weight
/// stream: emits the raw delta between consecutive values, after a first
/// baseline step that emits the additive identity.
pub struct Differentiate<I> {
    last: Option<i64>,
    inner: I,
}

impl<I> Differentiate<I> {
    pub closed spec fn spec_last(&self) -> Option<i64> {
        self.last
    }

    pub closed spec fn spec_inner(&self) -> I {
        self.inner
    }

    pub fn from(inner: I) -> (r: Self)
        ensures
            r.spec_last() is None,
            r.spec_inner() == inner,
    {
        Differentiate { last: None, inner }
    }
}

impl<H, I: Stream<H>> Stream<H> for Differentiate<I> {
    open spec fn rem(&self, hub: &H) -> Seq<int> {
        diff_raw_out(opt_int(self.spec_last()), self.spec_inner().rem(hub))
    }

    open spec fn inv(&self, hub: &H) -> bool {
        &&& self.spec_inner().inv(hub)
        &&& diff_raw_fits(opt_int(self.spec_last()), self.spec_inner().rem(hub))
    }

    fn next(&mut self, hub: &H) -> (r: Option<i64>) {
        let cur = match self.inner.next(hub) {
            Some(i) => i,
            None => {
                return None;
            },
        };
        match self.last {
            None => {
                self.last = Some(cur);
                proof {
                    assert(final(self).rem(hub) =~= old(self).rem(hub).drop_first());
                }
                Some(0)
            },
            Some(l) => {
                let d = cur - l;
                self.last = Some(cur);
                proof {
                    assert(final(self).rem(hub) =~= old(self).rem(hub).drop_first());
                }
                Some(d)
            },
        }
    }
}

/// Stateful discrete integral over a single stream, without a weight
/// stream: on every pull adds the current value to the accumulator and
/// emits the updated accumulator.
pub struct Integrate<I> {
    accumulator: i64,
    inner: I,
}

impl<I> Integrate<I> {
    pub closed spec fn spec_acc(&self) -> i64 {
        self.accumulator
    }

    pub closed spec fn spec_inner(&self) -> I {
        self.inner
    }

    pub fn from(inner: I) -> (r: Self)
        ensures
            r.spec_acc() == 0,
            r.spec_inner() == inner,
    {
        Integrate { accumulator: 0, inner }
    }
}

impl<H, I: Stream<H>> Stream<H> for Integrate<I> {
    open spec fn rem(&self, hub: &H) -> Seq<int> {
        integ_raw_out(self.spec_acc() as int, self.spec_inner().rem(hub))
    }

    open spec fn inv(&self, hub: &H) -> bool {
        &&& self.spec_inner().inv(hub)
        &&& integ_raw_fits(self.spec_acc() as int, self.spec_inner().rem(hub))
    }

    fn next(&mut self, hub: &H) -> (r: Option<i64>) {
        if let Some(i) = self.inner.next(hub) {
            self.accumulator = self.accumulator + i;
            proof {
                assert(final(self).rem(hub) =~= old(self).rem(hub).drop_first());
            }
            Some(self.accumulator)
        } else {
            None
        }
    }
}

} // verus!
