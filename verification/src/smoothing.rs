pub mod circbuf;

use vstd::prelude::*;

use crate::circbuf::ring_step;
use crate::smoothing::circbuf::CircBuf;
use crate::stream::Stream;
use crate::stream::div_trunc;
use crate::stream::fits_i64;
use crate::stream::seq_sum;
use crate::stream::sums_fit;
use crate::stream::to_ints;

verus! {

/// The smoothing horizon: how many of the most recent samples the weighted
/// moving average covers.
pub const SMOOTH_WINDOW: usize = 20;

/// Both window contents walk in lockstep: equally long, and every retained
/// weight is strictly positive.
pub open spec fn window_ok(vwin: Seq<int>, wwin: Seq<int>, cap: nat) -> bool {
    &&& cap >= 1
    &&& vwin.len() == wwin.len()
    &&& forall|j: int| 0 <= j < wwin.len() ==> #[trigger] wwin[j] >= 1
}

/// What the weighted moving average emits over input `xs` and weights `ws`,
/// starting from window contents `vwin` (weighted values) and `wwin`
/// (weights) of capacity `cap`: each step pushes `value * weight` and the
/// weight into the windows, then emits the quotient of the window totals.
pub open spec fn wma_out(vwin: Seq<int>, wwin: Seq<int>, xs: Seq<int>, ws: Seq<int>, cap: nat) -> Seq<
    int,
>
    decreases xs.len(),
{
    if xs.len() == 0 || ws.len() == 0 {
        Seq::empty()
    } else {
        let vw = ring_step(vwin, cap, xs[0] * ws[0]).0;
        let ww = ring_step(wwin, cap, ws[0]).0;
        seq![div_trunc(seq_sum(vw), seq_sum(ww))] + wma_out(
            vw,
            ww,
            xs.drop_first(),
            ws.drop_first(),
            cap,
        )
    }
}

/// Every step of the averaging stays within `i64`: the weighted value and
/// both window totals fit, and every weight is strictly positive — the
/// caller-guaranteed precondition that keeps the divisor nonzero.
pub open spec fn wma_fits(vwin: Seq<int>, wwin: Seq<int>, xs: Seq<int>, ws: Seq<int>, cap: nat) -> bool
    decreases xs.len(),
{
    if xs.len() == 0 || ws.len() == 0 {
        true
    } else {
        let vw = ring_step(vwin, cap, xs[0] * ws[0]).0;
        let ww = ring_step(wwin, cap, ws[0]).0;
        &&& ws[0] >= 1
        &&& fits_i64(xs[0] * ws[0])
        &&& sums_fit(vw)
        &&& sums_fit(ww)
        &&& wma_fits(vw, ww, xs.drop_first(), ws.drop_first(), cap)
    }
}

/// The total of a run of strictly positive values is strictly positive.
proof fn lemma_seq_sum_pos(s: Seq<int>)
    requires
        s.len() >= 1,
        forall|j: int| 0 <= j < s.len() ==> #[trigger] s[j] >= 1,
    ensures
        seq_sum(s) >= 1,
    decreases s.len(),
{
    assert(s.last() == s[s.len() - 1]);
    if s.len() > 1 {
        assert(forall|j: int| 0 <= j < s.drop_last().len() ==> #[trigger] s.drop_last()[j] >= 1)
            by {
            assert(forall|j: int|
                0 <= j < s.drop_last().len() ==> s.drop_last()[j] == s[j]);
        }
        lemma_seq_sum_pos(s.drop_last());
    } else {
        assert(seq_sum(s.drop_last()) == 0);
    }
}

/// Truncating division of a representable value by a positive divisor is
/// representable.
proof fn lemma_div_trunc_fits(x: int, d: int)
    requires
        fits_i64(x),
        d >= 1,
    ensures
        fits_i64(div_trunc(x, d)),
{
    if x > 0 {
        vstd::arithmetic::div_mod::lemma_div_pos_is_pos(x, d);
        vstd::arithmetic::div_mod::lemma_div_nonincreasing(x, d);
    } else if x < 0 {
        vstd::arithmetic::div_mod::lemma_div_pos_is_pos(x * -1, d);
        vstd::arithmetic::div_mod::lemma_div_nonincreasing(x * -1, d);
    }
}

/// A true weighted moving average over the last [`SMOOTH_WINDOW`] surviving
/// samples: consumes one `(value, weight)` pair per pull from two
/// synchronized streams, retains the weighted value and the weight in two
/// lock-stepped ring buffers, and emits the ratio of their totals.
///
/// Weights must be strictly positive — the time-delta stream satisfies this
/// once the pinned-to-zero first delta is kept out, and it keeps the window
/// weight total nonzero.
pub struct WeightedMovingAvg<I, F> {
    vals: CircBuf<i64>,
    wts: CircBuf<i64>,
    inner: I,
    factor: F,
}

impl<I, F> WeightedMovingAvg<I, F> {
    pub closed spec fn spec_vals(&self) -> CircBuf<i64> {
        self.vals
    }

    pub closed spec fn spec_wts(&self) -> CircBuf<i64> {
        self.wts
    }

    pub closed spec fn spec_inner(&self) -> I {
        self.inner
    }

    pub closed spec fn spec_factor(&self) -> F {
        self.factor
    }

    pub fn from(inner: I, factor: F) -> (r: Self)
        ensures
            r.spec_inner() == inner,
            r.spec_factor() == factor,
            r.spec_vals().contents() == Seq::<i64>::empty(),
            r.spec_wts().contents() == Seq::<i64>::empty(),
            r.spec_vals().capacity() == SMOOTH_WINDOW,
            r.spec_wts().capacity() == SMOOTH_WINDOW,
            r.spec_vals().well_formed(),
            r.spec_wts().well_formed(),
    {
        WeightedMovingAvg {
            vals: CircBuf::new(SMOOTH_WINDOW),
            wts: CircBuf::new(SMOOTH_WINDOW),
            inner,
            factor,
        }
    }
}

impl<H, I: Stream<H>, F: Stream<H>> Stream<H> for WeightedMovingAvg<I, F> {
    open spec fn rem(&self, hub: &H) -> Seq<int> {
        wma_out(
            to_ints(self.spec_vals().contents()),
            to_ints(self.spec_wts().contents()),
            self.spec_inner().rem(hub),
            self.spec_factor().rem(hub),
            self.spec_vals().capacity(),
        )
    }

    open spec fn inv(&self, hub: &H) -> bool {
        &&& self.spec_inner().inv(hub)
        &&& self.spec_factor().inv(hub)
        &&& self.spec_vals().well_formed()
        &&& self.spec_wts().well_formed()
        &&& self.spec_vals().capacity() == self.spec_wts().capacity()
        &&& window_ok(
            to_ints(self.spec_vals().contents()),
            to_ints(self.spec_wts().contents()),
            self.spec_vals().capacity(),
        )
        &&& wma_fits(
            to_ints(self.spec_vals().contents()),
            to_ints(self.spec_wts().contents()),
            self.spec_inner().rem(hub),
            self.spec_factor().rem(hub),
            self.spec_vals().capacity(),
        )
    }

    fn next(&mut self, hub: &H) -> (r: Option<i64>) {
        let a = self.inner.next(hub);
        let b = self.factor.next(hub);
        if let (Some(x), Some(w)) = (a, b) {
            let ghost vwin = to_ints(old(self).spec_vals().contents());
            let ghost wwin = to_ints(old(self).spec_wts().contents());
            let ghost xs = old(self).spec_inner().rem(hub);
            let ghost ws = old(self).spec_factor().rem(hub);
            let ghost cap = old(self).spec_vals().capacity();
            let ghost vw = ring_step(vwin, cap, xs[0] * ws[0]).0;
            let ghost ww = ring_step(wwin, cap, ws[0]).0;
            let weighted = x * w;
            let _ = self.vals.push(weighted);
            let _ = self.wts.push(w);
            proof {
                assert(to_ints(self.vals.contents()) =~= vw);
                assert(to_ints(self.wts.contents()) =~= ww);
                assert(forall|j: int| 0 <= j < ww.len() ==> #[trigger] ww[j] >= 1) by {
                    assert(forall|j: int|
                        0 <= j < wwin.len() ==> #[trigger] wwin[j] >= 1);
                }
                lemma_seq_sum_pos(ww);
            }
            let num = self.vals.sum();
            let den = self.wts.sum();
            proof {
                lemma_div_trunc_fits(num as int, den as int);
            }
            let q = num.checked_div(den).unwrap();
            proof {
                assert(q as int == div_trunc(seq_sum(vw), seq_sum(ww)));
                assert(final(self).rem(hub) =~= old(self).rem(hub).drop_first());
            }
            Some(q)
        } else {
            None
        }
    }
}

} // verus!
