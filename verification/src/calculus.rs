use vstd::prelude::*;

use crate::stream::Stream;
use crate::stream::fits_i64;
use crate::stream::opt_int;

verus! {

/// What a weighted differentiator emits over input `xs` and weights `ws`,
/// starting with retained value `last`: the additive identity on the first
/// step when nothing is retained, then `(current - last) * weight` at every
/// step, stopping as soon as either sequence runs out.
pub open spec fn diff_out(last: Option<int>, xs: Seq<int>, ws: Seq<int>) -> Seq<int>
    decreases xs.len(),
{
    if xs.len() == 0 || ws.len() == 0 {
        Seq::empty()
    } else {
        let head = match last {
            Option::None => 0,
            Option::Some(l) => (xs[0] - l) * ws[0],
        };
        seq![head] + diff_out(Option::Some(xs[0]), xs.drop_first(), ws.drop_first())
    }
}

/// Every intermediate value of the differentiation fits in `i64`.
pub open spec fn diff_fits(last: Option<int>, xs: Seq<int>, ws: Seq<int>) -> bool
    decreases xs.len(),
{
    if xs.len() == 0 || ws.len() == 0 {
        true
    } else {
        (match last {
            Option::None => true,
            Option::Some(l) => fits_i64(xs[0] - l) && fits_i64((xs[0] - l) * ws[0]),
        }) && diff_fits(Option::Some(xs[0]), xs.drop_first(), ws.drop_first())
    }
}

/// What an integrator emits over input `xs` and weights `ws`, starting from
/// accumulator `acc`: the running sum of `current * weight`, emitted after
/// every step, stopping as soon as either sequence runs out.
pub open spec fn integ_out(acc: int, xs: Seq<int>, ws: Seq<int>) -> Seq<int>
    decreases xs.len(),
{
    if xs.len() == 0 || ws.len() == 0 {
        Seq::empty()
    } else {
        seq![acc + xs[0] * ws[0]] + integ_out(
            acc + xs[0] * ws[0],
            xs.drop_first(),
            ws.drop_first(),
        )
    }
}

/// Every intermediate value of the integration fits in `i64`.
pub open spec fn integ_fits(acc: int, xs: Seq<int>, ws: Seq<int>) -> bool
    decreases xs.len(),
{
    if xs.len() == 0 || ws.len() == 0 {
        true
    } else {
        fits_i64(xs[0] * ws[0]) && fits_i64(acc + xs[0] * ws[0]) && integ_fits(
            acc + xs[0] * ws[0],
            xs.drop_first(),
            ws.drop_first(),
        )
    }
}

/// Stateful discrete derivative over a pair of synchronized streams: an
/// input stream and a weight stream (conventionally the time-delta stream).
///
/// The first pull establishes a baseline and emits the additive identity;
/// each later pull retains the current value by value, replaces the old one,
/// and emits the weighted difference.
pub struct Differentiate<I, F> {
    last: Option<i64>,
    inner: I,
    factor: F,
}

impl<I, F> Differentiate<I, F> {
    pub closed spec fn spec_last(&self) -> Option<i64> {
        self.last
    }

    pub closed spec fn spec_inner(&self) -> I {
        self.inner
    }

    pub closed spec fn spec_factor(&self) -> F {
        self.factor
    }

    pub fn from(inner: I, factor: F) -> (r: Self)
        ensures
            r.spec_last() is None,
            r.spec_inner() == inner,
            r.spec_factor() == factor,
    {
        Differentiate { last: None, inner, factor }
    }
}

impl<H, I: Stream<H>, F: Stream<H>> Stream<H> for Differentiate<I, F> {
    open spec fn rem(&self, hub: &H) -> Seq<int> {
        diff_out(opt_int(self.spec_last()), self.spec_inner().rem(hub), self.spec_factor().rem(hub))
    }

    open spec fn inv(&self, hub: &H) -> bool {
        &&& self.spec_inner().inv(hub)
        &&& self.spec_factor().inv(hub)
        &&& diff_fits(
            opt_int(self.spec_last()),
            self.spec_inner().rem(hub),
            self.spec_factor().rem(hub),
        )
    }

    fn next(&mut self, hub: &H) -> (r: Option<i64>) {
        let a = self.inner.next(hub);
        let b = self.factor.next(hub);
        if let (Some(cur), Some(w)) = (a, b) {
            match self.last {
                None => {
                    self.last = Some(cur);
                    proof {
                        assert(final(self).rem(hub) =~= old(self).rem(hub).drop_first());
                    }
                    Some(0)
                },
                Some(l) => {
                    let d = cur - l;
                    let out = d * w;
                    self.last = Some(cur);
                    proof {
                        assert(final(self).rem(hub) =~= old(self).rem(hub).drop_first());
                    }
                    Some(out)
                },
            }
        } else {
            None
        }
    }
}

/// Stateful discrete integral over a pair of synchronized streams: on every
/// pull, including the first, adds `current * weight` to the accumulator and
/// emits the updated accumulator.
pub struct Integrate<I, F> {
    accumulator: i64,
    inner: I,
    factor: F,
}

impl<I, F> Integrate<I, F> {
    pub closed spec fn spec_acc(&self) -> i64 {
        self.accumulator
    }

    pub closed spec fn spec_inner(&self) -> I {
        self.inner
    }

    pub closed spec fn spec_factor(&self) -> F {
        self.factor
    }

    pub fn from(inner: I, factor: F) -> (r: Self)
        ensures
            r.spec_acc() == 0,
            r.spec_inner() == inner,
            r.spec_factor() == factor,
    {
        Integrate { accumulator: 0, inner, factor }
    }
}

impl<H, I: Stream<H>, F: Stream<H>> Stream<H> for Integrate<I, F> {
    open spec fn rem(&self, hub: &H) -> Seq<int> {
        integ_out(self.spec_acc() as int, self.spec_inner().rem(hub), self.spec_factor().rem(hub))
    }

    open spec fn inv(&self, hub: &H) -> bool {
        &&& self.spec_inner().inv(hub)
        &&& self.spec_factor().inv(hub)
        &&& integ_fits(
            self.spec_acc() as int,
            self.spec_inner().rem(hub),
            self.spec_factor().rem(hub),
        )
    }

    fn next(&mut self, hub: &H) -> (r: Option<i64>) {
        let a = self.inner.next(hub);
        let b = self.factor.next(hub);
        if let (Some(cur), Some(w)) = (a, b) {
            self.accumulator = self.accumulator + cur * w;
            proof {
                assert(final(self).rem(hub) =~= old(self).rem(hub).drop_first());
            }
            Some(self.accumulator)
        } else {
            None
        }
    }
}

/// A run of `n` ones, the weight stream of a unit time step.
pub open spec fn ones(n: nat) -> Seq<int> {
    Seq::new(n, |i: int| 1)
}

/// A run of `n` copies of `v`.
pub open spec fn const_seq(n: nat, v: int) -> Seq<int> {
    Seq::new(n, |i: int| v)
}

/// Law: a fresh differentiator's first emitted value is the additive
/// identity, whatever the input holds.
pub proof fn lemma_differentiate_baseline(xs: Seq<int>, ws: Seq<int>)
    requires
        xs.len() > 0,
        ws.len() > 0,
    ensures
        diff_out(Option::None, xs, ws).len() > 0,
        diff_out(Option::None, xs, ws)[0] == 0,
{
}

/// Round trip at a fixed baseline: differentiating the running sums started
/// at `acc`, with the differentiator's retained value also `acc` and unit
/// weights throughout, recovers the input.
proof fn lemma_round_trip_from(acc: int, xs: Seq<int>)
    ensures
        diff_out(Option::Some(acc), integ_out(acc, xs, ones(xs.len())), ones(xs.len())) == xs,
    decreases xs.len(),
{
    let n = xs.len();
    if n == 0 {
        assert(diff_out(Option::Some(acc), integ_out(acc, xs, ones(n)), ones(n)) =~= xs);
    } else {
        let s = integ_out(acc, xs, ones(n));
        assert(ones(n)[0] == 1);
        assert(acc + xs[0] * 1 == acc + xs[0]);
        assert(ones(n).drop_first() =~= ones((n - 1) as nat));
        assert(xs.drop_first().len() == n - 1);
        lemma_round_trip_from(acc + xs[0], xs.drop_first());
        assert(s == seq![acc + xs[0]] + integ_out(acc + xs[0], xs.drop_first(), ones(
            (n - 1) as nat,
        )));
        assert(s.len() == 1 + integ_out(acc + xs[0], xs.drop_first(), ones((n - 1) as nat)).len());
        assert(s[0] == acc + xs[0]);
        assert(s.drop_first() =~= integ_out(acc + xs[0], xs.drop_first(), ones((n - 1) as nat)));
        assert((s[0] - acc) * ones(n)[0] == xs[0]);
        assert(diff_out(Option::Some(acc), s, ones(n)) == seq![xs[0]] + diff_out(
            Option::Some(s[0]),
            s.drop_first(),
            ones(n).drop_first(),
        ));
        assert(diff_out(Option::Some(s[0]), s.drop_first(), ones(n).drop_first()) == xs.drop_first());
        assert(seq![xs[0]] + xs.drop_first() =~= xs);
    }
}

/// Law: integrating and then differentiating with unit weights recovers the
/// input, provided the input starts at the additive identity — the baseline
/// the differentiator emits in place of the first value.
pub proof fn lemma_integrate_differentiate_round_trip(xs: Seq<int>)
    requires
        xs.len() > 0 ==> xs[0] == 0,
    ensures
        diff_out(Option::None, integ_out(0, xs, ones(xs.len())), ones(xs.len())) == xs,
{
    let n = xs.len();
    if n == 0 {
        assert(diff_out(Option::None, integ_out(0, xs, ones(n)), ones(n)) =~= xs);
    } else {
        let s = integ_out(0, xs, ones(n));
        assert(ones(n)[0] == 1);
        assert(s == seq![0 + xs[0] * 1] + integ_out(0 + xs[0] * 1, xs.drop_first(), ones(
            n,
        ).drop_first()));
        assert(s[0] == xs[0]);
        assert(xs[0] == 0);
        assert(ones(n).drop_first() =~= ones((n - 1) as nat));
        lemma_round_trip_from(0, xs.drop_first());
        assert(s.drop_first() =~= integ_out(0, xs.drop_first(), ones((n - 1) as nat)));
        assert(diff_out(Option::None, s, ones(n)) == seq![0] + diff_out(
            Option::Some(0),
            s.drop_first(),
            ones(n).drop_first(),
        ));
        assert(diff_out(Option::Some(0), s.drop_first(), ones(n).drop_first()) == xs.drop_first());
        assert(seq![0] + xs.drop_first() =~= xs);
    }
}

/// The differentiator's output has the length of the shorter of its two
/// inputs.
pub proof fn lemma_diff_out_len(last: Option<int>, xs: Seq<int>, ws: Seq<int>)
    ensures
        diff_out(last, xs, ws).len() == if xs.len() <= ws.len() {
            xs.len()
        } else {
            ws.len()
        },
    decreases xs.len(),
{
    if xs.len() == 0 || ws.len() == 0 {
    } else {
        lemma_diff_out_len(Option::Some(xs[0]), xs.drop_first(), ws.drop_first());
    }
}

/// The integrator's output has the length of the shorter of its two inputs.
pub proof fn lemma_integ_out_len(acc: int, xs: Seq<int>, ws: Seq<int>)
    ensures
        integ_out(acc, xs, ws).len() == if xs.len() <= ws.len() {
            xs.len()
        } else {
            ws.len()
        },
    decreases xs.len(),
{
    if xs.len() == 0 || ws.len() == 0 {
    } else {
        lemma_integ_out_len(acc + xs[0] * ws[0], xs.drop_first(), ws.drop_first());
    }
}

/// Each emitted integral is the previous one plus the next weighted input.
proof fn lemma_integ_out_index(acc: int, xs: Seq<int>, ws: Seq<int>, k: int)
    requires
        0 <= k < xs.len(),
        k < ws.len(),
    ensures
        integ_out(acc, xs, ws)[k] == if k == 0 {
            acc + xs[0] * ws[0]
        } else {
            integ_out(acc, xs, ws)[k - 1] + xs[k] * ws[k]
        },
    decreases k,
{
    lemma_integ_out_len(acc, xs, ws);
    if k == 0 {
    } else {
        let acc1 = acc + xs[0] * ws[0];
        lemma_integ_out_index(acc1, xs.drop_first(), ws.drop_first(), k - 1);
        if k > 1 {
            lemma_integ_out_index(acc, xs, ws, k - 1);
        }
    }
}

/// Law, first half: constant input `a` under constant weight `d` integrates
/// to `a * d * (k + 1)` at index `k` (the velocity after `k + 1` steps).
pub proof fn lemma_velocity_at(a: int, d: int, n: nat, k: int)
    requires
        0 <= k < n,
    ensures
        integ_out(0, const_seq(n, a), const_seq(n, d))[k] == a * d * (k + 1),
    decreases k,
{
    lemma_integ_out_index(0, const_seq(n, a), const_seq(n, d), k);
    if k == 0 {
        assert(a * d * 1 == a * d) by (nonlinear_arith);
    } else {
        lemma_velocity_at(a, d, n, k - 1);
        assert(a * d * k + a * d == a * d * (k + 1)) by (nonlinear_arith);
    }
}

/// Twice the doubly integrated value, in multiplied-out form.
proof fn lemma_displacement_doubled(a: int, d: int, n: nat, k: int)
    requires
        0 <= k < n,
    ensures
        2 * integ_out(0, integ_out(0, const_seq(n, a), const_seq(n, d)), const_seq(n, d))[k] == a
            * d * d * (k + 1) * (k + 2),
    decreases k,
{
    let vel = integ_out(0, const_seq(n, a), const_seq(n, d));
    lemma_integ_out_len(0, const_seq(n, a), const_seq(n, d));
    lemma_integ_out_index(0, vel, const_seq(n, d), k);
    lemma_velocity_at(a, d, n, k);
    if k == 0 {
        assert(2 * (a * d * 1 * d) == a * d * d * 1 * 2) by (nonlinear_arith);
    } else {
        lemma_displacement_doubled(a, d, n, k - 1);
        assert(a * d * d * k * (k + 1) + 2 * (a * d * (k + 1) * d) == a * d * d * (k + 1) * (k
            + 2)) by (nonlinear_arith);
    }
}

/// Law, second half: constant input `a` under constant weight `d`, fed
/// through two chained integrators, yields the displacement
/// `a * d * d * (k + 1) * (k + 2) / 2` at index `k`.
pub proof fn lemma_displacement_at(a: int, d: int, n: nat, k: int)
    requires
        0 <= k < n,
    ensures
        integ_out(0, integ_out(0, const_seq(n, a), const_seq(n, d)), const_seq(n, d))[k] == a * d
            * d * (k + 1) * (k + 2) / 2,
{
    lemma_displacement_doubled(a, d, n, k);
    let disp = integ_out(0, integ_out(0, const_seq(n, a), const_seq(n, d)), const_seq(n, d))[k];
    assert(disp * 2 / 2 == disp) by {
        vstd::arithmetic::div_mod::lemma_div_multiples_vanish(disp, 2);
    }
    assert(2 * disp == disp * 2);
}

} // verus!
