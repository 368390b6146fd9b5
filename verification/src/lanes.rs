use vstd::prelude::*;

use crate::stream::Stream;
use crate::stream::div_trunc;
use crate::stream::fits_i64;
use crate::stream::to_ints;

verus! {

/// A run of `n` zero scalars, the padding of a short final lane.
pub open spec fn zeros(n: nat) -> Seq<int> {
    Seq::new(n, |i: int| 0)
}

/// A scalar run grouped into fixed-width lanes: full lanes in order, and a
/// final partial group zero-padded to full width.
pub open spec fn lanes_of(xs: Seq<int>, w: nat) -> Seq<Seq<int>>
    decreases xs.len(),
{
    if w < 1 || xs.len() == 0 {
        Seq::empty()
    } else if xs.len() >= w {
        seq![xs.take(w as int)] + lanes_of(xs.skip(w as int), w)
    } else {
        seq![xs + zeros((w - xs.len()) as nat)]
    }
}

/// Lane totality law, count: a run of length `L > 0` at width `w` yields
/// exactly `(L + w - 1) / w` lanes — the length divided by the width,
/// rounded up.
pub proof fn lemma_lanes_of_count(xs: Seq<int>, w: nat)
    requires
        w >= 1,
        xs.len() > 0,
    ensures
        lanes_of(xs, w).len() == (xs.len() + w - 1) / (w as int),
    decreases xs.len(),
{
    let l = xs.len() as int;
    let wi = w as int;
    reveal_with_fuel(lanes_of, 3);
    if l >= wi {
        if xs.skip(wi).len() == 0 {
            assert(l == wi);
            vstd::arithmetic::div_mod::lemma_div_multiples_vanish_fancy(1, wi - 1, wi);
            assert((l + wi - 1) / wi == 1);
        } else {
            lemma_lanes_of_count(xs.skip(wi), w);
            vstd::arithmetic::div_mod::lemma_div_plus_one(l - wi + wi - 1, wi);
            assert((l - wi + wi - 1 + wi) / wi == (l - wi + wi - 1) / wi + 1);
        }
    } else {
        vstd::arithmetic::div_mod::lemma_div_multiples_vanish_fancy(1, l - 1, wi);
        assert((l + wi - 1) / wi == 1);
    }
}

/// Lane exactness: every lane is full width; entry `j` of lane `k` is the
/// scalar at position `k * w + j` of the run, or the zero padding beyond
/// the run's end.
pub proof fn lemma_lanes_of_index(xs: Seq<int>, w: nat, k: int, j: int)
    requires
        w >= 1,
        0 <= k < lanes_of(xs, w).len(),
        0 <= j < w,
    ensures
        lanes_of(xs, w)[k].len() == w,
        lanes_of(xs, w)[k][j] == if k * w + j < xs.len() {
            xs[k * w + j]
        } else {
            0
        },
    decreases k,
{
    let wi = w as int;
    if k == 0 {
        assert(k * w + j == j) by (nonlinear_arith)
            requires k == 0, 0 <= j;
    } else {
        assert(xs.len() >= w);
        lemma_lanes_of_index(xs.skip(wi), w, k - 1, j);
        assert((k - 1) * w + j + w == k * w + j) by (nonlinear_arith);
        assert(lanes_of(xs, w)[k] == lanes_of(xs.skip(wi), w)[k - 1]);
        if 0 <= (k - 1) * wi + j < xs.skip(wi).len() {
            assert(xs.skip(wi)[(k - 1) * wi + j] == xs[(k - 1) * wi + j + wi]);
        }
    }
}

/// Lane totality law, boundary: when the run's length is not a multiple of
/// the width, the final lane holds the run's last `L % w` scalars and is
/// zero from position `L % w` on; otherwise every lane, the last included,
/// is fully occupied.
pub proof fn lemma_lanes_of_boundary(xs: Seq<int>, w: nat, j: int)
    requires
        w >= 1,
        xs.len() > 0,
        xs.len() % (w as nat) != 0,
        0 <= j < w,
    ensures
        lanes_of(xs, w).last()[j] == if j < xs.len() % (w as nat) {
            xs[xs.len() - xs.len() % (w as nat) + j]
        } else {
            0
        },
{
    let l = xs.len() as int;
    let wi = w as int;
    let q = l / wi;
    let m = l % wi;
    vstd::arithmetic::div_mod::lemma_fundamental_div_mod(l, wi);
    lemma_lanes_of_count(xs, w);
    vstd::arithmetic::div_mod::lemma_div_multiples_vanish_fancy(q + 1, m - 1, wi);
    assert(l + wi - 1 == wi * (q + 1) + (m - 1)) by (nonlinear_arith)
        requires
            l == wi * q + m,
    ;
    assert((l + wi - 1) / wi == q + 1);
    lemma_lanes_of_index(xs, w, q, j);
    assert(q * w + j == l - m + j) by (nonlinear_arith)
        requires l == wi * q + m, w == wi;
}

/// Elementwise lane arithmetic: which operation a vectorized transform
/// applies to a pair of lanes.
pub enum CalcMode {
    Multiply,
    Divide,
    Add,
    Subtract,
}

/// The scalar result of one lane position under `m`.
pub open spec fn calc_op(m: CalcMode, x: int, y: int) -> int {
    match m {
        CalcMode::Multiply => x * y,
        CalcMode::Divide => div_trunc(x, y),
        CalcMode::Add => x + y,
        CalcMode::Subtract => x - y,
    }
}

/// One lane position stays within the machine scalar: the result fits, and
/// a division has a nonzero divisor.
pub open spec fn calc_op_fits(m: CalcMode, x: int, y: int) -> bool {
    &&& fits_i64(calc_op(m, x, y))
    &&& (m is Divide ==> y != 0)
}

impl CalcMode {
    /// Apply this operation to two lanes of equal width, elementwise.
    pub fn op(&self, a: &Vec<i64>, b: &Vec<i64>) -> (r: Vec<i64>)
        requires
            a@.len() == b@.len(),
            forall|j: int|
                0 <= j < a@.len() ==> calc_op_fits(*self, #[trigger] a@[j] as int, b@[j] as int),
        ensures
            r@.len() == a@.len(),
            forall|j: int|
                0 <= j < r@.len() ==> #[trigger] r@[j] as int == calc_op(
                    *self,
                    a@[j] as int,
                    b@[j] as int,
                ),
    {
        let n = a.len();
        let mut r: Vec<i64> = Vec::new();
        let mut j: usize = 0;
        while j < n
            invariant
                n == a@.len(),
                a@.len() == b@.len(),
                forall|i: int|
                    0 <= i < a@.len() ==> calc_op_fits(
                        *self,
                        #[trigger] a@[i] as int,
                        b@[i] as int,
                    ),
                j <= n,
                r@.len() == j,
                forall|i: int|
                    0 <= i < j ==> #[trigger] r@[i] as int == calc_op(
                        *self,
                        a@[i] as int,
                        b@[i] as int,
                    ),
            decreases n - j,
        {
            let x = a[j];
            let y = b[j];
            let v = match self {
                CalcMode::Multiply => x * y,
                CalcMode::Divide => x.checked_div(y).unwrap(),
                CalcMode::Add => x + y,
                CalcMode::Subtract => x - y,
            };
            r.push(v);
            j = j + 1;
        }
        r
    }
}

/// Groups a scalar stream into fixed-width lanes, lazily: each pull gathers
/// up to `width` scalars; a full group is emitted as one lane, a final
/// partial group is emitted zero-padded to full width, and after that — or
/// on a pull that gathers nothing — the batcher is terminated for good.
pub struct LaneBatcher<S> {
    inner: S,
    width: usize,
    done: bool,
}

impl<S> LaneBatcher<S> {
    pub closed spec fn spec_inner(&self) -> S {
        self.inner
    }

    pub closed spec fn spec_width(&self) -> nat {
        self.width as nat
    }

    pub closed spec fn spec_done(&self) -> bool {
        self.done
    }

    /// The lanes still to be emitted, given the current context.
    pub open spec fn lanes<H>(&self, hub: &H) -> Seq<Seq<int>> where S: Stream<H> {
        if self.spec_done() {
            Seq::empty()
        } else {
            lanes_of(self.spec_inner().rem(hub), self.spec_width())
        }
    }

    pub fn from(inner: S, width: usize) -> (r: Self)
        requires
            width >= 1,
        ensures
            r.spec_inner() == inner,
            r.spec_width() == width,
            !r.spec_done(),
    {
        LaneBatcher { inner, width, done: false }
    }

    /// Pull one lane: the head of `lanes`, or `None` when nothing remains.
    pub fn next<H>(&mut self, hub: &H) -> (r: Option<Vec<i64>>) where S: Stream<H>
        requires
            old(self).spec_inner().inv(hub),
            old(self).spec_width() >= 1,
        ensures
            final(self).spec_inner().inv(hub),
            final(self).spec_width() == old(self).spec_width(),
            r is Some ==> old(self).lanes(hub).len() > 0 && to_ints(r.unwrap()@) == old(
                self,
            ).lanes(hub)[0] && final(self).lanes(hub) == old(self).lanes(hub).drop_first(),
            r is None ==> old(self).lanes(hub).len() == 0 && final(self).lanes(hub).len() == 0,
    {
        if self.done {
            return None;
        }
        let ghost xs = old(self).spec_inner().rem(hub);
        let width = self.width;
        let mut lane: Vec<i64> = Vec::new();
        let mut k: usize = 0;
        let mut ended = false;
        while k < width
            invariant_except_break
                width == old(self).spec_width(),
                self.spec_width() == old(self).spec_width(),
                self.spec_done() == old(self).spec_done(),
                self.spec_inner().inv(hub),
                k <= width,
                !ended,
                lane@.len() == k,
                to_ints(lane@) == xs.take(k as int),
                k <= xs.len(),
                self.spec_inner().rem(hub) == xs.skip(k as int),
            ensures
                self.spec_width() == old(self).spec_width(),
                self.spec_done() == old(self).spec_done(),
                self.spec_inner().inv(hub),
                k <= width,
                lane@.len() == k,
                to_ints(lane@) == xs.take(k as int),
                k <= xs.len(),
                !ended ==> k == width && self.spec_inner().rem(hub) == xs.skip(k as int),
                ended ==> k < width && xs.len() == k && self.spec_inner().rem(hub).len() == 0,
            decreases width - k,
        {
            match self.inner.next(hub) {
                Some(v) => {
                    lane.push(v);
                    proof {
                        assert(to_ints(lane@) =~= xs.take(k as int + 1));
                        assert(xs.skip(k as int).drop_first() =~= xs.skip(k as int + 1));
                    }
                    k = k + 1;
                },
                None => {
                    proof {
                        assert(xs.skip(k as int).len() == 0);
                    }
                    ended = true;
                    break ;
                },
            }
        }
        if ended {
            if k == 0 {
                self.done = true;
                proof {
                    assert(xs.take(0) =~= Seq::<int>::empty());
                }
                return None;
            }
            while lane.len() < width
                invariant
                    k < width,
                    k <= lane@.len() <= width,
                    to_ints(lane@) == xs.take(k as int) + zeros((lane@.len() - k) as nat),
                decreases width - lane@.len(),
            {
                let ghost prelen = lane@.len();
                let ghost prelane = lane@;
                lane.push(0);
                proof {
                    assert(to_ints(lane@) =~= to_ints(prelane).push(0));
                    assert(xs.take(k as int) + zeros((prelen + 1 - k) as nat) =~= (xs.take(
                        k as int,
                    ) + zeros((prelen - k) as nat)).push(0));
                    assert(to_ints(lane@) =~= xs.take(k as int) + zeros(
                        (prelen + 1 - k) as nat,
                    ));
                }
            }
            self.done = true;
            proof {
                assert(xs.take(k as int) =~= xs);
                assert(to_ints(lane@) =~= xs + zeros((width - xs.len()) as nat));
                assert(old(self).lanes(hub)[0] == xs + zeros((width - xs.len()) as nat));
            }
            Some(lane)
        } else {
            proof {
                assert(old(self).lanes(hub)[0] == xs.take(width as int));
                assert(final(self).lanes(hub) =~= old(self).lanes(hub).drop_first());
            }
            Some(lane)
        }
    }
}

/// Elementwise combination of two scalar runs, up to the shorter length.
pub open spec fn zip_op(m: CalcMode, xs: Seq<int>, ys: Seq<int>) -> Seq<int> {
    Seq::new(
        if xs.len() <= ys.len() {
            xs.len()
        } else {
            ys.len()
        },
        |i: int| calc_op(m, xs[i], ys[i]),
    )
}

/// The shorter of the two runs, rounded down to whole lanes of width `w`.
pub open spec fn whole_len(xs: Seq<int>, ys: Seq<int>, w: nat) -> int {
    (zip_op(CalcMode::Add, xs, ys).len() as int / (w as int)) * (w as int)
}

/// Every position inside the whole-lane region combines within `i64`.
pub open spec fn lane_op_fits(m: CalcMode, xs: Seq<int>, ys: Seq<int>, w: nat) -> bool {
    forall|i: int| 0 <= i < whole_len(xs, ys, w) ==> calc_op_fits(m, #[trigger] xs[i], ys[i])
}

/// A vectorized transform over two synchronized scalar streams: gathers one
/// whole lane from each stream, combines the lanes elementwise under a
/// [`CalcMode`], and hands the combined scalars back out one per pull. A
/// final group shorter than one lane is dropped — this is the variant whose
/// short group signals true end of stream.
pub struct LaneOp<I, J> {
    a: I,
    b: J,
    out_buf: Vec<i64>,
    out_pos: usize,
    last_buf: bool,
    mode: CalcMode,
    width: usize,
}

impl<I, J> LaneOp<I, J> {
    pub closed spec fn spec_a(&self) -> I {
        self.a
    }

    pub closed spec fn spec_b(&self) -> J {
        self.b
    }

    pub closed spec fn spec_mode(&self) -> CalcMode {
        self.mode
    }

    pub closed spec fn spec_width(&self) -> nat {
        self.width as nat
    }

    pub closed spec fn spec_buffered(&self) -> Seq<int> {
        to_ints(self.out_buf@).skip(self.out_pos as int)
    }

    pub closed spec fn spec_last_buf(&self) -> bool {
        self.last_buf
    }

    /// The emission position never runs past the buffered lane.
    pub closed spec fn spec_buf_wf(&self) -> bool {
        self.out_pos <= self.out_buf@.len()
    }

    pub fn from(a: I, b: J, mode: CalcMode, width: usize) -> (r: Self)
        requires
            width >= 1,
        ensures
            r.spec_a() == a,
            r.spec_b() == b,
            r.spec_mode() == mode,
            r.spec_width() == width,
            r.spec_buffered() == Seq::<int>::empty(),
            !r.spec_last_buf(),
    {
        let r = LaneOp { a, b, out_buf: Vec::new(), out_pos: 0, last_buf: false, mode, width };
        proof {
            assert(r.spec_buffered() =~= Seq::<int>::empty());
        }
        r
    }
}

impl<H, I: Stream<H>, J: Stream<H>> Stream<H> for LaneOp<I, J> {
    open spec fn rem(&self, hub: &H) -> Seq<int> {
        self.spec_buffered() + if self.spec_last_buf() {
            Seq::empty()
        } else {
            zip_op(self.spec_mode(), self.spec_a().rem(hub), self.spec_b().rem(hub)).take(
                whole_len(self.spec_a().rem(hub), self.spec_b().rem(hub), self.spec_width()),
            )
        }
    }

    open spec fn inv(&self, hub: &H) -> bool {
        &&& self.spec_a().inv(hub)
        &&& self.spec_b().inv(hub)
        &&& self.spec_width() >= 1
        &&& self.spec_buf_wf()
        &&& (!self.spec_last_buf() ==> lane_op_fits(
            self.spec_mode(),
            self.spec_a().rem(hub),
            self.spec_b().rem(hub),
            self.spec_width(),
        ))
    }

    fn next(&mut self, hub: &H) -> (r: Option<i64>) {
        if self.out_pos < self.out_buf.len() {
            let v = self.out_buf[self.out_pos];
            self.out_pos = self.out_pos + 1;
            proof {
                assert(final(self).rem(hub) =~= old(self).rem(hub).drop_first());
                assert(old(self).rem(hub)[0] == v as int);
            }
            return Some(v);
        }
        if self.last_buf {
            proof {
                assert(old(self).rem(hub) =~= Seq::<int>::empty());
                assert(final(self).rem(hub) =~= Seq::<int>::empty());
            }
            return None;
        }
        let ghost xs = old(self).spec_a().rem(hub);
        let ghost ys = old(self).spec_b().rem(hub);
        let ghost m = old(self).spec_mode();
        let ghost w = old(self).spec_width();
        let width = self.width;
        let mut av: Vec<i64> = Vec::new();
        let mut bv: Vec<i64> = Vec::new();
        let mut k: usize = 0;
        let mut short = false;
        while k < width
            invariant_except_break
                width == w,
                self.spec_width() == w,
                self.spec_mode() == m,
                self.spec_last_buf() == old(self).spec_last_buf(),
                self.spec_buffered() == old(self).spec_buffered(),
                self.spec_buf_wf(),
                self.spec_a().inv(hub),
                self.spec_b().inv(hub),
                !short,
                k <= width,
                k <= xs.len(),
                k <= ys.len(),
                av@.len() == k,
                bv@.len() == k,
                to_ints(av@) == xs.take(k as int),
                to_ints(bv@) == ys.take(k as int),
                self.spec_a().rem(hub) == xs.skip(k as int),
                self.spec_b().rem(hub) == ys.skip(k as int),
            ensures
                width == w,
                self.spec_width() == w,
                self.spec_mode() == m,
                self.spec_last_buf() == old(self).spec_last_buf(),
                self.spec_buffered() == old(self).spec_buffered(),
                self.spec_buf_wf(),
                self.spec_a().inv(hub),
                self.spec_b().inv(hub),
                k <= width,
                k <= xs.len(),
                k <= ys.len(),
                av@.len() == k,
                bv@.len() == k,
                to_ints(av@) == xs.take(k as int),
                to_ints(bv@) == ys.take(k as int),
                !short ==> k == width && self.spec_a().rem(hub) == xs.skip(k as int) && self.spec_b().rem(hub) == ys.skip(k as int),
                short ==> k < width && (xs.len() == k || ys.len() == k),
            decreases width - k,
        {
            let x = self.a.next(hub);
            let y = self.b.next(hub);
            if let (Some(xv), Some(yv)) = (x, y) {
                av.push(xv);
                bv.push(yv);
                proof {
                    assert(to_ints(av@) =~= xs.take(k as int + 1));
                    assert(to_ints(bv@) =~= ys.take(k as int + 1));
                    assert(xs.skip(k as int).drop_first() =~= xs.skip(k as int + 1));
                    assert(ys.skip(k as int).drop_first() =~= ys.skip(k as int + 1));
                }
                k = k + 1;
            } else {
                proof {
                    assert(xs.skip(k as int).len() == 0 || ys.skip(k as int).len() == 0);
                }
                short = true;
                break ;
            }
        }
        if short {
            self.last_buf = true;
            proof {
                assert(whole_len(xs, ys, w) == 0) by {
                    let n = zip_op(m, xs, ys).len() as int;
                    assert(n < w);
                    vstd::arithmetic::div_mod::lemma_basic_div(n, w as int);
                    assert(n / (w as int) == 0);
                    assert(whole_len(xs, ys, w) == 0 * (w as int));
                }
                assert(old(self).rem(hub) =~= Seq::<int>::empty());
                assert(final(self).rem(hub) =~= Seq::<int>::empty());
            }
            return None;
        }
        proof {
            assert(whole_len(xs, ys, w) >= w) by {
                let n = zip_op(m, xs, ys).len() as int;
                assert(n >= w);
                vstd::arithmetic::div_mod::lemma_div_is_ordered(w as int, n, w as int);
                vstd::arithmetic::div_mod::lemma_div_by_self(w as int);
                assert(n / (w as int) >= 1);
                assert((n / (w as int)) * (w as int) >= 1 * (w as int)) by (nonlinear_arith)
                    requires
                        n / (w as int) >= 1,
                        w >= 1,
                ;
            }
            assert forall|j: int|
                0 <= j < av@.len() implies #[trigger] av@[j] as int == xs[j] && bv@[j] as int
                == ys[j] by {
                assert(av@[j] as int == to_ints(av@)[j]);
                assert(bv@[j] as int == to_ints(bv@)[j]);
                assert(to_ints(av@)[j] == xs.take(w as int)[j]);
                assert(to_ints(bv@)[j] == ys.take(w as int)[j]);
            }
            assert forall|j: int|
                0 <= j < av@.len() implies calc_op_fits(
                m,
                #[trigger] av@[j] as int,
                bv@[j] as int,
            ) by {
                assert(av@[j] as int == xs[j]);
                assert(bv@[j] as int == ys[j]);
                assert(calc_op_fits(m, xs[j], ys[j]));
            }
        }
        let combined = self.mode.op(&av, &bv);
        self.out_buf = combined;
        self.out_pos = 1;
        let v = self.out_buf[0];
        proof {
            lemma_lane_op_refill(m, xs, ys, w);
            assert(to_ints(self.out_buf@) =~= zip_op(m, xs, ys).take(w as int));
            assert(final(self).spec_buffered() =~= zip_op(m, xs, ys).take(w as int).skip(1));
            let xs2 = xs.skip(w as int);
            let ys2 = ys.skip(w as int);
            assert forall|i: int|
                0 <= i < whole_len(xs2, ys2, w) implies calc_op_fits(
                m,
                #[trigger] xs2[i],
                ys2[i],
            ) by {
                assert(xs2[i] == xs[i + w]);
                assert(ys2[i] == ys[i + w]);
                assert(calc_op_fits(m, xs[i + w], ys[i + w]));
            }
            assert(final(self).rem(hub) =~= old(self).rem(hub).drop_first());
            assert(old(self).rem(hub)[0] == v as int);
        }
        Some(v)
    }
}

/// One refilled lane plus the remaining whole-lane region equals the old
/// whole-lane region: the two views of a refill agree.
proof fn lemma_lane_op_refill(m: CalcMode, xs: Seq<int>, ys: Seq<int>, w: nat)
    requires
        w >= 1,
        xs.len() >= w,
        ys.len() >= w,
    ensures
        whole_len(xs.skip(w as int), ys.skip(w as int), w) == whole_len(xs, ys, w) - w,
        whole_len(xs, ys, w) <= xs.len(),
        whole_len(xs, ys, w) <= ys.len(),
        zip_op(m, xs, ys).take(whole_len(xs, ys, w)) =~= zip_op(m, xs, ys).take(w as int) + zip_op(
            m,
            xs.skip(w as int),
            ys.skip(w as int),
        ).take(whole_len(xs, ys, w) - w),
{
    let wi = w as int;
    let n = zip_op(m, xs, ys).len() as int;
    let n2 = zip_op(m, xs.skip(wi), ys.skip(wi)).len() as int;
    assert(n2 == n - wi);
    assert(n2 / wi == n / wi - 1) by {
        vstd::arithmetic::div_mod::lemma_div_minus_one(n, wi);
    }
    assert((n2 / wi) * wi == (n / wi) * wi - wi) by (nonlinear_arith)
        requires
            n2 / wi == n / wi - 1,
    ;
    assert(whole_len(xs, ys, w) <= n) by {
        vstd::arithmetic::div_mod::lemma_fundamental_div_mod(n, wi);
        vstd::arithmetic::div_mod::lemma_remainder_lower(n, wi);
        vstd::arithmetic::div_mod::lemma_remainder_upper(n, wi);
    }
    assert(forall|i: int|
        0 <= i < n2 ==> zip_op(m, xs.skip(wi), ys.skip(wi))[i] == zip_op(m, xs, ys)[i + wi]);
}

/// Group a whole scalar run into fixed-width lanes at once, the final
/// partial group zero-padded: the batch form of lane conversion.
pub fn into_lanes(xs: &Vec<i64>, width: usize) -> (r: Vec<Vec<i64>>)
    requires
        width >= 1,
    ensures
        r@.map_values(|l: Vec<i64>| to_ints(l@)) == lanes_of(to_ints(xs@), width as nat),
{
    let n = xs.len();
    let mut r: Vec<Vec<i64>> = Vec::new();
    let mut i: usize = 0;
    proof {
        assert(r@.map_values(|l: Vec<i64>| to_ints(l@)) =~= Seq::<Seq<int>>::empty());
        assert(to_ints(xs@).skip(0) =~= to_ints(xs@));
        assert(lanes_of(to_ints(xs@), width as nat) =~= r@.map_values(|l: Vec<i64>| to_ints(l@))
            + lanes_of(to_ints(xs@).skip(0), width as nat));
    }
    while i < n
        invariant
            width >= 1,
            n == xs@.len(),
            i <= n,
            lanes_of(to_ints(xs@), width as nat) == r@.map_values(|l: Vec<i64>| to_ints(l@))
                + lanes_of(to_ints(xs@).skip(i as int), width as nat),
        decreases n - i,
    {
        let ghost pre = r@;
        let ghost gi = i as int;
        let ghost gxs = to_ints(xs@);
        let mut lane: Vec<i64> = Vec::new();
        let mut j: usize = 0;
        while j < width
            invariant
                width >= 1,
                n == xs@.len(),
                i < n,
                j <= width,
                gxs == to_ints(xs@),
                lane@.len() == j,
                forall|t: int|
                    0 <= t < j ==> #[trigger] lane@[t] as int == (if i + t < n {
                        gxs[i + t]
                    } else {
                        0
                    }),
            decreases width - j,
        {
            if j < n - i {
                lane.push(xs[i + j]);
            } else {
                lane.push(0);
            }
            j = j + 1;
        }
        proof {
            let rest = gxs.skip(i as int);
            if rest.len() >= width {
                assert(to_ints(lane@) =~= rest.take(width as int));
            } else {
                assert(to_ints(lane@) =~= rest + zeros((width - rest.len()) as nat));
            }
        }
        r.push(lane);
        let step = n - i;
        if step > width {
            i = i + width;
        } else {
            i = n;
        }
        proof {
            let rest = gxs.skip(gi);
            let built = pre.map_values(|l: Vec<i64>| to_ints(l@));
            assert(r@.map_values(|l: Vec<i64>| to_ints(l@)) =~= built.push(to_ints(lane@)));
            assert(lanes_of(gxs, width as nat) == built + lanes_of(rest, width as nat));
            if rest.len() >= width {
                assert(lanes_of(rest, width as nat) == seq![rest.take(width as int)] + lanes_of(
                    rest.skip(width as int),
                    width as nat,
                ));
                assert(rest.take(width as int) == to_ints(lane@));
                if i < n {
                    assert(gxs.skip(i as int) =~= rest.skip(width as int));
                } else {
                    assert(rest.skip(width as int).len() == 0);
                    assert(gxs.skip(i as int) =~= rest.skip(width as int));
                }
            } else {
                assert(lanes_of(rest, width as nat) == seq![
                    rest + zeros((width - rest.len()) as nat),
                ]);
                assert(rest + zeros((width - rest.len()) as nat) == to_ints(lane@));
                assert(gxs.skip(i as int).len() == 0);
            }
            assert(lanes_of(gxs, width as nat) =~= r@.map_values(|l: Vec<i64>| to_ints(l@))
                + lanes_of(gxs.skip(i as int), width as nat));
        }
    }
    proof {
        assert(lanes_of(to_ints(xs@).skip(i as int), width as nat) =~= Seq::<Seq<int>>::empty());
        assert(r@.map_values(|l: Vec<i64>| to_ints(l@)) =~= lanes_of(to_ints(xs@), width as nat));
    }
    r
}

} // verus!
