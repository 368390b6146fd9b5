use vstd::prelude::*;

use crate::calculus::Differentiate;
use crate::calculus::Integrate;
use crate::calculus::diff_fits;
use crate::calculus::diff_out;
use crate::calculus::integ_fits;
use crate::calculus::integ_out;
use crate::calculus::lemma_diff_out_len;
use crate::calculus::lemma_integ_out_len;
use crate::noconsume::broadcast_run;
use crate::noconsume::lane_seq;
use crate::stream::Stream;
use crate::stream::Tuple4;
use crate::stream::VecStream;
use crate::stream::to_ints;

verus! {

/// The time-delta lane of a run of samples.
pub open spec fn delta_seq(data: Seq<Tuple4>) -> Seq<int> {
    lane_seq(data, 0, data.len() as int, 0)
}

/// One channel lane of a run of samples.
pub open spec fn axis_seq(data: Seq<Tuple4>, lane: int) -> Seq<int> {
    lane_seq(data, 0, data.len() as int, lane)
}

/// One channel differentiated against the time deltas: the next-order rate
/// of change (acceleration in, jerk out).
pub open spec fn jerk_seq(data: Seq<Tuple4>, lane: int) -> Seq<int> {
    diff_out(Option::None, axis_seq(data, lane), delta_seq(data))
}

/// The differentiated channel re-integrated against the same time deltas:
/// the gravity-freed magnitude the display consumes.
pub open spec fn accel_seq(data: Seq<Tuple4>, lane: int) -> Seq<int> {
    integ_out(0, jerk_seq(data, lane), delta_seq(data))
}

/// Every intermediate value of differentiating and re-integrating channel
/// `lane` fits in `i64`.
pub open spec fn pipeline_fits(data: Seq<Tuple4>, lane: int) -> bool {
    &&& diff_fits(Option::None, axis_seq(data, lane), delta_seq(data))
    &&& integ_fits(0, jerk_seq(data, lane), delta_seq(data))
}

/// The whole single-pass flow, end to end: split each sample into its
/// time delta and three channels, differentiate every channel against the
/// synchronized time-delta stream, re-integrate it against the same
/// stream, and zip the results back into `(time delta, a, b, c)` rows.
pub fn run_pipeline(data: Vec<Tuple4>) -> (out: Vec<(i64, i64, i64, i64)>)
    requires
        pipeline_fits(data@, 1),
        pipeline_fits(data@, 2),
        pipeline_fits(data@, 3),
    ensures
        out@.len() == data@.len(),
        forall|k: int|
            0 <= k < out@.len() ==> (#[trigger] out@[k]).0 == data@[k].dt && out@[k].1 as int
                == accel_seq(data@, 1)[k] && out@[k].2 as int == accel_seq(data@, 2)[k]
                && out@[k].3 as int == accel_seq(data@, 3)[k],
{
    let ghost gdata = data@;
    let n = data.len();
    let (d0, a1, a2, a3) = broadcast_run(data);
    let w1 = d0.clone();
    let w2 = d0.clone();
    let w3 = d0.clone();
    let w4 = d0.clone();
    let w5 = d0.clone();
    let w6 = d0.clone();
    proof {
        assert(w1@ =~= d0@);
        assert(w2@ =~= d0@);
        assert(w3@ =~= d0@);
        assert(w4@ =~= d0@);
        assert(w5@ =~= d0@);
        assert(w6@ =~= d0@);
    }
    let jx = Differentiate::from(VecStream::new(a1), VecStream::new(w1));
    let jy = Differentiate::from(VecStream::new(a2), VecStream::new(w2));
    let jz = Differentiate::from(VecStream::new(a3), VecStream::new(w3));
    let mut ix = Integrate::from(jx, VecStream::new(w4));
    let mut iy = Integrate::from(jy, VecStream::new(w5));
    let mut iz = Integrate::from(jz, VecStream::new(w6));
    let mut out: Vec<(i64, i64, i64, i64)> = Vec::new();
    proof {
        lemma_diff_out_len(Option::None, axis_seq(gdata, 1), delta_seq(gdata));
        lemma_diff_out_len(Option::None, axis_seq(gdata, 2), delta_seq(gdata));
        lemma_diff_out_len(Option::None, axis_seq(gdata, 3), delta_seq(gdata));
        lemma_integ_out_len(0, jerk_seq(gdata, 1), delta_seq(gdata));
        lemma_integ_out_len(0, jerk_seq(gdata, 2), delta_seq(gdata));
        lemma_integ_out_len(0, jerk_seq(gdata, 3), delta_seq(gdata));
        assert(to_ints(d0@).skip(0) =~= delta_seq(gdata));
        assert(to_ints(a1@).skip(0) =~= axis_seq(gdata, 1));
        assert(to_ints(a2@).skip(0) =~= axis_seq(gdata, 2));
        assert(to_ints(a3@).skip(0) =~= axis_seq(gdata, 3));
        assert(ix.rem(&()) =~= accel_seq(gdata, 1).skip(0));
        assert(iy.rem(&()) =~= accel_seq(gdata, 2).skip(0));
        assert(iz.rem(&()) =~= accel_seq(gdata, 3).skip(0));
    }
    let mut k: usize = 0;
    while k < n
        invariant
            n == gdata.len(),
            d0@.len() == n,
            to_ints(d0@) == delta_seq(gdata),
            accel_seq(gdata, 1).len() == n,
            accel_seq(gdata, 2).len() == n,
            accel_seq(gdata, 3).len() == n,
            ix.inv(&()),
            iy.inv(&()),
            iz.inv(&()),
            ix.rem(&()) == accel_seq(gdata, 1).skip(k as int),
            iy.rem(&()) == accel_seq(gdata, 2).skip(k as int),
            iz.rem(&()) == accel_seq(gdata, 3).skip(k as int),
            k <= n,
            out@.len() == k,
            forall|j: int|
                0 <= j < k ==> (#[trigger] out@[j]).0 == gdata[j].dt && out@[j].1 as int
                    == accel_seq(gdata, 1)[j] && out@[j].2 as int == accel_seq(gdata, 2)[j]
                    && out@[j].3 as int == accel_seq(gdata, 3)[j],
        decreases n - k,
    {
        let x = ix.next(&());
        let y = iy.next(&());
        let z = iz.next(&());
        let t = d0[k];
        proof {
            assert(t as int == to_ints(d0@)[k as int]);
            assert(delta_seq(gdata)[k as int] == gdata[k as int].dt);
            assert(x is Some && x.unwrap() as int == accel_seq(gdata, 1)[k as int]);
            assert(y is Some && y.unwrap() as int == accel_seq(gdata, 2)[k as int]);
            assert(z is Some && z.unwrap() as int == accel_seq(gdata, 3)[k as int]);
            assert(ix.rem(&()) =~= accel_seq(gdata, 1).skip(k as int + 1));
            assert(iy.rem(&()) =~= accel_seq(gdata, 2).skip(k as int + 1));
            assert(iz.rem(&()) =~= accel_seq(gdata, 3).skip(k as int + 1));
        }
        out.push((t, x.unwrap(), y.unwrap(), z.unwrap()));
        k = k + 1;
    }
    out
}

} // verus!
