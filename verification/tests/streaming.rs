use telemetry_calculus::Stream;
use telemetry_calculus::VecStream;
use telemetry_calculus::WeightedMovingAvg;
use telemetry_calculus::LaneBatcher;
use telemetry_calculus::LaneOp;
use telemetry_calculus::CalcMode;
use telemetry_calculus::calculus::Differentiate;
use telemetry_calculus::calculus::Integrate;
use telemetry_calculus::iter_calculus::Differentiate as RawDifferentiate;
use telemetry_calculus::iter_calculus::Integrate as RawIntegrate;

fn drain<S: Stream<()>>(s: &mut S) -> Vec<i64> {
    let mut out = Vec::new();
    while let Some(v) = s.next(&()) {
        out.push(v);
    }
    out
}

#[test]
fn differentiator_first_value_is_zero() {
    let mut d = Differentiate::from(
        VecStream::new(vec![41, 45, 50]),
        VecStream::new(vec![1, 1, 1]),
    );
    assert_eq!(d.next(&()), Some(0));
}

#[test]
fn differentiator_emits_weighted_deltas() {
    let mut d = Differentiate::from(
        VecStream::new(vec![1, 2, 4, 8]),
        VecStream::new(vec![1, 3, 3, 2]),
    );
    assert_eq!(drain(&mut d), vec![0, 3, 6, 8]);
}

#[test]
fn differentiator_stops_at_shorter_source() {
    let mut d = Differentiate::from(
        VecStream::new(vec![1, 2, 4, 8]),
        VecStream::new(vec![1, 1]),
    );
    assert_eq!(drain(&mut d), vec![0, 1]);
}

#[test]
fn integrator_accumulates_weighted_input() {
    let mut i = Integrate::from(
        VecStream::new(vec![3, -1, 2]),
        VecStream::new(vec![2, 2, 2]),
    );
    assert_eq!(drain(&mut i), vec![6, 4, 8]);
}

#[test]
fn integrate_then_differentiate_round_trip() {
    // weight one throughout; the input starts at the additive identity
    let xs = vec![0i64, 3, -2, 7, 7, -11];
    let ones = vec![1i64; xs.len()];
    let integ = Integrate::from(VecStream::new(xs.clone()), VecStream::new(ones.clone()));
    let mut diff = Differentiate::from(integ, VecStream::new(ones));
    assert_eq!(drain(&mut diff), xs);
}

#[test]
fn double_integration_of_constant_acceleration() {
    // constant input 2 with constant weight 3
    let a = vec![2i64; 4];
    let d = vec![3i64; 4];
    let vel = Integrate::from(VecStream::new(a), VecStream::new(d.clone()));
    let mut vel_probe = Integrate::from(
        VecStream::new(vec![2i64; 4]),
        VecStream::new(d.clone()),
    );
    // velocity at step k (one-based) is a * dt * k
    assert_eq!(drain(&mut vel_probe), vec![6, 12, 18, 24]);
    let mut disp = Integrate::from(vel, VecStream::new(d));
    // displacement at step k is a * dt * dt * k * (k + 1) / 2
    assert_eq!(drain(&mut disp), vec![18, 54, 108, 180]);
}

#[test]
fn raw_differentiator_emits_unweighted_deltas() {
    let mut d = RawDifferentiate::from(VecStream::new(vec![5, 9, 2]));
    assert_eq!(drain(&mut d), vec![0, 4, -7]);
}

#[test]
fn raw_integrator_emits_prefix_sums() {
    let mut i = RawIntegrate::from(VecStream::new(vec![5, 9, -2]));
    assert_eq!(drain(&mut i), vec![5, 14, 12]);
}

#[test]
fn weighted_moving_average_tracks_window() {
    let mut w = WeightedMovingAvg::from(
        VecStream::new(vec![10, 20, -5]),
        VecStream::new(vec![1, 3, 2]),
    );
    // window: [(10,1)] -> 10/1
    assert_eq!(w.next(&()), Some(10));
    // window: [(10,1), (20,3)] -> 70/4, truncated
    assert_eq!(w.next(&()), Some(17));
    // window: [(10,1), (20,3), (-5,2)] -> 60/6
    assert_eq!(w.next(&()), Some(10));
    assert_eq!(w.next(&()), None);
}

#[test]
fn weighted_moving_average_evicts_beyond_window() {
    // 22 pairs of weight one; the window keeps the last 20 values
    let values: Vec<i64> = (1..=22).collect();
    let weights = vec![1i64; 22];
    let mut w = WeightedMovingAvg::from(VecStream::new(values), VecStream::new(weights));
    let mut last = None;
    while let Some(v) = w.next(&()) {
        last = Some(v);
    }
    // mean of 3..=22 is 12 (truncated from 12.5)
    assert_eq!(last, Some(12));
}

#[test]
fn lane_batcher_emits_full_then_padded_lane() {
    let mut b = LaneBatcher::from(VecStream::new(vec![1, 2, 3, 4, 5]), 3);
    assert_eq!(b.next(&()), Some(vec![1, 2, 3]));
    assert_eq!(b.next(&()), Some(vec![4, 5, 0]));
    assert_eq!(b.next(&()), None);
}

#[test]
fn lane_op_combines_whole_lanes_and_drops_short_tail() {
    // seven pairs at width three: two whole lanes, one dropped pair
    let a: Vec<i64> = vec![1, 2, 3, 4, 5, 6, 7];
    let b: Vec<i64> = vec![10, 10, 10, 2, 2, 2, 9];
    let mut s = LaneOp::from(
        VecStream::new(a),
        VecStream::new(b),
        CalcMode::Multiply,
        3,
    );
    assert_eq!(drain(&mut s), vec![10, 20, 30, 8, 10, 12]);
}

#[test]
fn lane_op_divide_truncates_toward_zero() {
    let a: Vec<i64> = vec![7, -7];
    let b: Vec<i64> = vec![2, 2];
    let mut s = LaneOp::from(VecStream::new(a), VecStream::new(b), CalcMode::Divide, 2);
    assert_eq!(drain(&mut s), vec![3, -3]);
}

#[test]
fn lane_batcher_terminates_on_empty_source() {
    let mut b = LaneBatcher::from(VecStream::new(vec![]), 4);
    assert_eq!(b.next(&()), None);
    assert_eq!(b.next(&()), None);
}

#[test]
fn smoothing_slots_between_differentiator_and_integrator() {
    // differentiate, smooth, then re-integrate, all at unit weight
    let axis = VecStream::new(vec![1, 2, 4]);
    let w = || VecStream::new(vec![1, 1, 1]);
    let jerk = Differentiate::from(axis, w());
    let smooth = WeightedMovingAvg::from(jerk, w());
    let mut accel = Integrate::from(smooth, w());
    // jerk is [0, 1, 2]; the window means are [0/1, 1/2, 3/3] = [0, 0, 1]
    assert_eq!(drain(&mut accel), vec![0, 0, 1]);
}

#[test]
fn operators_on_empty_input_emit_nothing() {
    let mut d = Differentiate::from(VecStream::new(vec![]), VecStream::new(vec![]));
    assert_eq!(d.next(&()), None);
    let mut i = Integrate::from(VecStream::new(vec![]), VecStream::new(vec![]));
    assert_eq!(i.next(&()), None);
    let mut w = WeightedMovingAvg::from(VecStream::new(vec![]), VecStream::new(vec![]));
    assert_eq!(w.next(&()), None);
}
