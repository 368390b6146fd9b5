use telemetry_calculus::Delivery;
use telemetry_calculus::Stream;
use telemetry_calculus::Teeterator;
use telemetry_calculus::Tuple4;
use telemetry_calculus::Unziperator;
use telemetry_calculus::noconsume::broadcast_run;
use telemetry_calculus::pipeline::run_pipeline;
use telemetry_calculus::calculus::Differentiate;
use telemetry_calculus::calculus::Integrate;

fn sample(dt: i64, a: i64, b: i64, c: i64) -> Tuple4 {
    Tuple4 { dt, a, b, c }
}

#[test]
fn broadcast_delivers_each_lane_exactly_once() {
    let data = vec![sample(1, 10, 20, 30), sample(2, 11, 21, 31), sample(3, 12, 22, 32)];
    let (d, x, y, z) = broadcast_run(data);
    assert_eq!(d, vec![1, 2, 3]);
    assert_eq!(x, vec![10, 11, 12]);
    assert_eq!(y, vec![20, 21, 22]);
    assert_eq!(z, vec![30, 31, 32]);
}

#[test]
fn subscriber_sees_values_in_driver_order_then_exhaustion() {
    let data = vec![sample(5, 100, 200, 300), sample(6, 101, 201, 301)];
    let mut unz = Unziperator::new(data);
    let mut c1 = unz.subscribe();
    assert_eq!(unz.next(), Some(5));
    assert_eq!(c1.next(&unz), Some(100));
    assert_eq!(unz.next(), Some(6));
    assert_eq!(c1.next(&unz), Some(101));
    assert_eq!(unz.next(), None);
    assert_eq!(c1.next(&unz), None);
    // the end-of-stream marker is permanent
    assert_eq!(c1.next(&unz), None);
}

#[test]
fn subscriber_pulled_before_driver_reports_exhausted() {
    let data = vec![sample(5, 100, 200, 300)];
    let mut unz = Unziperator::new(data);
    let mut c1 = unz.subscribe();
    // nothing delivered yet: the non-blocking pull reports exhaustion now,
    // but the producer has not ended, so a later pull still sees the value
    assert_eq!(c1.next(&unz), None);
    assert_eq!(unz.next(), Some(5));
    assert_eq!(c1.next(&unz), Some(100));
}

#[test]
fn three_way_poll_tells_pending_from_ended() {
    let data = vec![sample(5, 100, 200, 300)];
    let mut unz = Unziperator::new(data);
    let mut c1 = unz.subscribe();
    assert_eq!(c1.poll(&unz), Delivery::Pending);
    assert_eq!(unz.next(), Some(5));
    assert_eq!(c1.poll(&unz), Delivery::Value(100));
    assert_eq!(c1.poll(&unz), Delivery::Pending);
    assert_eq!(unz.next(), None);
    assert_eq!(c1.poll(&unz), Delivery::Ended);
    assert_eq!(c1.poll(&unz), Delivery::Ended);
}

#[test]
fn late_subscriber_gets_no_backfill() {
    let data = vec![sample(1, 10, 20, 30), sample(2, 11, 21, 31)];
    let mut unz = Unziperator::new(data);
    let mut early = unz.subscribe();
    assert_eq!(unz.next(), Some(1));
    assert_eq!(early.next(&unz), Some(10));
    let mut late = unz.subscribe();
    assert_eq!(unz.next(), Some(2));
    // the late subscriber receives its lane only from here on
    assert_eq!(late.next(&unz), Some(21));
}

#[test]
fn tee_broadcasts_driver_values() {
    let data = vec![sample(7, 0, 0, 0), sample(8, 0, 0, 0)];
    let unz = Unziperator::new(data);
    let mut tee = Teeterator::new(unz);
    let mut t1 = tee.subscribe();
    let mut t2 = tee.subscribe();
    assert_eq!(tee.next(), Some(7));
    assert_eq!(t1.next(tee.hub()), Some(7));
    assert_eq!(t2.next(tee.hub()), Some(7));
    assert_eq!(tee.next(), Some(8));
    assert_eq!(t1.next(tee.hub()), Some(8));
    assert_eq!(t2.next(tee.hub()), Some(8));
    assert_eq!(tee.next(), None);
    assert_eq!(t1.next(tee.hub()), None);
    assert_eq!(t2.next(tee.hub()), None);
}

#[test]
fn broadcast_of_empty_input_ends_immediately() {
    let (d, x, y, z) = broadcast_run(vec![]);
    assert!(d.is_empty() && x.is_empty() && y.is_empty() && z.is_empty());
}

#[test]
fn pipeline_of_empty_input_is_empty() {
    let out = run_pipeline(vec![]);
    assert!(out.is_empty());
}

#[test]
fn pipeline_differentiates_then_integrates_each_axis() {
    let data = vec![sample(1, 1, 0, 0), sample(1, 2, 0, 0), sample(1, 4, 0, 0)];
    let out = run_pipeline(data);
    // axis a: differentiated [0, 1, 2], integrated [0, 1, 3]
    assert_eq!(out, vec![(1, 0, 0, 0), (1, 1, 0, 0), (1, 3, 0, 0)]);
}

#[test]
fn live_fanout_feeds_calculus_operators() {
    // the same flow as the pipeline, wired by hand through the hub:
    // driver first, then one pull per stage, tick by tick
    let data = vec![sample(1, 1, 0, 0), sample(1, 2, 0, 0), sample(1, 4, 0, 0)];
    let mut unz = Unziperator::new(data);
    let ax = unz.subscribe();
    let mut tee = Teeterator::new(unz);
    let fx = tee.subscribe();
    let gx = tee.subscribe();
    let jx = Differentiate::from(ax, fx);
    let mut ix = Integrate::from(jx, gx);
    let mut times = Vec::new();
    let mut accel = Vec::new();
    while let Some(t) = tee.next() {
        times.push(t);
        accel.push(ix.next(tee.hub()).unwrap());
    }
    assert_eq!(times, vec![1, 1, 1]);
    assert_eq!(accel, vec![0, 1, 3]);
}
