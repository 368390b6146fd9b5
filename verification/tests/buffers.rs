use telemetry_calculus::CircBuf;
use telemetry_calculus::CalcMode;
use telemetry_calculus::lanes::into_lanes;

#[test]
fn ring_buffer_fills_before_evicting() {
    let mut buf: CircBuf<i64> = CircBuf::new(3);
    assert_eq!(buf.push(1), None);
    assert_eq!(buf.push(2), None);
    assert_eq!(buf.push(3), None);
    assert_eq!(buf.push(4), Some(1));
    assert_eq!(buf.push(5), Some(2));
}

#[test]
fn ring_buffer_keeps_last_capacity_items_in_order() {
    let mut buf: CircBuf<i64> = CircBuf::new(3);
    for v in 1..=5i64 {
        buf.push(v);
    }
    let mut it = buf.iter();
    assert_eq!(it.next(), Some(&3));
    assert_eq!(it.next(), Some(&4));
    assert_eq!(it.next(), Some(&5));
    assert_eq!(it.next(), None);
}

#[test]
fn ring_buffer_iter_before_full() {
    let mut buf: CircBuf<i64> = CircBuf::new(4);
    buf.push(7);
    buf.push(8);
    let mut it = buf.iter();
    assert_eq!(it.next(), Some(&7));
    assert_eq!(it.next(), Some(&8));
    assert_eq!(it.next(), None);
}

#[test]
fn ring_buffer_fold_reduces_over_contents() {
    let mut buf: CircBuf<i64> = CircBuf::new(3);
    for v in [2i64, 4, 6, 8] {
        buf.push(v);
    }
    // survivors are [4, 6, 8]
    let total = buf.fold(0i64, |acc, v| acc + v);
    assert_eq!(total, 18);
}

#[test]
fn smoothing_ring_buffer_sums_survivors() {
    let mut buf: telemetry_calculus::smoothing::circbuf::CircBuf<i64> =
        telemetry_calculus::smoothing::circbuf::CircBuf::new(2);
    assert_eq!(buf.push(1), None);
    assert_eq!(buf.push(2), None);
    assert_eq!(buf.push(3), Some(1));
    assert_eq!(buf.sum(), 5);
}

#[test]
fn lanes_pad_final_partial_group() {
    let xs: Vec<i64> = (1..=10).collect();
    let lanes = into_lanes(&xs, 4);
    assert_eq!(lanes.len(), 3);
    assert_eq!(lanes[0], vec![1, 2, 3, 4]);
    assert_eq!(lanes[1], vec![5, 6, 7, 8]);
    assert_eq!(lanes[2], vec![9, 10, 0, 0]);
}

#[test]
fn lanes_count_is_length_over_width_rounded_up() {
    let xs: Vec<i64> = (0..16).collect();
    assert_eq!(into_lanes(&xs, 16).len(), 1);
    assert_eq!(into_lanes(&xs, 5).len(), 4);
    assert_eq!(into_lanes(&xs, 1).len(), 16);
}

#[test]
fn calc_mode_applies_elementwise() {
    let a: Vec<i64> = vec![6, -7, 5, 9];
    let b: Vec<i64> = vec![3, 2, -4, 10];
    assert_eq!(CalcMode::Multiply.op(&a, &b), vec![18, -14, -20, 90]);
    assert_eq!(CalcMode::Add.op(&a, &b), vec![9, -5, 1, 19]);
    assert_eq!(CalcMode::Subtract.op(&a, &b), vec![3, -9, 9, -1]);
    // machine division truncates toward zero
    assert_eq!(CalcMode::Divide.op(&a, &b), vec![2, -3, -1, 0]);
}
