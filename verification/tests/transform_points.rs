use std::collections::VecDeque;
use lsl_viewer::msg::TimedValue;
use lsl_viewer::transform::{sweep_head_of, sweep_origin_of, transform_channel};

fn channel(entries: &[(i64, i64)]) -> VecDeque<TimedValue> {
    let mut ch = VecDeque::new();
    for &(ts, val) in entries {
        ch.push_back(TimedValue { ts, val });
    }
    ch
}

const W: i64 = 2_000_000;

#[test]
fn sweep_origin_is_window_aligned() {
    assert_eq!(sweep_origin_of(4_500_000, W), 4_000_000);
    assert_eq!(sweep_origin_of(1_900_000, W), 0);
    assert_eq!(sweep_origin_of(2_000_000, W), 2_000_000);
    assert_eq!(sweep_origin_of(0, W), 0);
}

#[test]
fn sweep_head_is_position_within_window() {
    assert_eq!(sweep_head_of(4_500_000, W), 500_000);
    assert_eq!(sweep_head_of(1_900_000, W), 1_900_000);
    assert_eq!(sweep_head_of(2_000_000, W), 0);
}

#[test]
fn sample_before_rollover_is_fresh() {
    // a two-second window with one sample at t = 1.9 s: the sweep origin is
    // still 0 and the sample is fresh at its own offset
    let ch = channel(&[(1_900_000, 0)]);
    let t0 = sweep_origin_of(1_900_000, W);
    assert_eq!(t0, 0);
    let (fresh, stale) = transform_channel(&ch, t0, W, 0, 25, 0, 1);
    assert_eq!(fresh.len(), 1);
    assert_eq!(stale.len(), 0);
    assert_eq!(fresh[0].x, 1_900_000);
}

#[test]
fn sample_behind_new_origin_moves_to_stale_trace() {
    // after a sample at t = 2.1 s arrives, the origin advances to 2.0 s: the
    // old sample at 1.9 s goes stale but keeps its sweep position, the new
    // one is fresh near the left edge
    let ch = channel(&[(1_900_000, 0), (2_100_000, 0)]);
    let t0 = sweep_origin_of(2_100_000, W);
    assert_eq!(t0, 2_000_000);
    let (fresh, stale) = transform_channel(&ch, t0, W, 0, 25, 0, 1);
    assert_eq!(stale.len(), 1);
    assert_eq!(stale[0].x, 1_900_000);
    assert_eq!(fresh.len(), 1);
    assert_eq!(fresh[0].x, 100_000);
}

#[test]
fn sample_exactly_one_window_old_lands_on_right_edge() {
    let ch = channel(&[(0, 0), (2_000_000, 0)]);
    let t0 = sweep_origin_of(2_000_000, W);
    assert_eq!(t0, 2_000_000);
    let (fresh, stale) = transform_channel(&ch, t0, W, 0, 25, 0, 1);
    assert_eq!(stale.len(), 1);
    assert_eq!(stale[0].x, W);
    assert_eq!(fresh.len(), 1);
    assert_eq!(fresh[0].x, 0);
}

#[test]
fn fresh_positions_keep_sample_order() {
    let ch = channel(&[(4_100_000, 0), (4_400_000, 0), (4_700_000, 0)]);
    let t0 = sweep_origin_of(4_700_000, W);
    let (fresh, stale) = transform_channel(&ch, t0, W, 0, 25, 0, 1);
    assert_eq!(stale.len(), 0);
    assert_eq!(fresh.len(), 3);
    assert!(fresh[0].x < fresh[1].x);
    assert!(fresh[1].x < fresh[2].x);
}

#[test]
fn decimation_keeps_every_nth_point() {
    // 100 buffered samples at stride 4 yield exactly ceil(100 / 4) = 25
    // points, evenly strided, not averaged
    let entries: Vec<(i64, i64)> = (0..100).map(|i| (i * 10_000, i * 100)).collect();
    let ch = channel(&entries);
    let latest = 99 * 10_000;
    let t0 = sweep_origin_of(latest, W);
    assert_eq!(t0, 0);
    let (fresh, stale) = transform_channel(&ch, t0, W, 0, 25, 0, 4);
    assert_eq!(fresh.len() + stale.len(), 25);
    assert_eq!(stale.len(), 0);
    for (k, p) in fresh.iter().enumerate() {
        // the k-th point is sample 4k, untouched by its neighbors
        assert_eq!(p.x, (4 * k as i64) * 10_000);
    }
}

#[test]
fn decimation_count_rounds_up() {
    let entries: Vec<(i64, i64)> = (0..10).map(|i| (i * 1_000, 0)).collect();
    let ch = channel(&entries);
    let (fresh, stale) = transform_channel(&ch, 0, W, 0, 25, 0, 3);
    assert_eq!(fresh.len() + stale.len(), 4);
}

#[test]
fn vertical_position_applies_baseline_scale_and_slot() {
    // y = (value - baseline) * scale / 10_000 - slot * 1_000_000
    let ch = channel(&[(100, 10_000)]);
    let (fresh, _stale) = transform_channel(&ch, 0, W, 2_000, 100, 1, 1);
    assert_eq!(fresh.len(), 1);
    assert_eq!(fresh[0].y, (10_000 - 2_000) * 100 / 10_000 - 1_000_000);
    assert_eq!(fresh[0].y, -999_920);
}

#[test]
fn baseline_shifts_trace_to_zero() {
    let ch = channel(&[(100, 5_000), (200, 5_000)]);
    let (fresh, _stale) = transform_channel(&ch, 0, W, 5_000, 50, 0, 1);
    assert_eq!(fresh.len(), 2);
    assert_eq!(fresh[0].y, 0);
    assert_eq!(fresh[1].y, 0);
}
