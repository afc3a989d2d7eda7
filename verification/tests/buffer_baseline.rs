use lsl_viewer::baseline::compute;
use lsl_viewer::buffer::BufferStore;
use lsl_viewer::msg::StreamSample;

fn sample(ts: i64, vals: Vec<i64>) -> StreamSample {
    StreamSample { ts, vals }
}

#[test]
fn evict_removes_only_older_entries() {
    let mut store = BufferStore::new();
    store.reset(1);
    store.append(&sample(0, vec![5]));
    store.append(&sample(1_000_000, vec![6]));
    store.append(&sample(2_000_000, vec![7]));
    // cutoff is 2_000_000 - 1_000_000: the entry at 0 goes, the entry exactly
    // at the cutoff stays
    store.evict(2_000_000, 1_000_000);
    let ch = store.channel(0);
    assert_eq!(ch.len(), 2);
    assert_eq!(ch[0].ts, 1_000_000);
    assert_eq!(ch[0].val, 6);
    assert_eq!(ch[1].ts, 2_000_000);
    assert_eq!(ch[1].val, 7);
}

#[test]
fn evict_on_empty_store_is_harmless() {
    let mut store = BufferStore::new();
    store.reset(3);
    store.evict(5_000_000, 2_000_000);
    for c in 0..3 {
        assert_eq!(store.channel(c).len(), 0);
    }
}

#[test]
fn append_ignores_values_beyond_channel_count() {
    let mut store = BufferStore::new();
    store.reset(2);
    store.append(&sample(10, vec![1, 2, 3]));
    assert_eq!(store.channel_count(), 2);
    assert_eq!(store.channel(0).len(), 1);
    assert_eq!(store.channel(1).len(), 1);
    assert_eq!(store.channel(0)[0].val, 1);
    assert_eq!(store.channel(1)[0].val, 2);
}

#[test]
fn append_leaves_channels_beyond_sample_untouched() {
    let mut store = BufferStore::new();
    store.reset(3);
    store.append(&sample(10, vec![1, 2]));
    assert_eq!(store.channel(0).len(), 1);
    assert_eq!(store.channel(1).len(), 1);
    assert_eq!(store.channel(2).len(), 0);
}

#[test]
fn latest_timestamp_of_empty_store_is_zero() {
    let mut store = BufferStore::new();
    assert_eq!(store.latest_timestamp(), 0);
    store.reset(2);
    assert_eq!(store.latest_timestamp(), 0);
}

#[test]
fn latest_timestamp_is_max_across_channels() {
    let mut store = BufferStore::new();
    store.reset(2);
    store.append(&sample(100, vec![0, 0]));
    store.append(&sample(250, vec![0]));
    // only channel 0 received the sample at 250
    assert_eq!(store.latest_timestamp(), 250);
}

#[test]
fn window_eviction_bounds_buffer_length() {
    // one channel sampled every 3906 ticks (about 256 Hz): after eviction a
    // 2-second window holds at most 2_000_000 / 3906 + 1 = 513 entries
    let mut store = BufferStore::new();
    store.reset(1);
    let mut ts: i64 = 0;
    for _ in 0..900 {
        store.append(&sample(ts, vec![1]));
        store.evict(ts, 2_000_000);
        ts += 3906;
    }
    assert!(store.channel(0).len() <= 513);
}

#[test]
fn baseline_is_exact_mean() {
    let mut store = BufferStore::new();
    store.reset(1);
    store.append(&sample(0, vec![10]));
    store.append(&sample(1, vec![20]));
    store.append(&sample(2, vec![30]));
    let mut baselines = vec![0i64];
    compute(&store, &mut baselines);
    assert_eq!(baselines, vec![20]);
}

#[test]
fn baseline_mean_rounds_toward_negative_infinity() {
    let mut store = BufferStore::new();
    store.reset(1);
    store.append(&sample(0, vec![-3]));
    store.append(&sample(1, vec![-4]));
    let mut baselines = vec![0i64];
    compute(&store, &mut baselines);
    assert_eq!(baselines, vec![-4]);
}

#[test]
fn baseline_recompute_is_idempotent() {
    let mut store = BufferStore::new();
    store.reset(3);
    store.append(&sample(0, vec![7, -13]));
    store.append(&sample(5, vec![9, -14]));
    // channel 2 stays empty
    let mut first = vec![100i64, 100, 100];
    compute(&store, &mut first);
    let mut second = first.clone();
    compute(&store, &mut second);
    assert_eq!(first, second);
    assert_eq!(first, vec![8, -14, 100]);
}

#[test]
fn baseline_of_empty_channel_keeps_previous_value() {
    let mut store = BufferStore::new();
    store.reset(2);
    store.append(&sample(0, vec![42]));
    let mut baselines = vec![0i64, 17];
    compute(&store, &mut baselines);
    assert_eq!(baselines, vec![42, 17]);
}
