use lsl_viewer::labels::{ch_label, dec_str, resolve_channel_names};
use lsl_viewer::msg::{Response, StreamDescriptor, StreamSample};
use lsl_viewer::view::{TimeWindow, ViewState};

fn descriptor(name: &str, channels: usize, rate_millihz: u64) -> StreamDescriptor {
    StreamDescriptor { name: name.to_string(), channel_count: channels, rate_millihz }
}

fn connect(v: &mut ViewState, name: &str, labels: &[&str]) {
    let chans: Vec<String> = labels.iter().map(|s| s.to_string()).collect();
    v.apply_response(Response::Connected(name.to_string(), chans));
}

#[test]
fn empty_discovery_reports_no_streams_found() {
    let mut v = ViewState::new();
    v.apply_response(Response::StreamsFound(Vec::new()));
    assert_eq!(v.status, "No streams found");
    assert!(v.available_streams.is_empty());
    assert!(!v.is_connected);
}

#[test]
fn discovery_count_is_reported() {
    let mut v = ViewState::new();
    let streams = vec![descriptor("A", 1, 0), descriptor("B", 8, 500_000)];
    v.apply_response(Response::StreamsFound(streams));
    assert_eq!(v.status, "Found 2 stream(s)");
    assert_eq!(v.available_streams.len(), 2);
}

#[test]
fn connecting_allocates_per_channel_state() {
    // a 4-channel, 256 Hz descriptor connected at index 0
    let mut v = ViewState::new();
    v.apply_response(Response::StreamsFound(vec![descriptor("X", 4, 256_000)]));
    let labels = resolve_channel_names(Vec::new(), 4);
    connect(&mut v, "X", &["Ch 0", "Ch 1", "Ch 2", "Ch 3"]);
    assert_eq!(labels.len(), 4);
    for (i, l) in labels.iter().enumerate() {
        assert_eq!(l, &format!("Ch {}", i));
    }
    assert!(v.is_connected);
    assert_eq!(v.channel_count, 4);
    assert_eq!(v.channel_names, vec!["Ch 0", "Ch 1", "Ch 2", "Ch 3"]);
    assert_eq!(v.selected_channels, vec![true; 4]);
    assert_eq!(v.baselines, vec![0i64; 4]);
    assert_eq!(v.buffers.channel_count(), 4);
    for c in 0..4 {
        assert_eq!(v.buffers.channel(c).len(), 0);
    }
    assert_eq!(v.status, "Connected to: X (4 channels)");
}

#[test]
fn disconnect_clears_connection_state() {
    let mut v = ViewState::new();
    connect(&mut v, "X", &["Ch 0"]);
    v.selected_stream = Some(0);
    v.apply_response(Response::Disconnected);
    assert!(!v.is_connected);
    assert_eq!(v.selected_stream, None);
    assert_eq!(v.status, "Disconnected");
}

#[test]
fn disconnect_discards_buffered_data() {
    let mut v = ViewState::new();
    connect(&mut v, "X", &["Ch 0", "Ch 1"]);
    v.apply_response(Response::Data(StreamSample { ts: 1_000, vals: vec![3, 4] }));
    assert_eq!(v.buffers.channel(0).len(), 1);
    v.apply_response(Response::Disconnected);
    // the buffer set lives only as long as the connection
    assert_eq!(v.buffers.channel_count(), 2);
    assert_eq!(v.buffers.channel(0).len(), 0);
    assert_eq!(v.buffers.channel(1).len(), 0);
}

#[test]
fn error_response_sets_status_line() {
    let mut v = ViewState::new();
    v.apply_response(Response::Error("bad".to_string()));
    assert_eq!(v.status, "Error: bad");
}

#[test]
fn data_is_appended_then_evicted_by_window() {
    let mut v = ViewState::new();
    connect(&mut v, "X", &["Ch 0"]);
    assert_eq!(v.window, TimeWindow::TwoSeconds);
    for (ts, val) in [(0i64, 10i64), (1_000_000, 20), (2_500_000, 30)] {
        let s = StreamSample { ts, vals: vec![val] };
        assert!(v.sample_admissible(&s));
        v.apply_response(Response::Data(s));
    }
    // the 2-second window at t = 2.5 s evicts the entry at t = 0
    let ch = v.buffers.channel(0);
    assert_eq!(ch.len(), 2);
    assert_eq!(ch[0].ts, 1_000_000);
    assert_eq!(ch[1].ts, 2_500_000);
}

#[test]
fn out_of_order_sample_is_inadmissible() {
    let mut v = ViewState::new();
    connect(&mut v, "X", &["Ch 0"]);
    v.apply_response(Response::Data(StreamSample { ts: 1_000, vals: vec![1] }));
    let stale = StreamSample { ts: 500, vals: vec![2] };
    assert!(!v.sample_admissible(&stale));
    let negative = StreamSample { ts: -1, vals: vec![2] };
    assert!(!v.sample_admissible(&negative));
}

#[test]
fn timestamp_range_boundaries_are_respected() {
    let mut v = ViewState::new();
    connect(&mut v, "X", &["Ch 0"]);
    let at_limit = StreamSample { ts: 1_000_000_000_000_000_000, vals: vec![1] };
    assert!(v.sample_admissible(&at_limit));
    let beyond = StreamSample { ts: 1_000_000_000_000_000_001, vals: vec![1] };
    assert!(!v.sample_admissible(&beyond));
    let huge_value = StreamSample { ts: 10, vals: vec![1_000_000_000_000_001] };
    assert!(!v.sample_admissible(&huge_value));
}

#[test]
fn sweep_wrap_triggers_baseline_recomputation() {
    let mut v = ViewState::new();
    connect(&mut v, "X", &["Ch 0"]);
    v.apply_response(Response::Data(StreamSample { ts: 100, vals: vec![1_000] }));
    assert_eq!(v.baselines, vec![0]);
    // the head moving right does not recompute
    v.observe_head(500_000);
    assert_eq!(v.baselines, vec![0]);
    // the head moving left marks a wrap: baselines refresh to the mean
    v.observe_head(100);
    assert_eq!(v.baselines, vec![1_000]);
}

#[test]
fn scale_change_recomputes_baselines() {
    let mut v = ViewState::new();
    connect(&mut v, "X", &["Ch 0"]);
    v.apply_response(Response::Data(StreamSample { ts: 100, vals: vec![800] }));
    v.set_scale(50);
    assert_eq!(v.scale, 50);
    assert_eq!(v.baselines, vec![800]);
}

#[test]
fn traces_cover_selected_nonempty_channels_with_slots() {
    let mut v = ViewState::new();
    connect(&mut v, "X", &["Ch 0", "Ch 1", "Ch 2"]);
    v.apply_response(Response::Data(StreamSample { ts: 1_000, vals: vec![1, 2, 3] }));
    let traces = v.make_traces();
    assert_eq!(traces.len(), 3);
    for (k, tr) in traces.iter().enumerate() {
        assert_eq!(tr.channel, k);
        assert_eq!(tr.slot, k);
        assert_eq!(tr.fresh.len(), 1);
        assert_eq!(tr.stale.len(), 0);
    }

    // deselecting the first channel drops its trace and shifts the slots
    v.set_channel_selected(0, false);
    let traces = v.make_traces();
    assert_eq!(traces.len(), 2);
    assert_eq!(traces[0].channel, 1);
    assert_eq!(traces[0].slot, 0);
    assert_eq!(traces[1].channel, 2);
    assert_eq!(traces[1].slot, 1);
}

#[test]
fn empty_channels_produce_no_trace() {
    let mut v = ViewState::new();
    connect(&mut v, "X", &["Ch 0", "Ch 1"]);
    v.apply_response(Response::Data(StreamSample { ts: 1_000, vals: vec![5] }));
    let traces = v.make_traces();
    assert_eq!(traces.len(), 1);
    assert_eq!(traces[0].channel, 0);
}

#[test]
fn decimal_rendering_is_exact() {
    assert_eq!(dec_str(0), "0");
    assert_eq!(dec_str(7), "7");
    assert_eq!(dec_str(10), "10");
    assert_eq!(dec_str(123), "123");
    assert_eq!(dec_str(100400), "100400");
}

#[test]
fn channel_labels_are_synthesized_with_indices() {
    assert_eq!(ch_label(0), "Ch 0");
    assert_eq!(ch_label(12), "Ch 12");
}

#[test]
fn metadata_labels_pass_through_when_counts_match() {
    let names = vec!["Fp1".to_string(), "Fp2".to_string()];
    let resolved = resolve_channel_names(names.clone(), 2);
    assert_eq!(resolved, names);
    // a count mismatch falls back to synthesized labels
    let resolved = resolve_channel_names(names, 3);
    assert_eq!(resolved, vec!["Ch 0", "Ch 1", "Ch 2"]);
}
