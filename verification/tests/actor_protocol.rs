use lsl_viewer::actor::{Actor, ActorAction, ActorEvent, ActorState};
use lsl_viewer::msg::{Command, Response, StreamDescriptor, StreamSample};

fn descriptor(name: &str, channels: usize, rate_millihz: u64) -> StreamDescriptor {
    StreamDescriptor { name: name.to_string(), channel_count: channels, rate_millihz }
}

#[test]
fn refresh_command_triggers_discovery() {
    let mut a = Actor::new();
    let (rs, action) = a.step(ActorEvent::Command(Command::RefreshStreams));
    assert!(rs.is_empty());
    assert_eq!(action, ActorAction::Discover);
    assert_eq!(a.state, ActorState::Idle);
}

#[test]
fn discovery_result_is_forwarded_wholesale() {
    let mut a = Actor::new();
    let streams = vec![descriptor("X", 4, 256_000), descriptor("Y", 2, 0)];
    let (rs, action) = a.step(ActorEvent::DiscoveryOk(streams));
    assert_eq!(action, ActorAction::Poll);
    assert_eq!(a.discovered, 2);
    assert_eq!(rs.len(), 1);
    match &rs[0] {
        Response::StreamsFound(found) => {
            assert_eq!(found.len(), 2);
            assert_eq!(found[0].name, "X");
            assert_eq!(found[0].channel_count, 4);
            assert_eq!(found[0].rate_millihz, 256_000);
            assert_eq!(found[1].name, "Y");
        },
        _ => panic!("expected StreamsFound"),
    }
}

#[test]
fn discovery_failure_surfaces_as_error() {
    let mut a = Actor::new();
    let (rs, _) = a.step(ActorEvent::DiscoveryFailed("boom".to_string()));
    assert_eq!(rs.len(), 1);
    match &rs[0] {
        Response::Error(m) => assert_eq!(m, "Failed to refresh streams: boom"),
        _ => panic!("expected Error"),
    }
}

#[test]
fn connect_with_invalid_index_is_rejected() {
    let mut a = Actor::new();
    let (rs, action) = a.step(ActorEvent::Command(Command::Connect(0)));
    assert_eq!(action, ActorAction::Poll);
    assert_eq!(a.state, ActorState::Idle);
    assert_eq!(rs.len(), 1);
    match &rs[0] {
        Response::Error(m) => assert_eq!(m, "Invalid stream index"),
        _ => panic!("expected Error"),
    }
}

#[test]
fn connect_flow_reaches_connected_state() {
    let mut a = Actor::new();
    let (_, _) = a.step(ActorEvent::DiscoveryOk(vec![descriptor("X", 4, 256_000)]));
    let (rs, action) = a.step(ActorEvent::Command(Command::Connect(0)));
    assert!(rs.is_empty());
    assert_eq!(action, ActorAction::Open(0));
    let labels = vec!["Ch 0".to_string(), "Ch 1".to_string(), "Ch 2".to_string(),
        "Ch 3".to_string()];
    let (rs, action) = a.step(ActorEvent::OpenOk("X".to_string(), labels));
    assert_eq!(action, ActorAction::Poll);
    assert_eq!(a.state, ActorState::Connected(4));
    assert_eq!(rs.len(), 1);
    match &rs[0] {
        Response::Connected(name, chans) => {
            assert_eq!(name, "X");
            assert_eq!(chans.len(), 4);
            assert_eq!(chans[0], "Ch 0");
            assert_eq!(chans[3], "Ch 3");
        },
        _ => panic!("expected Connected"),
    }
}

#[test]
fn connect_failure_keeps_previous_state() {
    let mut a = Actor::new();
    let (_, _) = a.step(ActorEvent::DiscoveryOk(vec![descriptor("X", 4, 0)]));
    let (rs, _) = a.step(ActorEvent::OpenFailed("nope".to_string()));
    assert_eq!(a.state, ActorState::Idle);
    match &rs[0] {
        Response::Error(m) => assert_eq!(m, "Failed to connect: nope"),
        _ => panic!("expected Error"),
    }
}

#[test]
fn pulled_samples_become_data_responses_in_order() {
    let mut a = Actor::new();
    let (_, _) = a.step(ActorEvent::OpenOk("X".to_string(), vec!["Ch 0".to_string()]));
    let batch = vec![
        StreamSample { ts: 100, vals: vec![1] },
        StreamSample { ts: 200, vals: vec![2] },
        StreamSample { ts: 300, vals: vec![3] },
    ];
    let (rs, action) = a.step(ActorEvent::Pulled(batch));
    assert_eq!(action, ActorAction::Poll);
    assert_eq!(rs.len(), 3);
    let expected = [(100, 1), (200, 2), (300, 3)];
    for (r, &(ts, val)) in rs.iter().zip(expected.iter()) {
        match r {
            Response::Data(s) => {
                assert_eq!(s.ts, ts);
                assert_eq!(s.vals, vec![val]);
            },
            _ => panic!("expected Data"),
        }
    }
}

#[test]
fn disconnect_answers_at_once_and_silences_pending_pulls() {
    // a disconnect burst: the command is processed first, and batches that
    // were still queued behind it produce no further data
    let mut a = Actor::new();
    let (_, _) = a.step(ActorEvent::OpenOk("X".to_string(), vec!["Ch 0".to_string()]));
    assert_eq!(a.state, ActorState::Connected(1));

    let (rs, action) = a.step(ActorEvent::Command(Command::Disconnect));
    assert_eq!(action, ActorAction::DropConnection);
    assert_eq!(a.state, ActorState::Idle);
    assert_eq!(rs.len(), 1);
    assert!(matches!(rs[0], Response::Disconnected));

    for _ in 0..3 {
        let batch = vec![StreamSample { ts: 500, vals: vec![9] }];
        let (rs, action) = a.step(ActorEvent::Pulled(batch));
        assert_eq!(action, ActorAction::Poll);
        assert!(rs.is_empty());
    }
}

#[test]
fn closed_command_queue_stops_the_actor() {
    let mut a = Actor::new();
    let (rs, action) = a.step(ActorEvent::CommandQueueClosed);
    assert!(rs.is_empty());
    assert_eq!(action, ActorAction::Stop);
}
