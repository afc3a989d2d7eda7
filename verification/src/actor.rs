//! The acquisition actor's command/response state machine.
//!
//! The actor owns the only handle to the stream adapter and runs on its own
//! execution context. Every decision it takes is the pure transition in this
//! module: from the current state and one event (a command, the result of an
//! adapter call, or a pulled batch) to the next state, the responses to
//! enqueue, and the next outside action to perform. The surrounding loop
//! performs the action — discovery, opening, pulling, sleeping — and feeds
//! the outcome back as the next event. Commands are drained before any pull
//! is considered, so control requests are never starved behind a producer.

use vstd::prelude::*;
use crate::msg::{Command, Response, StreamDescriptor, StreamSample};

verus! {

/// Connection state of the actor: no connection, or a connection with the
/// given channel count.
#[derive(Clone, Copy, PartialEq, Eq, Structural, Debug)]
pub enum ActorState {
    Idle,
    Connected(usize),
}

/// The outside work the actor's loop performs next.
#[derive(Clone, Copy, PartialEq, Eq, Structural, Debug)]
pub enum ActorAction {
    /// Run a bounded-timeout discovery scan.
    Discover,
    /// Open the stream at this index of the cached discovery result.
    Open(usize),
    /// Release the adapter handle.
    DropConnection,
    /// Pull the next chunk when connected, else yield briefly.
    Poll,
    /// The command queue closed: leave the loop.
    Stop,
}

/// One input to the actor: a command from the presentation side, the outcome
/// of an adapter call, or a pulled batch of samples.
pub enum ActorEvent {
    Command(Command),
    CommandQueueClosed,
    DiscoveryOk(Vec<StreamDescriptor>),
    DiscoveryFailed(String),
    OpenOk(String, Vec<String>),
    OpenFailed(String),
    Pulled(Vec<StreamSample>),
}

/// The acquisition actor: its connection state and the size of the cached
/// discovery result (the descriptors themselves stay with the adapter side).
#[derive(Clone, Copy, PartialEq, Eq, Structural, Debug)]
pub struct Actor {
    pub state: ActorState,
    pub discovered: usize,
}

/// Message text for a failed discovery scan.
pub open spec fn refresh_error_chars(m: Seq<char>) -> Seq<char> {
    "Failed to refresh streams: "@ + m
}

/// Message text for a failed connection attempt.
pub open spec fn connect_error_chars(m: Seq<char>) -> Seq<char> {
    "Failed to connect: "@ + m
}

/// One `Data` response per pulled sample, in arrival order.
pub open spec fn data_responses(samples: Seq<StreamSample>) -> Seq<Response> {
    Seq::new(samples.len(), |i: int| Response::Data(samples[i]))
}

/// The state after one step: deterministic in the event.
pub open spec fn next_state(pre: Actor, event: ActorEvent) -> Actor {
    match event {
        ActorEvent::Command(Command::Disconnect) => Actor {
            state: ActorState::Idle,
            discovered: pre.discovered,
        },
        ActorEvent::DiscoveryOk(streams) => Actor {
            state: pre.state,
            discovered: streams@.len() as usize,
        },
        ActorEvent::OpenOk(_name, labels) => Actor {
            state: ActorState::Connected(labels@.len() as usize),
            discovered: pre.discovered,
        },
        _ => pre,
    }
}

/// The outside action after one step: deterministic in the event.
pub open spec fn next_action(pre: Actor, event: ActorEvent) -> ActorAction {
    match event {
        ActorEvent::Command(Command::RefreshStreams) => ActorAction::Discover,
        ActorEvent::Command(Command::Connect(i)) => if i < pre.discovered {
            ActorAction::Open(i)
        } else {
            ActorAction::Poll
        },
        ActorEvent::Command(Command::Disconnect) => ActorAction::DropConnection,
        ActorEvent::CommandQueueClosed => ActorAction::Stop,
        _ => ActorAction::Poll,
    }
}

/// The exact responses one step enqueues, with built message strings pinned
/// by their character content.
pub open spec fn responses_ok(pre: Actor, event: ActorEvent, rs: Seq<Response>) -> bool {
    match event {
        ActorEvent::Command(Command::RefreshStreams) => rs.len() == 0,
        ActorEvent::Command(Command::Connect(i)) => if i < pre.discovered {
            rs.len() == 0
        } else {
            rs.len() == 1 && (rs[0] matches Response::Error(t) && t@ == "Invalid stream index"@)
        },
        ActorEvent::Command(Command::Disconnect) => rs.len() == 1 && rs[0]
            == Response::Disconnected,
        ActorEvent::CommandQueueClosed => rs.len() == 0,
        ActorEvent::DiscoveryOk(streams) => rs.len() == 1 && rs[0] == Response::StreamsFound(
            streams,
        ),
        ActorEvent::DiscoveryFailed(m) => rs.len() == 1 && (rs[0] matches Response::Error(t) && t@
            == refresh_error_chars(m@)),
        ActorEvent::OpenOk(name, labels) => rs.len() == 1 && rs[0] == Response::Connected(
            name,
            labels,
        ),
        ActorEvent::OpenFailed(m) => rs.len() == 1 && (rs[0] matches Response::Error(t) && t@
            == connect_error_chars(m@)),
        ActorEvent::Pulled(samples) => if pre.state matches ActorState::Connected(_) {
            rs == data_responses(samples@)
        } else {
            rs.len() == 0
        },
    }
}

impl Actor {
    /// A fresh actor: idle, with an empty discovery cache.
    pub fn new() -> (a: Actor)
        ensures
            a.state == ActorState::Idle,
            a.discovered == 0,
    {
        Actor { state: ActorState::Idle, discovered: 0 }
    }

    /// Process one event: update the state, produce the responses to
    /// enqueue, and name the next outside action.
    pub fn step(&mut self, event: ActorEvent) -> (out: (Vec<Response>, ActorAction))
        ensures
            *final(self) == next_state(*old(self), event),
            out.1 == next_action(*old(self), event),
            responses_ok(*old(self), event, out.0@),
    {
        let mut rs: Vec<Response> = Vec::new();
        let action: ActorAction = match event {
            ActorEvent::Command(Command::RefreshStreams) => ActorAction::Discover,
            ActorEvent::Command(Command::Connect(i)) => {
                if i < self.discovered {
                    ActorAction::Open(i)
                } else {
                    rs.push(Response::Error(String::from_str("Invalid stream index")));
                    ActorAction::Poll
                }
            },
            ActorEvent::Command(Command::Disconnect) => {
                self.state = ActorState::Idle;
                rs.push(Response::Disconnected);
                ActorAction::DropConnection
            },
            ActorEvent::CommandQueueClosed => ActorAction::Stop,
            ActorEvent::DiscoveryOk(streams) => {
                self.discovered = streams.len();
                rs.push(Response::StreamsFound(streams));
                ActorAction::Poll
            },
            ActorEvent::DiscoveryFailed(m) => {
                let t = String::from_str("Failed to refresh streams: ").concat(m.as_str());
                rs.push(Response::Error(t));
                ActorAction::Poll
            },
            ActorEvent::OpenOk(name, labels) => {
                self.state = ActorState::Connected(labels.len());
                rs.push(Response::Connected(name, labels));
                ActorAction::Poll
            },
            ActorEvent::OpenFailed(m) => {
                let t = String::from_str("Failed to connect: ").concat(m.as_str());
                rs.push(Response::Error(t));
                ActorAction::Poll
            },
            ActorEvent::Pulled(samples) => {
                let connected = match self.state {
                    ActorState::Connected(_) => true,
                    ActorState::Idle => false,
                };
                if connected {
                    let mut rest = samples;
                    let ghost orig = rest@;
                    while rest.len() > 0
                        invariant
                            rest@.len() <= orig.len(),
                            rest@ == orig.skip(orig.len() - rest@.len()),
                            rs@ == data_responses(orig.take(orig.len() - rest@.len())),
                        decreases rest@.len(),
                    {
                        let ghost k = orig.len() - rest@.len();
                        let s = rest.remove(0);
                        proof {
                            assert(s == orig[k]);
                            assert(rest@ =~= orig.skip(k + 1));
                            assert(rs@.push(Response::Data(s)) =~= data_responses(
                                orig.take(k + 1),
                            ));
                        }
                        rs.push(Response::Data(s));
                    }
                    proof {
                        assert(orig.take(orig.len() as int) =~= orig);
                    }
                }
                ActorAction::Poll
            },
        };
        (rs, action)
    }
}

/// The state after a whole run of events, applied oldest first.
pub open spec fn run_state(s0: Actor, events: Seq<ActorEvent>) -> Actor
    decreases events.len(),
{
    if events.len() == 0 {
        s0
    } else {
        next_state(run_state(s0, events.drop_last()), events.last())
    }
}

/// In the idle state no step emits stream data.
pub proof fn lemma_idle_emits_no_data(pre: Actor, event: ActorEvent, rs: Seq<Response>)
    requires
        pre.state == ActorState::Idle,
        responses_ok(pre, event, rs),
    ensures
        forall|j: int| 0 <= j < rs.len() ==> !(#[trigger] rs[j]).is_data(),
{
}

/// Command priority law: processing `Disconnect` leaves the actor idle at
/// once, with `Disconnected` its only response; from there, no run of events
/// without a successful open ever emits a `Data` response, however many
/// pulled batches were still queued behind the command.
pub proof fn lemma_command_priority(s0: Actor, events: Seq<ActorEvent>)
    requires
        s0.state == ActorState::Idle,
        forall|i: int| 0 <= i < events.len() ==> !((#[trigger] events[i]) matches
            ActorEvent::OpenOk(_, _)),
    ensures
        run_state(s0, events).state == ActorState::Idle,
        forall|i: int, rs: Seq<Response>|
            0 <= i < events.len() && #[trigger] responses_ok(run_state(s0, events.take(i)), events[i], rs)
                ==> forall|j: int| 0 <= j < rs.len() ==> !(#[trigger] rs[j]).is_data(),
    decreases events.len(),
{
    if events.len() > 0 {
        let init = events.drop_last();
        assert forall|i: int| 0 <= i < init.len() implies !((#[trigger] init[i]) matches
            ActorEvent::OpenOk(_, _)) by {
            assert(init[i] == events[i]);
        }
        lemma_command_priority(s0, init);
        assert(run_state(s0, events).state == ActorState::Idle);
        assert forall|i: int, rs: Seq<Response>|
            0 <= i < events.len() && #[trigger] responses_ok(run_state(s0, events.take(i)), events[i], rs)
            implies forall|j: int| 0 <= j < rs.len() ==> !(#[trigger] rs[j]).is_data() by {
            assert(events.take(i) =~= if i < events.len() - 1 {
                init.take(i)
            } else {
                init
            });
            assert(run_state(s0, events.take(i)).state == ActorState::Idle) by {
                if i < events.len() - 1 {
                    lemma_command_priority(s0, init.take(i));
                    assert forall|t: int| 0 <= t < init.take(i).len() implies !((
                    #[trigger] init.take(i)[t]) matches ActorEvent::OpenOk(_, _)) by {
                        assert(init.take(i)[t] == events[t]);
                    }
                }
            }
            lemma_idle_emits_no_data(run_state(s0, events.take(i)), events[i], rs);
        }
    }
}

/// Processing `Disconnect` answers with exactly one `Disconnected` response
/// and leaves the actor idle.
pub proof fn lemma_disconnect_immediate(pre: Actor, rs: Seq<Response>)
    requires
        responses_ok(pre, ActorEvent::Command(Command::Disconnect), rs),
    ensures
        next_state(pre, ActorEvent::Command(Command::Disconnect)).state == ActorState::Idle,
        rs.len() == 1,
        rs[0] == Response::Disconnected,
{
}

} // verus!
