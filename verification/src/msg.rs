//! Data model and the command/response envelope that crosses the actor
//! boundary.
//!
//! All communication between the acquisition side and the presentation side
//! is by value through these types; no memory is shared.

use vstd::prelude::*;
use crate::units::{valid_ts, valid_value};

verus! {

/// One buffered observation of a single channel: a timestamp in ticks and a
/// value in micro-units.
#[derive(Clone, Copy, PartialEq, Eq, Structural, Debug)]
pub struct TimedValue {
    pub ts: i64,
    pub val: i64,
}

/// A `TimedValue` whose fields lie in the ranges the engine computes on.
pub open spec fn entry_ok(e: TimedValue) -> bool {
    valid_ts(e.ts) && valid_value(e.val)
}

/// One multi-channel observation delivered by the stream source: an absolute
/// timestamp and one value per connected channel, in channel order.
#[derive(Clone, Debug)]
pub struct StreamSample {
    pub ts: i64,
    pub vals: Vec<i64>,
}

impl StreamSample {
    /// Field ranges under which the engine accepts the sample.
    pub open spec fn ok(self) -> bool {
        valid_ts(self.ts) && forall|i: int|
            0 <= i < self.vals@.len() ==> valid_value(#[trigger] self.vals@[i])
    }
}

/// Identity of a discovered source: display name, channel count, and nominal
/// sample rate in millihertz (0 means irregular or unknown). Superseded
/// wholesale on each discovery refresh.
#[derive(Clone, Debug)]
pub struct StreamDescriptor {
    pub name: String,
    pub channel_count: usize,
    pub rate_millihz: u64,
}

/// Control messages from the presentation side to the acquisition actor.
#[derive(Clone, Copy, PartialEq, Eq, Structural, Debug)]
pub enum Command {
    /// Re-run discovery and report what was found.
    RefreshStreams,
    /// Connect to the stream at this index of the latest discovery result.
    Connect(usize),
    /// Drop the current connection.
    Disconnect,
}

/// Messages from the acquisition actor back to the presentation side.
pub enum Response {
    /// The complete result of a discovery scan.
    StreamsFound(Vec<StreamDescriptor>),
    /// A connection was established: stream name and per-channel labels.
    Connected(String, Vec<String>),
    /// The connection was dropped on request.
    Disconnected,
    /// Discovery or connection failed; the payload is a display message.
    Error(String),
    /// One sample pulled from the connected stream.
    Data(StreamSample),
}

impl Response {
    /// True of the responses that carry stream data.
    pub open spec fn is_data(self) -> bool {
        self matches Response::Data(_)
    }
}

} // verus!
