//! Presentation-side state and its update logic.
//!
//! The view owns the channel buffers, the baselines and the display
//! parameters. It consumes the actor's responses one by one — never blocking,
//! in arrival order — and offers the per-redraw trace computation. Nothing
//! here touches the adapter; the rendering layer reads the produced traces.

use vstd::prelude::*;
use crate::baseline;
use crate::baseline::baseline_after;
use crate::buffer::{drop_older, latest_ts, lemma_latest_ts_bounds, BufferStore};
use crate::labels::dec_digits;
use crate::msg::{Response, StreamDescriptor, StreamSample, TimedValue};
use crate::transform::{
    sweep_head, sweep_origin, sweep_origin_of, sweep_head_of, strided, trace_of, transform_channel,
    PlotPoint,
};
use crate::units::{valid_scale, valid_value, valid_window, MAX_CHANNELS, MAX_TICKS,
    TICKS_PER_SECOND};

verus! {

/// The fixed set of selectable display window lengths.
#[derive(Clone, Copy, PartialEq, Eq, Structural, Debug)]
pub enum TimeWindow {
    OneSecond,
    TwoSeconds,
    FiveSeconds,
    TenSeconds,
}

impl TimeWindow {
    /// Window length in ticks.
    pub open spec fn ticks_spec(self) -> int {
        match self {
            TimeWindow::OneSecond => 1 * TICKS_PER_SECOND,
            TimeWindow::TwoSeconds => 2 * TICKS_PER_SECOND,
            TimeWindow::FiveSeconds => 5 * TICKS_PER_SECOND,
            TimeWindow::TenSeconds => 10 * TICKS_PER_SECOND,
        }
    }

    /// Window length in ticks.
    pub fn ticks(self) -> (t: i64)
        ensures
            t == self.ticks_spec(),
            valid_window(t),
    {
        match self {
            TimeWindow::OneSecond => 1 * TICKS_PER_SECOND,
            TimeWindow::TwoSeconds => 2 * TICKS_PER_SECOND,
            TimeWindow::FiveSeconds => 5 * TICKS_PER_SECOND,
            TimeWindow::TenSeconds => 10 * TICKS_PER_SECOND,
        }
    }
}

/// Status line after a discovery that found `n > 0` streams.
pub open spec fn found_chars(n: int) -> Seq<char> {
    "Found "@ + dec_digits(n) + " stream(s)"@
}

/// Status line after connecting to stream `name` with `n` channels.
pub open spec fn connected_chars(name: Seq<char>, n: int) -> Seq<char> {
    "Connected to: "@ + name + " ("@ + dec_digits(n) + " channels)"@
}

/// Status line surfacing an actor error message.
pub open spec fn error_chars(m: Seq<char>) -> Seq<char> {
    "Error: "@ + m
}

/// Presentation-side state: connection bookkeeping, buffers, baselines and
/// display parameters. Mutated only by the presentation context.
pub struct ViewState {
    pub available_streams: Vec<StreamDescriptor>,
    pub selected_stream: Option<usize>,
    pub is_connected: bool,
    pub channel_names: Vec<String>,
    pub channel_count: usize,
    pub selected_channels: Vec<bool>,
    pub scale: i64,
    pub window: TimeWindow,
    pub stride: usize,
    pub buffers: BufferStore,
    pub baselines: Vec<i64>,
    pub status: String,
    pub last_head: i64,
}

impl ViewState {
    /// Internal consistency: one buffer, one baseline, one selection flag and
    /// one name per channel, with every parameter in its accepted range.
    pub open spec fn wf(self) -> bool {
        &&& self.buffers.wf()
        &&& self.buffers@.len() == self.channel_count
        &&& self.selected_channels@.len() == self.channel_count
        &&& self.baselines@.len() == self.channel_count
        &&& self.channel_names@.len() == self.channel_count
        &&& self.channel_count <= MAX_CHANNELS
        &&& valid_scale(self.scale)
        &&& self.stride >= 1
        &&& forall|c: int|
            0 <= c < self.channel_count ==> valid_value(#[trigger] self.baselines@[c])
    }

    /// The initial view: no streams, no connection, default display
    /// parameters.
    pub fn new() -> (v: ViewState)
        ensures
            v.wf(),
            v.available_streams@.len() == 0,
            v.selected_stream is None,
            !v.is_connected,
            v.channel_count == 0,
            v.scale == 25,
            v.window == TimeWindow::TwoSeconds,
            v.stride == 1,
            v.status@ == Seq::<char>::empty(),
            v.last_head == 0,
    {
        ViewState {
            available_streams: Vec::new(),
            selected_stream: None,
            is_connected: false,
            channel_names: Vec::new(),
            channel_count: 0,
            selected_channels: Vec::new(),
            scale: 25,
            window: TimeWindow::TwoSeconds,
            stride: 1,
            buffers: BufferStore::new(),
            baselines: Vec::new(),
            status: String::new(),
            last_head: 0,
        }
    }

    /// Whether the engine accepts `s` as the next sample: its fields are in
    /// range and its timestamp does not precede anything already buffered.
    pub fn sample_admissible(&self, s: &StreamSample) -> (r: bool)
        ensures
            r == (s.ok() && (forall|c: int|
                0 <= c < self.buffers@.len() && (#[trigger] self.buffers@[c]).len() > 0
                    ==> self.buffers@[c].last().ts <= s.ts)),
    {
        if s.ts < 0 || s.ts > MAX_TICKS {
            return false;
        }
        let nv = s.vals.len();
        let mut i: usize = 0;
        while i < nv
            invariant
                i <= nv,
                nv == s.vals@.len(),
                0 <= s.ts <= MAX_TICKS,
                forall|j: int| 0 <= j < i ==> valid_value(#[trigger] s.vals@[j]),
            decreases nv - i,
        {
            let v = s.vals[i];
            if v < -crate::units::MAX_ABS_VALUE || v > crate::units::MAX_ABS_VALUE {
                return false;
            }
            i += 1;
        }
        let nc = self.buffers.channel_count();
        let mut c: usize = 0;
        while c < nc
            invariant
                c <= nc,
                nc == self.buffers@.len(),
                forall|k: int|
                    0 <= k < c && (#[trigger] self.buffers@[k]).len() > 0
                        ==> self.buffers@[k].last().ts <= s.ts,
            decreases nc - c,
        {
            let ch = self.buffers.channel(c);
            let len = ch.len();
            if len > 0 {
                let last = ch[len - 1];
                if last.ts > s.ts {
                    return false;
                }
            }
            c += 1;
        }
        true
    }

    /// Apply one actor response to the view, exactly as it arrives:
    /// discovery results replace the stream list wholesale, a connection
    /// allocates fresh per-channel state, a disconnect discards what the
    /// buffers held, data is appended and then evicted at the sample's own
    /// timestamp, and every outcome updates the status line.
    pub fn apply_response(&mut self, r: Response)
        requires
            old(self).wf(),
            r matches Response::Data(s) ==> s.ok() && (forall|c: int|
                0 <= c < old(self).buffers@.len() && (#[trigger] old(self).buffers@[c]).len() > 0
                    ==> old(self).buffers@[c].last().ts <= s.ts),
            r matches Response::Connected(n, chans) ==> chans@.len() <= MAX_CHANNELS,
        ensures
            final(self).wf(),
            final(self).scale == old(self).scale,
            final(self).window == old(self).window,
            final(self).stride == old(self).stride,
            final(self).last_head == old(self).last_head,
            match r {
                Response::StreamsFound(streams) => {
                    &&& final(self).available_streams == streams
                    &&& final(self).status@ == (if streams@.len() == 0 {
                        "No streams found"@
                    } else {
                        found_chars(streams@.len() as int)
                    })
                    &&& final(self).is_connected == old(self).is_connected
                    &&& final(self).selected_stream == old(self).selected_stream
                    &&& final(self).channel_count == old(self).channel_count
                    &&& final(self).channel_names == old(self).channel_names
                    &&& final(self).selected_channels == old(self).selected_channels
                    &&& final(self).buffers@ == old(self).buffers@
                    &&& final(self).baselines == old(self).baselines
                },
                Response::Connected(name, chans) => {
                    &&& final(self).channel_count == chans@.len()
                    &&& final(self).channel_names == chans
                    &&& final(self).selected_channels@.len() == chans@.len()
                    &&& (forall|c: int|
                        0 <= c < chans@.len() ==> #[trigger] final(self).selected_channels@[c])
                    &&& final(self).buffers@.len() == chans@.len()
                    &&& (forall|c: int|
                        0 <= c < chans@.len() ==> (#[trigger] final(self).buffers@[c]).len() == 0)
                    &&& final(self).baselines@.len() == chans@.len()
                    &&& (forall|c: int|
                        0 <= c < chans@.len() ==> #[trigger] final(self).baselines@[c] == 0)
                    &&& final(self).is_connected
                    &&& final(self).status@ == connected_chars(name@, chans@.len() as int)
                    &&& final(self).available_streams == old(self).available_streams
                    &&& final(self).selected_stream == old(self).selected_stream
                },
                Response::Disconnected => {
                    &&& !final(self).is_connected
                    &&& final(self).selected_stream is None
                    &&& final(self).status@ == "Disconnected"@
                    &&& final(self).available_streams == old(self).available_streams
                    &&& final(self).channel_count == old(self).channel_count
                    &&& final(self).channel_names == old(self).channel_names
                    &&& final(self).selected_channels == old(self).selected_channels
                    &&& final(self).buffers@.len() == old(self).buffers@.len()
                    &&& (forall|c: int|
                        0 <= c < old(self).buffers@.len()
                            ==> (#[trigger] final(self).buffers@[c]).len() == 0)
                    &&& final(self).baselines == old(self).baselines
                },
                Response::Error(m) => {
                    &&& final(self).status@ == error_chars(m@)
                    &&& final(self).is_connected == old(self).is_connected
                    &&& final(self).selected_stream == old(self).selected_stream
                    &&& final(self).available_streams == old(self).available_streams
                    &&& final(self).channel_count == old(self).channel_count
                    &&& final(self).channel_names == old(self).channel_names
                    &&& final(self).selected_channels == old(self).selected_channels
                    &&& final(self).buffers@ == old(self).buffers@
                    &&& final(self).baselines == old(self).baselines
                },
                Response::Data(s) => {
                    &&& final(self).buffers@.len() == old(self).buffers@.len()
                    &&& (forall|c: int|
                        0 <= c < old(self).buffers@.len() ==> final(self).buffers@[c]
                            == drop_older(
                            (if c < s.vals@.len() {
                                old(self).buffers@[c].push(
                                    (TimedValue { ts: s.ts, val: s.vals@[c] }),
                                )
                            } else {
                                old(self).buffers@[c]
                            }),
                            s.ts - old(self).window.ticks_spec(),
                        ))
                    &&& final(self).status == old(self).status
                    &&& final(self).is_connected == old(self).is_connected
                    &&& final(self).selected_stream == old(self).selected_stream
                    &&& final(self).available_streams == old(self).available_streams
                    &&& final(self).channel_count == old(self).channel_count
                    &&& final(self).channel_names == old(self).channel_names
                    &&& final(self).selected_channels == old(self).selected_channels
                    &&& final(self).baselines == old(self).baselines
                },
            },
    {
        match r {
            Response::StreamsFound(streams) => {
                let n = streams.len();
                self.available_streams = streams;
                if n == 0 {
                    self.status = String::from_str("No streams found");
                } else {
                    let msg = String::from_str("Found ").concat(
                        crate::labels::dec_str(n).as_str(),
                    ).concat(" stream(s)");
                    proof {
                        assert(msg@ =~= found_chars(n as int));
                    }
                    self.status = msg;
                }
            },
            Response::Connected(name, chans) => {
                let n = chans.len();
                let msg = String::from_str("Connected to: ").concat(name.as_str()).concat(
                    " (",
                ).concat(crate::labels::dec_str(n).as_str()).concat(" channels)");
                proof {
                    assert(msg@ =~= connected_chars(name@, n as int));
                }
                self.channel_count = n;
                self.channel_names = chans;
                self.selected_channels = filled_bools(n);
                self.buffers.reset(n);
                self.baselines = filled_zeros(n);
                self.is_connected = true;
                self.status = msg;
            },
            Response::Disconnected => {
                self.is_connected = false;
                self.selected_stream = None;
                // the buffer set lives only as long as the connection: what
                // was buffered is discarded with it
                let n = self.buffers.channel_count();
                self.buffers.reset(n);
                self.status = String::from_str("Disconnected");
            },
            Response::Error(m) => {
                let msg = String::from_str("Error: ").concat(m.as_str());
                self.status = msg;
            },
            Response::Data(s) => {
                let w = self.window.ticks();
                self.buffers.append(&s);
                self.buffers.evict(s.ts, w);
            },
        }
    }
}

/// Slot of channel `c` on the display: its 0-based rank among the currently
/// selected channels.
pub open spec fn slot_rank(sel: Seq<bool>, c: int) -> int
    decreases c,
{
    if c <= 0 {
        0
    } else {
        slot_rank(sel, c - 1) + if 0 <= c - 1 < sel.len() && sel[c - 1] {
            1int
        } else {
            0int
        }
    }
}

/// The rank of a channel never exceeds its index.
proof fn lemma_slot_rank_le(sel: Seq<bool>, c: int)
    ensures
        0 <= slot_rank(sel, c) <= (if c >= 0 { c } else { 0 }),
    decreases c,
{
    if c > 0 {
        lemma_slot_rank_le(sel, c - 1);
    }
}

/// The traces of one channel for the current redraw: which channel, its
/// vertical slot, and the fresh and stale point runs.
pub struct ChannelTrace {
    pub channel: usize,
    pub slot: usize,
    pub fresh: Vec<PlotPoint>,
    pub stale: Vec<PlotPoint>,
}

impl ViewState {
    /// Recompute every baseline from the current buffers; empty channels
    /// keep their previous baseline.
    pub fn baseline_correct(&mut self)
        requires
            old(self).wf(),
        ensures
            final(self).wf(),
            final(self).baselines@ == baseline_after(old(self).buffers@, old(self).baselines@),
            *final(self) == (ViewState { baselines: final(self).baselines, ..*old(self) }),
    {
        baseline::compute(&self.buffers, &mut self.baselines);
    }

    /// Record the sweep head position of this redraw; when it moved left —
    /// the sweep wrapped into a new window period — recompute the baselines.
    pub fn observe_head(&mut self, head: i64)
        requires
            old(self).wf(),
        ensures
            final(self).wf(),
            final(self).last_head == head,
            final(self).baselines@ == (if head < old(self).last_head {
                baseline_after(old(self).buffers@, old(self).baselines@)
            } else {
                old(self).baselines@
            }),
            *final(self) == (ViewState {
                baselines: final(self).baselines,
                last_head: head,
                ..*old(self)
            }),
    {
        if head < self.last_head {
            baseline::compute(&self.buffers, &mut self.baselines);
        }
        self.last_head = head;
    }

    /// Set the vertical scale; a scale change also recomputes the baselines
    /// so that the traces re-center at once.
    pub fn set_scale(&mut self, scale: i64)
        requires
            old(self).wf(),
            valid_scale(scale),
        ensures
            final(self).wf(),
            final(self).scale == scale,
            final(self).baselines@ == baseline_after(old(self).buffers@, old(self).baselines@),
            *final(self) == (ViewState {
                scale,
                baselines: final(self).baselines,
                ..*old(self)
            }),
    {
        self.scale = scale;
        baseline::compute(&self.buffers, &mut self.baselines);
    }

    /// Choose the display window length.
    pub fn set_window(&mut self, window: TimeWindow)
        requires
            old(self).wf(),
        ensures
            final(self).wf(),
            *final(self) == (ViewState { window, ..*old(self) }),
    {
        self.window = window;
    }

    /// Choose the decimation stride.
    pub fn set_stride(&mut self, stride: usize)
        requires
            old(self).wf(),
            stride >= 1,
        ensures
            final(self).wf(),
            *final(self) == (ViewState { stride, ..*old(self) }),
    {
        self.stride = stride;
    }

    /// Select or deselect one channel for display.
    pub fn set_channel_selected(&mut self, c: usize, on: bool)
        requires
            old(self).wf(),
            c < old(self).channel_count,
        ensures
            final(self).wf(),
            final(self).selected_channels@ == old(self).selected_channels@.update(c as int, on),
            *final(self) == (ViewState {
                selected_channels: final(self).selected_channels,
                ..*old(self)
            }),
    {
        self.selected_channels[c] = on;
    }

    /// Select every channel for display.
    pub fn select_all(&mut self)
        requires
            old(self).wf(),
        ensures
            final(self).wf(),
            final(self).selected_channels@.len() == old(self).channel_count,
            forall|c: int|
                0 <= c < old(self).channel_count ==> #[trigger] final(self).selected_channels@[c],
            *final(self) == (ViewState {
                selected_channels: final(self).selected_channels,
                ..*old(self)
            }),
    {
        let n = self.channel_count;
        self.selected_channels = filled_bools(n);
    }

    /// Deselect every channel.
    pub fn select_none(&mut self)
        requires
            old(self).wf(),
        ensures
            final(self).wf(),
            final(self).selected_channels@.len() == old(self).channel_count,
            forall|c: int|
                0 <= c < old(self).channel_count ==> !(#[trigger] final(self).selected_channels@[c]),
            *final(self) == (ViewState {
                selected_channels: final(self).selected_channels,
                ..*old(self)
            }),
    {
        let n = self.channel_count;
        let mut out: Vec<bool> = Vec::new();
        let mut i: usize = 0;
        while i < n
            invariant
                i <= n,
                out@.len() == i,
                forall|c: int| 0 <= c < i ==> !(#[trigger] out@[c]),
            decreases n - i,
        {
            out.push(false);
            i += 1;
        }
        self.selected_channels = out;
    }

    /// The sweep head position of the current redraw.
    pub fn current_head(&self) -> (h: i64)
        requires
            self.wf(),
        ensures
            h == sweep_head(latest_ts(self.buffers@), self.window.ticks_spec()),
            0 <= h < self.window.ticks_spec(),
    {
        let latest = self.buffers.latest_timestamp();
        let w = self.window.ticks();
        sweep_head_of(latest, w)
    }

    /// Compute the traces of every selected, non-empty channel for one
    /// redraw: pure in the buffers and parameters, mutating nothing. Traces
    /// come in ascending channel order, one per selected channel that holds
    /// data, each placed at its slot among the selected channels.
    pub fn make_traces(&self) -> (out: Vec<ChannelTrace>)
        requires
            self.wf(),
            forall|c: int|
                0 <= c < self.buffers@.len() ==> (#[trigger] self.buffers@[c]).len() + self.stride
                    <= usize::MAX,
        ensures
            ({
                let latest = latest_ts(self.buffers@);
                let w = self.window.ticks_spec();
                let t0 = sweep_origin(latest, w);
                &&& forall|k: int|
                    0 <= k < out@.len() ==> {
                        let tr = #[trigger] out@[k];
                        &&& tr.channel < self.channel_count
                        &&& self.selected_channels@[tr.channel as int]
                        &&& self.buffers@[tr.channel as int].len() > 0
                        &&& tr.slot == slot_rank(self.selected_channels@, tr.channel as int)
                        &&& tr.fresh@ == trace_of(
                            strided(self.buffers@[tr.channel as int], self.stride as int),
                            t0,
                            w,
                            self.baselines@[tr.channel as int] as int,
                            self.scale as int,
                            tr.slot as int,
                        ).0
                        &&& tr.stale@ == trace_of(
                            strided(self.buffers@[tr.channel as int], self.stride as int),
                            t0,
                            w,
                            self.baselines@[tr.channel as int] as int,
                            self.scale as int,
                            tr.slot as int,
                        ).1
                    }
                &&& forall|k1: int, k2: int|
                    0 <= k1 < k2 < out@.len() ==> (#[trigger] out@[k1]).channel < (
                    #[trigger] out@[k2]).channel
                &&& forall|c: int|
                    0 <= c < self.channel_count && (#[trigger] self.selected_channels@[c])
                        && self.buffers@[c].len() > 0 ==> exists|k: int|
                        0 <= k < out@.len() && (#[trigger] out@[k]).channel == c
            }),
    {
        let latest = self.buffers.latest_timestamp();
        let w = self.window.ticks();
        let t0 = sweep_origin_of(latest, w);
        proof {
            lemma_latest_ts_bounds(self.buffers@);
        }
        let mut out: Vec<ChannelTrace> = Vec::new();
        let n = self.channel_count;
        let mut slot: usize = 0;
        let mut c: usize = 0;
        while c < n
            invariant
                c <= n,
                n == self.channel_count,
                self.wf(),
                forall|j: int|
                    0 <= j < self.buffers@.len() ==> (#[trigger] self.buffers@[j]).len()
                        + self.stride <= usize::MAX,
                latest == latest_ts(self.buffers@),
                forall|j: int, i: int|
                    0 <= j < self.buffers@.len() && 0 <= i < self.buffers@[j].len()
                        ==> #[trigger] self.buffers@[j][i].ts <= latest,
                0 <= latest <= MAX_TICKS,
                w == self.window.ticks_spec(),
                valid_window(w),
                t0 == sweep_origin(latest as int, w as int),
                0 <= t0 <= latest,
                latest - t0 < w,
                slot == slot_rank(self.selected_channels@, c as int),
                slot <= c,
                forall|k: int|
                    0 <= k < out@.len() ==> {
                        let tr = #[trigger] out@[k];
                        &&& tr.channel < c
                        &&& self.selected_channels@[tr.channel as int]
                        &&& self.buffers@[tr.channel as int].len() > 0
                        &&& tr.slot == slot_rank(self.selected_channels@, tr.channel as int)
                        &&& tr.fresh@ == trace_of(
                            strided(self.buffers@[tr.channel as int], self.stride as int),
                            t0 as int,
                            w as int,
                            self.baselines@[tr.channel as int] as int,
                            self.scale as int,
                            tr.slot as int,
                        ).0
                        &&& tr.stale@ == trace_of(
                            strided(self.buffers@[tr.channel as int], self.stride as int),
                            t0 as int,
                            w as int,
                            self.baselines@[tr.channel as int] as int,
                            self.scale as int,
                            tr.slot as int,
                        ).1
                    },
                forall|k1: int, k2: int|
                    0 <= k1 < k2 < out@.len() ==> (#[trigger] out@[k1]).channel < (
                    #[trigger] out@[k2]).channel,
                forall|j: int|
                    0 <= j < c && (#[trigger] self.selected_channels@[j]) && self.buffers@[j].len()
                        > 0 ==> exists|k: int|
                        0 <= k < out@.len() && (#[trigger] out@[k]).channel == j,
            decreases n - c,
        {
            let selected = self.selected_channels[c];
            if selected {
                let ch = self.buffers.channel(c);
                if ch.len() > 0 {
                    proof {
                        assert forall|i: int| 0 <= i < ch@.len() implies (#[trigger] ch@[i]).ts
                            < t0 + w by {
                            assert(ch@[i].ts <= latest);
                        }
                    }
                    let baseline_c = self.baselines[c];
                    let (fr, st) = transform_channel(
                        ch,
                        t0,
                        w,
                        baseline_c,
                        self.scale,
                        slot,
                        self.stride,
                    );
                    let ghost prev_out = out@;
                    out.push(ChannelTrace { channel: c, slot, fresh: fr, stale: st });
                    proof {
                        assert forall|j: int|
                            0 <= j < c + 1 && (#[trigger] self.selected_channels@[j])
                                && self.buffers@[j].len() > 0 implies exists|k: int|
                            0 <= k < out@.len() && (#[trigger] out@[k]).channel == j by {
                            if j < c {
                                let k0 = choose|k: int|
                                    0 <= k < prev_out.len() && (#[trigger] prev_out[k]).channel
                                        == j;
                                assert(out@[k0].channel == j);
                            } else {
                                assert(out@[out@.len() - 1].channel == j);
                            }
                        }
                    }
                }
            }
            c += 1;
            proof {
                if selected {
                    assert(slot + 1 == slot_rank(self.selected_channels@, c as int));
                } else {
                    assert(slot == slot_rank(self.selected_channels@, c as int));
                }
            }
            if selected {
                slot = slot + 1;
            }
        }
        out
    }
}

/// A vector of `n` raised selection flags.
fn filled_bools(n: usize) -> (r: Vec<bool>)
    ensures
        r@.len() == n,
        forall|c: int| 0 <= c < n ==> #[trigger] r@[c],
{
    let mut out: Vec<bool> = Vec::new();
    let mut i: usize = 0;
    while i < n
        invariant
            i <= n,
            out@.len() == i,
            forall|c: int| 0 <= c < i ==> #[trigger] out@[c],
        decreases n - i,
    {
        out.push(true);
        i += 1;
    }
    out
}

/// A vector of `n` zero baselines.
fn filled_zeros(n: usize) -> (r: Vec<i64>)
    ensures
        r@.len() == n,
        forall|c: int| 0 <= c < n ==> #[trigger] r@[c] == 0,
{
    let mut out: Vec<i64> = Vec::new();
    let mut i: usize = 0;
    while i < n
        invariant
            i <= n,
            out@.len() == i,
            forall|c: int| 0 <= c < i ==> #[trigger] out@[c] == 0,
        decreases n - i,
    {
        out.push(0);
        i += 1;
    }
    out
}

} // verus!
