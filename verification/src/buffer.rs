//! Per-channel sliding time window of observed samples.
//!
//! Each channel holds a time-ordered sequence of (timestamp, value) pairs,
//! oldest first. Size is bounded by a time criterion: entries older than
//! `now - window` are evicted from the head, never from the middle.

use vstd::prelude::*;
use std::collections::VecDeque;
use crate::msg::{StreamSample, TimedValue, entry_ok};
use crate::units::{MAX_CHANNELS, MAX_TICKS, valid_ts, valid_window};

verus! {

/// Timestamps never decrease along a channel (the source delivers in order).
pub open spec fn chan_sorted(s: Seq<TimedValue>) -> bool {
    forall|i: int, j: int| 0 <= i <= j < s.len() ==> s[i].ts <= s[j].ts
}

/// Well-formedness of one channel: ordered, with every entry in range.
pub open spec fn chan_wf(s: Seq<TimedValue>) -> bool {
    &&& chan_sorted(s)
    &&& forall|i: int| 0 <= i < s.len() ==> entry_ok(#[trigger] s[i])
}

/// What remains of one channel after popping from the head while the head is
/// older than `cutoff`.
pub open spec fn drop_older(s: Seq<TimedValue>, cutoff: int) -> Seq<TimedValue>
    decreases s.len(),
{
    if s.len() > 0 && s[0].ts < cutoff {
        drop_older(s.subrange(1, s.len() as int), cutoff)
    } else {
        s
    }
}

/// Number of entries that `drop_older` removes.
pub open spec fn dropped_count(s: Seq<TimedValue>, cutoff: int) -> int
    decreases s.len(),
{
    if s.len() > 0 && s[0].ts < cutoff {
        1 + dropped_count(s.subrange(1, s.len() as int), cutoff)
    } else {
        0
    }
}

/// `drop_older` keeps exactly a suffix and removes only entries older than
/// the cutoff.
pub proof fn lemma_drop_older_suffix(s: Seq<TimedValue>, cutoff: int)
    ensures
        0 <= dropped_count(s, cutoff) <= s.len(),
        drop_older(s, cutoff) == s.subrange(dropped_count(s, cutoff), s.len() as int),
        forall|i: int| 0 <= i < dropped_count(s, cutoff) ==> s[i].ts < cutoff,
        drop_older(s, cutoff).len() > 0 ==> drop_older(s, cutoff)[0].ts >= cutoff,
    decreases s.len(),
{
    if s.len() > 0 && s[0].ts < cutoff {
        let rest = s.subrange(1, s.len() as int);
        lemma_drop_older_suffix(rest, cutoff);
        let k = dropped_count(rest, cutoff);
        assert(drop_older(rest, cutoff) == rest.subrange(k, rest.len() as int));
        assert(rest.subrange(k, rest.len() as int) =~= s.subrange(k + 1, s.len() as int));
        assert(forall|i: int| 1 <= i < k + 1 ==> s[i].ts == rest[i - 1].ts);
    }
}

/// Eviction law: on an ordered channel, evicting at `now` leaves no entry
/// with timestamp below `cutoff`, never removes an entry with timestamp at or
/// above `cutoff`, and keeps the survivors as a contiguous suffix in their
/// original order.
pub proof fn lemma_evict_exact(s: Seq<TimedValue>, cutoff: int)
    requires
        chan_sorted(s),
    ensures
        drop_older(s, cutoff) == s.subrange(dropped_count(s, cutoff), s.len() as int),
        forall|i: int| 0 <= i < drop_older(s, cutoff).len()
            ==> #[trigger] drop_older(s, cutoff)[i].ts >= cutoff,
        forall|i: int| 0 <= i < dropped_count(s, cutoff) ==> s[i].ts < cutoff,
{
    lemma_drop_older_suffix(s, cutoff);
    let k = dropped_count(s, cutoff);
    let kept = drop_older(s, cutoff);
    assert forall|i: int| 0 <= i < kept.len() implies #[trigger] kept[i].ts >= cutoff by {
        assert(kept[i] == s[k + i]);
        assert(kept[0] == s[k]);
        assert(s[k].ts <= s[k + i].ts);
    }
}

/// Well-formedness survives eviction.
pub proof fn lemma_drop_older_wf(s: Seq<TimedValue>, cutoff: int)
    requires
        chan_wf(s),
    ensures
        chan_wf(drop_older(s, cutoff)),
{
    lemma_drop_older_suffix(s, cutoff);
}

/// An ordered channel whose consecutive timestamps are at least `gap` apart
/// spans at least `gap * (len - 1)` ticks.
proof fn lemma_chan_span(s: Seq<TimedValue>, gap: int)
    requires
        gap >= 1,
        s.len() >= 1,
        forall|i: int| 0 <= i < s.len() - 1 ==> #[trigger] s[i].ts + gap <= s[i + 1].ts,
    ensures
        s.last().ts >= s[0].ts + gap * (s.len() - 1),
    decreases s.len(),
{
    if s.len() >= 2 {
        let init = s.drop_last();
        assert forall|i: int| 0 <= i < init.len() - 1 implies #[trigger] init[i].ts + gap
            <= init[i + 1].ts by {
            assert(init[i] == s[i]);
            assert(init[i + 1] == s[i + 1]);
            assert(s[i].ts + gap <= s[i + 1].ts);
        }
        lemma_chan_span(init, gap);
        assert(init[0] == s[0]);
        assert(init.last() == s[s.len() - 2]);
        assert(init.last().ts >= init[0].ts + gap * (init.len() - 1));
        assert(init.len() - 1 == s.len() - 2);
        assert(gap * (init.len() - 1) == gap * (s.len() - 2));
        assert(s[s.len() - 2].ts + gap <= s.last().ts);
        assert(s.last().ts >= s[0].ts + gap * (s.len() - 2) + gap);
        assert(gap * (s.len() - 2) + gap == gap * (s.len() - 1)) by (nonlinear_arith);
        assert(s.last().ts >= s[0].ts + gap * (s.len() - 1));
    } else {
        assert(s.len() == 1);
        assert(s.last() == s[0]);
        assert(gap * (s.len() - 1) == 0);
        assert(s.last().ts >= s[0].ts + gap * (s.len() - 1));
    }
}

/// Memory bound law: after evicting at `now` with window `window`, a channel
/// whose samples arrive at least `gap` ticks apart holds at most
/// `window / gap + 1` entries. With `gap` the tick length of one sample
/// period, that is one more than `window` times the effective sample rate.
pub proof fn lemma_memory_bound(s: Seq<TimedValue>, now: int, window: int, gap: int)
    requires
        window >= 1,
        gap >= 1,
        forall|i: int| 0 <= i < s.len() ==> now - window <= #[trigger] s[i].ts <= now,
        forall|i: int| 0 <= i < s.len() - 1 ==> #[trigger] s[i].ts + gap <= s[i + 1].ts,
    ensures
        s.len() <= window / gap + 1,
{
    if s.len() >= 2 {
        lemma_chan_span(s, gap);
        let n = s.len() - 1;
        assert(gap * n <= window);
        vstd::arithmetic::div_mod::lemma_div_is_ordered(gap * n, window, gap);
        vstd::arithmetic::div_mod::lemma_div_multiples_vanish(n, gap);
        assert(gap * n == n * gap) by (nonlinear_arith);
    } else {
        vstd::arithmetic::div_mod::lemma_div_pos_is_pos(window, gap);
    }
}

/// Latest timestamp observed across all channels, 0 when nothing is buffered.
pub open spec fn latest_ts(v: Seq<Seq<TimedValue>>) -> int
    decreases v.len(),
{
    if v.len() == 0 {
        0
    } else {
        let rest = latest_ts(v.drop_last());
        let c = v.last();
        if c.len() > 0 && c.last().ts > rest {
            c.last().ts as int
        } else {
            rest
        }
    }
}

/// On a well-formed store the latest timestamp bounds every entry and stays
/// in the valid range.
pub proof fn lemma_latest_ts_bounds(v: Seq<Seq<TimedValue>>)
    requires
        forall|c: int| 0 <= c < v.len() ==> chan_wf(#[trigger] v[c]),
    ensures
        0 <= latest_ts(v) <= MAX_TICKS,
        forall|c: int, i: int|
            0 <= c < v.len() && 0 <= i < v[c].len() ==> v[c][i].ts <= latest_ts(v),
    decreases v.len(),
{
    if v.len() > 0 {
        let init = v.drop_last();
        lemma_latest_ts_bounds(init);
        assert forall|c: int, i: int|
            0 <= c < v.len() && 0 <= i < v[c].len() implies v[c][i].ts <= latest_ts(v) by {
            if c < v.len() - 1 {
                assert(init[c] == v[c]);
                assert(v[c][i].ts <= latest_ts(init));
            } else {
                assert(v[c][i].ts <= v[c].last().ts);
            }
        }
    }
}

/// One time-ordered bounded sequence per channel; owns the eviction policy.
pub struct BufferStore {
    channels: Vec<VecDeque<TimedValue>>,
}

impl View for BufferStore {
    type V = Seq<Seq<TimedValue>>;

    closed spec fn view(&self) -> Seq<Seq<TimedValue>> {
        Seq::new(self.channels@.len(), |c: int| self.channels@[c]@)
    }
}

impl BufferStore {
    /// Every channel is well formed and the channel count is representable.
    pub open spec fn wf(self) -> bool {
        &&& self@.len() <= MAX_CHANNELS
        &&& forall|c: int| 0 <= c < self@.len() ==> chan_wf(#[trigger] self@[c])
    }

    /// An empty store with no channels.
    pub fn new() -> (r: BufferStore)
        ensures
            r@ =~= Seq::<Seq<TimedValue>>::empty(),
            r.wf(),
    {
        BufferStore { channels: Vec::new() }
    }

    /// Allocate `channel_count` empty channels, discarding whatever was held;
    /// invoked once per successful connection.
    pub fn reset(&mut self, channel_count: usize)
        requires
            channel_count <= MAX_CHANNELS,
        ensures
            final(self)@.len() == channel_count,
            forall|c: int|
                0 <= c < channel_count ==> final(self)@[c] =~= Seq::<TimedValue>::empty(),
            final(self).wf(),
    {
        let mut chans: Vec<VecDeque<TimedValue>> = Vec::new();
        let mut c: usize = 0;
        while c < channel_count
            invariant
                c <= channel_count,
                chans@.len() == c,
                forall|k: int| 0 <= k < c ==> chans@[k]@ =~= Seq::<TimedValue>::empty(),
            decreases channel_count - c,
        {
            chans.push(VecDeque::new());
            c += 1;
        }
        self.channels = chans;
    }

    /// Number of channels currently allocated.
    pub fn channel_count(&self) -> (n: usize)
        ensures
            n == self@.len(),
    {
        self.channels.len()
    }

    /// Read access to one channel's buffered entries, oldest first.
    pub fn channel(&self, c: usize) -> (r: &VecDeque<TimedValue>)
        requires
            c < self@.len(),
        ensures
            r@ == self@[c as int],
    {
        &self.channels[c]
    }

    /// Append one multi-channel sample: channel `c` receives
    /// `(sample.ts, sample.vals[c])` at its tail. Channels beyond the
    /// sample's value count keep their contents; values beyond the allocated
    /// channel count are ignored.
    pub fn append(&mut self, sample: &StreamSample)
        requires
            old(self).wf(),
            sample.ok(),
            forall|c: int|
                0 <= c < old(self)@.len() && old(self)@[c].len() > 0
                    ==> (#[trigger] old(self)@[c]).last().ts <= sample.ts,
        ensures
            final(self)@.len() == old(self)@.len(),
            forall|c: int| 0 <= c < old(self)@.len() ==> final(self)@[c] == (
                if c < sample.vals@.len() {
                    old(self)@[c].push((TimedValue { ts: sample.ts, val: sample.vals@[c] }))
                } else {
                    old(self)@[c]
                }),
            final(self).wf(),
    {
        let n = if sample.vals.len() < self.channels.len() {
            sample.vals.len()
        } else {
            self.channels.len()
        };
        let ghost orig = self@;
        let mut c: usize = 0;
        while c < n
            invariant
                c <= n,
                n == if sample.vals@.len() < orig.len() { sample.vals@.len() } else { orig.len() },
                sample.ok(),
                self@.len() == orig.len(),
                forall|k: int| 0 <= k < orig.len() && orig[k].len() > 0
                    ==> (#[trigger] orig[k]).last().ts <= sample.ts,
                forall|k: int| 0 <= k < orig.len() ==> chan_wf(#[trigger] orig[k]),
                forall|k: int| 0 <= k < c
                    ==> self@[k] == orig[k].push((TimedValue { ts: sample.ts, val: sample.vals@[k] })),
                forall|k: int| c <= k < orig.len() ==> self@[k] == orig[k],
            decreases n - c,
        {
            let e = TimedValue { ts: sample.ts, val: sample.vals[c] };
            let ghost snap = self@;
            self.channels[c].push_back(e);
            proof {
                assert(forall|k: int| 0 <= k < snap.len() && k != c ==> self@[k] == snap[k]);
                assert(self.channels@[c as int]@ == orig[c as int].push(e));
                assert(self@[c as int] == orig[c as int].push(e));
            }
            c += 1;
            proof {
                assert forall|k: int| 0 <= k < c implies self@[k] == orig[k].push(
                    TimedValue { ts: sample.ts, val: sample.vals@[k] },
                ) by {
                    if k == c - 1 {
                        assert(self@[k] == orig[k].push(e));
                    } else {
                        assert(self@[k] == snap[k]);
                    }
                }
            }
        }
        proof {
            assert forall|k: int| 0 <= k < final(self)@.len() implies chan_wf(
                #[trigger] final(self)@[k],
            ) by {
                if k < sample.vals@.len() {
                    let s = orig[k];
                    let p = s.push(TimedValue { ts: sample.ts, val: sample.vals@[k] });
                    assert(forall|i: int| 0 <= i < s.len() ==> p[i] == s[i]);
                    assert(forall|i: int| 0 <= i < s.len() ==> s[i].ts <= s.last().ts);
                }
            }
        }
    }

    /// Evict, for every channel independently, the entries older than
    /// `now - window` from the head.
    pub fn evict(&mut self, now: i64, window: i64)
        requires
            old(self).wf(),
            valid_ts(now),
            valid_window(window),
        ensures
            final(self)@.len() == old(self)@.len(),
            forall|c: int| 0 <= c < old(self)@.len()
                ==> final(self)@[c] == drop_older(old(self)@[c], now - window),
            final(self).wf(),
    {
        let cutoff: i64 = now - window;
        let n = self.channels.len();
        let ghost orig = self@;
        let mut c: usize = 0;
        while c < n
            invariant
                c <= n,
                n == orig.len(),
                self@.len() == orig.len(),
                forall|k: int| 0 <= k < c ==> self@[k] == drop_older(orig[k], cutoff as int),
                forall|k: int| c <= k < orig.len() ==> self@[k] == orig[k],
            decreases n - c,
        {
            let ghost snap = self@;
            Self::evict_channel(&mut self.channels[c], cutoff);
            proof {
                assert(self@[c as int] == drop_older(snap[c as int], cutoff as int));
                assert(snap[c as int] == orig[c as int]);
                assert(forall|k: int| 0 <= k < snap.len() && k != c ==> self@[k] == snap[k]);
            }
            c += 1;
            proof {
                assert forall|k: int| 0 <= k < c implies self@[k] == drop_older(
                    orig[k],
                    cutoff as int,
                ) by {
                    if k == c - 1 {
                        assert(self@[k] == drop_older(orig[k], cutoff as int));
                    } else {
                        assert(self@[k] == snap[k]);
                    }
                }
            }
        }
        proof {
            assert forall|k: int| 0 <= k < final(self)@.len() implies chan_wf(
                #[trigger] final(self)@[k],
            ) by {
                lemma_drop_older_wf(orig[k], cutoff as int);
            }
        }
    }

    fn evict_channel(chan: &mut VecDeque<TimedValue>, cutoff: i64)
        ensures
            final(chan)@ == drop_older(old(chan)@, cutoff as int),
    {
        while chan.len() > 0 && chan[0].ts < cutoff
            invariant
                drop_older(chan@, cutoff as int) == drop_older(old(chan)@, cutoff as int),
            decreases chan@.len(),
        {
            let _ = chan.pop_front();
        }
    }

    /// The most recent timestamp across all channels, 0 when nothing is
    /// buffered; serves as the reference for window placement and eviction.
    pub fn latest_timestamp(&self) -> (t: i64)
        requires
            self.wf(),
        ensures
            t == latest_ts(self@),
            0 <= t <= MAX_TICKS,
    {
        proof {
            lemma_latest_ts_bounds(self@);
        }
        let n = self.channels.len();
        let mut t: i64 = 0;
        let mut c: usize = 0;
        while c < n
            invariant
                c <= n,
                n == self@.len(),
                self.wf(),
                t == latest_ts(self@.take(c as int)),
                0 <= t <= MAX_TICKS,
            decreases n - c,
        {
            let ch = &self.channels[c];
            let len = ch.len();
            proof {
                assert(self@.take(c + 1).drop_last() =~= self@.take(c as int));
                assert(self@.take(c + 1).last() == self@[c as int]);
            }
            if len > 0 {
                let last = ch[len - 1];
                proof {
                    assert(entry_ok(self@[c as int].last()));
                }
                if last.ts > t {
                    t = last.ts;
                }
            }
            c += 1;
        }
        proof {
            assert(self@.take(n as int) =~= self@);
        }
        t
    }
}

} // verus!
