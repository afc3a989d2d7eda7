//! Wrap-around windowed coordinate mapping.
//!
//! The horizontal axis is a repeating sweep of `w` ticks. With `latest` the
//! most recent observed timestamp, the current sweep starts at
//! `t0 = latest - latest % w`. A sample whose unwrapped offset `ts - t0` lies
//! in `[0, w)` belongs to the fresh trace at that offset; a sample whose
//! offset is negative belongs to the sweep before `t0`, the stale trace, and
//! keeps its old horizontal position until overwritten. Decimation iterates
//! buffered samples with a fixed stride; it subsamples and never averages.

use vstd::prelude::*;
use std::collections::VecDeque;
use crate::buffer::chan_wf;
use crate::msg::TimedValue;
use crate::units::{
    MAX_ABS_VALUE, MAX_CHANNELS, MAX_TICKS, MAX_WINDOW_TICKS, SCALE_DIVISOR, SLOT_UNIT, valid_scale,
    valid_ts, valid_value, valid_window,
};
use vstd::arithmetic::div_mod::{
    lemma_basic_div, lemma_div_is_ordered, lemma_div_multiples_vanish, lemma_fundamental_div_mod,
    lemma_mod_division_less_than_divisor,
};
use vstd::arithmetic::mul::lemma_mul_inequality;

verus! {

/// One display coordinate: horizontal position in ticks within the sweep,
/// vertical position in micro-units.
#[derive(Clone, Copy, PartialEq, Eq, Structural, Debug)]
pub struct PlotPoint {
    pub x: i64,
    pub y: i64,
}

/// Start of the sweep that contains `latest`.
pub open spec fn sweep_origin(latest: int, w: int) -> int
    recommends
        w >= 1,
{
    latest - latest % w
}

/// Horizontal position of the sweep head: where the most recent fresh point
/// stands.
pub open spec fn sweep_head(latest: int, w: int) -> int
    recommends
        w >= 1,
{
    latest % w
}

/// Vertical display position: baseline-corrected, scaled value stacked at
/// its channel's slot (slot 0 topmost, later slots below).
pub open spec fn y_coord(val: int, baseline: int, scale: int, slot: int) -> int {
    (val - baseline) * scale / (SCALE_DIVISOR as int) - slot * SLOT_UNIT
}

/// A sample is fresh when its unwrapped offset from the sweep origin is not
/// negative (with all buffered samples at most one window old and none newer
/// than `latest`, that offset then lies in `[0, w)`).
pub open spec fn is_fresh(ts: int, t0: int) -> bool {
    ts >= t0
}

/// Horizontal position of a fresh sample: its offset into the sweep.
pub open spec fn fresh_x(ts: int, t0: int) -> int {
    ts - t0
}

/// Horizontal position of a stale sample: where its sweep position was, so
/// that it keeps its place until overwritten. A sample at exactly a sweep
/// boundary maps to the right edge of the sweep.
pub open spec fn stale_x(ts: int, t0: int, w: int) -> int
    recommends
        w >= 1,
{
    if (ts - t0) % w == 0 {
        w
    } else {
        (ts - t0) % w
    }
}

pub open spec fn fresh_point(e: TimedValue, t0: int, baseline: int, scale: int, slot: int)
    -> PlotPoint {
    PlotPoint {
        x: fresh_x(e.ts as int, t0) as i64,
        y: y_coord(e.val as int, baseline, scale, slot) as i64,
    }
}

pub open spec fn stale_point(e: TimedValue, t0: int, w: int, baseline: int, scale: int, slot: int)
    -> PlotPoint {
    PlotPoint {
        x: stale_x(e.ts as int, t0, w) as i64,
        y: y_coord(e.val as int, baseline, scale, slot) as i64,
    }
}

/// The subsequence taken when iterating `s` with stride `n`: every `n`-th
/// element starting from the first.
pub open spec fn strided<T>(s: Seq<T>, n: int) -> Seq<T>
    recommends
        n >= 1,
{
    Seq::new((((s.len() + n - 1) / n) as nat), |i: int| s[i * n])
}

/// The fresh and stale traces produced from the (already strided) samples
/// `s`, in input order.
pub open spec fn trace_of(s: Seq<TimedValue>, t0: int, w: int, baseline: int, scale: int, slot: int)
    -> (Seq<PlotPoint>, Seq<PlotPoint>)
    decreases s.len(),
{
    if s.len() == 0 {
        (Seq::<PlotPoint>::empty(), Seq::<PlotPoint>::empty())
    } else {
        let rest = trace_of(s.drop_last(), t0, w, baseline, scale, slot);
        let e = s.last();
        if is_fresh(e.ts as int, t0) {
            (rest.0.push(fresh_point(e, t0, baseline, scale, slot)), rest.1)
        } else {
            (rest.0, rest.1.push(stale_point(e, t0, w, baseline, scale, slot)))
        }
    }
}

/// Every strided sample lands on exactly one of the two traces.
pub proof fn lemma_trace_partition(
    s: Seq<TimedValue>,
    t0: int,
    w: int,
    baseline: int,
    scale: int,
    slot: int,
)
    ensures
        trace_of(s, t0, w, baseline, scale, slot).0.len() + trace_of(
            s,
            t0,
            w,
            baseline,
            scale,
            slot,
        ).1.len() == s.len(),
    decreases s.len(),
{
    if s.len() > 0 {
        lemma_trace_partition(s.drop_last(), t0, w, baseline, scale, slot);
    }
}

/// Decimation count law: iterating `len` samples with stride `n` visits
/// exactly `ceil(len / n)` of them.
pub proof fn lemma_strided_len<T>(s: Seq<T>, n: int)
    requires
        n >= 1,
    ensures
        strided(s, n).len() == (s.len() + n - 1) / n,
        s.len() == 0 ==> strided(s, n).len() == 0,
        s.len() > 0 ==> strided(s, n).len() >= 1,
{
    let len = s.len() as int;
    if len == 0 {
        assert((n - 1) / n == 0) by {
            lemma_basic_div(n - 1, n);
        }
    } else {
        assert((len + n - 1) / n >= 1) by {
            lemma_div_is_ordered(n, len + n - 1, n);
            lemma_div_multiples_vanish(1, n);
            assert(n * 1 == n);
        }
    }
    vstd::arithmetic::div_mod::lemma_div_pos_is_pos(len + n - 1, n);
}

/// Horizontal continuity law: two samples inside the same sweep keep their
/// order on the fresh trace — the earlier sample stands strictly to the left.
pub proof fn lemma_fresh_continuity(
    e1: TimedValue,
    e2: TimedValue,
    t0: int,
    w: int,
    baseline: int,
    scale: int,
    slot: int,
)
    requires
        1 <= w <= MAX_WINDOW_TICKS,
        0 <= t0 <= MAX_TICKS,
        0 <= e1.ts - t0 < w,
        0 <= e2.ts - t0 < w,
        e1.ts < e2.ts,
    ensures
        fresh_point(e1, t0, baseline, scale, slot).x < fresh_point(e2, t0, baseline, scale, slot).x,
{
    assert(fresh_point(e1, t0, baseline, scale, slot).x == e1.ts - t0);
    assert(fresh_point(e2, t0, baseline, scale, slot).x == e2.ts - t0);
}

/// Wrap correctness law: a sample whose offset from the sweep origin is
/// negative is placed on the stale trace, one window to the right of that
/// offset. Its position exceeds `w - age` (with `age` how far the sample
/// precedes the origin), stays at or below `w`, and in particular stays
/// strictly below `2 * w`.
pub proof fn lemma_wrap_correctness(
    e: TimedValue,
    t0: int,
    w: int,
    baseline: int,
    scale: int,
    slot: int,
)
    requires
        1 <= w <= MAX_WINDOW_TICKS,
        0 <= t0 <= MAX_TICKS,
        t0 - w <= e.ts < t0,
    ensures
        !is_fresh(e.ts as int, t0),
        stale_point(e, t0, w, baseline, scale, slot).x as int == stale_x(e.ts as int, t0, w),
        e.ts - t0 > -w ==> stale_x(e.ts as int, t0, w) == e.ts - t0 + w,
        e.ts - t0 == -w ==> stale_x(e.ts as int, t0, w) == w,
        stale_x(e.ts as int, t0, w) >= w - (t0 - e.ts),
        0 < stale_x(e.ts as int, t0, w) <= w < 2 * w,
{
    let d = e.ts - t0;
    if d == -w {
        vstd::arithmetic::div_mod::lemma_fundamental_div_mod_converse_mod(d, w, -1, 0);
        assert(d % w == 0);
    } else {
        vstd::arithmetic::div_mod::lemma_fundamental_div_mod_converse_mod(d, w, -1, d + w);
        assert(d % w == d + w);
    }
    assert(0 < stale_x(e.ts as int, t0, w) <= w);
    assert(stale_point(e, t0, w, baseline, scale, slot).x == stale_x(e.ts as int, t0, w) as i64);
}

/// The sweep origin for `latest`, together with its place inside the sweep.
pub fn sweep_origin_of(latest: i64, w: i64) -> (t0: i64)
    requires
        valid_ts(latest),
        valid_window(w),
    ensures
        t0 == sweep_origin(latest as int, w as int),
        (t0 as int) % (w as int) == 0,
        0 <= t0 <= latest,
        latest - t0 < w,
        latest - t0 == sweep_head(latest as int, w as int),
{
    let r = match latest.checked_rem_euclid(w) {
        Some(v) => v,
        None => 0,
    };
    proof {
        assert(r == latest as int % (w as int));
        vstd::arithmetic::div_mod::lemma_mod_division_less_than_divisor(latest as int, w as int);
        vstd::arithmetic::div_mod::lemma_mod_decreases(latest as nat, w as nat);
        vstd::arithmetic::div_mod::lemma_fundamental_div_mod(latest as int, w as int);
        vstd::arithmetic::div_mod::lemma_mod_multiples_basic(
            (latest as int) / (w as int),
            w as int,
        );
        let q = (latest as int) / (w as int);
        assert((latest as int) - r == (w as int) * q);
        assert((w as int) * q == q * (w as int)) by (nonlinear_arith);
        assert(((q * (w as int)) % (w as int)) == 0);
    }
    latest - r
}

/// Horizontal position of the sweep head marker for `latest`.
pub fn sweep_head_of(latest: i64, w: i64) -> (h: i64)
    requires
        valid_ts(latest),
        valid_window(w),
    ensures
        h == sweep_head(latest as int, w as int),
        0 <= h < w,
{
    let t0 = sweep_origin_of(latest, w);
    latest - t0
}

/// Vertical display position of one value, in exact fixed-point arithmetic.
fn y_of(val: i64, baseline: i64, scale: i64, slot: usize) -> (y: i64)
    requires
        valid_value(val),
        valid_value(baseline),
        valid_scale(scale),
        slot <= MAX_CHANNELS,
    ensures
        y == y_coord(val as int, baseline as int, scale as int, slot as int),
{
    let diff: i64 = val - baseline;
    proof {
        assert(-2_000_000_000_000_000int <= diff * scale <= 2_000_000_000_000_000int)
            by (nonlinear_arith)
            requires
                -2_000_000_000_000int <= diff <= 2_000_000_000_000int,
                1 <= scale <= 1000,
        ;
    }
    let num: i64 = diff * scale;
    let q = match num.checked_div_euclid(SCALE_DIVISOR) {
        Some(v) => v,
        None => 0,
    };
    proof {
        assert(q == num as int / (SCALE_DIVISOR as int));
        lemma_div_is_ordered(num as int, 2_000_000_000_000_000int, SCALE_DIVISOR as int);
        lemma_div_is_ordered(-2_000_000_000_000_000int, num as int, SCALE_DIVISOR as int);
        assert(2_000_000_000_000_000int / (SCALE_DIVISOR as int) == 200_000_000_000int);
        assert(-2_000_000_000_000_000int / (SCALE_DIVISOR as int) == -200_000_000_000int);
    }
    q - (slot as i64) * SLOT_UNIT
}

/// Map one channel's buffered samples, iterated at `stride`, to fresh and
/// stale display traces.
pub fn transform_channel(
    ch: &VecDeque<TimedValue>,
    t0: i64,
    w: i64,
    baseline: i64,
    scale: i64,
    slot: usize,
    stride: usize,
) -> (out: (Vec<PlotPoint>, Vec<PlotPoint>))
    requires
        chan_wf(ch@),
        valid_ts(t0),
        valid_window(w),
        valid_value(baseline),
        valid_scale(scale),
        slot <= MAX_CHANNELS,
        stride >= 1,
        ch@.len() + stride <= usize::MAX,
        forall|i: int| 0 <= i < ch@.len() ==> (#[trigger] ch@[i]).ts < t0 + w,
    ensures
        out.0@ == trace_of(strided(ch@, stride as int), t0 as int, w as int, baseline as int,
            scale as int, slot as int).0,
        out.1@ == trace_of(strided(ch@, stride as int), t0 as int, w as int, baseline as int,
            scale as int, slot as int).1,
        out.0@.len() + out.1@.len() == (ch@.len() + stride - 1) / (stride as int),
{
    let ghost st = strided(ch@, stride as int);
    let ghost m = ((ch@.len() + stride - 1) / (stride as int));
    proof {
        lemma_strided_len(ch@, stride as int);
    }
    let mut fresh: Vec<PlotPoint> = Vec::new();
    let mut stale: Vec<PlotPoint> = Vec::new();
    let len = ch.len();
    let mut i: usize = 0;
    let ghost mut k: int = 0;
    while i < len
        invariant
            chan_wf(ch@),
            valid_ts(t0),
            valid_window(w),
            valid_value(baseline),
            valid_scale(scale),
            slot <= MAX_CHANNELS,
            stride >= 1,
            len == ch@.len(),
            ch@.len() + stride <= usize::MAX,
            forall|j: int| 0 <= j < ch@.len() ==> (#[trigger] ch@[j]).ts < t0 + w,
            st == strided(ch@, stride as int),
            m == ((ch@.len() + stride - 1) / (stride as int)),
            st.len() == m,
            0 <= k <= m,
            i == k * stride,
            k < m ==> i < len,
            k == m ==> i >= len,
            fresh@ == trace_of(st.take(k), t0 as int, w as int, baseline as int, scale as int,
                slot as int).0,
            stale@ == trace_of(st.take(k), t0 as int, w as int, baseline as int, scale as int,
                slot as int).1,
        decreases len + stride - i,
    {
        proof {
            assert(k < m) by {
                if k == m {
                    assert(i >= len);
                }
            }
            assert(st[k] == ch@[k * stride]) by {
                assert(st[k] == ch@[k * (stride as int)]);
            }
            assert(st.take(k + 1).drop_last() =~= st.take(k));
            assert(st.take(k + 1).last() == st[k]);
        }
        let e = ch[i];
        let y = y_of(e.val, baseline, scale, slot);
        if e.ts >= t0 {
            let p = PlotPoint { x: e.ts - t0, y };
            proof {
                assert(p == fresh_point(st[k], t0 as int, baseline as int, scale as int,
                    slot as int));
            }
            fresh.push(p);
        } else {
            let r = match (e.ts - t0).checked_rem_euclid(w) {
                Some(v) => v,
                None => 0,
            };
            proof {
                assert(r == (e.ts - t0) as int % (w as int));
                lemma_mod_division_less_than_divisor((e.ts - t0) as int, w as int);
            }
            let x = if r == 0 {
                w
            } else {
                r
            };
            let p = PlotPoint { x, y };
            proof {
                assert(p == stale_point(st[k], t0 as int, w as int, baseline as int, scale as int,
                    slot as int));
            }
            stale.push(p);
        }
        i = i + stride;
        proof {
            k = k + 1;
            assert(i == k * stride) by (nonlinear_arith)
                requires
                    i == (k - 1) * stride + stride,
            ;
            if k < m {
                // the next strided index is still inside the channel
                assert(k * stride < len) by {
                    lemma_strided_index_in_range(ch@.len() as int, stride as int, k);
                }
            } else {
                assert(k == m);
                assert(i >= len) by {
                    lemma_strided_end(ch@.len() as int, stride as int, k);
                }
            }
        }
    }
    proof {
        assert(k == m) by {
            if k < m {
                lemma_strided_index_in_range(ch@.len() as int, stride as int, k);
                assert(k * stride < len);
            }
        }
        assert(st.take(k) =~= st);
        lemma_trace_partition(st, t0 as int, w as int, baseline as int, scale as int, slot as int);
    }
    (fresh, stale)
}

/// For `k` below `ceil(len / n)`, the `k`-th strided index `k * n` is a
/// valid index.
proof fn lemma_strided_index_in_range(len: int, n: int, k: int)
    requires
        n >= 1,
        len >= 0,
        0 <= k,
        k < (len + n - 1) / n,
    ensures
        k * n < len,
{
    let q = (len + n - 1) / n;
    let r = (len + n - 1) % n;
    lemma_fundamental_div_mod(len + n - 1, n);
    lemma_mod_division_less_than_divisor(len + n - 1, n);
    assert(len + n - 1 == q * n + r);
    lemma_mul_inequality(k, q - 1, n);
    assert((q - 1) * n == q * n - n) by (nonlinear_arith);
    assert(k * n <= q * n - n);
    assert(q * n == len + n - 1 - r);
    assert(k * n <= len - 1 - r);
}

/// At `k == ceil(len / n)` the strided iteration has passed the end.
proof fn lemma_strided_end(len: int, n: int, k: int)
    requires
        n >= 1,
        len >= 0,
        k == (len + n - 1) / n,
    ensures
        k * n >= len,
{
    let q = (len + n - 1) / n;
    let r = (len + n - 1) % n;
    lemma_fundamental_div_mod(len + n - 1, n);
    lemma_mod_division_less_than_divisor(len + n - 1, n);
    assert(len + n - 1 == q * n + r);
    assert(r <= n - 1);
    assert(q * n == len + n - 1 - r);
}

} // verus!
