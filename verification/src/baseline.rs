//! Per-channel DC offset estimation.
//!
//! The baseline of a channel is the arithmetic mean (rounded toward negative
//! infinity) of all currently buffered values. A channel with nothing
//! buffered keeps its previous baseline, so that recomputation never causes
//! a visual jump on a silent channel.

use vstd::prelude::*;
use std::collections::VecDeque;
use crate::buffer::{BufferStore, chan_wf};
use crate::msg::TimedValue;
use crate::units::{MAX_ABS_VALUE, valid_value};
use vstd::arithmetic::div_mod::{lemma_div_is_ordered, lemma_div_multiples_vanish};

verus! {

/// Sum of the buffered values of one channel.
pub open spec fn sum_vals(s: Seq<TimedValue>) -> int
    decreases s.len(),
{
    if s.len() == 0 {
        0
    } else {
        sum_vals(s.drop_last()) + s.last().val
    }
}

/// Arithmetic mean of the buffered values, rounded toward negative infinity.
pub open spec fn mean_of(s: Seq<TimedValue>) -> int
    recommends
        s.len() > 0,
{
    sum_vals(s) / (s.len() as int)
}

/// The baseline vector that one recomputation produces: the mean for every
/// channel with at least one buffered sample, the previous baseline for an
/// empty channel.
pub open spec fn baseline_after(bufs: Seq<Seq<TimedValue>>, prev: Seq<i64>) -> Seq<i64> {
    Seq::new(
        prev.len(),
        |c: int|
            if 0 <= c < bufs.len() && bufs[c].len() > 0 {
                mean_of(bufs[c]) as i64
            } else {
                prev[c]
            },
    )
}

/// Baseline idempotence law: recomputing with no new samples in between
/// yields the identical baseline vector.
pub proof fn lemma_baseline_idempotent(bufs: Seq<Seq<TimedValue>>, prev: Seq<i64>)
    ensures
        baseline_after(bufs, baseline_after(bufs, prev)) == baseline_after(bufs, prev),
{
    let once = baseline_after(bufs, prev);
    let twice = baseline_after(bufs, once);
    assert forall|c: int| 0 <= c < twice.len() implies twice[c] == once[c] by {}
    assert(twice =~= once);
}

/// A sum of bounded values is bounded by the count times the bound.
proof fn lemma_sum_bounds(s: Seq<TimedValue>)
    requires
        forall|i: int| 0 <= i < s.len() ==> valid_value(#[trigger] s[i].val),
    ensures
        -(s.len() * MAX_ABS_VALUE) <= sum_vals(s) <= s.len() * MAX_ABS_VALUE,
    decreases s.len(),
{
    if s.len() > 0 {
        let init = s.drop_last();
        assert forall|i: int| 0 <= i < init.len() implies valid_value(#[trigger] init[i].val) by {
            assert(init[i] == s[i]);
        }
        lemma_sum_bounds(init);
        assert(valid_value(s.last().val));
        assert(init.len() * MAX_ABS_VALUE + MAX_ABS_VALUE == s.len() * MAX_ABS_VALUE) by (
        nonlinear_arith)
            requires
                init.len() == s.len() - 1,
        ;
    }
}

/// The mean of values bounded by `MAX_ABS_VALUE` is itself bounded.
proof fn lemma_mean_bounds(s: Seq<TimedValue>)
    requires
        s.len() > 0,
        forall|i: int| 0 <= i < s.len() ==> valid_value(#[trigger] s[i].val),
    ensures
        -MAX_ABS_VALUE <= mean_of(s) <= MAX_ABS_VALUE,
{
    let n = s.len() as int;
    lemma_sum_bounds(s);
    assert(n * MAX_ABS_VALUE == MAX_ABS_VALUE * n) by (nonlinear_arith);
    assert(-(n * MAX_ABS_VALUE) == (-MAX_ABS_VALUE) * n) by (nonlinear_arith);
    lemma_div_is_ordered(sum_vals(s), MAX_ABS_VALUE * n, n);
    lemma_div_multiples_vanish(MAX_ABS_VALUE as int, n);
    lemma_div_is_ordered((-MAX_ABS_VALUE) * n, sum_vals(s), n);
    lemma_div_multiples_vanish(-MAX_ABS_VALUE as int, n);
    assert(n * MAX_ABS_VALUE == MAX_ABS_VALUE * n);
    assert(n * (-MAX_ABS_VALUE) == (-MAX_ABS_VALUE) * n) by (nonlinear_arith);
}

/// Mean of one non-empty channel, in exact fixed-point arithmetic.
fn mean_channel(ch: &VecDeque<TimedValue>) -> (m: i64)
    requires
        chan_wf(ch@),
        ch@.len() > 0,
    ensures
        m == mean_of(ch@),
        valid_value(m),
{
    let n = ch.len();
    let mut acc: i128 = 0;
    let mut i: usize = 0;
    while i < n
        invariant
            i <= n,
            n == ch@.len(),
            chan_wf(ch@),
            acc == sum_vals(ch@.take(i as int)),
            -((i as int) * MAX_ABS_VALUE) <= acc <= (i as int) * MAX_ABS_VALUE,
        decreases n - i,
    {
        let e = ch[i];
        proof {
            assert(ch@.take(i + 1).drop_last() =~= ch@.take(i as int));
            assert(ch@.take(i + 1).last() == ch@[i as int]);
            assert(valid_value(ch@[i as int].val));
        }
        acc = acc + (e.val as i128);
        i += 1;
    }
    proof {
        assert(ch@.take(n as int) =~= ch@);
        lemma_mean_bounds(ch@);
    }
    let q = match acc.checked_div_euclid(n as i128) {
        Some(v) => v,
        None => 0,
    };
    proof {
        assert(q == acc as int / (n as int));
    }
    q as i64
}

/// Recompute every channel's baseline from what is currently buffered;
/// channels with nothing buffered keep their previous baseline. The whole
/// vector is replaced in one pass, never left partially stale.
pub fn compute(store: &BufferStore, baselines: &mut Vec<i64>)
    requires
        store.wf(),
        old(baselines)@.len() == store@.len(),
    ensures
        final(baselines)@ == baseline_after(store@, old(baselines)@),
        final(baselines)@.len() == old(baselines)@.len(),
        forall|c: int|
            0 <= c < old(baselines)@.len() && valid_value(old(baselines)@[c]) ==> valid_value(
                #[trigger] final(baselines)@[c],
            ),
{
    let n = store.channel_count();
    let ghost orig = baselines@;
    let mut c: usize = 0;
    while c < n
        invariant
            c <= n,
            n == store@.len(),
            store.wf(),
            baselines@.len() == orig.len(),
            orig.len() == n,
            forall|k: int| 0 <= k < c ==> baselines@[k] == (
                if store@[k].len() > 0 {
                    mean_of(store@[k]) as i64
                } else {
                    orig[k]
                }),
            forall|k: int| c <= k < n ==> baselines@[k] == orig[k],
        decreases n - c,
    {
        let ch = store.channel(c);
        if ch.len() > 0 {
            let m = mean_channel(ch);
            baselines[c] = m;
        }
        c += 1;
    }
    proof {
        assert(baselines@ =~= baseline_after(store@, orig));
        assert forall|k: int| 0 <= k < orig.len() && valid_value(#[trigger] orig[k]) implies
            valid_value(baselines@[k]) by {
            if store@[k].len() > 0 {
                assert forall|i: int| 0 <= i < store@[k].len() implies valid_value(
                    #[trigger] store@[k][i].val,
                ) by {
                    assert(crate::msg::entry_ok(store@[k][i]));
                }
                lemma_mean_bounds(store@[k]);
            }
        }
    }
}

} // verus!
