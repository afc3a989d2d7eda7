//! Channel label resolution.
//!
//! When the source's metadata yields one label per negotiated channel those
//! labels are used as they came; otherwise a synthesized label `"Ch <i>"` is
//! produced for each channel index.

use vstd::prelude::*;

verus! {

/// The decimal digit character for `d`.
pub open spec fn digit_char(d: int) -> char {
    if d == 0 {
        '0'
    } else if d == 1 {
        '1'
    } else if d == 2 {
        '2'
    } else if d == 3 {
        '3'
    } else if d == 4 {
        '4'
    } else if d == 5 {
        '5'
    } else if d == 6 {
        '6'
    } else if d == 7 {
        '7'
    } else if d == 8 {
        '8'
    } else {
        '9'
    }
}

/// The decimal digit characters of `n`, most significant first, without
/// leading zeros (a single `'0'` for zero).
pub open spec fn dec_digits(n: int) -> Seq<char>
    recommends
        n >= 0,
    decreases n,
{
    if n < 10 {
        seq![digit_char(n)]
    } else {
        dec_digits(n / 10).push(digit_char(n % 10))
    }
}

/// The synthesized label for channel `i`.
pub open spec fn label_chars(i: int) -> Seq<char> {
    "Ch "@ + dec_digits(i)
}

fn digit_str(d: usize) -> (r: &'static str)
    requires
        d < 10,
    ensures
        r@ == seq![digit_char(d as int)],
{
    proof {
        reveal_strlit("0");
        reveal_strlit("1");
        reveal_strlit("2");
        reveal_strlit("3");
        reveal_strlit("4");
        reveal_strlit("5");
        reveal_strlit("6");
        reveal_strlit("7");
        reveal_strlit("8");
        reveal_strlit("9");
    }
    let r = if d == 0 {
        "0"
    } else if d == 1 {
        "1"
    } else if d == 2 {
        "2"
    } else if d == 3 {
        "3"
    } else if d == 4 {
        "4"
    } else if d == 5 {
        "5"
    } else if d == 6 {
        "6"
    } else if d == 7 {
        "7"
    } else if d == 8 {
        "8"
    } else {
        "9"
    };
    proof {
        assert(r@ =~= seq![digit_char(d as int)]);
    }
    r
}

/// The decimal rendering of `n`.
pub fn dec_str(n: usize) -> (r: String)
    ensures
        r@ == dec_digits(n as int),
    decreases n,
{
    if n < 10 {
        String::from_str(digit_str(n))
    } else {
        let mut s = dec_str(n / 10);
        s.append(digit_str(n % 10));
        proof {
            assert(s@ =~= dec_digits(n as int));
        }
        s
    }
}

/// The synthesized label `"Ch <i>"` for channel `i`.
pub fn ch_label(i: usize) -> (r: String)
    ensures
        r@ == label_chars(i as int),
{
    let mut s = String::from_str("Ch ");
    let digits = dec_str(i);
    s.append(digits.as_str());
    s
}

/// One synthesized label per channel index below `count`.
pub fn fallback_labels(count: usize) -> (r: Vec<String>)
    ensures
        r@.len() == count,
        forall|k: int| 0 <= k < count ==> (#[trigger] r@[k])@ == label_chars(k),
{
    let mut out: Vec<String> = Vec::new();
    let mut i: usize = 0;
    while i < count
        invariant
            i <= count,
            out@.len() == i,
            forall|k: int| 0 <= k < i ==> (#[trigger] out@[k])@ == label_chars(k),
        decreases count - i,
    {
        out.push(ch_label(i));
        i += 1;
    }
    out
}

/// Use the labels read from the source's metadata when they number exactly
/// one per negotiated channel; otherwise synthesize `"Ch <i>"` labels for
/// every channel.
pub fn resolve_channel_names(names: Vec<String>, expected: usize) -> (r: Vec<String>)
    ensures
        names@.len() == expected ==> r@ == names@,
        names@.len() != expected ==> {
            &&& r@.len() == expected
            &&& forall|k: int| 0 <= k < expected ==> (#[trigger] r@[k])@ == label_chars(k)
        },
{
    if names.len() == expected {
        names
    } else {
        fallback_labels(expected)
    }
}

} // verus!
