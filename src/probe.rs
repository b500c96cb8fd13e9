//! Reading the numbers that the media probe prints.
use vstd::prelude::*;
use crate::size::min_u64;
use crate::planner::FALLBACK_AUDIO_BPS;
use crate::size::{
    decimal_parts, decimal_value, digits_end, digits_end_exec, digits_value, frac_prefix,
    int_value, is_digit,
};
use crate::text::{chars_of, trim, trim_chars};

verus! {

/// Microseconds in a duration printed in seconds ("12.5", "3600.000000"),
/// rounded down; `None` where the text is not such a number.
pub open spec fn duration_us_of(s: Seq<char>) -> Option<nat> {
    match decimal_parts(trim(s)) {
        Some((ip, f)) => Some(min_u64(digits_value(ip) * 1_000_000 + frac_prefix(f, 12) / 1_000_000)),
        None => None,
    }
}

pub fn parse_duration_us(s: &str) -> (r: Option<u64>)
    ensures
        match duration_us_of(s@) {
            None => r is None,
            Some(d) => r == Some(d as u64),
        },
{
    let cs = chars_of(s);
    let t = trim_chars(&cs);
    match decimal_value(&t) {
        None => None,
        Some((ip, fv)) => {
            let ghost exact = digits_value(decimal_parts(t@).unwrap().0);
            assert(ip * 1_000_000 <= 0x1_0000_0000_0000_0000 * 1_000_000) by (nonlinear_arith)
                requires
                    ip <= 0x1_0000_0000_0000_0000u128,
            ;
            let us = ip * 1_000_000 + fv / 1_000_000;
            proof {
                if exact > 0x1_0000_0000_0000_0000 {
                    assert(exact * 1_000_000 > u64::MAX) by (nonlinear_arith)
                        requires
                            exact > 0x1_0000_0000_0000_0000,
                    ;
                }
            }
            if us > u64::MAX as u128 {
                Some(u64::MAX)
            } else {
                Some(us as u64)
            }
        },
    }
}

/// The digits of an unsigned integer as `str::parse::<u64>` reads it: an
/// optional leading `+`, then one or more ASCII digits.
pub open spec fn unsigned_digits(t: Seq<char>) -> Seq<char> {
    if t.len() > 0 && t[0] == '+' {
        t.drop_first()
    } else {
        t
    }
}

/// The audio bitrate that the probe printed, or `FALLBACK_AUDIO_BPS` where the
/// text is not an unsigned 64-bit integer.
pub open spec fn audio_bps_of(s: Seq<char>) -> nat {
    let d = unsigned_digits(trim(s));
    if d.len() > 0 && digits_end(d, 0) == d.len() && digits_value(d) <= u64::MAX {
        digits_value(d)
    } else {
        FALLBACK_AUDIO_BPS as nat
    }
}

pub fn parse_audio_bps(s: &str) -> (r: u64)
    ensures
        r == audio_bps_of(s@),
{
    let cs = chars_of(s);
    let t = trim_chars(&cs);
    let from: usize = if t.len() > 0 && t[0] == '+' {
        1
    } else {
        0
    };
    let ghost d = unsigned_digits(t@);
    assert(d =~= t@.subrange(from as int, t@.len() as int));
    let e = digits_end_exec(&t, from);
    proof {
        lemma_digits_end_shift(t@, d, from as int, from as int);
    }
    if e == t.len() && e > from {
        let v = int_value(&t, from, e);
        if v <= u64::MAX as u128 {
            v as u64
        } else {
            FALLBACK_AUDIO_BPS
        }
    } else {
        FALLBACK_AUDIO_BPS
    }
}

/// Scanning digits of `t` from `i` is scanning `d`, its suffix from `off`, from `i - off`.
proof fn lemma_digits_end_shift(t: Seq<char>, d: Seq<char>, off: int, i: int)
    requires
        0 <= off <= i <= t.len(),
        d == t.subrange(off, t.len() as int),
    ensures
        digits_end(t, i) - off == digits_end(d, i - off),
    decreases t.len() - i,
{
    if i < t.len() && is_digit(t[i]) {
        lemma_digits_end_shift(t, d, off, i + 1);
    }
}

} // verus!
