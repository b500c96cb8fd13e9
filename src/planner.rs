//! The bitrate planner: whether and how to shrink a media file to fit a bit budget.
use vstd::prelude::*;
use crate::size::min_u64;

verus! {

/// Audio bitrate assumed when the probe cannot tell the current one.
pub const FALLBACK_AUDIO_BPS: u64 = 320_000;

/// Lowest video bitrate that is ever planned.
pub const MIN_VIDEO_BPS: u64 = 1000;

pub const MICROS_PER_SECOND: u64 = 1_000_000;

/// The figures of one re-encode attempt. Durations are in microseconds.
#[derive(Clone, Copy, Debug, PartialEq, Eq)]
pub struct EncodePlan {
    pub duration_us: u64,
    pub original_bits: u64,
    pub target_bits: u64,
    pub audio_bps: u64,
    pub video_bps: u64,
}

/// What the planner decides for one file.
#[derive(Clone, Copy, Debug, PartialEq, Eq)]
pub enum PlanDecision {
    /// The duration is zero: nothing can be planned.
    InvalidDuration,
    /// The file already fits the budget.
    AlreadyWithinTarget,
    /// The best plan would not give a smaller file.
    WouldNotShrink { expected_bits: u64 },
    Encode(EncodePlan),
}

/// One percent of the target, rounded down, is kept for the container.
pub open spec fn budget_bits(target: nat) -> nat {
    (target - target / 100) as nat
}

/// Bits per second that the budget allows over the duration, rounded down.
pub open spec fn total_bitrate(target: nat, duration_us: nat) -> nat {
    min_u64(budget_bits(target) * 1_000_000 / duration_us)
}

pub open spec fn sat_sub(a: nat, b: nat) -> nat {
    if a >= b {
        (a - b) as nat
    } else {
        0
    }
}

/// The audio bitrates tried, in order.
pub open spec fn audio_candidates(original_audio: nat) -> Seq<nat> {
    seq![original_audio, 320_000, 256_000, 192_000]
}

/// Audio and video bitrates: the first candidate that leaves at least
/// `MIN_VIDEO_BPS` for video, or else the last candidate with the minimum video bitrate.
pub open spec fn split_from(total: nat, cands: Seq<nat>, i: int) -> (nat, nat)
    decreases cands.len() - i,
{
    if i >= cands.len() {
        (cands.last(), MIN_VIDEO_BPS as nat)
    } else if sat_sub(total, cands[i]) >= MIN_VIDEO_BPS {
        (cands[i], sat_sub(total, cands[i]))
    } else {
        split_from(total, cands, i + 1)
    }
}

pub open spec fn bitrate_split(total: nat, original_audio: nat) -> (nat, nat) {
    split_from(total, audio_candidates(original_audio), 0)
}

/// Size of the output that a pair of bitrates gives over the duration, rounded down.
pub open spec fn expected_bits(audio: nat, video: nat, duration_us: nat) -> nat {
    min_u64((audio + video) * duration_us / 1_000_000)
}

/// The planner's decision, given the target, the duration, the current audio
/// bitrate and the current size.
pub open spec fn plan_spec(target: nat, duration_us: nat, original_audio: nat, original_bits: nat) -> PlanDecision {
    if duration_us == 0 {
        PlanDecision::InvalidDuration
    } else if original_bits <= target {
        PlanDecision::AlreadyWithinTarget
    } else {
        let (a, v) = bitrate_split(total_bitrate(target, duration_us), original_audio);
        let e = expected_bits(a, v, duration_us);
        if e >= original_bits {
            PlanDecision::WouldNotShrink { expected_bits: e as u64 }
        } else {
            PlanDecision::Encode(
                EncodePlan {
                    duration_us: duration_us as u64,
                    original_bits: original_bits as u64,
                    target_bits: target as u64,
                    audio_bps: a as u64,
                    video_bps: v as u64,
                },
            )
        }
    }
}

/// A plan that the orchestrator may carry out: the file exceeds the target and
/// the planned output is smaller than the file.
pub open spec fn plan_ok(p: EncodePlan) -> bool {
    &&& p.duration_us > 0
    &&& p.target_bits < p.original_bits
    &&& expected_bits(p.audio_bps as nat, p.video_bps as nat, p.duration_us as nat) < p.original_bits
}

impl EncodePlan {
    /// Rate-control buffer: twice the video bitrate, at most `u64::MAX`.
    pub fn buffer_bits(&self) -> (r: u64)
        ensures
            r == min_u64(2 * self.video_bps as nat),
    {
        if self.video_bps > u64::MAX / 2 {
            u64::MAX
        } else {
            2 * self.video_bps
        }
    }
}

/// Decides whether and how to re-encode a file of `original_bits` bits lasting
/// `duration_us` microseconds, to fit `target_bits`.
pub fn plan_encode(target_bits: u64, duration_us: u64, original_audio: u64, original_bits: u64) -> (r: PlanDecision)
    ensures
        r == plan_spec(target_bits as nat, duration_us as nat, original_audio as nat, original_bits as nat),
        r is Encode ==> plan_ok(r->Encode_0),
{
    if duration_us == 0 {
        return PlanDecision::InvalidDuration;
    }
    if original_bits <= target_bits {
        return PlanDecision::AlreadyWithinTarget;
    }
    let budget = target_bits - target_bits / 100;
    assert((budget as u128) * (MICROS_PER_SECOND as u128) <= (u64::MAX as u128) * 1_000_000) by (nonlinear_arith)
        requires
            budget <= u64::MAX,
    ;
    let raw = (budget as u128) * (MICROS_PER_SECOND as u128) / (duration_us as u128);
    let total: u64 = if raw > u64::MAX as u128 {
        u64::MAX
    } else {
        raw as u64
    };
    assert(total as nat == total_bitrate(target_bits as nat, duration_us as nat));
    let ghost cands = audio_candidates(original_audio as nat);
    let cs: [u64; 4] = [original_audio, 320_000, 256_000, 192_000];
    let mut audio: u64 = 192_000;
    let mut video: u64 = MIN_VIDEO_BPS;
    let mut i: usize = 0;
    let mut found = false;
    while i < 4 && !found
        invariant
            i <= 4,
            cs@ == seq![original_audio, 320_000u64, 256_000u64, 192_000u64],
            cands == audio_candidates(original_audio as nat),
            !found ==> bitrate_split(total as nat, original_audio as nat) == split_from(total as nat, cands, i as int),
            found ==> bitrate_split(total as nat, original_audio as nat) == (audio as nat, video as nat),
            !found ==> audio == 192_000 && video == MIN_VIDEO_BPS,
            found ==> audio as nat + video as nat == total as nat,
        decreases 4 - i,
    {
        let a = cs[i];
        assert(cands.len() == 4 && cands[i as int] == a as nat);
        let v = if total >= a {
            total - a
        } else {
            0
        };
        if v >= MIN_VIDEO_BPS {
            audio = a;
            video = v;
            found = true;
        }
        i = i + 1;
    }
    proof {
        if !found {
            assert(i == 4);
            assert(cands.len() == 4 && cands.last() == 192_000);
            assert(split_from(total as nat, cands, 4) == (192_000nat, MIN_VIDEO_BPS as nat));
        }
    }
    assert(bitrate_split(total as nat, original_audio as nat) == (audio as nat, video as nat));
    let sum = (audio as u128) + (video as u128);
    assert(sum * (duration_us as u128) <= (u64::MAX as u128) * (u64::MAX as u128)) by (nonlinear_arith)
        requires
            sum <= u64::MAX,
            duration_us <= u64::MAX,
    ;
    let raw_expected = ((audio as u128) + (video as u128)) * (duration_us as u128) / (MICROS_PER_SECOND as u128);
    let expected: u64 = if raw_expected > u64::MAX as u128 {
        u64::MAX
    } else {
        raw_expected as u64
    };
    assert(expected as nat == expected_bits(audio as nat, video as nat, duration_us as nat));
    if expected >= original_bits {
        PlanDecision::WouldNotShrink { expected_bits: expected }
    } else {
        PlanDecision::Encode(
            EncodePlan { duration_us, original_bits, target_bits, audio_bps: audio, video_bps: video },
        )
    }
}

} // verus!
