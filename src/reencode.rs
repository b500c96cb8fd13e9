//! The re-encode orchestrator as a state machine: each step takes what the
//! last outside action gave back and says what to do next. The caller runs the
//! probes, the transcoder and the file operations.
use vstd::prelude::*;
use crate::size::min_u64;
use crate::planner::{plan_encode, plan_ok, plan_spec, EncodePlan, PlanDecision};
use crate::probe::{audio_bps_of, duration_us_of, parse_audio_bps, parse_duration_us};
use crate::size::{parse_size, size_bits};

verus! {

/// How a re-encode attempt ended.
#[derive(Clone, Copy, Debug, PartialEq, Eq)]
pub enum ReencodeOutcome {
    /// The size string does not resolve to a bit count.
    BadTargetSize,
    /// The duration probe failed.
    DurationUnavailable,
    /// The duration is zero or not a number.
    InvalidDuration,
    /// The input file could not be measured.
    InputUnreadable,
    /// The file already fits the target: nothing was done.
    AlreadyWithinTarget,
    /// The planned output would not be smaller: nothing was done.
    WouldNotShrink,
    /// The transcoder could not be run or failed; the original is untouched.
    TranscodeFailed,
    /// The transcoder left no output file.
    OutputMissing,
    /// The output is not smaller than the original: it is discarded.
    NotSmaller,
    /// The output replaces the original.
    Replaced,
}

#[derive(Clone, Copy, Debug, PartialEq, Eq)]
pub enum ReencodeState {
    AwaitDuration { target_bits: u64 },
    AwaitAudio { target_bits: u64, duration_us: u64 },
    AwaitInputSize { target_bits: u64, duration_us: u64, audio_bps: u64 },
    AwaitTranscode { plan: EncodePlan },
    AwaitOutputSize { plan: EncodePlan },
    Finished { outcome: ReencodeOutcome },
}

/// What the caller does next.
#[derive(Clone, Copy, Debug, PartialEq, Eq)]
pub enum ReencodeAction {
    /// Ask the probe for the duration in seconds.
    ProbeDuration,
    /// Ask the probe for the first audio stream's bitrate.
    ProbeAudio,
    /// Measure the input file.
    StatInput,
    /// Run the transcoder into the temporary file with these figures.
    Transcode(EncodePlan),
    /// Measure the temporary file.
    StatOutput,
    /// Remove the temporary file and keep the original.
    DiscardOutput,
    /// Delete the original and move the temporary file into its place.
    ReplaceOriginal,
    /// Nothing more to do.
    Stop,
}

/// What an outside action gave back.
#[derive(Debug, PartialEq, Eq)]
pub enum ReencodeEvent {
    /// The duration probe's output, or `None` where it could not run or failed.
    DurationProbed(Option<String>),
    /// The audio probe's output, or `None` where it could not run or failed.
    AudioProbed(Option<String>),
    /// The input file's size in bytes, or `None` where it could not be read.
    InputSized(Option<u64>),
    /// Whether the transcoder ran and exited with success.
    TranscodeExited(bool),
    /// The temporary file's size in bytes, or `None` where it is missing.
    OutputSized(Option<u64>),
}

/// Bits in a file of `bytes` bytes, at most `u64::MAX`.
pub open spec fn bits_of_bytes(bytes: nat) -> nat {
    min_u64(bytes * 8)
}

pub fn bytes_to_bits(bytes: u64) -> (r: u64)
    ensures
        r == bits_of_bytes(bytes as nat),
{
    if bytes > u64::MAX / 8 {
        u64::MAX
    } else {
        bytes * 8
    }
}

/// The regression guard: an output replaces the original only when strictly smaller.
pub open spec fn keeps_output(original_bits: nat, output_bits: nat) -> bool {
    output_bits < original_bits
}

pub fn keep_output(original_bits: u64, output_bits: u64) -> (r: bool)
    ensures
        r == keeps_output(original_bits as nat, output_bits as nat),
{
    output_bits < original_bits
}

pub open spec fn finish(o: ReencodeOutcome, a: ReencodeAction) -> (ReencodeState, ReencodeAction) {
    (ReencodeState::Finished { outcome: o }, a)
}

/// The states that the orchestrator reaches.
pub open spec fn state_ok(s: ReencodeState) -> bool {
    match s {
        ReencodeState::AwaitTranscode { plan } => plan_ok(plan),
        ReencodeState::AwaitOutputSize { plan } => plan_ok(plan),
        _ => true,
    }
}

/// The first state and action for a re-encode to the size string `size`.
pub open spec fn start_spec(size: Seq<char>) -> (ReencodeState, ReencodeAction) {
    match size_bits(size) {
        None => finish(ReencodeOutcome::BadTargetSize, ReencodeAction::Stop),
        Some(b) => (ReencodeState::AwaitDuration { target_bits: b as u64 }, ReencodeAction::ProbeDuration),
    }
}

/// What the state asks for; an event that does not answer it is ignored.
pub open spec fn pending(s: ReencodeState) -> ReencodeAction {
    match s {
        ReencodeState::AwaitDuration { .. } => ReencodeAction::ProbeDuration,
        ReencodeState::AwaitAudio { .. } => ReencodeAction::ProbeAudio,
        ReencodeState::AwaitInputSize { .. } => ReencodeAction::StatInput,
        ReencodeState::AwaitTranscode { plan } => ReencodeAction::Transcode(plan),
        ReencodeState::AwaitOutputSize { .. } => ReencodeAction::StatOutput,
        ReencodeState::Finished { .. } => ReencodeAction::Stop,
    }
}

/// The next state and action.
pub open spec fn step_spec(s: ReencodeState, e: ReencodeEvent) -> (ReencodeState, ReencodeAction) {
    match (s, e) {
        (ReencodeState::AwaitDuration { target_bits }, ReencodeEvent::DurationProbed(out)) => match out {
            None => finish(ReencodeOutcome::DurationUnavailable, ReencodeAction::Stop),
            Some(text) => match duration_us_of(text@) {
                Some(d) if d > 0 => (
                    ReencodeState::AwaitAudio { target_bits, duration_us: d as u64 },
                    ReencodeAction::ProbeAudio,
                ),
                _ => finish(ReencodeOutcome::InvalidDuration, ReencodeAction::Stop),
            },
        },
        (ReencodeState::AwaitAudio { target_bits, duration_us }, ReencodeEvent::AudioProbed(out)) => {
            let audio_bps = match out {
                None => crate::planner::FALLBACK_AUDIO_BPS,
                Some(text) => audio_bps_of(text@) as u64,
            };
            (ReencodeState::AwaitInputSize { target_bits, duration_us, audio_bps }, ReencodeAction::StatInput)
        },
        (
            ReencodeState::AwaitInputSize { target_bits, duration_us, audio_bps },
            ReencodeEvent::InputSized(size),
        ) => match size {
            None => finish(ReencodeOutcome::InputUnreadable, ReencodeAction::Stop),
            Some(bytes) => match plan_spec(
                target_bits as nat,
                duration_us as nat,
                audio_bps as nat,
                bits_of_bytes(bytes as nat),
            ) {
                PlanDecision::Encode(plan) => (ReencodeState::AwaitTranscode { plan }, ReencodeAction::Transcode(plan)),
                PlanDecision::AlreadyWithinTarget => finish(ReencodeOutcome::AlreadyWithinTarget, ReencodeAction::Stop),
                PlanDecision::WouldNotShrink { .. } => finish(ReencodeOutcome::WouldNotShrink, ReencodeAction::Stop),
                PlanDecision::InvalidDuration => finish(ReencodeOutcome::InvalidDuration, ReencodeAction::Stop),
            },
        },
        (ReencodeState::AwaitTranscode { plan }, ReencodeEvent::TranscodeExited(ok)) => if ok {
            (ReencodeState::AwaitOutputSize { plan }, ReencodeAction::StatOutput)
        } else {
            finish(ReencodeOutcome::TranscodeFailed, ReencodeAction::Stop)
        },
        (ReencodeState::AwaitOutputSize { plan }, ReencodeEvent::OutputSized(size)) => match size {
            None => finish(ReencodeOutcome::OutputMissing, ReencodeAction::Stop),
            Some(bytes) => if keeps_output(plan.original_bits as nat, bits_of_bytes(bytes as nat)) {
                finish(ReencodeOutcome::Replaced, ReencodeAction::ReplaceOriginal)
            } else {
                finish(ReencodeOutcome::NotSmaller, ReencodeAction::DiscardOutput)
            },
        },
        _ => (s, pending(s)),
    }
}

/// A file that already fits its target is never handed to the transcoder:
/// the attempt ends at once, with nothing done.
pub proof fn lemma_within_target_is_noop(target_bits: u64, duration_us: u64, audio_bps: u64, bytes: u64)
    requires
        bits_of_bytes(bytes as nat) <= target_bits,
    ensures
        step_spec(
            ReencodeState::AwaitInputSize { target_bits, duration_us, audio_bps },
            ReencodeEvent::InputSized(Some(bytes)),
        ) == (if duration_us == 0 {
            finish(ReencodeOutcome::InvalidDuration, ReencodeAction::Stop)
        } else {
            finish(ReencodeOutcome::AlreadyWithinTarget, ReencodeAction::Stop)
        }),
{
}

/// The original is replaced only on the answer to measuring the output, and
/// only when the output is strictly smaller than the original.
pub proof fn lemma_replace_only_when_smaller(s: ReencodeState, e: ReencodeEvent)
    requires
        step_spec(s, e).1 is ReplaceOriginal,
    ensures
        s is AwaitOutputSize,
        e is OutputSized,
        e->OutputSized_0 is Some,
        bits_of_bytes(e->OutputSized_0->Some_0 as nat) < s->AwaitOutputSize_plan.original_bits,
{
}

pub fn start(size: &str) -> (r: (ReencodeState, ReencodeAction))
    ensures
        r == start_spec(size@),
        state_ok(r.0),
{
    match parse_size(size) {
        None => (ReencodeState::Finished { outcome: ReencodeOutcome::BadTargetSize }, ReencodeAction::Stop),
        Some(b) => (ReencodeState::AwaitDuration { target_bits: b }, ReencodeAction::ProbeDuration),
    }
}

fn pending_exec(s: ReencodeState) -> (r: ReencodeAction)
    ensures
        r == pending(s),
{
    match s {
        ReencodeState::AwaitDuration { .. } => ReencodeAction::ProbeDuration,
        ReencodeState::AwaitAudio { .. } => ReencodeAction::ProbeAudio,
        ReencodeState::AwaitInputSize { .. } => ReencodeAction::StatInput,
        ReencodeState::AwaitTranscode { plan } => ReencodeAction::Transcode(plan),
        ReencodeState::AwaitOutputSize { .. } => ReencodeAction::StatOutput,
        ReencodeState::Finished { .. } => ReencodeAction::Stop,
    }
}

/// One step of the orchestrator. Besides the exact result: the transcoder is
/// only asked for when the file is larger than the target and the plan
/// promises a smaller file, and the original is only replaced by a strictly
/// smaller output.
pub fn step(s: ReencodeState, e: &ReencodeEvent) -> (r: (ReencodeState, ReencodeAction))
    requires
        state_ok(s),
    ensures
        r == step_spec(s, *e),
        state_ok(r.0),
        r.1 is ReplaceOriginal ==> (s is AwaitOutputSize && e is OutputSized && e->OutputSized_0 is Some
            && bits_of_bytes(e->OutputSized_0->Some_0 as nat) < s->AwaitOutputSize_plan.original_bits),
        r.1 is Transcode ==> plan_ok(r.1->Transcode_0),
{
    match (s, e) {
        (ReencodeState::AwaitDuration { target_bits }, ReencodeEvent::DurationProbed(out)) => match out {
            None => (ReencodeState::Finished { outcome: ReencodeOutcome::DurationUnavailable }, ReencodeAction::Stop),
            Some(text) => match parse_duration_us(text.as_str()) {
                Some(d) if d > 0 => (
                    ReencodeState::AwaitAudio { target_bits, duration_us: d },
                    ReencodeAction::ProbeAudio,
                ),
                _ => (ReencodeState::Finished { outcome: ReencodeOutcome::InvalidDuration }, ReencodeAction::Stop),
            },
        },
        (ReencodeState::AwaitAudio { target_bits, duration_us }, ReencodeEvent::AudioProbed(out)) => {
            let audio_bps = match out {
                None => crate::planner::FALLBACK_AUDIO_BPS,
                Some(text) => parse_audio_bps(text.as_str()),
            };
            (ReencodeState::AwaitInputSize { target_bits, duration_us, audio_bps }, ReencodeAction::StatInput)
        },
        (
            ReencodeState::AwaitInputSize { target_bits, duration_us, audio_bps },
            ReencodeEvent::InputSized(size),
        ) => match size {
            None => (ReencodeState::Finished { outcome: ReencodeOutcome::InputUnreadable }, ReencodeAction::Stop),
            Some(bytes) => match plan_encode(target_bits, duration_us, audio_bps, bytes_to_bits(*bytes)) {
                PlanDecision::Encode(plan) => (ReencodeState::AwaitTranscode { plan }, ReencodeAction::Transcode(plan)),
                PlanDecision::AlreadyWithinTarget => (
                    ReencodeState::Finished { outcome: ReencodeOutcome::AlreadyWithinTarget },
                    ReencodeAction::Stop,
                ),
                PlanDecision::WouldNotShrink { .. } => (
                    ReencodeState::Finished { outcome: ReencodeOutcome::WouldNotShrink },
                    ReencodeAction::Stop,
                ),
                PlanDecision::InvalidDuration => (
                    ReencodeState::Finished { outcome: ReencodeOutcome::InvalidDuration },
                    ReencodeAction::Stop,
                ),
            },
        },
        (ReencodeState::AwaitTranscode { plan }, ReencodeEvent::TranscodeExited(ok)) => if *ok {
            (ReencodeState::AwaitOutputSize { plan }, ReencodeAction::StatOutput)
        } else {
            (ReencodeState::Finished { outcome: ReencodeOutcome::TranscodeFailed }, ReencodeAction::Stop)
        },
        (ReencodeState::AwaitOutputSize { plan }, ReencodeEvent::OutputSized(size)) => match size {
            None => (ReencodeState::Finished { outcome: ReencodeOutcome::OutputMissing }, ReencodeAction::Stop),
            Some(bytes) => if keep_output(plan.original_bits, bytes_to_bits(*bytes)) {
                (ReencodeState::Finished { outcome: ReencodeOutcome::Replaced }, ReencodeAction::ReplaceOriginal)
            } else {
                (ReencodeState::Finished { outcome: ReencodeOutcome::NotSmaller }, ReencodeAction::DiscardOutput)
            },
        },
        _ => (s, pending_exec(s)),
    }
}

} // verus!
