use servufi::planner::EncodePlan;
use servufi::reencode::{start, step, ReencodeAction, ReencodeEvent, ReencodeOutcome, ReencodeState};

fn run(size: &str, events: Vec<ReencodeEvent>) -> Vec<ReencodeAction> {
    let (mut s, a) = start(size);
    let mut actions = vec![a];
    for e in events.iter() {
        let (n, a) = step(s, e);
        s = n;
        actions.push(a);
    }
    actions
}

#[test]
fn bad_size_stops_at_once() {
    let (s, a) = start("huge");
    assert_eq!(s, ReencodeState::Finished { outcome: ReencodeOutcome::BadTargetSize });
    assert_eq!(a, ReencodeAction::Stop);
}

#[test]
fn full_run_replaces_smaller_output() {
    let actions = run(
        "1M",
        vec![
            ReencodeEvent::DurationProbed(Some("10.000000\n".to_string())),
            ReencodeEvent::AudioProbed(Some("128000".to_string())),
            ReencodeEvent::InputSized(Some(10_000_000)),
            ReencodeEvent::TranscodeExited(true),
            ReencodeEvent::OutputSized(Some(900_000)),
        ],
    );
    let plan = EncodePlan {
        duration_us: 10_000_000,
        original_bits: 80_000_000,
        target_bits: 8_000_000,
        audio_bps: 128_000,
        video_bps: 664_000,
    };
    assert_eq!(
        actions,
        vec![
            ReencodeAction::ProbeDuration,
            ReencodeAction::ProbeAudio,
            ReencodeAction::StatInput,
            ReencodeAction::Transcode(plan),
            ReencodeAction::StatOutput,
            ReencodeAction::ReplaceOriginal,
        ]
    );
}

#[test]
fn output_not_smaller_is_discarded() {
    let actions = run(
        "1M",
        vec![
            ReencodeEvent::DurationProbed(Some("10".to_string())),
            ReencodeEvent::AudioProbed(None),
            ReencodeEvent::InputSized(Some(10_000_000)),
            ReencodeEvent::TranscodeExited(true),
            ReencodeEvent::OutputSized(Some(10_000_000)),
        ],
    );
    assert_eq!(actions.last(), Some(&ReencodeAction::DiscardOutput));
}

#[test]
fn file_within_target_is_left_alone() {
    let actions = run(
        "2M",
        vec![
            ReencodeEvent::DurationProbed(Some("60".to_string())),
            ReencodeEvent::AudioProbed(Some("128000".to_string())),
            ReencodeEvent::InputSized(Some(2_000_000)),
        ],
    );
    assert_eq!(
        actions,
        vec![ReencodeAction::ProbeDuration, ReencodeAction::ProbeAudio, ReencodeAction::StatInput, ReencodeAction::Stop]
    );
}

#[test]
fn failures_abort() {
    let (s, _) = start("1M");
    let (s2, a) = step(s, &ReencodeEvent::DurationProbed(None));
    assert_eq!(s2, ReencodeState::Finished { outcome: ReencodeOutcome::DurationUnavailable });
    assert_eq!(a, ReencodeAction::Stop);
    let (s3, _) = step(s, &ReencodeEvent::DurationProbed(Some("0.0".to_string())));
    assert_eq!(s3, ReencodeState::Finished { outcome: ReencodeOutcome::InvalidDuration });
    let (s4, _) = step(s, &ReencodeEvent::DurationProbed(Some("garbage".to_string())));
    assert_eq!(s4, ReencodeState::Finished { outcome: ReencodeOutcome::InvalidDuration });
    let s5 = ReencodeState::AwaitInputSize { target_bits: 8, duration_us: 1, audio_bps: 1 };
    let (s6, _) = step(s5, &ReencodeEvent::InputSized(None));
    assert_eq!(s6, ReencodeState::Finished { outcome: ReencodeOutcome::InputUnreadable });
}

#[test]
fn transcode_failure_and_missing_output() {
    let plan = EncodePlan { duration_us: 1_000_000, original_bits: 100, target_bits: 10, audio_bps: 1, video_bps: 1 };
    let (s, a) = step(ReencodeState::AwaitTranscode { plan }, &ReencodeEvent::TranscodeExited(false));
    assert_eq!(s, ReencodeState::Finished { outcome: ReencodeOutcome::TranscodeFailed });
    assert_eq!(a, ReencodeAction::Stop);
    let (s, _) = step(ReencodeState::AwaitOutputSize { plan }, &ReencodeEvent::OutputSized(None));
    assert_eq!(s, ReencodeState::Finished { outcome: ReencodeOutcome::OutputMissing });
}

#[test]
fn unrelated_event_is_ignored() {
    let s = ReencodeState::AwaitDuration { target_bits: 5 };
    let (n, a) = step(s, &ReencodeEvent::TranscodeExited(true));
    assert_eq!(n, s);
    assert_eq!(a, ReencodeAction::ProbeDuration);
}
