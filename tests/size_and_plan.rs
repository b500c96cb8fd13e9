use servufi::planner::{plan_encode, EncodePlan, PlanDecision};
use servufi::probe::{parse_audio_bps, parse_duration_us};
use servufi::size::{parse_size, size_unit, SizeUnit};

#[test]
fn size_megabytes_with_fraction() {
    assert_eq!(parse_size("5.6M"), Some(44_800_000));
}

#[test]
fn size_units_table() {
    assert_eq!(parse_size("5000K"), Some(40_000_000));
    assert_eq!(parse_size("5000kb"), Some(40_000_000));
    assert_eq!(parse_size("600kbit"), Some(600_000));
    assert_eq!(parse_size("600KBPS"), Some(600_000));
    assert_eq!(parse_size("2mb"), Some(16_000_000));
    assert_eq!(parse_size("2Mbit"), Some(2_000_000));
    assert_eq!(parse_size("2mbps"), Some(2_000_000));
    assert_eq!(parse_size("1G"), Some(8_000_000_000));
    assert_eq!(parse_size("1gb"), Some(8_000_000_000));
    assert_eq!(parse_size("3gbit"), Some(3_000_000_000));
    assert_eq!(parse_size("3Gbps"), Some(3_000_000_000));
}

#[test]
fn size_without_unit_is_bytes() {
    assert_eq!(parse_size("10"), Some(80));
}

#[test]
fn size_unknown_unit_is_bytes() {
    assert_eq!(parse_size("10x"), Some(80));
    assert_eq!(parse_size("10 tb"), Some(80));
}

#[test]
fn size_surrounding_whitespace() {
    assert_eq!(parse_size("  2M\t"), Some(16_000_000));
}

#[test]
fn size_point_forms() {
    assert_eq!(parse_size(".5k"), Some(4_000));
    assert_eq!(parse_size("5."), Some(40));
    assert_eq!(parse_size("0.000001k"), Some(0));
    assert_eq!(parse_size("1.0000000000001G"), Some(8_000_000_000));
}

#[test]
fn size_unresolvable() {
    assert_eq!(parse_size("abc"), None);
    assert_eq!(parse_size("m"), None);
    assert_eq!(parse_size(""), None);
    assert_eq!(parse_size("."), None);
    assert_eq!(parse_size("1.2.3M"), None);
    assert_eq!(parse_size("badtoken"), None);
}

#[test]
fn size_non_ascii_numeric_is_not_a_number() {
    assert_eq!(parse_size("5\u{bd}m"), None);
}

#[test]
fn size_saturates() {
    assert_eq!(parse_size("99999999999999999999999G"), Some(u64::MAX));
}

#[test]
fn plan_ladder_exhausted() {
    let d = plan_encode(8_000_000, 100_000_000, 128_000, 10_000_000);
    assert_eq!(d, PlanDecision::WouldNotShrink { expected_bits: 19_300_000 });
}

#[test]
fn plan_ladder_exhausted_large_original() {
    let d = plan_encode(8_000_000, 100_000_000, 128_000, 40_000_000);
    assert_eq!(
        d,
        PlanDecision::Encode(EncodePlan {
            duration_us: 100_000_000,
            original_bits: 40_000_000,
            target_bits: 8_000_000,
            audio_bps: 192_000,
            video_bps: 1000,
        })
    );
}

#[test]
fn plan_first_candidate_fits() {
    let d = plan_encode(8_000_000, 10_000_000, 128_000, 80_000_000);
    assert_eq!(
        d,
        PlanDecision::Encode(EncodePlan {
            duration_us: 10_000_000,
            original_bits: 80_000_000,
            target_bits: 8_000_000,
            audio_bps: 128_000,
            video_bps: 664_000,
        })
    );
}

#[test]
fn plan_second_candidate() {
    let d = plan_encode(8_000_000, 10_000_000, 791_500, 80_000_000);
    match d {
        PlanDecision::Encode(p) => {
            assert_eq!(p.audio_bps, 320_000);
            assert_eq!(p.video_bps, 472_000);
            assert_eq!(p.buffer_bits(), 944_000);
        }
        other => panic!("unexpected {:?}", other),
    }
}

#[test]
fn plan_already_within_target() {
    assert_eq!(plan_encode(8_000_000, 10_000_000, 128_000, 8_000_000), PlanDecision::AlreadyWithinTarget);
    assert_eq!(plan_encode(8_000_000, 10_000_000, 128_000, 1), PlanDecision::AlreadyWithinTarget);
}

#[test]
fn plan_zero_duration() {
    assert_eq!(plan_encode(8_000_000, 0, 128_000, 80_000_000), PlanDecision::InvalidDuration);
}

#[test]
fn probe_duration_text() {
    assert_eq!(parse_duration_us("123.456000\n"), Some(123_456_000));
    assert_eq!(parse_duration_us("100"), Some(100_000_000));
    assert_eq!(parse_duration_us("0.0000019"), Some(1));
    assert_eq!(parse_duration_us("N/A"), None);
    assert_eq!(parse_duration_us(""), None);
}

#[test]
fn probe_audio_text() {
    assert_eq!(parse_audio_bps("128000\n"), 128_000);
    assert_eq!(parse_audio_bps("+96000"), 96_000);
    assert_eq!(parse_audio_bps("N/A"), 320_000);
    assert_eq!(parse_audio_bps(""), 320_000);
    assert_eq!(parse_audio_bps("18446744073709551616"), 320_000);
    assert_eq!(parse_audio_bps("18446744073709551615"), u64::MAX);
}

#[test]
fn size_unit_kinds() {
    assert_eq!(size_unit("10"), Some(SizeUnit::Missing));
    assert_eq!(size_unit(" 10 "), Some(SizeUnit::Missing));
    assert_eq!(size_unit("5M"), Some(SizeUnit::Known));
    assert_eq!(size_unit("5kBps"), Some(SizeUnit::Known));
    assert_eq!(size_unit("5gbit"), Some(SizeUnit::Known));
    assert_eq!(size_unit("5x"), Some(SizeUnit::Unknown));
    assert_eq!(size_unit("5tb"), Some(SizeUnit::Unknown));
    assert_eq!(size_unit("abc"), None);
    assert_eq!(size_unit("1.2.3k"), None);
}
