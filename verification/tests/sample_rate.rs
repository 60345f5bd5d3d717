use std::time::Duration;

use fretboard::sample_rate::SampleRate;
use fretboard::workers::analysis_ring_len;

#[test]
fn samples_in_is_exact_where_f32_would_round_down() {
    let nine_ms = Duration::from_millis(9);
    assert_eq!((48_000.0f32 * nine_ms.as_secs_f32()) as usize, 431);
    assert_eq!(SampleRate(48_000).samples_in(nine_ms), 432);
    assert_eq!(SampleRate(44_100).samples_in(Duration::from_secs(4)), 176_400);
}

#[test]
fn duration_of_inverts_samples_in() {
    let sr = SampleRate(44_100);
    assert_eq!(sr.duration_of(441), Duration::from_millis(10));
    assert_eq!(sr.samples_in(sr.duration_of(22_050)), 22_050);
}

#[test]
fn samples_in_rounds_down_partial_samples() {
    // 1 ns at 48 kHz is far less than a sample.
    assert_eq!(SampleRate(48_000).samples_in(Duration::from_nanos(1)), 0);
    assert_eq!(SampleRate(48_000).samples_in(Duration::from_nanos(20_834)), 1);
    assert_eq!(SampleRate(48_000).samples_in(Duration::ZERO), 0);
}

#[test]
fn duration_of_rounds_down_to_whole_nanoseconds() {
    // 1 sample at 48 kHz lasts 20833.33.. ns.
    assert_eq!(SampleRate(48_000).duration_of(1), Duration::from_nanos(20_833));
    assert_eq!(SampleRate(48_000).duration_of(0), Duration::ZERO);
}

#[test]
fn round_trip_loses_a_sample_when_the_rate_does_not_divide() {
    // 1e9 is not a multiple of 48000 * 1 ... : one sample's duration is rounded down,
    // and counting the samples in it gives one short.
    let sr = SampleRate(48_000);
    assert_eq!(sr.samples_in(sr.duration_of(1)), 0);
    // 48 samples at 48 kHz are exactly 1 ms: the round trip is exact.
    assert_eq!(sr.samples_in(sr.duration_of(48)), 48);
}

#[test]
fn analysis_ring_holds_half_a_second() {
    assert_eq!(analysis_ring_len(SampleRate(48_000)), 24_000);
    assert_eq!(analysis_ring_len(SampleRate(44_101)), 22_050);
}
