use fretboard::recorder::{
    reconcile_take,
    reconcile_with,
    recorder_ring_capacity,
    RecorderHandle,
    RecorderStatus,
    TakeProgress,
    TakeReport,
    TakeTransition,
};
use fretboard::replay::{
    check_take_format,
    check_take_length,
    eq_ignore_ascii_case_chars,
    replay_position,
    select_takes,
    ReplayHandle,
    ReplayStatus,
    TakeCandidate,
    TakeFormatError,
    WavHeader,
};

#[test]
fn a_new_recorder_wants_nothing_and_is_idle() {
    let handle = RecorderHandle::new();
    assert_eq!(handle.wanted, None);
    assert_eq!(handle.status(), RecorderStatus::Idle);
}

#[test]
fn start_and_stop_change_only_the_intent() {
    let mut handle = RecorderHandle::new();
    handle.publish(RecorderStatus::Failed("old".to_owned()));
    handle.start("takes/a.wav".to_owned());
    assert_eq!(handle.wanted.as_deref(), Some("takes/a.wav"));
    assert_eq!(handle.status(), RecorderStatus::Failed("old".to_owned()));
    handle.stop();
    assert_eq!(handle.wanted, None);
    assert_eq!(handle.status(), RecorderStatus::Failed("old".to_owned()));
}

#[test]
fn a_failure_withdraws_the_request() {
    let mut handle = RecorderHandle::new();
    handle.start("takes/a.wav".to_owned());
    handle.fail("Cannot write takes/a.wav".to_owned());
    assert_eq!(handle.wanted, None);
    assert_eq!(
        handle.status(),
        RecorderStatus::Failed("Cannot write takes/a.wav".to_owned())
    );
    // With the request withdrawn, the writer's next pass does nothing.
    assert_eq!(
        reconcile_take(&handle.wanted, &None),
        TakeTransition { close: false, open: None }
    );
}

#[test]
fn reconciling_closes_on_any_change_of_intent() {
    let a = Some("a.wav".to_owned());
    let b = Some("b.wav".to_owned());
    assert_eq!(reconcile_take(&a, &a), TakeTransition { close: false, open: None });
    assert_eq!(reconcile_take(&None, &None), TakeTransition { close: false, open: None });
    assert_eq!(reconcile_take(&a, &None), TakeTransition { close: false, open: a.clone() });
    assert_eq!(reconcile_take(&None, &a), TakeTransition { close: true, open: None });
    assert_eq!(reconcile_take(&b, &a), TakeTransition { close: true, open: b.clone() });
}

#[test]
fn a_take_counts_its_samples_and_only_its_own_drops() {
    let mut take = TakeProgress::open("t.wav".to_owned(), 7);
    take.record_batch(100);
    take.record_batch(20);
    assert_eq!(take.dropped_so_far(7), 0);
    assert_eq!(
        take.recording_status(48_000, 9),
        RecorderStatus::Recording {
            path: "t.wav".to_owned(),
            samples: 120,
            sample_rate: 48_000,
            dropped: 2,
        }
    );
    let report = take.finish(48_000, 7);
    assert_eq!(
        report,
        TakeReport { path: "t.wav".to_owned(), sample_rate: 48_000, samples: 120, dropped: 0 }
    );
    assert!(report.is_evidence());
    let spoiled = TakeReport { dropped: 1, ..report };
    assert!(!spoiled.is_evidence());
}

#[test]
fn the_recorder_ring_holds_four_seconds() {
    assert_eq!(recorder_ring_capacity(48_000), 192_000);
}

#[test]
fn replay_status_is_published_and_read_back() {
    let mut handle = ReplayHandle::new();
    assert_eq!(handle.status(), ReplayStatus::Idle);
    let playing = ReplayStatus::Playing {
        path: "a.wav".to_owned(),
        position: 480,
        total: 9_600,
        sample_rate: 48_000,
    };
    handle.publish(playing.clone());
    assert_eq!(handle.status(), playing);
    handle.publish(ReplayStatus::Finished { path: "a.wav".to_owned() });
    assert_eq!(handle.status(), ReplayStatus::Finished { path: "a.wav".to_owned() });
}

#[test]
fn only_mono_s16_is_a_take() {
    assert_eq!(check_take_format(1, true, 16), Ok(()));
    assert_eq!(
        check_take_format(2, true, 16),
        Err(TakeFormatError::NotMono { channels: 2 })
    );
    assert_eq!(
        check_take_format(2, false, 32),
        Err(TakeFormatError::NotMono { channels: 2 })
    );
    assert_eq!(
        check_take_format(1, false, 32),
        Err(TakeFormatError::NotS16 { is_int: false, bits: 32 })
    );
    assert_eq!(
        check_take_format(1, true, 24),
        Err(TakeFormatError::NotS16 { is_int: true, bits: 24 })
    );
    assert_eq!(check_take_length(0), Err(TakeFormatError::Empty));
    assert_eq!(check_take_length(1), Ok(()));
}

#[test]
fn the_playhead_stops_at_the_end_of_the_take() {
    assert_eq!(replay_position(0, 480, 9_600), 480);
    assert_eq!(replay_position(19, 480, 9_600), 9_600);
    assert_eq!(replay_position(2, 480, 1_000), 1_000);
}

fn header(channels: u16, is_int: bool) -> Option<WavHeader> {
    header_bits(channels, is_int, 16)
}

fn header_bits(channels: u16, is_int: bool, bits_per_sample: u16) -> Option<WavHeader> {
    Some(WavHeader { channels, is_int, bits_per_sample, samples: 4_800, sample_rate: 48_000 })
}

fn candidate(path: &str, ext: Option<&str>, header: Option<WavHeader>) -> TakeCandidate {
    TakeCandidate { path: path.to_owned(), extension: ext.map(str::to_owned), header }
}

#[test]
fn the_listing_offers_takes_and_only_takes_in_path_order() {
    let takes = select_takes(vec![
        candidate("dir/b_take.wav", Some("wav"), header(1, true)),
        candidate("dir/a_take.WAV", Some("WAV"), header(1, true)),
        candidate("dir/c_stereo.wav", Some("wav"), header(2, true)),
        candidate("dir/d_float.wav", Some("wav"), header(1, false)),
        candidate("dir/e_24bit.wav", Some("wav"), header_bits(1, true, 24)),
        candidate("dir/f_8bit.wav", Some("wav"), header_bits(1, true, 8)),
        candidate("dir/notes.txt", Some("txt"), header(1, true)),
        candidate("dir/broken.wav", Some("wav"), None),
        candidate("dir/noext", None, header(1, true)),
    ]);
    let paths: Vec<&str> = takes.iter().map(|t| t.path.as_str()).collect();
    assert_eq!(paths, vec!["dir/a_take.WAV", "dir/b_take.wav"]);
    assert_eq!(takes[0].sample_rate, 48_000);
    assert_eq!(takes[0].samples, 4_800);
}

#[test]
fn extension_matching_ignores_ascii_case_only() {
    let chars = |s: &str| s.chars().collect::<Vec<char>>();
    assert!(eq_ignore_ascii_case_chars(&chars("WaV"), &chars("wav")));
    assert!(!eq_ignore_ascii_case_chars(&chars("wa"), &chars("wav")));
    assert!(!eq_ignore_ascii_case_chars(&chars("wbv"), &chars("wav")));
}

#[test]
fn the_listing_skips_takes_that_are_not_16_bit() {
    let takes = select_takes(vec![
        candidate("dir/a_24.wav", Some("wav"), header_bits(1, true, 24)),
        candidate("dir/b_16.wav", Some("wav"), header_bits(1, true, 16)),
        candidate("dir/c_32.wav", Some("wav"), header_bits(1, true, 32)),
    ]);
    let paths: Vec<&str> = takes.iter().map(|t| t.path.as_str()).collect();
    assert_eq!(paths, vec!["dir/b_16.wav"]);
}

#[test]
fn reconciling_compares_destinations_as_paths() {
    let held = Some("takes/a.wav".to_owned());
    let doubled = Some("takes//a.wav".to_owned());
    let dotted = Some("takes/./a.wav".to_owned());
    let idle = TakeTransition { close: false, open: None };
    assert_eq!(reconcile_take(&doubled, &held), idle);
    assert_eq!(reconcile_take(&dotted, &held), idle);
    assert_eq!(
        reconcile_take(&Some("takes/b.wav".to_owned()), &held),
        TakeTransition { close: true, open: Some("takes/b.wav".to_owned()) }
    );
}

#[test]
fn reconciling_follows_the_path_comparison_it_is_given() {
    let a = Some("a.wav".to_owned());
    let b = Some("b.wav".to_owned());
    let idle = TakeTransition { close: false, open: None };
    assert_eq!(reconcile_with(&b, &a, true), idle);
    assert_eq!(reconcile_with(&b, &a, false), TakeTransition { close: true, open: b.clone() });
    assert_eq!(reconcile_with(&None, &None, false), idle);
    assert_eq!(reconcile_with(&a, &None, true), TakeTransition { close: false, open: a.clone() });
    assert_eq!(reconcile_with(&None, &a, true), TakeTransition { close: true, open: None });
}

#[test]
fn wav_extensions_are_recognized_in_any_case() {
    assert!(fretboard::replay::has_wav_extension(&Some("WaV".to_owned())));
    assert!(!fretboard::replay::has_wav_extension(&Some("wave".to_owned())));
    assert!(!fretboard::replay::has_wav_extension(&None));
}

#[test]
fn a_different_bare_file_name_is_a_new_take() {
    let held = Some("take_1.wav".to_owned());
    let wanted = Some("take_2.wav".to_owned());
    assert_eq!(
        reconcile_take(&wanted, &held),
        TakeTransition { close: true, open: wanted.clone() }
    );
}
