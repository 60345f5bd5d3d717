use std::collections::VecDeque;

use fretboard::capture::{
    parec_arguments,
    pulse_device_name,
    split_s16le,
};
use fretboard::engine::{
    drone_output_rate,
    encode_monitor_rate,
    is_pulse_route,
    monitor_output_sample_rate,
    plan_build_failure,
    plan_command,
    test_tone_note,
    CaptureSource,
    CommandPlan,
    EngineCommand,
    FailurePlan,
};
use fretboard::history::push_limited_history;
use fretboard::sample_rate::SampleRate;

#[test]
fn history_keeps_only_the_newest_entries() {
    let mut history: VecDeque<u32> = VecDeque::new();
    for i in 0..5 {
        push_limited_history(&mut history, i, 3);
    }
    assert_eq!(history, VecDeque::from(vec![2, 3, 4]));
    push_limited_history(&mut history, 9, 0);
    assert!(history.is_empty());
    let mut long: VecDeque<u32> = (0..10).collect();
    push_limited_history(&mut long, 10, 4);
    assert_eq!(long, VecDeque::from(vec![7, 8, 9, 10]));
}

#[test]
fn s16le_chunks_pair_bytes_across_reads() {
    let (samples, carry) = split_s16le(None, &[0x01, 0x00, 0xff]);
    assert_eq!(samples, vec![1]);
    assert_eq!(carry, Some(0xff));
    let (samples, carry) = split_s16le(carry, &[0xff, 0x00, 0x80]);
    assert_eq!(samples, vec![-1, i16::MIN]);
    assert_eq!(carry, None);
    let (samples, carry) = split_s16le(Some(0x34), &[]);
    assert!(samples.is_empty());
    assert_eq!(carry, Some(0x34));
}

#[test]
fn any_chunking_yields_the_samples_of_the_whole_stream() {
    let bytes: Vec<u8> = (0..=255u8).chain(0..=100u8).collect();
    let whole: Vec<i16> = bytes
        .chunks_exact(2)
        .map(|pair| i16::from_le_bytes([pair[0], pair[1]]))
        .collect();
    for cut in [1usize, 3, 7, 64, 4096] {
        let mut carry = None;
        let mut got = Vec::new();
        for chunk in bytes.chunks(cut) {
            let (samples, next) = split_s16le(carry, chunk);
            got.extend(samples);
            carry = next;
        }
        assert_eq!(got, whole, "cut into reads of {cut}");
        assert_eq!(carry, Some(100));
    }
}

#[test]
fn parec_is_pointed_at_the_device_behind_the_route() {
    assert_eq!(pulse_device_name("pulse::alsa_input.usb"), "alsa_input.usb");
    assert_eq!(pulse_device_name("alsa_input.usb"), "alsa_input.usb");
    let args = parec_arguments("pulse::@DEFAULT_SOURCE@", SampleRate(48_000));
    assert_eq!(
        args,
        vec![
            "--record",
            "--raw",
            "--format=s16le",
            "--channels=1",
            "--rate",
            "48000",
            "--latency-msec",
            "20",
            "--process-time-msec",
            "10",
            "--client-name=fretboard",
            "--stream-name=fretboard-input",
            "--device",
            "@DEFAULT_SOURCE@",
        ]
    );
}

fn idle() -> CommandPlan {
    CommandPlan {
        store_monitor_enabled: None,
        play_test_note: false,
        shutdown_capture: false,
        build: None,
        start_drone: false,
        stop_drone: false,
        publish_replay_idle: false,
    }
}

#[test]
fn commands_plan_the_capture_changes() {
    let current = Some("cpal::hw:0".to_owned());
    assert_eq!(
        plan_command(true, &current, false, EngineCommand::SwitchInput(None)),
        CommandPlan {
            shutdown_capture: true,
            build: Some(CaptureSource::Input(None)),
            ..idle()
        }
    );
    assert_eq!(
        plan_command(true, &current, false, EngineCommand::SetMonitorEnabled(true)),
        CommandPlan {
            store_monitor_enabled: Some(true),
            shutdown_capture: true,
            build: Some(CaptureSource::Input(current.clone())),
            ..idle()
        }
    );
    assert_eq!(
        plan_command(false, &None, false, EngineCommand::SetMonitorEnabled(false)),
        CommandPlan { store_monitor_enabled: Some(false), ..idle() }
    );
    assert_eq!(
        plan_command(false, &None, false, EngineCommand::StartReplay("t.wav".to_owned())),
        CommandPlan { build: Some(CaptureSource::Replay("t.wav".to_owned())), ..idle() }
    );
    assert_eq!(
        plan_command(true, &current, false, EngineCommand::StopReplay),
        CommandPlan {
            shutdown_capture: true,
            build: Some(CaptureSource::SelectedInput),
            publish_replay_idle: true,
            ..idle()
        }
    );
    assert_eq!(
        plan_command(true, &current, false, EngineCommand::PlayTestNote),
        CommandPlan { play_test_note: true, ..idle() }
    );
}

#[test]
fn the_drone_starts_once_and_always_stops() {
    assert_eq!(
        plan_command(false, &None, false, EngineCommand::StartDrone),
        CommandPlan { start_drone: true, ..idle() }
    );
    assert_eq!(plan_command(false, &None, true, EngineCommand::StartDrone), idle());
    assert_eq!(
        plan_command(false, &None, true, EngineCommand::StopDrone),
        CommandPlan { stop_drone: true, ..idle() }
    );
}

#[test]
fn a_failed_replay_brings_the_live_input_back() {
    assert_eq!(
        plan_build_failure(&CaptureSource::Replay("t.wav".to_owned())),
        FailurePlan { report_in_replay_status: true, fallback: Some(CaptureSource::SelectedInput) }
    );
    assert_eq!(
        plan_build_failure(&CaptureSource::Input(None)),
        FailurePlan { report_in_replay_status: false, fallback: None }
    );
}

#[test]
fn routing_and_small_rules() {
    assert!(is_pulse_route(&Some("pulse::x".to_owned())));
    assert!(!is_pulse_route(&Some("cpal::x".to_owned())));
    assert!(!is_pulse_route(&None));
    assert_eq!(test_tone_note(5), 12);
    assert_eq!(test_tone_note(69), 69);
    assert_eq!(test_tone_note(127), 84);
    assert_eq!(encode_monitor_rate(None), 0);
    assert_eq!(encode_monitor_rate(Some(SampleRate(44_100))), 44_100);
    assert_eq!(monitor_output_sample_rate(0), None);
    assert_eq!(monitor_output_sample_rate(48_000), Some(48_000));
    assert_eq!(drone_output_rate(8_000, 44_100), 44_100);
    assert_eq!(drone_output_rate(96_000, 192_000), 96_000);
    assert_eq!(drone_output_rate(8_000, 96_000), 48_000);
}
