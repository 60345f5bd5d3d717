use std::collections::VecDeque;

use fretboard::drone::{arp_position, sounding_notes, ArpPattern, DroneMode};
use fretboard::history::{
    analysis_window_start,
    extend_limited_history,
    trim_history,
    INPUT_WAVEFORM_HISTORY,
    MAX_WINDOW_SIZE,
};
use fretboard::output::{first_f32_config, monitor_config, monitor_stream_rate, OutputConfigRange};

fn range(is_f32: bool, min_rate: u32, max_rate: u32) -> OutputConfigRange {
    OutputConfigRange { is_f32, min_rate, max_rate }
}

#[test]
fn monitor_takes_the_first_f32_config_at_the_input_rate() {
    let configs = vec![
        range(false, 8_000, 192_000),
        range(true, 8_000, 44_100),
        range(true, 44_100, 96_000),
        range(true, 8_000, 192_000),
    ];
    assert_eq!(monitor_config(&configs, 48_000), Some(2));
    assert_eq!(monitor_config(&configs, 22_050), Some(1));
    assert_eq!(monitor_config(&configs, 384_000), None);
    assert_eq!(monitor_config(&Vec::new(), 48_000), None);
    assert_eq!(monitor_stream_rate(true, 44_100, 48_000), 44_100);
    assert_eq!(monitor_stream_rate(false, 44_100, 48_000), 48_000);
}

#[test]
fn drone_and_test_note_take_the_first_f32_config() {
    let configs = vec![range(false, 8_000, 48_000), range(true, 44_100, 44_100), range(true, 8_000, 96_000)];
    assert_eq!(first_f32_config(&configs), Some(1));
    assert_eq!(first_f32_config(&vec![range(false, 8_000, 48_000)]), None);
}

#[test]
fn arpeggio_patterns_walk_the_notes() {
    let up: Vec<usize> = (0..8).map(|s| arp_position(ArpPattern::Up, s, 3)).collect();
    assert_eq!(up, vec![0, 1, 2, 0, 1, 2, 0, 1]);
    let down: Vec<usize> = (0..6).map(|s| arp_position(ArpPattern::Down, s, 3)).collect();
    assert_eq!(down, vec![2, 1, 0, 2, 1, 0]);
    let ping: Vec<usize> = (0..9).map(|s| arp_position(ArpPattern::UpDown, s, 4)).collect();
    assert_eq!(ping, vec![0, 1, 2, 3, 2, 1, 0, 1, 2]);
    assert_eq!(arp_position(ArpPattern::UpDown, 5, 1), 0);
    assert_eq!(arp_position(ArpPattern::Up, -1, 3), 2);
    assert_eq!(arp_position(ArpPattern::Down, -1, 3), 0);
    assert_eq!(arp_position(ArpPattern::UpDown, -1, 4), 1);
}

#[test]
fn the_drone_sounds_what_its_mode_says() {
    let notes: Vec<u8> = vec![48, 55, 60];
    assert_eq!(sounding_notes(DroneMode::Sustained, ArpPattern::Up, &notes, false, 7), notes);
    assert_eq!(sounding_notes(DroneMode::Pulse, ArpPattern::Up, &notes, true, 7), notes);
    assert!(sounding_notes(DroneMode::Pulse, ArpPattern::Up, &notes, false, 7).is_empty());
    assert_eq!(sounding_notes(DroneMode::Arp, ArpPattern::Up, &notes, true, 4), vec![55]);
    assert_eq!(sounding_notes(DroneMode::Arp, ArpPattern::Down, &notes, true, 0), vec![60]);
    assert!(sounding_notes(DroneMode::Arp, ArpPattern::Up, &notes, false, 4).is_empty());
    assert!(sounding_notes(DroneMode::Sustained, ArpPattern::Up, &Vec::new(), true, 0).is_empty());
}

#[test]
fn a_bounded_history_keeps_the_newest_samples() {
    let mut h: VecDeque<u32> = (0..4).collect();
    extend_limited_history(&mut h, &[4, 5, 6], 5);
    assert_eq!(h, VecDeque::from(vec![2, 3, 4, 5, 6]));
    extend_limited_history(&mut h, &[], 3);
    assert_eq!(h, VecDeque::from(vec![4, 5, 6]));
    let mut small: VecDeque<u32> = VecDeque::from(vec![1]);
    extend_limited_history(&mut small, &[2], 5);
    assert_eq!(small, VecDeque::from(vec![1, 2]));
    trim_history(&mut small, 0);
    assert!(small.is_empty());
    assert_eq!(INPUT_WAVEFORM_HISTORY, 2048);
    assert_eq!(MAX_WINDOW_SIZE * 2, 32_768);
}

#[test]
fn the_analysis_window_is_the_newest_samples_once_there_are_enough() {
    assert_eq!(analysis_window_start(4_095, 4_096), None);
    assert_eq!(analysis_window_start(4_096, 4_096), Some(0));
    assert_eq!(analysis_window_start(10_000, 4_096), Some(5_904));
}
