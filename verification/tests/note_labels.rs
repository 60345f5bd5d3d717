use fretboard::analysis_math::{
    note_bucket_labels as styled_note_bucket_labels,
    resonator_note_labels as styled_resonator_note_labels,
};
use fretboard::note_labels::{
    midi_name,
    AccidentalStyle,
    decimal_string,
    midi_to_note_label,
    note_bucket_labels,
    resonator_note_labels,
    NOTE_BUCKET_MAX_MIDI,
    NOTE_BUCKET_MIN_MIDI,
    SPIRAL_BINS_PER_SEMITONE,
    SPIRAL_BIN_COUNT,
};

#[test]
fn note_bucket_labels_include_low_octaves() {
    let labels = note_bucket_labels();

    assert_eq!(labels.first().map(String::as_str), Some("C0"));
    assert!(labels.iter().any(|label| label == "C1"));
    assert!(labels.iter().any(|label| label == "C2"));
}

#[test]
fn analysis_math_note_bucket_labels_include_low_octaves() {
    let labels = styled_note_bucket_labels(AccidentalStyle::Sharps);

    assert_eq!(labels.first().map(String::as_str), Some("C0"));
    assert!(labels.iter().any(|label| label == "C1"));
    assert!(labels.iter().any(|label| label == "C2"));
}

#[test]
fn bucket_labels_span_c0_to_c6() {
    let labels = note_bucket_labels();
    assert_eq!(labels.len(), NOTE_BUCKET_MAX_MIDI - NOTE_BUCKET_MIN_MIDI + 1);
    assert_eq!(labels.last().map(String::as_str), Some("C6"));
    assert_eq!(labels[57], "A4");
}

#[test]
fn note_labels_follow_scientific_pitch() {
    assert_eq!(midi_to_note_label(69), "A4");
    assert_eq!(midi_to_note_label(60), "C4");
    assert_eq!(midi_to_note_label(61), "C#4");
    assert_eq!(midi_to_note_label(0), "C-1");
    assert_eq!(midi_to_note_label(127), "G9");
    // Below MIDI 0 the pitch class wraps around (Euclidean) while the octave divides
    // toward zero, exactly as the formula does.
    assert_eq!(midi_to_note_label(-1), "B-1");
    assert_eq!(midi_to_note_label(-13), "B-2");
    assert_eq!(midi_to_note_label(i32::MIN), "E-178956971");
}

#[test]
fn resonator_labels_cover_the_inclusive_range() {
    let labels = resonator_note_labels(69, 71);
    assert_eq!(labels, vec!["A4", "A#4", "B4"]);
    assert!(resonator_note_labels(71, 69).is_empty());
    assert_eq!(resonator_note_labels(5, 5), vec!["F-1"]);
}

#[test]
fn spiral_bins_cover_the_bucket_range() {
    assert_eq!(
        SPIRAL_BIN_COUNT,
        (NOTE_BUCKET_MAX_MIDI - NOTE_BUCKET_MIN_MIDI) * SPIRAL_BINS_PER_SEMITONE + 1
    );
}

#[test]
fn decimal_string_prints_like_to_string() {
    for n in [0u64, 7, 10, 99, 100, 48_000, u64::MAX] {
        assert_eq!(decimal_string(n), n.to_string());
    }
}

#[test]
fn flat_spelling_names_black_keys_by_the_note_above() {
    assert_eq!(midi_name(AccidentalStyle::Flats, 70), "Bb4");
    assert_eq!(midi_name(AccidentalStyle::Sharps, 70), "A#4");
    assert_eq!(midi_name(AccidentalStyle::Flats, 61), "Db4");
    assert_eq!(midi_name(AccidentalStyle::Flats, 69), "A4");
    assert_eq!(midi_name(AccidentalStyle::Flats, -1), "B-1");
    assert_eq!(midi_name(AccidentalStyle::Flats, -14), "Bb-2");
}

#[test]
fn styled_bucket_labels_follow_the_style() {
    let flats = styled_note_bucket_labels(AccidentalStyle::Flats);
    assert_eq!(flats.len(), NOTE_BUCKET_MAX_MIDI - NOTE_BUCKET_MIN_MIDI + 1);
    assert_eq!(flats[1], "Db0");
    assert_eq!(flats[58], "Bb4");
    let sharps = styled_note_bucket_labels(AccidentalStyle::Sharps);
    assert_eq!(sharps, note_bucket_labels());
    assert_eq!(
        styled_resonator_note_labels(60, 63, AccidentalStyle::Flats),
        vec!["C4", "Db4", "D4", "Eb4"]
    );
    assert!(styled_resonator_note_labels(5, 4, AccidentalStyle::Flats).is_empty());
}
