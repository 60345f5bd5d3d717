use vstd::prelude::*;

use crate::note_labels::{
    label_views,
    midi_name,
    styled_label,
    AccidentalStyle,
    NOTE_BUCKET_MAX_MIDI,
    NOTE_BUCKET_MIN_MIDI,
};

verus! {

/// The labels of MIDI notes `first..=last` spelled in `style` (empty when
/// `first > last`); each note is taken as an `i32`, so a note number beyond its range
/// wraps as `as i32` does.
pub open spec fn styled_labels_between(style: AccidentalStyle, first: usize, last: usize) -> Seq<
    Seq<char>,
> {
    Seq::new(
        if first <= last {
            (last - first + 1) as nat
        } else {
            0
        },
        |i: int| styled_label(style, ((first + i) as i32) as int),
    )
}

/// Labels for the resonator rows `min_midi..=max_midi`, lowest first, spelled in
/// `style`.
pub fn resonator_note_labels(min_midi: usize, max_midi: usize, style: AccidentalStyle) -> (labels:
    Vec<String>)
    ensures
        label_views(labels@) == styled_labels_between(style, min_midi, max_midi),
{
    let mut labels: Vec<String> = Vec::new();
    if min_midi > max_midi {
        assert(label_views(labels@) =~= styled_labels_between(style, min_midi, max_midi));
        return labels;
    }
    let mut m = min_midi;
    loop
        invariant_except_break
            labels@.len() == m - min_midi,
        invariant
            min_midi <= m <= max_midi,
            forall|i: int|
                0 <= i < labels@.len() ==> (#[trigger] labels@[i])@ == styled_label(
                    style,
                    ((min_midi + i) as i32) as int,
                ),
        ensures
            labels@.len() == max_midi - min_midi + 1,
        decreases max_midi - m,
    {
        labels.push(midi_name(style, #[verifier::truncate] (m as i32)));
        if m == max_midi {
            break;
        }
        m += 1;
    }
    assert(label_views(labels@) =~= styled_labels_between(style, min_midi, max_midi));
    labels
}

/// Labels for the note buckets, C0 through C6, spelled in `style`.
pub fn note_bucket_labels(style: AccidentalStyle) -> (labels: Vec<String>)
    ensures
        label_views(labels@) == styled_labels_between(
            style,
            NOTE_BUCKET_MIN_MIDI,
            NOTE_BUCKET_MAX_MIDI,
        ),
        labels@.len() == NOTE_BUCKET_MAX_MIDI - NOTE_BUCKET_MIN_MIDI + 1,
{
    let labels = resonator_note_labels(NOTE_BUCKET_MIN_MIDI, NOTE_BUCKET_MAX_MIDI, style);
    assert(label_views(labels@).len() == labels@.len());
    labels
}

} // verus!
