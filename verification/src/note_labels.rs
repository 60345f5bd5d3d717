use vstd::prelude::*;
use vstd::string::StringExecFns;

use crate::text::push_char;

verus! {

/// Lowest MIDI note of the note and spiral buckets (C0).
pub const NOTE_BUCKET_MIN_MIDI: usize = 12;

/// Highest MIDI note of the note and spiral buckets (C6).
pub const NOTE_BUCKET_MAX_MIDI: usize = 84;

/// Bins of the spiral view per semitone.
pub const SPIRAL_BINS_PER_SEMITONE: usize = 8;

/// Bins of the spiral view: one per step from the lowest to the highest bucket note.
pub const SPIRAL_BIN_COUNT: usize = (NOTE_BUCKET_MAX_MIDI - NOTE_BUCKET_MIN_MIDI)
    * SPIRAL_BINS_PER_SEMITONE + 1;

/// Bars of the log-frequency spectrum.
pub const SPECTRUM_BINS: usize = 72;

/// The sharp spelling of pitch class `pc` (0 is C).
pub open spec fn note_name(pc: int) -> Seq<char> {
    if pc == 0 {
        "C"@
    } else if pc == 1 {
        "C#"@
    } else if pc == 2 {
        "D"@
    } else if pc == 3 {
        "D#"@
    } else if pc == 4 {
        "E"@
    } else if pc == 5 {
        "F"@
    } else if pc == 6 {
        "F#"@
    } else if pc == 7 {
        "G"@
    } else if pc == 8 {
        "G#"@
    } else if pc == 9 {
        "A"@
    } else if pc == 10 {
        "A#"@
    } else {
        "B"@
    }
}

/// How black-key notes are spelled.
#[derive(Clone, Copy, Debug, PartialEq, Eq)]
pub enum AccidentalStyle {
    /// C#, D#, F#, G#, A#.
    Sharps,
    /// Db, Eb, Gb, Ab, Bb.
    Flats,
}

/// The flat spelling of pitch class `pc` (0 is C).
pub open spec fn flat_note_name(pc: int) -> Seq<char> {
    if pc == 1 {
        "Db"@
    } else if pc == 3 {
        "Eb"@
    } else if pc == 6 {
        "Gb"@
    } else if pc == 8 {
        "Ab"@
    } else if pc == 10 {
        "Bb"@
    } else {
        note_name(pc)
    }
}

/// The spelling of pitch class `pc` in `style`.
pub open spec fn styled_note_name(style: AccidentalStyle, pc: int) -> Seq<char> {
    match style {
        AccidentalStyle::Sharps => note_name(pc),
        AccidentalStyle::Flats => flat_note_name(pc),
    }
}

/// The decimal digit for `d` (0..=9).
pub open spec fn digit_char(d: int) -> char {
    if d == 0 {
        '0'
    } else if d == 1 {
        '1'
    } else if d == 2 {
        '2'
    } else if d == 3 {
        '3'
    } else if d == 4 {
        '4'
    } else if d == 5 {
        '5'
    } else if d == 6 {
        '6'
    } else if d == 7 {
        '7'
    } else if d == 8 {
        '8'
    } else {
        '9'
    }
}

fn digit_char_exec(d: u64) -> (c: char)
    ensures
        c == digit_char(d as int),
{
    if d == 0 {
        '0'
    } else if d == 1 {
        '1'
    } else if d == 2 {
        '2'
    } else if d == 3 {
        '3'
    } else if d == 4 {
        '4'
    } else if d == 5 {
        '5'
    } else if d == 6 {
        '6'
    } else if d == 7 {
        '7'
    } else if d == 8 {
        '8'
    } else {
        '9'
    }
}

/// Decimal digits of `n`, most significant first, without leading zeros.
pub open spec fn digits(n: nat) -> Seq<char>
    decreases n,
{
    if n < 10 {
        seq![digit_char(n as int)]
    } else {
        digits(n / 10).push(digit_char((n % 10) as int))
    }
}

/// How `{}` prints an integer: its digits, with a minus sign in front of a negative one.
pub open spec fn decimal(n: int) -> Seq<char> {
    if n < 0 {
        seq!['-'] + digits((-n) as nat)
    } else {
        digits(n as nat)
    }
}

/// Integer division rounding toward zero, as Rust's `/` does.
pub open spec fn div_toward_zero(a: int, b: int) -> int {
    if a >= 0 {
        a / b
    } else {
        -((-a) / b)
    }
}

/// The label of MIDI note `midi`: its sharp name and scientific octave (`69` is `"A4"`).
/// The pitch class is the Euclidean remainder, the octave the quotient rounded toward
/// zero, less one.
pub open spec fn note_label(midi: int) -> Seq<char> {
    styled_label(AccidentalStyle::Sharps, midi)
}

/// The label of MIDI note `midi` spelled in `style`, with its scientific octave.
pub open spec fn styled_label(style: AccidentalStyle, midi: int) -> Seq<char> {
    styled_note_name(style, midi % 12) + decimal(div_toward_zero(midi, 12) - 1)
}

fn note_name_str(pc: u64) -> (s: &'static str)
    requires
        pc < 12,
    ensures
        s@ == note_name(pc as int),
{
    if pc == 0 {
        "C"
    } else if pc == 1 {
        "C#"
    } else if pc == 2 {
        "D"
    } else if pc == 3 {
        "D#"
    } else if pc == 4 {
        "E"
    } else if pc == 5 {
        "F"
    } else if pc == 6 {
        "F#"
    } else if pc == 7 {
        "G"
    } else if pc == 8 {
        "G#"
    } else if pc == 9 {
        "A"
    } else if pc == 10 {
        "A#"
    } else {
        "B"
    }
}

fn styled_note_name_str(style: AccidentalStyle, pc: u64) -> (s: &'static str)
    requires
        pc < 12,
    ensures
        s@ == styled_note_name(style, pc as int),
{
    match style {
        AccidentalStyle::Sharps => note_name_str(pc),
        AccidentalStyle::Flats => if pc == 1 {
            "Db"
        } else if pc == 3 {
            "Eb"
        } else if pc == 6 {
            "Gb"
        } else if pc == 8 {
            "Ab"
        } else if pc == 10 {
            "Bb"
        } else {
            note_name_str(pc)
        },
    }
}

/// Appends the decimal digits of `n` to `s`.
fn push_digits(s: &mut String, n: u64)
    ensures
        final(s)@ == old(s)@ + digits(n as nat),
    decreases n,
{
    if n >= 10 {
        push_digits(s, n / 10);
    }
    let c = digit_char_exec(n % 10);
    push_char(s, c);
    proof {
        if n >= 10 {
            assert(old(s)@ + digits(n as nat) =~= old(s)@ + digits((n / 10) as nat) + seq![c]);
        } else {
            assert(old(s)@ + digits(n as nat) =~= old(s)@.push(c));
        }
    }
}

/// `n.to_string()` for an unsigned integer.
pub fn decimal_string(n: u64) -> (s: String)
    ensures
        s@ == digits(n as nat),
{
    let mut s = String::new();
    push_digits(&mut s, n);
    assert(s@ =~= digits(n as nat));
    s
}

/// The note name and octave of a MIDI note, e.g. `"C0"` for 12 and `"A4"` for 69.
pub fn midi_to_note_label(midi: i32) -> (label: String)
    ensures
        label@ == note_label(midi as int),
{
    midi_name(AccidentalStyle::Sharps, midi)
}

/// The name and octave of a MIDI note spelled in `style`: 70 is `"A#4"` in sharps and
/// `"Bb4"` in flats.
pub fn midi_name(style: AccidentalStyle, midi: i32) -> (label: String)
    ensures
        label@ == styled_label(style, midi as int),
{
    let m = midi as i64;
    let pc: i64 = if m >= 0 {
        m % 12
    } else {
        (12 - (-m) % 12) % 12
    };
    let q: i64 = if m >= 0 {
        m / 12
    } else {
        -((-m) / 12)
    };
    let octave = q - 1;
    let mut label = String::new();
    label.append(styled_note_name_str(style, pc as u64));
    if octave < 0 {
        push_char(&mut label, '-');
        push_digits(&mut label, (-octave) as u64);
    } else {
        push_digits(&mut label, octave as u64);
    }
    assert(label@ =~= styled_label(style, midi as int));
    label
}


/// The labels of MIDI notes `first..=last` (empty when `first > last`); each note is
/// taken as an `i32`, so a note number beyond its range wraps as `as i32` does.
pub open spec fn labels_between(first: usize, last: usize) -> Seq<Seq<char>> {
    Seq::new(
        if first <= last {
            (last - first + 1) as nat
        } else {
            0
        },
        |i: int| note_label(((first + i) as i32) as int),
    )
}

/// The contents of a list of strings.
pub open spec fn label_views(v: Seq<String>) -> Seq<Seq<char>> {
    v.map_values(|s: String| s@)
}

/// Labels for the resonator rows `min_midi..=max_midi`, lowest first.
pub fn resonator_note_labels(min_midi: usize, max_midi: usize) -> (labels: Vec<String>)
    ensures
        label_views(labels@) == labels_between(min_midi, max_midi),
{
    let mut labels: Vec<String> = Vec::new();
    if min_midi > max_midi {
        assert(label_views(labels@) =~= labels_between(min_midi, max_midi));
        return labels;
    }
    let mut m = min_midi;
    loop
        invariant_except_break
            labels@.len() == m - min_midi,
        invariant
            min_midi <= m <= max_midi,
            forall|i: int|
                0 <= i < labels@.len() ==> (#[trigger] labels@[i])@ == note_label(
                    ((min_midi + i) as i32) as int,
                ),
        ensures
            labels@.len() == max_midi - min_midi + 1,
        decreases max_midi - m,
    {
        labels.push(midi_to_note_label(#[verifier::truncate] (m as i32)));
        if m == max_midi {
            break;
        }
        m += 1;
    }
    assert(label_views(labels@) =~= labels_between(min_midi, max_midi));
    labels
}

/// Labels for the note buckets, C0 through C6.
pub fn note_bucket_labels() -> (labels: Vec<String>)
    ensures
        label_views(labels@) == labels_between(NOTE_BUCKET_MIN_MIDI, NOTE_BUCKET_MAX_MIDI),
        labels@.len() == NOTE_BUCKET_MAX_MIDI - NOTE_BUCKET_MIN_MIDI + 1,
{
    let labels = resonator_note_labels(NOTE_BUCKET_MIN_MIDI, NOTE_BUCKET_MAX_MIDI);
    assert(label_views(labels@).len() == labels@.len());
    labels
}

/// The pitch class a note name spells: its letter's (C 0, D 2, E 4, F 5, G 7, A 9, B 11),
/// raised by a sharp or lowered by a flat.
pub open spec fn pitch_class_of_name(name: Seq<char>) -> int {
    let letter = if name.len() == 0 {
        -100
    } else if name[0] == 'C' {
        0
    } else if name[0] == 'D' {
        2
    } else if name[0] == 'E' {
        4
    } else if name[0] == 'F' {
        5
    } else if name[0] == 'G' {
        7
    } else if name[0] == 'A' {
        9
    } else if name[0] == 'B' {
        11
    } else {
        -100
    };
    if name.len() == 2 && name[1] == '#' {
        letter + 1
    } else if name.len() == 2 && name[1] == 'b' {
        letter - 1
    } else {
        letter
    }
}

/// Every note name is a letter, alone or followed by a sharp or a flat.
pub open spec fn is_note_name_shape(name: Seq<char>) -> bool {
    &&& 1 <= name.len() <= 2
    &&& name.len() == 2 ==> (name[1] == '#' || name[1] == 'b')
}

proof fn lemma_note_name_reads_back(style: AccidentalStyle, pc: int)
    requires
        0 <= pc < 12,
    ensures
        pitch_class_of_name(styled_note_name(style, pc)) == pc,
        is_note_name_shape(styled_note_name(style, pc)),
{
    reveal_strlit("C");
    reveal_strlit("C#");
    reveal_strlit("D");
    reveal_strlit("D#");
    reveal_strlit("E");
    reveal_strlit("F");
    reveal_strlit("F#");
    reveal_strlit("G");
    reveal_strlit("G#");
    reveal_strlit("A");
    reveal_strlit("A#");
    reveal_strlit("B");
    reveal_strlit("Db");
    reveal_strlit("Eb");
    reveal_strlit("Gb");
    reveal_strlit("Ab");
    reveal_strlit("Bb");
}

/// The name of each pitch class spells that pitch class, in either style: in sharps the
/// twelve names are C, C#, D, D#, E, F, F#, G, G#, A, A#, B, and in flats the black keys
/// are Db, Eb, Gb, Ab, Bb; so no two pitch classes share a name.
pub proof fn lemma_note_names_spell_their_pitch_class(style: AccidentalStyle, pc: int, other: int)
    requires
        0 <= pc < 12,
        0 <= other < 12,
    ensures
        pitch_class_of_name(styled_note_name(style, pc)) == pc,
        pc != other ==> styled_note_name(style, pc) != styled_note_name(style, other),
{
    lemma_note_name_reads_back(style, pc);
    lemma_note_name_reads_back(style, other);
}

/// The value of a decimal digit character.
pub open spec fn digit_value(c: char) -> int {
    c as int - '0' as int
}

proof fn lemma_digit_char(d: int)
    requires
        0 <= d < 10,
    ensures
        digit_value(digit_char(d)) == d,
        digit_char(d) != '-' && digit_char(d) != '#' && digit_char(d) != 'b',
{
}

proof fn lemma_digits_shape(n: nat)
    ensures
        digits(n).len() >= 1,
        n >= 10 ==> digits(n).len() >= 2,
        digits(n)[0] != '-' && digits(n)[0] != '#' && digits(n)[0] != 'b',
    decreases n,
{
    if n < 10 {
        lemma_digit_char(n as int);
    } else {
        lemma_digits_shape(n / 10);
    }
}

proof fn lemma_digits_injective(a: nat, b: nat)
    requires
        digits(a) == digits(b),
    ensures
        a == b,
    decreases a + b,
{
    lemma_digits_shape(a);
    lemma_digits_shape(b);
    if a < 10 && b < 10 {
        lemma_digit_char(a as int);
        lemma_digit_char(b as int);
        assert(digits(a)[0] == digits(b)[0]);
    } else if a >= 10 && b >= 10 {
        let da = digits(a);
        let db = digits(b);
        lemma_digit_char((a % 10) as int);
        lemma_digit_char((b % 10) as int);
        assert(da.last() == db.last());
        assert(da.drop_last() =~= digits(a / 10));
        assert(db.drop_last() =~= digits(b / 10));
        lemma_digits_injective(a / 10, b / 10);
    } else {
        lemma_digits_shape(a / 10);
        lemma_digits_shape(b / 10);
    }
}

proof fn lemma_octave_shape(o: int)
    requires
        o >= -1,
    ensures
        decimal(o).len() >= 1,
        decimal(o)[0] != '#' && decimal(o)[0] != 'b',
{
    if o < 0 {
    } else {
        lemma_digits_shape(o as nat);
    }
}

proof fn lemma_octave_injective(a: int, b: int)
    requires
        a >= -1,
        b >= -1,
        decimal(a) == decimal(b),
    ensures
        a == b,
{
    lemma_digits_shape(1);
    if a >= 0 && b >= 0 {
        lemma_digits_injective(a as nat, b as nat);
    } else if a < 0 && b < 0 {
    } else if a < 0 {
        lemma_digits_shape(b as nat);
        assert(decimal(a)[0] == '-');
    } else {
        lemma_digits_shape(a as nat);
        assert(decimal(b)[0] == '-');
    }
}

/// Different MIDI notes (from 0 up) get different labels in either style: the label
/// names the note's pitch class and its octave, and both can be read back from it.
pub proof fn lemma_labels_name_one_note(style: AccidentalStyle, a: int, b: int)
    requires
        0 <= a,
        0 <= b,
        styled_label(style, a) == styled_label(style, b),
    ensures
        a == b,
{
    let na = styled_note_name(style, a % 12);
    let nb = styled_note_name(style, b % 12);
    let oa = div_toward_zero(a, 12) - 1;
    let ob = div_toward_zero(b, 12) - 1;
    lemma_note_name_reads_back(style, a % 12);
    lemma_note_name_reads_back(style, b % 12);
    lemma_octave_shape(oa);
    lemma_octave_shape(ob);
    let l = styled_label(style, a);
    assert(l == na + decimal(oa));
    assert(l == nb + decimal(ob));
    // The name is two characters long exactly when the second character is a sharp or a
    // flat, which no octave number starts with.
    if na.len() != nb.len() {
        if na.len() == 2 {
            assert(l[1] == na[1]);
            assert(l[1] == decimal(ob)[0]);
        } else {
            assert(l[1] == nb[1]);
            assert(l[1] == decimal(oa)[0]);
        }
    }
    assert(na =~= l.take(na.len() as int));
    assert(nb =~= l.take(nb.len() as int));
    assert(decimal(oa) =~= l.skip(na.len() as int));
    assert(decimal(ob) =~= l.skip(nb.len() as int));
    lemma_octave_injective(oa, ob);
}

/// In sharps, MIDI 66 is `F#4` and MIDI 65 is `F4`, so neighbouring notes differ.
pub proof fn lemma_sharp_labels_of_f_and_f_sharp()
    ensures
        note_label(65) == "F4"@,
        note_label(66) == "F#4"@,
{
    reveal_strlit("F");
    reveal_strlit("F#");
    reveal_strlit("F4");
    reveal_strlit("F#4");
    assert(digits(4) == seq!['4']);
    assert(note_label(65) =~= "F4"@);
    assert(note_label(66) =~= "F#4"@);
}

/// A note an octave up has the same name and an octave number one higher; octave numbers
/// start at -1 for MIDI 0..12, so that MIDI 12 is C0, 60 is C4 and 69 (concert A) is A4.
pub proof fn lemma_octave_numbers(style: AccidentalStyle, m: int)
    requires
        m >= 0,
    ensures
        exists|o: int|
            o >= -1 && styled_label(style, m) == styled_note_name(style, m % 12)
                + #[trigger] decimal(o) && styled_label(style, m + 12) == styled_note_name(style, m % 12)
                + decimal(o + 1),
        styled_label(style, 12) == "C0"@,
        styled_label(style, 60) == "C4"@,
        styled_label(style, 69) == "A4"@,
{
    let o = m / 12 - 1;
    assert((m + 12) % 12 == m % 12 && (m + 12) / 12 == m / 12 + 1);
    assert(styled_label(style, m) == styled_note_name(style, m % 12) + decimal(o));
    assert(styled_label(style, m + 12) == styled_note_name(style, m % 12) + decimal(o + 1));
    reveal_strlit("C");
    reveal_strlit("A");
    reveal_strlit("C0");
    reveal_strlit("C4");
    reveal_strlit("A4");
    assert(digits(0) == seq!['0']);
    assert(digits(4) == seq!['4']);
    assert(styled_label(style, 12) =~= "C0"@);
    assert(styled_label(style, 60) =~= "C4"@);
    assert(styled_label(style, 69) =~= "A4"@);
}

} // verus!
