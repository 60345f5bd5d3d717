use vstd::prelude::*;

verus! {

/// How the drone plays its notes.
#[derive(Clone, Copy, Debug, PartialEq, Eq)]
pub enum DroneMode {
    /// All notes, held.
    Sustained,
    /// All notes, gated on and off with the beat.
    Pulse,
    /// One note per beat, in the order of the pattern.
    Arp,
}

/// The order an arpeggio walks the drone's notes (sorted by pitch) in.
#[derive(Clone, Copy, Debug, PartialEq, Eq)]
pub enum ArpPattern {
    Up,
    Down,
    /// Up and back down, without repeating the top or the bottom note.
    UpDown,
}

/// Which of `n` notes (lowest first) the arpeggio plays on beat `step`; the remainders
/// are Euclidean, so a negative step continues the pattern backwards.
pub open spec fn arp_index(pattern: ArpPattern, step: int, n: int) -> int {
    match pattern {
        ArpPattern::Up => step % n,
        ArpPattern::Down => n - 1 - step % n,
        ArpPattern::UpDown => if n <= 1 {
            0
        } else {
            let period = 2 * (n - 1);
            let k = step % period;
            if k < n {
                k
            } else {
                period - k
            }
        },
    }
}

/// The Euclidean remainder of `a` by `m`, as `i64::rem_euclid` computes it.
fn rem_euclid(a: i64, m: i64) -> (r: i64)
    requires
        m > 0,
    ensures
        r == a as int % m as int,
{
    if a >= 0 {
        let r = a % m;
        r
    } else {
        // -(a + 1) is the non-negative number whose remainder decides a's.
        let b: i64 = -(a + 1);
        let q = b % m;
        proof {
            vstd::arithmetic::div_mod::lemma_fundamental_div_mod(b as int, m as int);
            vstd::arithmetic::div_mod::lemma_fundamental_div_mod(a as int, m as int);
            let d = (b as int) / (m as int);
            // a == -(d + 1) * m + (m - 1 - q)
            assert(a as int == -(d + 1) * (m as int) + (m - 1 - q)) by (nonlinear_arith)
                requires
                    b as int == d * (m as int) + q,
                    a as int == -(b as int) - 1,
            ;
            vstd::arithmetic::div_mod::lemma_fundamental_div_mod_converse(
                a as int,
                m as int,
                -(d + 1),
                m - 1 - q,
            );
        }
        m - 1 - q
    }
}

/// The position in the drone's notes (lowest first) that the arpeggio plays on beat
/// `step`, for `n` notes.
pub fn arp_position(pattern: ArpPattern, step: i64, n: usize) -> (pos: usize)
    requires
        0 < n,
        n <= i64::MAX / 2,
    ensures
        pos == arp_index(pattern, step as int, n as int),
        pos < n,
{
    let n64 = n as i64;
    match pattern {
        ArpPattern::Up => rem_euclid(step, n64) as usize,
        ArpPattern::Down => (n64 - 1 - rem_euclid(step, n64)) as usize,
        ArpPattern::UpDown => {
            if n64 <= 1 {
                0
            } else {
                let period = 2 * (n64 - 1);
                let k = rem_euclid(step, period);
                if k < n64 {
                    k as usize
                } else {
                    (period - k) as usize
                }
            }
        },
    }
}

/// The notes sounding on the current sample: none without notes; all of them when
/// sustained, or when pulsing within the sounding part of the beat; when arpeggiating
/// within the sounding part of the beat, the one `pattern` picks for beat `step`.
pub open spec fn sounding(
    mode: DroneMode,
    pattern: ArpPattern,
    notes: Seq<u8>,
    beat_on: bool,
    step: int,
) -> Seq<u8> {
    if notes.len() == 0 {
        Seq::empty()
    } else {
        match mode {
            DroneMode::Sustained => notes,
            DroneMode::Pulse => if beat_on {
                notes
            } else {
                Seq::empty()
            },
            DroneMode::Arp => if beat_on {
                seq![notes[arp_index(pattern, step, notes.len() as int)]]
            } else {
                Seq::empty()
            },
        }
    }
}

/// The drone's sounding notes for the current sample. `beat_on` says whether this point
/// of the beat lies in its sounding part (before the pulse duty or the arpeggio's note
/// length ends); `step` is the beat number.
pub fn sounding_notes(
    mode: DroneMode,
    pattern: ArpPattern,
    notes: &Vec<u8>,
    beat_on: bool,
    step: i64,
) -> (out: Vec<u8>)
    requires
        notes@.len() <= i64::MAX / 2,
    ensures
        out@ == sounding(mode, pattern, notes@, beat_on, step as int),
        notes@.len() == 0 ==> out@.len() == 0,
        notes@.len() > 0 && (mode is Sustained || (mode is Pulse && beat_on)) ==> out@ == notes@,
        !beat_on && !(mode is Sustained) ==> out@.len() == 0,
        mode is Arp && beat_on && notes@.len() > 0 ==> {
            let n = notes@.len() as int;
            &&& out@.len() == 1
            &&& (pattern is Up && 0 <= step < n ==> out@[0] == notes@[step as int])
            &&& (pattern is Down && 0 <= step < n ==> out@[0] == notes@[n - 1 - step])
            &&& (pattern is UpDown && 0 <= step < n ==> out@[0] == notes@[step as int])
            &&& (pattern is UpDown && n <= step < 2 * (n - 1) ==> out@[0] == notes@[2 * (n - 1)
                - step])
        },
{
    proof {
        if mode is Arp && beat_on && notes@.len() > 0 {
            lemma_arp_patterns(step as int, notes@.len() as int);
        }
    }
    if notes.len() == 0 {
        return Vec::new();
    }
    match mode {
        DroneMode::Sustained => notes.clone(),
        DroneMode::Pulse => if beat_on {
            notes.clone()
        } else {
            Vec::new()
        },
        DroneMode::Arp => if beat_on {
            let pos = arp_position(pattern, step, notes.len());
            let mut out = Vec::new();
            out.push(notes[pos]);
            out
        } else {
            Vec::new()
        },
    }
}

/// The arpeggio's shapes: every beat plays one of the notes; going up repeats every
/// `n` beats and going down plays the same cycle in reverse; up-and-down climbs through
/// all `n` notes on its first `n` beats, comes back down on the next, and repeats every
/// `2(n - 1)` beats.
pub proof fn lemma_arp_patterns(step: int, n: int)
    requires
        n > 0,
    ensures
        forall|p: ArpPattern| 0 <= #[trigger] arp_index(p, step, n) < n,
        arp_index(ArpPattern::Up, step + n, n) == arp_index(ArpPattern::Up, step, n),
        arp_index(ArpPattern::Down, step, n) == n - 1 - arp_index(ArpPattern::Up, step, n),
        0 <= step < n ==> arp_index(ArpPattern::Up, step, n) == step,
        0 <= step < n ==> arp_index(ArpPattern::Down, step, n) == n - 1 - step,
        0 <= step < n ==> arp_index(ArpPattern::UpDown, step, n) == step,
        n > 1 && n <= step < 2 * (n - 1) ==> arp_index(ArpPattern::UpDown, step, n) == 2 * (n
            - 1) - step,
        arp_index(ArpPattern::UpDown, step + 2 * (n - 1), n) == arp_index(
            ArpPattern::UpDown,
            step,
            n,
        ),
{
    vstd::arithmetic::div_mod::lemma_mod_add_multiples_vanish(step, n);
    if n > 1 {
        vstd::arithmetic::div_mod::lemma_mod_add_multiples_vanish(step, 2 * (n - 1));
        if 0 <= step < 2 * (n - 1) {
            vstd::arithmetic::div_mod::lemma_small_mod(step as nat, (2 * (n - 1)) as nat);
        }
    }
    if 0 <= step < n {
        vstd::arithmetic::div_mod::lemma_small_mod(step as nat, n as nat);
    }
}

} // verus!

verus! {

/// What the arpeggio plays, beat by beat, over `n` notes (lowest first): going up plays
/// note `s` on beats `0..n` and then repeats every `n` beats; going down plays note
/// `n - 1 - s` and repeats likewise; going up and down plays note `s` on beats `0..n`,
/// note `2(n - 1) - s` on beats `n..2(n - 1)` (back down without repeating the ends), and
/// repeats every `2(n - 1)` beats. Outside the arpeggio, a sustained drone sounds every
/// note, a pulsing one sounds every note exactly while the beat is on, and nothing sounds
/// without notes.
pub proof fn lemma_drone_plays_the_pattern(notes: Seq<u8>, step: int)
    requires
        notes.len() > 0,
    ensures
        ({
            let n = notes.len() as int;
            &&& (0 <= step < n ==> sounding(DroneMode::Arp, ArpPattern::Up, notes, true, step)
                == seq![notes[step]])
            &&& sounding(DroneMode::Arp, ArpPattern::Up, notes, true, step + n) == sounding(
                DroneMode::Arp,
                ArpPattern::Up,
                notes,
                true,
                step,
            )
            &&& (0 <= step < n ==> sounding(DroneMode::Arp, ArpPattern::Down, notes, true, step)
                == seq![notes[n - 1 - step]])
            &&& sounding(DroneMode::Arp, ArpPattern::Down, notes, true, step + n) == sounding(
                DroneMode::Arp,
                ArpPattern::Down,
                notes,
                true,
                step,
            )
            &&& (0 <= step < n ==> sounding(DroneMode::Arp, ArpPattern::UpDown, notes, true, step)
                == seq![notes[step]])
            &&& (n <= step < 2 * (n - 1) ==> sounding(
                DroneMode::Arp,
                ArpPattern::UpDown,
                notes,
                true,
                step,
            ) == seq![notes[2 * (n - 1) - step]])
            &&& (n > 1 ==> sounding(DroneMode::Arp, ArpPattern::UpDown, notes, true, step + 2 * (n
                - 1)) == sounding(DroneMode::Arp, ArpPattern::UpDown, notes, true, step))
            &&& forall|p: ArpPattern, b: bool|
                (#[trigger] sounding(DroneMode::Sustained, p, notes, b, step)) == notes
            &&& forall|p: ArpPattern|
                (#[trigger] sounding(DroneMode::Pulse, p, notes, true, step)) == notes
            &&& forall|p: ArpPattern, m: DroneMode|
                m != DroneMode::Sustained ==> (#[trigger] sounding(m, p, notes, false, step)).len()
                    == 0
        }),
        forall|m: DroneMode, p: ArpPattern, b: bool|
            (#[trigger] sounding(m, p, Seq::<u8>::empty(), b, step)).len() == 0,
{
    let n = notes.len() as int;
    lemma_arp_patterns(step, n);
    lemma_arp_patterns(step + n, n);
    lemma_arp_patterns(step + 2 * (n - 1), n);
    assert(0 <= step < n ==> sounding(DroneMode::Arp, ArpPattern::Up, notes, true, step)
        == seq![notes[step]]);
    assert(sounding(DroneMode::Arp, ArpPattern::Up, notes, true, step + n) == sounding(
        DroneMode::Arp,
        ArpPattern::Up,
        notes,
        true,
        step,
    ));
    assert(0 <= step < n ==> sounding(DroneMode::Arp, ArpPattern::Down, notes, true, step)
        == seq![notes[n - 1 - step]]);
    assert(n <= step < 2 * (n - 1) ==> sounding(DroneMode::Arp, ArpPattern::UpDown, notes, true, step)
        == seq![notes[2 * (n - 1) - step]]);
    assert(n > 1 ==> sounding(DroneMode::Arp, ArpPattern::UpDown, notes, true, step + 2 * (n - 1))
        == sounding(DroneMode::Arp, ArpPattern::UpDown, notes, true, step));
    assert forall|p: ArpPattern, m: DroneMode|
        m != DroneMode::Sustained implies (#[trigger] sounding(m, p, notes, false, step)).len() == 0 by {
    }
}

} // verus!
