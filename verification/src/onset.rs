use vstd::prelude::*;

verus! {

/// Minimum frames from one onset to the next (about 80 ms at the 40 ms analysis
/// cadence): a ragged attack must not fire twice.
pub const REFRACTORY_FRAMES: usize = 2;

/// The arming logic of the note-onset detector.
///
/// The detector compares each frame's energy with an adaptive baseline; what it makes of
/// those two comparisons is decided here. After an onset the trigger disarms, and only a
/// frame whose energy dips well under the baseline arms it again: a sustained note
/// therefore fires once, while a re-bowed note (a dip, then a new rise) fires again.
#[derive(Clone, Copy, Debug, PartialEq, Eq)]
pub struct OnsetTrigger {
    /// False from an onset until the energy dips enough to re-arm.
    pub armed: bool,
    /// Frames since the last onset (saturating).
    pub frames_since: usize,
}

impl OnsetTrigger {
    /// Frames since the last onset once the current frame is counted.
    pub open spec fn counted(self) -> int {
        if self.frames_since == usize::MAX {
            usize::MAX as int
        } else {
            self.frames_since + 1
        }
    }

    /// Whether a frame whose energy `rises` above the onset threshold fires.
    pub open spec fn fires(self, rises: bool) -> bool {
        self.armed && self.counted() >= REFRACTORY_FRAMES && rises
    }

    /// The trigger after a frame: disarmed by an onset, re-armed by a dip.
    pub open spec fn next(self, rises: bool, dips: bool) -> OnsetTrigger {
        let fired = self.fires(rises);
        OnsetTrigger {
            armed: dips || (self.armed && !fired),
            frames_since: if fired {
                0
            } else {
                self.counted() as usize
            },
        }
    }

    /// A trigger that is armed and past its refractory period, so the first attack fires.
    pub fn new() -> (g: Self)
        ensures
            g.armed,
            g.frames_since == REFRACTORY_FRAMES,
    {
        OnsetTrigger { armed: true, frames_since: REFRACTORY_FRAMES }
    }

    /// Feeds one frame: `rises` when its energy is above the onset threshold, `dips` when
    /// it is below the re-arm level. Returns whether an onset fires on this frame.
    pub fn step(&mut self, rises: bool, dips: bool) -> (onset: bool)
        ensures
            onset == old(self).fires(rises),
            *final(self) == old(self).next(rises, dips),
    {
        self.frames_since = self.frames_since.saturating_add(1);
        let onset = self.armed && self.frames_since >= REFRACTORY_FRAMES && rises;
        if onset {
            self.armed = false;
            self.frames_since = 0;
        }
        if dips {
            self.armed = true;
        }
        onset
    }
}

/// The trigger after each frame of `frames` in turn, each frame given as `(rises, dips)`.
pub open spec fn run(g: OnsetTrigger, frames: Seq<(bool, bool)>) -> OnsetTrigger
    decreases frames.len(),
{
    if frames.len() == 0 {
        g
    } else {
        run(g, frames.drop_last()).next(frames.last().0, frames.last().1)
    }
}

/// Whether frame `i` of `frames` fires, starting from `g`.
pub open spec fn fires_at(g: OnsetTrigger, frames: Seq<(bool, bool)>, i: int) -> bool {
    run(g, frames.take(i)).fires(frames[i].0)
}

proof fn lemma_run_step(g: OnsetTrigger, frames: Seq<(bool, bool)>, k: int)
    requires
        0 <= k < frames.len(),
    ensures
        run(g, frames.take(k + 1)) == run(g, frames.take(k)).next(frames[k].0, frames[k].1),
{
    assert(frames.take(k + 1).drop_last() =~= frames.take(k));
}

/// After an onset at frame `i`, the trigger is armed at frame `k` only if some frame from
/// `i` up to `k` dipped.
proof fn lemma_armed_needs_dip(g: OnsetTrigger, frames: Seq<(bool, bool)>, i: int, k: int)
    requires
        0 <= i < k <= frames.len(),
        fires_at(g, frames, i),
        run(g, frames.take(k)).armed,
    ensures
        exists|d: int| i <= d < k && #[trigger] frames[d].1,
    decreases k - i,
{
    lemma_run_step(g, frames, k - 1);
    if k - 1 == i {
        assert(frames[i].1);
    } else {
        let prev = run(g, frames.take(k - 1));
        if frames[k - 1].1 {
        } else {
            assert(prev.armed);
            lemma_armed_needs_dip(g, frames, i, k - 1);
        }
    }
}

/// Once an onset has fired, no further onset fires until the energy has dipped under the
/// re-arm level: between any two onsets lies a dipping frame (the first onset's own
/// frame included), so a note held without a dip fires once.
pub proof fn lemma_one_onset_per_dip(g: OnsetTrigger, frames: Seq<(bool, bool)>, i: int, j: int)
    requires
        0 <= i < j < frames.len(),
        fires_at(g, frames, i),
        fires_at(g, frames, j),
    ensures
        exists|d: int| i <= d < j && #[trigger] frames[d].1,
{
    lemma_armed_needs_dip(g, frames, i, j);
}

/// Two onsets are at least `REFRACTORY_FRAMES` frames apart.
pub proof fn lemma_refractory(g: OnsetTrigger, frames: Seq<(bool, bool)>, i: int, j: int)
    requires
        0 <= i < j < frames.len(),
        fires_at(g, frames, i),
        fires_at(g, frames, j),
    ensures
        j - i >= REFRACTORY_FRAMES,
{
    lemma_run_step(g, frames, i);
    if j == i + 1 {
        assert(run(g, frames.take(i + 1)).frames_since == 0);
    }
}

} // verus!
