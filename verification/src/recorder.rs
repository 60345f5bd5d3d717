use vstd::prelude::*;

use crate::text::opt_view;

verus! {

/// Seconds of audio the recorder's ring holds.
pub const RECORDER_RING_SECONDS: u32 = 4;

/// Samples the writer moves per wake-up.
pub const RECORDER_BATCH: usize = 8192;

/// Bits per sample of a take: s16le.
pub const RECORDER_BITS: u16 = 16;

/// What a finished take was: where it is, its device rate, how many samples it holds,
/// and how many the capture dropped while it was open.
#[derive(Clone, Debug, PartialEq, Eq)]
pub struct TakeReport {
    pub path: String,
    pub sample_rate: u32,
    pub samples: u64,
    pub dropped: u64,
}

impl TakeReport {
    /// A take counts as evidence only if nothing was dropped while it was recorded.
    pub fn is_evidence(&self) -> (b: bool)
        ensures
            b == (self.dropped == 0),
    {
        self.dropped == 0
    }

    /// A copy of this report.
    pub fn snapshot(&self) -> (r: Self)
        ensures
            r == *self,
    {
        TakeReport {
            path: self.path.clone(),
            sample_rate: self.sample_rate,
            samples: self.samples,
            dropped: self.dropped,
        }
    }
}

/// What the recorder is doing.
#[derive(Clone, Debug, PartialEq, Eq)]
pub enum RecorderStatus {
    Idle,
    /// A take is open at `path`: `samples` written so far at `sample_rate` (its length
    /// in seconds is their quotient), and `dropped` samples lost since it opened.
    Recording { path: String, samples: u64, sample_rate: u32, dropped: u64 },
    Finished(TakeReport),
    Failed(String),
}

impl RecorderStatus {
    /// A copy of this status.
    pub fn snapshot(&self) -> (r: Self)
        ensures
            r == *self,
    {
        match self {
            RecorderStatus::Idle => RecorderStatus::Idle,
            RecorderStatus::Recording { path, samples, sample_rate, dropped } => {
                RecorderStatus::Recording {
                    path: path.clone(),
                    samples: *samples,
                    sample_rate: *sample_rate,
                    dropped: *dropped,
                }
            },
            RecorderStatus::Finished(report) => RecorderStatus::Finished(report.snapshot()),
            RecorderStatus::Failed(message) => RecorderStatus::Failed(message.clone()),
        }
    }
}

/// The recorder's control and status: the take the user wants (its destination, while
/// Record is on) and what the writer last reported.
pub struct RecorderHandle {
    pub wanted: Option<String>,
    pub status: RecorderStatus,
}

impl RecorderHandle {
    /// Nothing wanted, nothing recorded.
    pub fn new() -> (h: Self)
        ensures
            h.wanted is None,
            h.status == RecorderStatus::Idle,
    {
        RecorderHandle { wanted: None, status: RecorderStatus::Idle }
    }

    /// The user wants a take at `path`.
    pub fn start(&mut self, path: String)
        ensures
            final(self).wanted == Some(path),
            final(self).status == old(self).status,
    {
        self.wanted = Some(path);
    }

    /// The user wants no take.
    pub fn stop(&mut self)
        ensures
            final(self).wanted is None,
            final(self).status == old(self).status,
    {
        self.wanted = None;
    }

    /// What the writer last reported.
    pub fn status(&self) -> (s: RecorderStatus)
        ensures
            s == self.status,
    {
        self.status.snapshot()
    }

    /// The writer reports `status`.
    pub fn publish(&mut self, status: RecorderStatus)
        ensures
            final(self).status == status,
            final(self).wanted == old(self).wanted,
    {
        self.status = status;
    }

    /// A take died: report why, and withdraw the request so the writer does not retry
    /// the same doomed destination on its next pass.
    pub fn fail(&mut self, message: String)
        ensures
            final(self).wanted is None,
            final(self).status == RecorderStatus::Failed(message),
    {
        self.wanted = None;
        self.status = RecorderStatus::Failed(message);
    }
}

/// What the writer does to bring the take it holds in line with the one wanted: close
/// the one it holds, then open one at a destination.
#[derive(Debug, PartialEq, Eq)]
pub struct TakeTransition {
    pub close: bool,
    pub open: Option<String>,
}

/// A bare file name: not empty, not `.` or `..`, and without a slash, a backslash or a
/// colon. On every platform such a name is one path component of its own, with no root
/// or prefix.
pub open spec fn is_bare_name(s: Seq<char>) -> bool {
    &&& s.len() > 0
    &&& s != "."@
    &&& s != ".."@
    &&& forall|i: int| 0 <= i < s.len() ==> #[trigger] s[i] != '/' && s[i] != '\\' && s[i] != ':'
}

/// Calls `Path::eq` on `a` and `b` read as paths (`Path::new`). Paths compare by their
/// components, so spellings such as `a//b.wav` and `a/b.wav` name the same path. Which
/// characters separate components, and which prefixes a path may have, depends on the
/// platform, so what is stated is what holds on every platform: a path is the same as
/// itself, and two different bare file names (each a single component) are different
/// paths. Other pairs of spellings are left to the platform.
#[verifier::external_body]
fn same_path(a: &String, b: &String) -> (r: bool)
    ensures
        a@ == b@ ==> r,
        is_bare_name(a@) && is_bare_name(b@) && a@ != b@ ==> !r,
{
    std::path::Path::new(a) == std::path::Path::new(b)
}

/// Whether the destination wanted and the one held match: both absent, or both present
/// and, by the platform's comparison of paths, the same path (`same_path`).
pub open spec fn destinations_match(
    wanted: Option<Seq<char>>,
    holding: Option<Seq<char>>,
    same_path: bool,
) -> bool {
    match (wanted, holding) {
        (None, None) => true,
        (Some(_), Some(_)) => same_path,
        _ => false,
    }
}

/// What bringing the take held in line with the one wanted takes, as `(close, open)`:
/// nothing when the destinations match; otherwise close the take held (if any) and open
/// the one wanted (if any).
pub open spec fn take_transition(
    wanted: Option<Seq<char>>,
    holding: Option<Seq<char>>,
    same_path: bool,
) -> (bool, Option<Seq<char>>) {
    if destinations_match(wanted, holding, same_path) {
        (false, None)
    } else {
        (holding is Some, wanted)
    }
}

/// The destination held after carrying out `(close, open)` from `holding`, once the take
/// opens.
pub open spec fn held_after(holding: Option<Seq<char>>, step: (bool, Option<Seq<char>>)) -> Option<
    Seq<char>,
> {
    match step.1 {
        Some(p) => Some(p),
        None => if step.0 {
            None
        } else {
            holding
        },
    }
}

/// What the writer does, given whether the two destinations (when both are present) are
/// the same path.
pub fn reconcile_with(wanted: &Option<String>, holding: &Option<String>, same_path: bool) -> (t:
    TakeTransition)
    ensures
        (t.close, opt_view(t.open)) == take_transition(
            opt_view(*wanted),
            opt_view(*holding),
            same_path,
        ),
{
    let matched = match (wanted, holding) {
        (None, None) => true,
        (Some(_), Some(_)) => same_path,
        _ => false,
    };
    if matched {
        TakeTransition { close: false, open: None }
    } else {
        let open = match wanted {
            Some(p) => Some(p.clone()),
            None => None,
        };
        TakeTransition { close: holding.is_some(), open }
    }
}

/// Compares the take wanted with the one held open, as paths, and says what the writer
/// does: nothing when they are the same path (or both absent), else close the take held
/// and open the one wanted. A different bare file name is always a new destination.
pub fn reconcile_take(wanted: &Option<String>, holding: &Option<String>) -> (t: TakeTransition)
    ensures
        match (opt_view(*wanted), opt_view(*holding)) {
            (Some(w), Some(h)) => is_bare_name(w) && is_bare_name(h) && w != h ==> (t.close
                && opt_view(t.open) == Some(w)),
            _ => true,
        },
        exists|same: bool|
            {
                &&& (opt_view(*wanted) == opt_view(*holding) ==> same)
                &&& (t.close, opt_view(t.open)) == take_transition(
                    opt_view(*wanted),
                    opt_view(*holding),
                    same,
                )
            },
{
    let same = match (wanted, holding) {
        (Some(w), Some(h)) => same_path(w, h),
        _ => false,
    };
    let t = reconcile_with(wanted, holding, same);
    let ghost witness = if wanted is Some && holding is Some {
        same
    } else {
        opt_view(*wanted) == opt_view(*holding)
    };
    assert(take_transition(opt_view(*wanted), opt_view(*holding), witness) == take_transition(
        opt_view(*wanted),
        opt_view(*holding),
        same,
    ));
    t
}

/// Once the writer has carried out what reconciling decided, reconciling again with the
/// same intent does nothing: a repeated start with the same destination neither closes
/// nor reopens the take. This rests on two facts of comparing paths: a path is the same
/// as itself, and comparing the same two paths again gives the same answer.
pub proof fn lemma_reconcile_settles(
    wanted: Option<Seq<char>>,
    holding: Option<Seq<char>>,
    same_first: bool,
    same_second: bool,
)
    requires
        held_after(holding, take_transition(wanted, holding, same_first)) == wanted
            ==> same_second,
        held_after(holding, take_transition(wanted, holding, same_first)) == holding
            ==> same_second == same_first,
    ensures
        take_transition(
            wanted,
            held_after(holding, take_transition(wanted, holding, same_first)),
            same_second,
        ) == (false, None::<Seq<char>>),
        held_after(holding, take_transition(wanted, holding, same_first)) == wanted
            || destinations_match(wanted, holding, same_first),
{
}

/// The take a writer holds open: its destination, the samples written to it, and the
/// drop counter's value when it opened.
pub struct TakeProgress {
    pub path: String,
    pub samples: u64,
    pub dropped_at_open: u64,
}

impl TakeProgress {
    /// A take just opened at `path`, with the drop counter at `dropped_now`.
    pub fn open(path: String, dropped_now: u64) -> (p: Self)
        ensures
            p.path == path,
            p.samples == 0,
            p.dropped_at_open == dropped_now,
    {
        TakeProgress { path, samples: 0, dropped_at_open: dropped_now }
    }

    /// Counts a batch of `n` samples written.
    pub fn record_batch(&mut self, n: usize)
        requires
            old(self).samples + n <= u64::MAX,
        ensures
            final(self).samples == old(self).samples + n,
            final(self).path == old(self).path,
            final(self).dropped_at_open == old(self).dropped_at_open,
    {
        self.samples = self.samples + n as u64;
    }

    /// Samples dropped since the take opened; drops while idle belong to no take.
    pub fn dropped_so_far(&self, dropped_now: u64) -> (d: u64)
        requires
            dropped_now >= self.dropped_at_open,
        ensures
            d == dropped_now - self.dropped_at_open,
    {
        dropped_now - self.dropped_at_open
    }

    /// The status to show while the take runs.
    pub fn recording_status(&self, sample_rate: u32, dropped_now: u64) -> (s: RecorderStatus)
        requires
            dropped_now >= self.dropped_at_open,
        ensures
            s == (RecorderStatus::Recording {
                path: self.path,
                samples: self.samples,
                sample_rate,
                dropped: (dropped_now - self.dropped_at_open) as u64,
            }),
    {
        RecorderStatus::Recording {
            path: self.path.clone(),
            samples: self.samples,
            sample_rate,
            dropped: self.dropped_so_far(dropped_now),
        }
    }

    /// The report of the take once it has been closed cleanly.
    pub fn finish(self, sample_rate: u32, dropped_now: u64) -> (r: TakeReport)
        requires
            dropped_now >= self.dropped_at_open,
        ensures
            r == (TakeReport {
                path: self.path,
                sample_rate,
                samples: self.samples,
                dropped: (dropped_now - self.dropped_at_open) as u64,
            }),
    {
        let dropped = self.dropped_so_far(dropped_now);
        TakeReport { path: self.path, sample_rate, samples: self.samples, dropped }
    }
}

/// Capacity of the recorder's ring: [`RECORDER_RING_SECONDS`] of audio.
pub fn recorder_ring_capacity(sample_rate: u32) -> (n: usize)
    requires
        sample_rate * RECORDER_RING_SECONDS <= u32::MAX,
    ensures
        n == sample_rate * RECORDER_RING_SECONDS,
{
    (sample_rate * RECORDER_RING_SECONDS) as usize
}

} // verus!
