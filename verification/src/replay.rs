use vstd::prelude::*;

use crate::order::{
    is_total,
    is_transitive,
    lemma_insert_pos_unique,
    lemma_insertion_step,
    lemma_sort_by,
    sort_by,
    sorted_by,
};
use crate::text::{
    opt_view,
    chars_of,
    lemma_lex_total,
    lemma_lex_transitive,
    lex_le,
    lex_le_chars,
};

verus! {

/// What replay is doing.
#[derive(Clone, Debug, PartialEq, Eq)]
pub enum ReplayStatus {
    Idle,
    /// Playing the take at `path`: `position` of its `total` samples handed over so far,
    /// at `sample_rate` (the seconds shown are these counts over the rate).
    Playing { path: String, position: u64, total: u64, sample_rate: u32 },
    Finished { path: String },
    Failed(String),
}

impl ReplayStatus {
    /// A copy of this status.
    pub fn snapshot(&self) -> (r: Self)
        ensures
            r == *self,
    {
        match self {
            ReplayStatus::Idle => ReplayStatus::Idle,
            ReplayStatus::Playing { path, position, total, sample_rate } => ReplayStatus::Playing {
                path: path.clone(),
                position: *position,
                total: *total,
                sample_rate: *sample_rate,
            },
            ReplayStatus::Finished { path } => ReplayStatus::Finished { path: path.clone() },
            ReplayStatus::Failed(message) => ReplayStatus::Failed(message.clone()),
        }
    }
}

/// The replay status, which outlives the capture that produced it.
pub struct ReplayHandle {
    pub status: ReplayStatus,
}

impl ReplayHandle {
    /// Nothing played yet.
    pub fn new() -> (h: Self)
        ensures
            h.status == ReplayStatus::Idle,
    {
        ReplayHandle { status: ReplayStatus::Idle }
    }

    /// The status last published.
    pub fn status(&self) -> (s: ReplayStatus)
        ensures
            s == self.status,
    {
        self.status.snapshot()
    }

    /// Publishes `status`.
    pub fn publish(&mut self, status: ReplayStatus)
        ensures
            final(self).status == status,
    {
        self.status = status;
    }
}

/// Why a WAV file is not a take.
#[derive(Clone, Copy, Debug, PartialEq, Eq)]
pub enum TakeFormatError {
    /// It has this many channels; takes are mono.
    NotMono { channels: u16 },
    /// Its samples are not 16-bit integers.
    NotS16 { is_int: bool, bits: u16 },
    /// It holds no audio.
    Empty,
}

/// The format a take must have: mono, 16-bit integer samples. Channels are checked
/// first, so a stereo file is refused by its channel count.
pub fn check_take_format(channels: u16, is_int: bool, bits_per_sample: u16) -> (r: Result<
    (),
    TakeFormatError,
>)
    ensures
        channels != 1 ==> r == Err::<(), TakeFormatError>(TakeFormatError::NotMono { channels }),
        channels == 1 && (!is_int || bits_per_sample != 16) ==> r == Err::<(), TakeFormatError>(
            TakeFormatError::NotS16 { is_int, bits: bits_per_sample },
        ),
        channels == 1 && is_int && bits_per_sample == 16 ==> r is Ok,
{
    if channels != 1 {
        Err(TakeFormatError::NotMono { channels })
    } else if !is_int || bits_per_sample != 16 {
        Err(TakeFormatError::NotS16 { is_int, bits: bits_per_sample })
    } else {
        Ok(())
    }
}

/// A take must hold at least one sample.
pub fn check_take_length(samples: usize) -> (r: Result<(), TakeFormatError>)
    ensures
        samples == 0 ==> r == Err::<(), TakeFormatError>(TakeFormatError::Empty),
        samples > 0 ==> r is Ok,
{
    if samples == 0 {
        Err(TakeFormatError::Empty)
    } else {
        Ok(())
    }
}

/// How far into a take of `total` samples playback has reached after block `index`
/// (0-based) of `chunk` samples: the end of that block, or the end of the take for the
/// last, partial one.
pub open spec fn playhead(index: int, chunk: int, total: int) -> int {
    if (index + 1) * chunk < total {
        (index + 1) * chunk
    } else {
        total
    }
}

/// The playhead after block `index`.
pub fn replay_position(index: usize, chunk: usize, total: usize) -> (p: usize)
    requires
        index < usize::MAX,
        (index + 1) * chunk <= usize::MAX,
    ensures
        p == playhead(index as int, chunk as int, total as int),
{
    let reached = (index + 1) * chunk;
    if reached < total {
        reached
    } else {
        total
    }
}

/// The playhead only moves forward, never passes the end of the take, and the last
/// block (the one holding the take's last sample) brings it exactly to the end.
pub proof fn lemma_playhead(index: nat, chunk: nat, total: nat)
    requires
        chunk > 0,
        total > 0,
    ensures
        playhead(index as int, chunk as int, total as int) <= total,
        playhead(index as int, chunk as int, total as int) <= playhead(
            index + 1int,
            chunk as int,
            total as int,
        ),
        playhead((total - 1) / (chunk as int), chunk as int, total as int) == total,
{
    assert((index + 1) * chunk <= (index + 2) * chunk) by (nonlinear_arith)
        requires
            chunk > 0,
    ;
    let last = (total - 1) / (chunk as int);
    vstd::arithmetic::div_mod::lemma_fundamental_div_mod(total - 1, chunk as int);
    assert((last + 1) * chunk == last * chunk + chunk) by (nonlinear_arith);
}

/// A WAV file found in the takes directory, with what its header says (or `None` when
/// it could not be read as a WAV at all).
pub struct TakeCandidate {
    pub path: String,
    pub extension: Option<String>,
    pub header: Option<WavHeader>,
}

/// The parts of a WAV header that the take listing reads.
#[derive(Clone, Copy, Debug, PartialEq, Eq)]
pub struct WavHeader {
    pub channels: u16,
    pub is_int: bool,
    pub bits_per_sample: u16,
    pub samples: u64,
    pub sample_rate: u32,
}

/// A take that can be offered for replay: where it is, and its length and rate.
#[derive(Clone, Debug, PartialEq, Eq)]
pub struct TakeOnDisk {
    pub path: String,
    pub samples: u64,
    pub sample_rate: u32,
}

/// The plain content of a [`TakeOnDisk`].
pub struct TakeView {
    pub path: Seq<char>,
    pub samples: u64,
    pub sample_rate: u32,
}

impl View for TakeOnDisk {
    type V = TakeView;

    open spec fn view(&self) -> TakeView {
        TakeView { path: self.path@, samples: self.samples, sample_rate: self.sample_rate }
    }
}

/// The code point of `c` with ASCII upper case folded to lower case.
pub open spec fn ascii_folded(c: char) -> u32 {
    if 65 <= (c as u32) <= 90 {
        ((c as u32) + 32) as u32
    } else {
        c as u32
    }
}

/// `a` and `b` are equal up to ASCII case (`eq_ignore_ascii_case`).
pub open spec fn eq_ignore_ascii_case(a: Seq<char>, b: Seq<char>) -> bool {
    a.len() == b.len() && forall|i: int| 0 <= i < a.len() ==> ascii_folded(#[trigger] a[i])
        == ascii_folded(b[i])
}

/// The file is a WAV by its extension (any case).
pub open spec fn is_wav_extension(ext: Option<Seq<char>>) -> bool {
    match ext {
        Some(e) => eq_ignore_ascii_case(e, "wav"@),
        None => false,
    }
}

/// The take a candidate is, if it is one: a `.wav` whose header reads as mono 16-bit
/// integer audio (the format every take is recorded in and the only one replay loads).
pub open spec fn candidate_take(c: (Seq<char>, Option<Seq<char>>, Option<WavHeader>)) -> Option<
    TakeView,
> {
    match c.2 {
        Some(h) => if is_wav_extension(c.1) && h.channels == 1 && h.is_int
            && h.bits_per_sample == 16 {
            Some(TakeView { path: c.0, samples: h.samples, sample_rate: h.sample_rate })
        } else {
            None
        },
        None => None,
    }
}

/// The takes among `candidates`, in the order found.
pub open spec fn takes_among(
    candidates: Seq<(Seq<char>, Option<Seq<char>>, Option<WavHeader>)>,
) -> Seq<TakeView>
    decreases candidates.len(),
{
    if candidates.len() == 0 {
        Seq::<TakeView>::empty()
    } else {
        let before = takes_among(candidates.drop_last());
        match candidate_take(candidates.last()) {
            Some(t) => before.push(t),
            None => before,
        }
    }
}

/// Takes ordered by path.
pub open spec fn take_le() -> spec_fn(TakeView, TakeView) -> bool {
    |a: TakeView, b: TakeView| lex_le(a.path, b.path)
}

/// The listing: the takes among the candidates, sorted by path (for entries of one
/// directory, the order of their file names).
pub open spec fn take_listing(
    candidates: Seq<(Seq<char>, Option<Seq<char>>, Option<WavHeader>)>,
) -> Seq<TakeView> {
    sort_by(takes_among(candidates), take_le())
}

/// The plain contents of a candidate list.
pub open spec fn candidate_views(s: Seq<TakeCandidate>) -> Seq<
    (Seq<char>, Option<Seq<char>>, Option<WavHeader>),
> {
    s.map_values(
        |c: TakeCandidate|
            (
                c.path@,
                match c.extension {
                    Some(e) => Some(e@),
                    None => None,
                },
                c.header,
            ),
    )
}

/// The plain contents of a take list.
pub open spec fn take_views(s: Seq<TakeOnDisk>) -> Seq<TakeView> {
    s.map_values(|t: TakeOnDisk| t@)
}

fn ascii_folded_exec(c: char) -> (r: u32)
    ensures
        r == ascii_folded(c),
{
    let u = c as u32;
    if 65 <= u && u <= 90 {
        u + 32
    } else {
        u
    }
}

/// `a.eq_ignore_ascii_case(b)` on character vectors.
pub fn eq_ignore_ascii_case_chars(a: &Vec<char>, b: &Vec<char>) -> (r: bool)
    ensures
        r == eq_ignore_ascii_case(a@, b@),
{
    if a.len() != b.len() {
        return false;
    }
    let mut i: usize = 0;
    while i < a.len()
        invariant
            i <= a.len() == b.len(),
            forall|k: int| 0 <= k < i ==> ascii_folded(#[trigger] a@[k]) == ascii_folded(b@[k]),
        decreases a.len() - i,
    {
        if ascii_folded_exec(a[i]) != ascii_folded_exec(b[i]) {
            return false;
        }
        i += 1;
    }
    true
}

/// Whether a file extension names a WAV file (`wav` in any ASCII case).
pub fn has_wav_extension(ext: &Option<String>) -> (r: bool)
    ensures
        r == is_wav_extension(opt_view(*ext)),
{
    match ext {
        Some(e) => {
            let e_chars = chars_of(e.as_str());
            let wav = chars_of("wav");
            eq_ignore_ascii_case_chars(&e_chars, &wav)
        },
        None => false,
    }
}

proof fn lemma_take_order()
    ensures
        is_total(take_le()),
        is_transitive(take_le()),
{
    assert forall|a: TakeView, b: TakeView| #[trigger] take_le()(a, b) || take_le()(b, a) by {
        lemma_lex_total(a.path, b.path);
    }
    assert forall|a: TakeView, b: TakeView, c: TakeView| #[trigger] take_le()(a, b)
        && #[trigger] take_le()(b, c) implies take_le()(a, c) by {
        lemma_lex_transitive(a.path, b.path, c.path);
    }
}

/// The takes among the candidates, in the order found.
fn filter_takes(candidates: Vec<TakeCandidate>) -> (takes: Vec<TakeOnDisk>)
    ensures
        take_views(takes@) == takes_among(candidate_views(candidates@)),
{
    let ghost cs = candidate_views(candidates@);
    let mut takes: Vec<TakeOnDisk> = Vec::new();
    let mut i: usize = 0;
    proof {
        assert(cs.take(0) =~= Seq::<(Seq<char>, Option<Seq<char>>, Option<WavHeader>)>::empty());
        assert(take_views(takes@) =~= Seq::<TakeView>::empty());
    }
    while i < candidates.len()
        invariant
            i <= candidates.len(),
            cs == candidate_views(candidates@),
            take_views(takes@) == takes_among(cs.take(i as int)),
        decreases candidates.len() - i,
    {
        let c = &candidates[i];
        proof {
            assert(cs.take(i + 1).drop_last() =~= cs.take(i as int));
            assert(cs.take(i + 1).last() == cs[i as int]);
        }
        let wav = has_wav_extension(&c.extension);
        match c.header {
            Some(h) => {
                if wav && h.channels == 1 && h.is_int && h.bits_per_sample == 16 {
                    let ghost before = takes@;
                    takes.push(
                        TakeOnDisk {
                            path: c.path.clone(),
                            samples: h.samples,
                            sample_rate: h.sample_rate,
                        },
                    );
                    assert(take_views(takes@) =~= take_views(before).push(takes@.last()@));
                }
            },
            None => {},
        }
        i += 1;
    }
    proof {
        assert(cs.take(candidates.len() as int) =~= cs);
    }
    takes
}

/// Each path is the path of the take at the same place.
pub open spec fn paths_match(paths: Seq<Vec<char>>, takes: Seq<TakeOnDisk>) -> bool {
    &&& paths.len() == takes.len()
    &&& forall|m: int| 0 <= m < paths.len() ==> (#[trigger] paths[m])@ == takes[m].path@
}

proof fn lemma_paths_move(paths: Seq<Vec<char>>, takes: Seq<TakeOnDisk>, i: int, j: int)
    requires
        paths_match(paths, takes),
        0 <= i < paths.len(),
        0 <= j < paths.len(),
    ensures
        paths_match(paths.remove(i).insert(j, paths[i]), takes.remove(i).insert(j, takes[i])),
        take_views(takes.remove(i).insert(j, takes[i])) == take_views(takes).remove(i).insert(
            j,
            takes[i]@,
        ),
        take_views(takes.remove(i)) == take_views(takes).remove(i),
{
    let p2 = paths.remove(i).insert(j, paths[i]);
    let t2 = takes.remove(i).insert(j, takes[i]);
    assert forall|m: int| 0 <= m < p2.len() implies (#[trigger] p2[m])@ == t2[m].path@ by {
        if m < j {
            assert(p2[m] == paths.remove(i)[m] && t2[m] == takes.remove(i)[m]);
        } else if m > j {
            assert(p2[m] == paths.remove(i)[m - 1] && t2[m] == takes.remove(i)[m - 1]);
        }
    }
    assert(take_views(t2) =~= take_views(takes).remove(i).insert(j, takes[i]@));
    assert(take_views(takes.remove(i)) =~= take_views(takes).remove(i));
}

/// Sorts takes by path, keeping the order of equal paths.
fn sort_takes(takes: &mut Vec<TakeOnDisk>)
    ensures
        take_views(final(takes)@) == sort_by(take_views(old(takes)@), take_le()),
{
    let ghost orig = take_views(takes@);
    let n = takes.len();
    let mut paths: Vec<Vec<char>> = Vec::new();
    let mut k: usize = 0;
    while k < n
        invariant
            k <= n == takes.len(),
            paths.len() == k,
            forall|m: int| 0 <= m < k ==> (#[trigger] paths@[m])@ == takes@[m].path@,
        decreases n - k,
    {
        paths.push(chars_of(takes[k].path.as_str()));
        k += 1;
    }
    let mut i: usize = 0;
    proof {
        assert(orig.take(0) =~= Seq::<TakeView>::empty());
        assert(take_views(takes@).take(0) =~= Seq::<TakeView>::empty());
        assert(take_views(takes@).skip(0) =~= orig.skip(0));
    }
    while i < n
        invariant
            i <= n == takes.len(),
            orig.len() == n,
            paths_match(paths@, takes@),
            take_views(takes@).take(i as int) == sort_by(orig.take(i as int), take_le()),
            take_views(takes@).skip(i as int) == orig.skip(i as int),
        decreases n - i,
    {
        let ghost before_paths = paths@;
        let ghost before_takes = takes@;
        let ghost before = take_views(takes@);
        let ghost t = before.take(i as int);
        let x = takes.remove(i);
        let px = paths.remove(i);
        proof {
            lemma_paths_move(before_paths, before_takes, i as int, i as int);
        }
        let mut j = i;
        while j > 0 && !lex_le_chars(&paths[j - 1], &px)
            invariant
                j <= i < n,
                before_paths.len() == n,
                before_takes.len() == n,
                paths@ == before_paths.remove(i as int),
                takes@ == before_takes.remove(i as int),
                before == take_views(before_takes),
                t == before.take(i as int),
                paths_match(before_paths, before_takes),
                px@ == x.path@,
                forall|m: int| j <= m < i ==> !take_le()(#[trigger] t[m], x@),
            decreases j,
        {
            proof {
                assert(paths@[j - 1] == before_paths[j - 1]);
                assert(t[j - 1] == before_takes[j - 1]@);
            }
            j -= 1;
        }
        proof {
            if j > 0 {
                assert(paths@[j - 1] == before_paths[j - 1]);
                assert(t[j - 1] == before_takes[j - 1]@);
            }
            lemma_insert_pos_unique(t, x@, take_le(), j as int);
            assert(before[i as int] == x@);
            lemma_insertion_step(before, orig, i as int, j as int, take_le());
        }
        takes.insert(j, x);
        paths.insert(j, px);
        proof {
            lemma_paths_move(before_paths, before_takes, i as int, j as int);
        }
        i += 1;
    }
    proof {
        assert(take_views(takes@).take(n as int) =~= take_views(takes@));
        assert(orig.take(n as int) =~= orig);
    }
}

/// The takes that can be offered for replay: of the files found, those with a `.wav`
/// extension (any case) whose header reads as mono 16-bit integer audio, sorted by path.
pub fn select_takes(candidates: Vec<TakeCandidate>) -> (takes: Vec<TakeOnDisk>)
    ensures
        take_views(takes@) == take_listing(candidate_views(candidates@)),
{
    let mut takes = filter_takes(candidates);
    sort_takes(&mut takes);
    takes
}

/// The listing is sorted by path and lists each take found exactly once.
pub proof fn lemma_take_listing(candidates: Seq<(Seq<char>, Option<Seq<char>>, Option<WavHeader>)>)
    ensures
        sorted_by(take_listing(candidates), take_le()),
        take_listing(candidates).to_multiset() == takes_among(candidates).to_multiset(),
{
    lemma_take_order();
    lemma_sort_by(takes_among(candidates), take_le());
}

} // verus!
