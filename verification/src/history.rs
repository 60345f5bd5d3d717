use std::collections::VecDeque;
use vstd::prelude::*;

verus! {

/// The last `max_len` items of `s` (all of `s` when it is no longer than that).
pub open spec fn newest<T>(s: Seq<T>, max_len: nat) -> Seq<T> {
    if s.len() <= max_len {
        s
    } else {
        s.skip(s.len() - max_len)
    }
}

/// Appends `item` to a bounded history and drops the oldest entries until at most
/// `max_len` remain.
pub fn push_limited_history<T>(history: &mut VecDeque<T>, item: T, max_len: usize)
    ensures
        final(history)@ == newest(old(history)@.push(item), max_len as nat),
        final(history)@.len() == if old(history)@.len() + 1 <= max_len {
            old(history)@.len() + 1
        } else {
            max_len as nat
        },
        max_len > 0 ==> final(history)@.last() == item,
{
    history.push_back(item);
    let ghost pushed = history@;
    assert(pushed.skip(0) =~= pushed);
    while history.len() > max_len
        invariant
            pushed == old(history)@.push(item),
            history@.len() <= pushed.len(),
            pushed.len() > max_len ==> history@.len() >= max_len,
            pushed.len() <= max_len ==> history@ == pushed,
            history@ == pushed.skip(pushed.len() - history@.len()),
        decreases history@.len(),
    {
        proof {
            vstd::std_specs::vecdeque::axiom_spec_len(history);
        }
        history.pop_front();
        assert(history@ =~= pushed.skip(pushed.len() - history@.len()));
    }
    proof {
        vstd::std_specs::vecdeque::axiom_spec_len(history);
        if max_len > 0 {
            assert(history@.last() == pushed.last());
        }
    }
}

/// Samples of recent input kept for the waveform display.
pub const INPUT_WAVEFORM_HISTORY: usize = 2048;

/// The longest analysis window; the analysis buffer keeps twice as many samples.
pub const MAX_WINDOW_SIZE: usize = 16384;

/// Drops the oldest entries of `history` until at most `max_len` remain.
pub fn trim_history<T>(history: &mut VecDeque<T>, max_len: usize)
    ensures
        final(history)@ == newest(old(history)@, max_len as nat),
{
    let ghost start = history@;
    assert(start.skip(0) =~= start);
    while history.len() > max_len
        invariant
            history@.len() <= start.len(),
            start.len() > max_len ==> history@.len() >= max_len,
            start.len() <= max_len ==> history@ == start,
            history@ == start.skip(start.len() - history@.len()),
        decreases history@.len(),
    {
        proof {
            vstd::std_specs::vecdeque::axiom_spec_len(history);
        }
        history.pop_front();
        assert(history@ =~= start.skip(start.len() - history@.len()));
    }
    proof {
        vstd::std_specs::vecdeque::axiom_spec_len(history);
    }
}

/// Appends `items` to a bounded history, in order, then drops the oldest entries until
/// at most `max_len` remain.
pub fn extend_limited_history<T: Copy>(history: &mut VecDeque<T>, items: &[T], max_len: usize)
    ensures
        final(history)@ == newest(old(history)@ + items@, max_len as nat),
{
    let mut i: usize = 0;
    while i < items.len()
        invariant
            i <= items@.len(),
            history@ == old(history)@ + items@.take(i as int),
        decreases items@.len() - i,
    {
        history.push_back(items[i]);
        i += 1;
        assert(items@.take(i as int) =~= items@.take((i - 1) as int).push(items@[i - 1]));
    }
    assert(items@.take(i as int) =~= items@);
    trim_history(history, max_len);
}

/// Where the analysis window starts in a buffer of `buffer_len` samples: the last
/// `window_size` samples, or `None` while the buffer holds fewer than that.
pub fn analysis_window_start(buffer_len: usize, window_size: usize) -> (start: Option<usize>)
    ensures
        buffer_len < window_size ==> start is None,
        buffer_len >= window_size ==> start == Some((buffer_len - window_size) as usize),
{
    if buffer_len < window_size {
        None
    } else {
        Some(buffer_len - window_size)
    }
}

} // verus!
