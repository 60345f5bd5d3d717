use vstd::prelude::*;

use crate::sample_rate::{
    duration_from_nanos,
    duration_nanos,
    samples_in_nanos,
    SampleRate,
};

verus! {

/// Samples the analysis workers drain per pass.
pub const ANALYSIS_BATCH: usize = 4096;

/// Depth of an analysis ring: half a second of audio at the capture rate, plenty of
/// slack for scheduler hiccups.
pub fn analysis_ring_len(sample_rate: SampleRate) -> (n: usize)
    ensures
        n == sample_rate.0 / 2,
{
    let half_second = duration_from_nanos(500_000_000);
    let n = sample_rate.samples_in(half_second);
    proof {
        let r = sample_rate.0 as int;
        assert(samples_in_nanos(r, 500_000_000) == r / 2) by {
            assert(r * 500_000_000 == (r / 2) * 1_000_000_000 + (r % 2) * 500_000_000);
            vstd::arithmetic::div_mod::lemma_div_multiples_vanish_fancy(
                r / 2,
                (r % 2) * 500_000_000,
                1_000_000_000,
            );
        }
    }
    n
}

} // verus!
