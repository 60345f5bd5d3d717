use std::time::Duration;
use vstd::prelude::*;

verus! {

/// Whole nanoseconds held by a `Duration`, as `Duration::as_nanos` reports them.
pub uninterp spec fn duration_nanos(d: Duration) -> nat;

/// Calls `Duration::as_nanos`: the total number of whole nanoseconds in `d`.
#[verifier::external_body]
fn duration_as_nanos(d: Duration) -> (n: u128)
    ensures
        n == duration_nanos(d),
        n <= max_duration_nanos(),
{
    d.as_nanos()
}

/// Calls `Duration::from_nanos`: a duration of exactly `n` nanoseconds.
#[verifier::external_body]
pub(crate) fn duration_from_nanos(n: u64) -> (d: Duration)
    ensures
        duration_nanos(d) == n,
{
    Duration::from_nanos(n)
}

/// Samples per second of an audio stream.
#[derive(Clone, Copy, Debug, PartialEq, Eq, PartialOrd, Ord)]
pub struct SampleRate(pub u32);

pub open spec fn nanos_per_second() -> int {
    1_000_000_000
}

/// Nanoseconds in `Duration::MAX`: `u64::MAX` seconds and 999 999 999 nanoseconds.
pub open spec fn max_duration_nanos() -> int {
    u64::MAX as int * nanos_per_second() + 999_999_999
}

/// Whole samples at `rate` in `nanos` nanoseconds: the floor of the exact product.
pub open spec fn samples_in_nanos(rate: int, nanos: int) -> int {
    (rate * nanos) / nanos_per_second()
}

/// Whole nanoseconds that `n` samples last at `rate`: the floor of the exact quotient.
pub open spec fn nanos_of_samples(rate: int, n: int) -> int {
    (n * nanos_per_second()) / rate
}

impl SampleRate {
    /// Whole samples that fit in `d`: the floor of the exact product, truncated to `usize`.
    pub fn samples_in(self, d: Duration) -> (n: usize)
        ensures
            n == (#[verifier::truncate] (samples_in_nanos(self.0 as int, duration_nanos(d) as int) as usize)),
    {
        let nanos = duration_as_nanos(d);
        assert(self.0 as int * nanos <= 0xffff_ffff * max_duration_nanos()) by (nonlinear_arith)
            requires
                self.0 <= 0xffff_ffff,
                nanos <= max_duration_nanos(),
                0 <= nanos,
        ;
        #[verifier::truncate]
        ((self.0 as u128 * nanos / 1_000_000_000) as usize)
    }

    /// How long `n` samples last, in whole nanoseconds (rounded down).
    ///
    /// The rate must be non-zero and `n` seconds' worth of nanoseconds must fit in a
    /// `u64`; the computation would panic otherwise.
    pub fn duration_of(self, n: usize) -> (d: Duration)
        requires
            self.0 > 0,
            n as int * nanos_per_second() <= u64::MAX,
        ensures
            duration_nanos(d) == nanos_of_samples(self.0 as int, n as int),
    {
        duration_from_nanos(n as u64 * 1_000_000_000 / self.0 as u64)
    }
}

/// Counting the samples in the duration of `n` samples gives `n` back, short by the
/// number of whole or partial seconds' worth of nanoseconds that the rounding down of
/// the duration dropped; in particular it is exactly `n` when the rate divides
/// `n` seconds' worth of nanoseconds, and never more than `n`.
pub proof fn lemma_samples_in_duration_of(rate: u32, n: nat)
    requires
        rate > 0,
    ensures
        samples_in_nanos(rate as int, nanos_of_samples(rate as int, n as int)) == n as int - (
        (n * nanos_per_second()) % (rate as int) + nanos_per_second() - 1) / nanos_per_second(),
        (n * nanos_per_second()) % (rate as int) == 0 ==> samples_in_nanos(
            rate as int,
            nanos_of_samples(rate as int, n as int),
        ) == n,
        samples_in_nanos(rate as int, nanos_of_samples(rate as int, n as int)) <= n,
{
    let big = n * nanos_per_second();
    let q = big / (rate as int);
    let r = big % (rate as int);
    vstd::arithmetic::div_mod::lemma_fundamental_div_mod(big, rate as int);
    assert(rate * q == big - r);
    let c = (r + nanos_per_second() - 1) / nanos_per_second();
    vstd::arithmetic::div_mod::lemma_fundamental_div_mod(r + nanos_per_second() - 1, nanos_per_second());
    // big - r == (n - c) * 1e9 + (c * 1e9 - r), with 0 <= c * 1e9 - r < 1e9.
    assert(0 <= c * nanos_per_second() - r < nanos_per_second());
    assert(big - r == (n - c) * nanos_per_second() + (c * nanos_per_second() - r)) by (nonlinear_arith)
        requires big == n * nanos_per_second();
    vstd::arithmetic::div_mod::lemma_div_multiples_vanish_fancy(
        n - c,
        c * nanos_per_second() - r,
        nanos_per_second(),
    );
    assert(0 <= r);
}

} // verus!
