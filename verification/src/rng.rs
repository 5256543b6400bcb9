//! Random draws, through the `rand` crate. Nothing is promised of a draw
//! beyond its range; every decision that consumes one is made by a verified
//! function that takes the draw as an argument.

use vstd::prelude::*;

verus! {

/// One sample of the randomness an injection decision consumes: a percentage
/// roll, a fraction in thousandths, and a file-name suffix.
#[derive(Clone, Copy)]
pub struct RandSample {
    /// A uniform draw in `[0, 100)`, rolled against a flag's percentage.
    pub roll: u32,
    /// A uniform draw in `[0, 1000)`, a fraction in thousandths.
    pub frac: u64,
    /// An arbitrary draw, used to make file names unique.
    pub suffix: u32,
}

/// Whether a sample's draws lie in their ranges.
pub open spec fn sample_in_range(s: RandSample) -> bool {
    s.roll < 100 && s.frac < 1000
}

/// Relies on `rand::random_range` over `0..100`: the draw lies in the
/// half-open range given.
#[verifier::external_body]
pub(crate) fn roll_percent() -> (r: u32)
    ensures
        r < 100,
{
    rand::random_range(0..100u32)
}

/// Relies on `rand::random_range` over `0..1000`: the draw lies in the
/// half-open range given.
#[verifier::external_body]
pub(crate) fn roll_thousandths() -> (r: u64)
    ensures
        r < 1000,
{
    rand::random_range(0..1000u64)
}

/// Relies on `rand::random_range` over the whole `u32` range; nothing is
/// promised of the draw.
#[verifier::external_body]
pub(crate) fn roll_suffix() -> u32 {
    rand::random_range(0..=u32::MAX)
}

/// One fresh sample.
pub fn draw_sample() -> (s: RandSample)
    ensures
        sample_in_range(s),
{
    RandSample { roll: roll_percent(), frac: roll_thousandths(), suffix: roll_suffix() }
}

/// `n` fresh samples.
pub fn draw_samples(n: usize) -> (v: Vec<RandSample>)
    ensures
        v@.len() == n,
        forall|i: int| 0 <= i < n ==> sample_in_range(#[trigger] v@[i]),
{
    let mut v: Vec<RandSample> = Vec::new();
    let mut i: usize = 0;
    while i < n
        invariant
            i <= n,
            v@.len() == i,
            forall|j: int| 0 <= j < i ==> sample_in_range(#[trigger] v@[j]),
        decreases n - i,
    {
        v.push(draw_sample());
        i += 1;
    }
    v
}

} // verus!
