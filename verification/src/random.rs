//! The pseudo-random generator: what is taken from the `rand` crate.

use rand::distributions::Alphanumeric;
use rand::rngs::StdRng;
use rand::Rng;
use rand::SeedableRng;
use vstd::prelude::*;

verus! {

/// The generator `rand::rngs::StdRng`; nothing of its state is visible to
/// the proofs.
#[verifier::external_type_specification]
#[verifier::external_body]
pub struct ExStdRng(rand::rngs::StdRng);

/// Whether `c` is an ASCII letter or an ASCII digit.
pub open spec fn is_alphanumeric(c: char) -> bool {
    ||| 'A' <= c <= 'Z'
    ||| 'a' <= c <= 'z'
    ||| '0' <= c <= '9'
}

/// Draws one value from the inclusive range `lo..=hi` with `Rng::gen_range`.
///
/// The value depends on the state of the source, so the contract states only
/// what holds of every draw: it lies within the requested range. An empty
/// range makes `gen_range` panic and is excluded.
#[verifier::external_body]
pub(crate) fn draw_inclusive(rng: &mut StdRng, lo: usize, hi: usize) -> (r: usize)
    requires
        lo <= hi,
    ensures
        lo <= r <= hi,
{
    rng.gen_range(lo..=hi)
}

/// Draws one character with `Rng::sample` from the `Alphanumeric`
/// distribution, which hands out ASCII letters and digits only.
#[verifier::external_body]
pub(crate) fn draw_alphanumeric(rng: &mut StdRng) -> (c: char)
    ensures
        is_alphanumeric(c),
{
    rng.sample(Alphanumeric) as char
}

/// A source seeded by the operating system, made with
/// `SeedableRng::from_entropy`. Nothing is claimed of its state. If the
/// operating system cannot supply entropy, `from_entropy` panics.
#[verifier::external_body]
pub(crate) fn entropy_source() -> StdRng {
    StdRng::from_entropy()
}

} // verus!
