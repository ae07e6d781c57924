//! The pseudo-random source shared by the generators.
use vstd::prelude::*;

verus! {

/// A pseudo-random index below `n`, drawn from the game's global generator with
/// `macroquad::rand::gen_range(0, n)`.
///
/// Trusted: `gen_range` (re-exported from `quad_rand`) computes
/// `low as f64 + (high as f64 - low as f64) * r` with `r = rand() / 2^32` in `[0, 1)` and
/// truncates it back to `usize`; with `low == 0` and `n > 0` the product stays below `n`, so
/// the result lies in `0..n`. Which value comes out depends on the generator's hidden state,
/// so nothing more is stated and two calls may differ.
#[verifier::external_body]
pub(crate) fn random_below(n: usize) -> (r: usize)
    requires
        n > 0,
    ensures
        r < n,
{
    macroquad::rand::gen_range(0, n)
}

} // verus!
