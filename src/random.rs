//! Random draws. Integer draws come from rand's seedable generator; draws
//! from the continuous distributions that the hyperparameters define, and the
//! biased coins they set, are made by the caller from a uniform word.

use vstd::prelude::*;
use rand::rngs::StdRng;

verus! {

#[verifier::external_type_specification]
#[verifier::external_body]
pub struct ExStdRng(StdRng);

/// Relies on rand's `Rng::gen_range`: a value drawn uniformly from `0..n`
/// (it panics on an empty range, which `requires` leaves out).
#[verifier::external_body]
pub(crate) fn gen_index(rng: &mut StdRng, n: usize) -> (r: usize)
    requires
        n > 0,
    ensures
        r < n,
{
    rand::Rng::gen_range(rng, 0..n)
}

/// Relies on rand's `RngCore::next_u32`: a uniformly random word.
#[verifier::external_body]
pub(crate) fn gen_word(rng: &mut StdRng) -> (r: u32) {
    rand::RngCore::next_u32(rng)
}

/// A sample from one of the distributions that the hyperparameters define,
/// made from a uniform random word. Each result is a bit pattern, or a count.
#[derive(Clone, Copy, Debug, PartialEq, Eq, Structural)]
pub enum Draw {
    /// A new constant: Normal(`new_const_mean`, `new_const_std`).
    NewConst(u32),
    /// The constant `c` jittered: `c` plus a sample of
    /// Normal(0, max(|c|, 0.0001) / `const_jitter_factor`).
    Jitter(u32, u32),
    /// The size of a fresh tree: Geometric(`new_random_expression_prob`).
    NewSize(u32),
    /// The size of a tree that replaces a subtree of size `s`:
    /// Geometric(1 / (`s` + 1)).
    ReplaceSize(u32, u32),
}

/// A biased coin that the hyperparameters define, thrown with a uniform
/// random word; `true` is heads.
#[derive(Clone, Copy, Debug, PartialEq, Eq, Structural)]
pub enum Chance {
    /// With probability `const_mutation_prob`.
    ConstMutation(u32),
    /// With probability `binary_switch_prob`.
    BinarySwitch(u32),
    /// With probability `mutate_replace_rate ^ -s` for a subtree of size `s`.
    Replace(u32, u32),
    /// With probability `repeated_mutation_rate ^ -i` for the parent of rank `i`.
    RepeatMutation(u32, u32),
    /// With probability `random_expression_insert_rate ^ -i` for rank `i`.
    Insert(u32, u32),
}

} // verus!
