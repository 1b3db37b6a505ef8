//! Floating-point operations supplied by the caller.
//!
//! A value is the IEEE-754 single-precision bit pattern of a number. The
//! library never interprets such a pattern itself; it asks a pure function
//! of the caller, and states its results over the function's spec meaning.

use vstd::prelude::*;
use crate::random::{Chance, Draw};

verus! {

/// Bit pattern of positive zero.
pub const ZERO_BITS: u32 = 0;

/// Bit pattern of one.
pub const ONE_BITS: u32 = 0x3f80_0000;

/// Bit pattern of positive infinity.
pub const INFINITY_BITS: u32 = 0x7f80_0000;

/// A request for one floating-point operation on bit patterns.
#[derive(Clone, Copy, Debug, PartialEq, Eq, Structural)]
pub enum Arith {
    /// `a + b`.
    Add(u32, u32),
    /// `a * b`.
    Mul(u32, u32),
    /// `a` raised to the power `b`.
    Pow(u32, u32),
    /// The logarithm of `b` in base `a`, `ln(b) / ln(a)`.
    Log(u32, u32),
    /// `sin(a)`.
    Sin(u32),
    /// `a` rounded to the nearest integer, halves away from zero.
    Round(u32),
    /// `a` where it is finite, positive zero otherwise.
    Finite(u32),
    /// `a - b`.
    Sub(u32, u32),
    /// `|a|`.
    Abs(u32),
    /// The integer `n` as a floating-point number.
    Count(u32),
}

/// An integer whose order is the IEEE-754 total order of the values whose
/// bit patterns these are: a negative value has all its bits flipped, a
/// positive one its sign bit set.
pub open spec fn order_key_of(bits: u32) -> u32 {
    if bits & 0x8000_0000u32 != 0 {
        !bits
    } else {
        bits | 0x8000_0000u32
    }
}

/// The sort key of a bit pattern; see `order_key_of`.
pub fn order_key(bits: u32) -> (r: u32)
    ensures
        r == order_key_of(bits),
{
    if bits & 0x8000_0000u32 != 0 {
        !bits
    } else {
        bits | 0x8000_0000u32
    }
}

/// The floating-point operations and the random draws one evolutionary run
/// works with; `draw` and `chance` carry its hyperparameters.
pub struct Numerics<A, N, D, C> {
    /// Operations on bit patterns.
    pub ar: A,
    /// Whether two values are within machine epsilon of each other, relative
    /// to their size.
    pub near: N,
    /// Samples from the distributions of the hyperparameters.
    pub draw: D,
    /// Biased coins of the hyperparameters.
    pub chance: C,
}

impl<A: Fn(Arith) -> u32, N: Fn(u32, u32) -> bool, D: Fn(Draw) -> u32, C: Fn(Chance) -> bool> Numerics<A, N, D, C> {
    /// All four functions are pure.
    pub open spec fn ready(&self) -> bool {
        &&& pure_fn1(self.ar)
        &&& pure_fn2(self.near)
        &&& pure_fn1(self.draw)
        &&& pure_fn1(self.chance)
    }

    /// The meaning of `ar`.
    pub open spec fn arith(&self) -> spec_fn(Arith) -> u32 {
        meaning1(self.ar)
    }

    /// The meaning of `draw`.
    pub open spec fn draws(&self) -> spec_fn(Draw) -> u32 {
        meaning1(self.draw)
    }

    /// The meaning of `chance`.
    pub open spec fn coins(&self) -> spec_fn(Chance) -> bool {
        meaning1(self.chance)
    }

    /// The meaning of `near`.
    pub open spec fn nearness(&self) -> spec_fn(u32, u32) -> bool {
        meaning2(self.near)
    }
}

/// A function that can be called on every argument and gives one result for
/// each.
pub open spec fn pure_fn1<T, R, F: Fn(T) -> R>(f: F) -> bool {
    &&& forall|a: T| #[trigger] f.requires((a,))
    &&& forall|a: T, r1: R, r2: R|
        #![trigger f.ensures((a,), r1), f.ensures((a,), r2)]
        f.ensures((a,), r1) && f.ensures((a,), r2) ==> r1 == r2
}

/// A two-argument function that can be called on every pair and gives one
/// result for each.
pub open spec fn pure_fn2<T, U, R, F: Fn(T, U) -> R>(f: F) -> bool {
    &&& forall|a: T, b: U| #[trigger] f.requires((a, b))
    &&& forall|a: T, b: U, r1: R, r2: R|
        #![trigger f.ensures((a, b), r1), f.ensures((a, b), r2)]
        f.ensures((a, b), r1) && f.ensures((a, b), r2) ==> r1 == r2
}

/// The meaning of a pure one-argument function.
pub open spec fn meaning1<T, R, F: Fn(T) -> R>(f: F) -> spec_fn(T) -> R {
    |a: T| choose|r: R| f.ensures((a,), r)
}

/// The meaning of a pure two-argument function.
pub open spec fn meaning2<T, U, R, F: Fn(T, U) -> R>(f: F) -> spec_fn(T, U) -> R {
    |a: T, b: U| choose|r: R| f.ensures((a, b), r)
}

/// Calls a pure function; the result is its meaning on `a`.
pub(crate) fn call1<T, R, F: Fn(T) -> R>(f: &F, a: T) -> (r: R)
    requires
        pure_fn1(*f),
    ensures
        r == meaning1(*f)(a),
{
    let ghost g = a;
    let r = f(a);
    assert(f.ensures((g,), r));
    r
}

/// Calls a pure two-argument function; the result is its meaning on `(a, b)`.
pub(crate) fn call2<T, U, R, F: Fn(T, U) -> R>(f: &F, a: T, b: U) -> (r: R)
    requires
        pure_fn2(*f),
    ensures
        r == meaning2(*f)(a, b),
{
    let ghost ga = a;
    let ghost gb = b;
    let r = f(a, b);
    assert(f.ensures((ga, gb), r));
    r
}

} // verus!
