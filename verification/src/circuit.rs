//! The signature: wire types and primitive operations.

use vstd::prelude::*;

verus! {

/// A wire type: a bus carrying a fixed, positive number of bits.
/// Two wire types are equal exactly when their widths are equal.
#[derive(Clone, Copy, PartialEq, Eq, Structural, Debug)]
pub struct Obj {
    bus_width: usize,
}

impl Obj {
    /// The bit-width of the bus.
    pub closed spec fn width(self) -> usize {
        self.bus_width
    }

    /// The bit-width of the bus, as a value.
    pub fn bus_width(&self) -> (n: usize)
        ensures
            n == self.width(),
    {
        self.bus_width
    }

    /// Make the wire type of a bus of `n` bits; widths are positive.
    pub fn new(n: usize) -> (r: Self)
        requires
            1 <= n,
        ensures
            r.width() == n,
    {
        Obj { bus_width: n }
    }
}

/// Two wire types are equal exactly when their widths are equal.
pub proof fn lemma_obj_eq_iff_width(a: Obj, b: Obj)
    ensures
        a == b <==> a.width() == b.width(),
{
}

/// A generator: one of the primitive operations of the signature.
#[derive(Clone, Copy, PartialEq, Eq, Structural, Debug)]
pub enum Arr {
    Copy,
    Discard,
    Xor,
    F,
    And,
    T,
}

impl Arr {
    /// How many input wires the generator takes.
    pub open spec fn arity(self) -> nat {
        match self {
            Arr::Copy => 1,
            Arr::Discard => 1,
            Arr::Xor => 2,
            Arr::And => 2,
            Arr::T => 0,
            Arr::F => 0,
        }
    }

    /// How many output wires the generator yields.
    pub open spec fn coarity(self) -> nat {
        match self {
            Arr::Copy => 2,
            Arr::Discard => 0,
            Arr::Xor => 1,
            Arr::And => 1,
            Arr::T => 1,
            Arr::F => 1,
        }
    }

    /// The profile of the generator: its arity and coarity.
    pub fn profile(&self) -> (r: (usize, usize))
        ensures
            r.0 == self.arity(),
            r.1 == self.coarity(),
    {
        match self {
            Arr::Copy => (1, 2),
            Arr::Discard => (1, 0),
            Arr::Xor => (2, 1),
            Arr::And => (2, 1),
            Arr::T => (0, 1),
            Arr::F => (0, 1),
        }
    }
}

/// The conditions under which building or relabeling a diagram fails.
#[derive(Clone, Copy, PartialEq, Eq, Structural, Debug)]
pub enum CircuitError {
    /// Sequential composition was asked of diagrams whose boundaries disagree.
    TypeMismatch,
    /// A permutation's length does not match the entity being permuted.
    ShapeMismatch,
}

} // verus!
