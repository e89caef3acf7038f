//! Type-level numbers, used as the depth of an account tree.

use vstd::prelude::*;

verus! {

/// A number carried by a type.
pub trait Number {
    /// The number this type stands for.
    spec fn spec_val() -> nat;

    /// Returns the number this type stands for.
    fn val() -> (r: usize)
        ensures
            r == Self::spec_val(),
    ;
}

/// The number 2.
#[derive(Clone, Copy, Debug)]
pub struct U2;

/// The number 3.
#[derive(Clone, Copy, Debug)]
pub struct U3;

/// The number 4.
#[derive(Clone, Copy, Debug)]
pub struct U4;

/// The number 5.
#[derive(Clone, Copy, Debug)]
pub struct U5;

impl Number for U2 {
    open spec fn spec_val() -> nat {
        2
    }

    fn val() -> (r: usize) {
        2
    }
}

impl Number for U3 {
    open spec fn spec_val() -> nat {
        3
    }

    fn val() -> (r: usize) {
        3
    }
}

impl Number for U4 {
    open spec fn spec_val() -> nat {
        4
    }

    fn val() -> (r: usize) {
        4
    }
}

impl Number for U5 {
    open spec fn spec_val() -> nat {
        5
    }

    fn val() -> (r: usize) {
        5
    }
}

/// The number of `N` as a `u128`.
pub fn depth_u128<N: Number>() -> (r: u128)
    ensures
        r == N::spec_val(),
{
    N::val() as u128
}

/// The number of `N` as a `u32`; it must fit.
pub fn depth_u32<N: Number>() -> (r: u32)
    requires
        N::spec_val() <= u32::MAX,
    ensures
        r == N::spec_val(),
{
    N::val() as u32
}

} // verus!
