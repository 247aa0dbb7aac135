//! Chance and clamping, as the `rand` and `num_traits` crates provide them.
//!
//! Nothing in this file is proved: each item states what the outside function
//! is taken to do.

use core::cmp::Ordering;
use vstd::prelude::*;
use vstd::std_specs::cmp::PartialEqSpec;
use vstd::std_specs::cmp::PartialOrdSpec;

verus! {

/// `num_traits::clamp_max` returns `max` where `input` is greater than `max`,
/// and `input` otherwise.
///
/// In debug builds it first asserts that `max` equals itself, so only such a
/// `max` is admitted.
pub assume_specification<T: PartialOrd>[ num_traits::clamp_max::<T> ](input: T, max: T) -> (clamped:
    T)
    requires
        T::obeys_eq_spec(),
        max.eq_spec(&max),
    ensures
        T::obeys_partial_cmp_spec() ==> clamped == (if input.partial_cmp_spec(&max) == Some(
            Ordering::Greater,
        ) {
            max
        } else {
            input
        }),
;

/// A byte from `rand::random`. Every byte can come back, so nothing is promised of it.
#[verifier::external_body]
pub(crate) fn random_u8() -> (drawn: u8) {
    rand::random::<u8>()
}

/// A `u64` from `rand::random`. Every value can come back, so nothing is promised of it.
#[verifier::external_body]
pub(crate) fn random_u64() -> (drawn: u64) {
    rand::random::<u64>()
}

/// A `usize` from `rand::random`. Every value can come back, so nothing is promised of it.
#[verifier::external_body]
pub(crate) fn random_usize() -> (drawn: usize) {
    rand::random::<usize>()
}

} // verus!
