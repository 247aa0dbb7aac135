//! Amounts held to a limit.

use vstd::prelude::*;

verus! {

/// `value`, or `limit` where `value` is above it.
pub open spec fn capped(value: int, limit: int) -> int {
    if value > limit {
        limit
    } else {
        value
    }
}

/// A byte held to a limit: `value`, or `limit` where `value` is above it.
pub fn capped_u8(value: u8, limit: u8) -> (held_to: u8)
    ensures
        held_to == (if value > limit {
            limit
        } else {
            value
        }),
{
    num_traits::clamp_max(value, limit)
}

/// A `u64` held to a limit: `value`, or `limit` where `value` is above it.
pub fn capped_u64(value: u64, limit: u64) -> (held_to: u64)
    ensures
        held_to == (if value > limit {
            limit
        } else {
            value
        }),
{
    num_traits::clamp_max(value, limit)
}

} // verus!
