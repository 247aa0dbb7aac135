//! What carries charge reports how much.

use crate::static_charge::saturated;
use vstd::prelude::*;

verus! {

/// Something that stores charge.
pub trait ElectricallyCharged {
    /// The charge stored, as a mathematical total.
    spec fn stored_charge(&self) -> nat;

    /// The charge stored: exact while it fits a `u64`, the largest `u64` above that.
    fn charge_status(&self) -> (status: u64)
        ensures
            status == saturated(self.stored_charge()),
    ;
}

} // verus!
