//! Slots of charge and arrays of them.
//!
//! A slot holds an optional amount of charge and can be held by one caller at
//! a time. Acquiring never waits: a slot that is already held answers with
//! [`Contention`], and the caller decides where to go instead.

use vstd::prelude::*;

verus! {

/// One cell of charge.
///
/// `charge` is `None` while the slot has never been charged. `held` is `true`
/// while some caller has exclusive access to the slot.
#[derive(Clone, Copy, Debug, PartialEq, Eq)]
pub struct Slot<T> {
    pub charge: Option<T>,
    pub held: bool,
}

/// The answer of a slot that another caller holds.
#[derive(Clone, Copy, Debug, PartialEq, Eq)]
pub struct Contention;

/// An ordered array of slots.
pub type StaticCharge<T> = Vec<Slot<T>>;

impl<T> Slot<T> {
    /// A slot that nobody holds, with the given charge.
    pub fn new(charge: Option<T>) -> (slot: Self)
        ensures
            slot.charge == charge,
            !slot.held,
    {
        Slot { charge, held: false }
    }

    /// Takes exclusive access to the slot, or reports that another caller has it.
    ///
    /// The charge is left as it is either way.
    pub fn try_acquire(&mut self) -> (outcome: Result<(), Contention>)
        ensures
            outcome is Err <==> old(self).held,
            final(self).held,
            final(self).charge == old(self).charge,
    {
        if self.held {
            Err(Contention)
        } else {
            self.held = true;
            Ok(())
        }
    }

    /// Gives exclusive access back.
    pub fn release(&mut self)
        ensures
            !final(self).held,
            final(self).charge == old(self).charge,
    {
        self.held = false;
    }
}

/// The sum of a sequence of amounts.
pub open spec fn sum(amounts: Seq<nat>) -> nat
    decreases amounts.len(),
{
    if amounts.len() == 0 {
        0
    } else {
        sum(amounts.drop_last()) + amounts.last()
    }
}

/// What a slot of the small tier holds: its charge, or nothing while it is absent.
pub open spec fn amount_u8(slot: Slot<u8>) -> nat {
    match slot.charge {
        Some(c) => c as nat,
        None => 0,
    }
}

/// What a slot of the ambient tier holds: its charge, or nothing while it is absent.
pub open spec fn amount_u64(slot: Slot<u64>) -> nat {
    match slot.charge {
        Some(c) => c as nat,
        None => 0,
    }
}

/// The total charge of an array of the small tier: the sum of its present slots.
pub open spec fn total_u8(slots: Seq<Slot<u8>>) -> nat {
    sum(slots.map_values(|slot: Slot<u8>| amount_u8(slot)))
}

/// The total charge of an array of the ambient tier: the sum of its present slots.
pub open spec fn total_u64(slots: Seq<Slot<u64>>) -> nat {
    sum(slots.map_values(|slot: Slot<u64>| amount_u64(slot)))
}

/// A total as a `u64`: exact while it fits, the largest `u64` above that.
pub open spec fn saturated(total: nat) -> u64 {
    if total > u64::MAX {
        u64::MAX
    } else {
        total as u64
    }
}

/// Replacing an amount changes the sum by the difference.
pub proof fn lemma_sum_update(amounts: Seq<nat>, index: int, amount: nat)
    requires
        0 <= index < amounts.len(),
    ensures
        sum(amounts.update(index, amount)) + amounts[index] == sum(amounts) + amount,
    decreases amounts.len(),
{
    let updated = amounts.update(index, amount);
    if index == amounts.len() - 1 {
        assert(updated.drop_last() =~= amounts.drop_last());
    } else {
        lemma_sum_update(amounts.drop_last(), index, amount);
        assert(updated.drop_last() =~= amounts.drop_last().update(index, amount));
    }
}

/// The sum of `count` equal amounts is their product.
pub proof fn lemma_sum_uniform(amounts: Seq<nat>, amount: nat)
    requires
        forall|i: int| 0 <= i < amounts.len() ==> amounts[i] == amount,
    ensures
        sum(amounts) == amounts.len() * amount,
    decreases amounts.len(),
{
    if amounts.len() > 0 {
        lemma_sum_uniform(amounts.drop_last(), amount);
        assert(amounts.len() * amount == (amounts.len() - 1) * amount + amount)
            by (nonlinear_arith);
    }
}

/// Replacing a slot of an array of the small tier changes the total by the difference.
pub proof fn lemma_total_u8_update(slots: Seq<Slot<u8>>, index: int, slot: Slot<u8>)
    requires
        0 <= index < slots.len(),
    ensures
        total_u8(slots.update(index, slot)) + amount_u8(slots[index]) == total_u8(slots)
            + amount_u8(slot),
{
    let amounts = slots.map_values(|s: Slot<u8>| amount_u8(s));
    assert(slots.update(index, slot).map_values(|s: Slot<u8>| amount_u8(s)) =~= amounts.update(
        index,
        amount_u8(slot),
    ));
    lemma_sum_update(amounts, index, amount_u8(slot));
}

/// Replacing a slot of an array of the ambient tier changes the total by the difference.
pub proof fn lemma_total_u64_update(slots: Seq<Slot<u64>>, index: int, slot: Slot<u64>)
    requires
        0 <= index < slots.len(),
    ensures
        total_u64(slots.update(index, slot)) + amount_u64(slots[index]) == total_u64(slots)
            + amount_u64(slot),
{
    let amounts = slots.map_values(|s: Slot<u64>| amount_u64(s));
    assert(slots.update(index, slot).map_values(|s: Slot<u64>| amount_u64(s)) =~= amounts.update(
        index,
        amount_u64(slot),
    ));
    lemma_sum_update(amounts, index, amount_u64(slot));
}

/// The total charge of an array of the small tier, saturated to a `u64`.
pub fn charge_status_u8(slots: &Vec<Slot<u8>>) -> (status: u64)
    ensures
        status == saturated(total_u8(slots@)),
{
    let ghost amounts = slots@.map_values(|s: Slot<u8>| amount_u8(s));
    let mut status: u64 = 0;
    let mut i: usize = 0;
    while i < slots.len()
        invariant
            i <= slots.len(),
            amounts == slots@.map_values(|s: Slot<u8>| amount_u8(s)),
            status == saturated(sum(amounts.take(i as int))),
        decreases slots.len() - i,
    {
        proof {
            assert(amounts.take(i + 1).drop_last() =~= amounts.take(i as int));
        }
        if let Some(c) = slots[i].charge {
            status = status.saturating_add(c as u64);
        }
        i += 1;
    }
    proof {
        assert(amounts.take(i as int) =~= amounts);
    }
    status
}

/// The total charge of an array of the ambient tier, saturated to a `u64`.
pub fn charge_status_u64(slots: &Vec<Slot<u64>>) -> (status: u64)
    ensures
        status == saturated(total_u64(slots@)),
{
    let ghost amounts = slots@.map_values(|s: Slot<u64>| amount_u64(s));
    let mut status: u64 = 0;
    let mut i: usize = 0;
    while i < slots.len()
        invariant
            i <= slots.len(),
            amounts == slots@.map_values(|s: Slot<u64>| amount_u64(s)),
            status == saturated(sum(amounts.take(i as int))),
        decreases slots.len() - i,
    {
        proof {
            assert(amounts.take(i + 1).drop_last() =~= amounts.take(i as int));
        }
        if let Some(c) = slots[i].charge {
            status = status.saturating_add(c);
        }
        i += 1;
    }
    proof {
        assert(amounts.take(i as int) =~= amounts);
    }
    status
}

} // verus!
