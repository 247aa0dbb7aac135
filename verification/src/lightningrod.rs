//! The lightning rod: a pole of slots that takes strikes, and the exhaust it
//! drains into when a slot saturates.

use crate::electrically_charged::ElectricallyCharged;
use crate::static_charge::{charge_status_u8, total_u8, Slot, StaticCharge};
use vstd::arithmetic::div_mod::{lemma_mod_bound, lemma_mod_self_0, lemma_small_mod};
use vstd::prelude::*;

verus! {

/// The number of slots on the pole of a new rod.
pub const POLE_SLOTS: usize = 100;

/// The charge at which a pole slot saturates.
pub const SATURATION: u8 = 255;

/// The number of slots one strike may try before it gives up.
pub const STRIKE_ATTEMPTS: usize = 256;

/// A rod with its pole and the exhaust that it drains into.
///
/// A rod that stands alone owns its exhaust. A rod that serves a catcher is
/// lent the catcher's collector for the length of each strike.
#[derive(Clone, Debug)]
pub struct LightningRod {
    pub static_charge_exhaust: StaticCharge<u8>,
    pub pole: StaticCharge<u8>,
}

/// What a rod is, as sequences of slots.
pub struct RodState {
    pub exhaust: Seq<Slot<u8>>,
    pub pole: Seq<Slot<u8>>,
}

/// A rod after a strike, with the number of strikes that the attempts did not reach.
pub struct Settled {
    pub rod: RodState,
    pub pending: nat,
}

/// A strike ran out of attempts while `pending` strikes of its charge were still owed.
#[derive(Clone, Copy, Debug, PartialEq, Eq)]
pub struct Stalled {
    pub pending: usize,
}

impl View for LightningRod {
    type V = RodState;

    open spec fn view(&self) -> RodState {
        RodState { exhaust: self.static_charge_exhaust@, pole: self.pole@ }
    }
}

/// A pole slot that was never charged and that nobody holds.
pub open spec fn vacant() -> Slot<u8> {
    Slot { charge: None, held: false }
}

/// A new rod over the given exhaust: every pole slot is vacant.
pub open spec fn fresh_rod(exhaust: Seq<Slot<u8>>) -> RodState {
    RodState { exhaust, pole: Seq::new(POLE_SLOTS as nat, |i: int| vacant()) }
}

/// Whether adding `amount` to a slot at `current` reaches the saturation charge.
pub open spec fn saturates(current: u8, amount: u8) -> bool {
    current + amount >= SATURATION
}

/// The charge of a slot after a strike of `amount` has landed on it.
///
/// An absent slot takes the amount. A present slot adds it while the sum stays
/// below saturation, and falls to zero otherwise.
pub open spec fn struck(charge: Option<u8>, amount: u8) -> Option<u8> {
    match charge {
        None => Some(amount),
        Some(current) => if saturates(current, amount) {
            Some(0u8)
        } else {
            Some((current + amount) as u8)
        },
    }
}

/// What a strike of `amount` drains out of a slot: the amount itself where the
/// slot saturates, nothing otherwise.
pub open spec fn drained(charge: Option<u8>, amount: u8) -> Option<u8> {
    match charge {
        None => None,
        Some(current) => if saturates(current, amount) {
            Some(amount)
        } else {
            None
        },
    }
}

/// The slot to try after `index` was found held: the next one, wrapping at the end.
pub open spec fn retry_index(index: int, len: int) -> int {
    (index + 1) % len
}

/// The slot opposite to `retry`, counted from the other end of the pole.
pub open spec fn mirror_index(retry: int, len: int) -> int {
    len - 1 - retry
}

/// The rod after a strike of `amount` has landed on slot `index`.
pub open spec fn landed(rod: RodState, index: int, amount: u8) -> RodState {
    let slot = rod.pole[index];
    RodState {
        exhaust: match drained(slot.charge, amount) {
            Some(overflow) => rod.exhaust.push(Slot { charge: Some(overflow), held: false }),
            None => rod.exhaust,
        },
        pole: rod.pole.update(index, Slot { charge: struck(slot.charge, amount), held: slot.held }),
    }
}

/// Works off the strikes in `pending`, last first, with `attempts` slots to try.
///
/// A strike on a slot that nobody holds lands there. A strike on a held slot
/// is owed twice instead: to the retry slot first, then to its mirror.
pub open spec fn settle(rod: RodState, pending: Seq<int>, amount: u8, attempts: nat) -> Settled
    decreases attempts,
{
    if pending.len() == 0 || attempts == 0 {
        Settled { rod, pending: pending.len() }
    } else {
        let index = pending.last();
        let rest = pending.drop_last();
        if rod.pole[index].held {
            let retry = retry_index(index, rod.pole.len() as int);
            let mirror = mirror_index(retry, rod.pole.len() as int);
            settle(rod, rest.push(mirror).push(retry), amount, (attempts - 1) as nat)
        } else {
            settle(landed(rod, index, amount), rest, amount, (attempts - 1) as nat)
        }
    }
}

/// The rod after `strike(index, amount)`.
pub open spec fn strike_spec(rod: RodState, index: int, amount: u8) -> Settled {
    settle(rod, seq![index], amount, STRIKE_ATTEMPTS as nat)
}

/// The indices in `pending`, as integers.
pub open spec fn as_ints(pending: Seq<usize>) -> Seq<int> {
    pending.map_values(|index: usize| index as int)
}

/// Lands a strike of `amount` on a slot's charge: what the slot holds
/// afterwards, and what drained out of it.
pub fn strike_charge(charge: Option<u8>, amount: u8) -> (outcome: (Option<u8>, Option<u8>))
    ensures
        outcome.0 == struck(charge, amount),
        outcome.1 == drained(charge, amount),
        charge is None ==> outcome == (Some(amount), None::<u8>),
        charge matches Some(current) ==> (current + amount < SATURATION ==> outcome == (
            Some((current + amount) as u8),
            None::<u8>,
        )),
        charge matches Some(current) ==> (current + amount >= SATURATION ==> outcome == (
            Some(0u8),
            Some(amount),
        )),
{
    match charge {
        None => (Some(amount), None),
        Some(current) => {
            if amount >= SATURATION - current {
                (Some(0), Some(amount))
            } else {
                (Some(current + amount), None)
            }
        },
    }
}

/// The slot to try after slot `index` of a pole of `len` slots was found held.
pub fn next_index(index: usize, len: usize) -> (retry: usize)
    requires
        index < len,
    ensures
        retry == retry_index(index as int, len as int),
        retry < len,
{
    if index + 1 >= len {
        proof {
            lemma_mod_self_0(len as int);
        }
        0
    } else {
        proof {
            lemma_small_mod((index + 1) as nat, len as nat);
        }
        index + 1
    }
}

/// The slot opposite to slot `retry` of a pole of `len` slots.
pub fn opposite_index(retry: usize, len: usize) -> (mirror: usize)
    requires
        retry < len,
    ensures
        mirror == mirror_index(retry as int, len as int),
        mirror < len,
{
    len - 1 - retry
}

/// Whether `shorter` is the beginning of `longer`.
pub open spec fn begins_with(longer: Seq<Slot<u8>>, shorter: Seq<Slot<u8>>) -> bool {
    shorter.len() <= longer.len() && longer.take(shorter.len() as int) == shorter
}

/// A strike keeps the pole's length and who holds which slot, and only ever
/// appends to the exhaust.
pub proof fn lemma_settle_shape(rod: RodState, pending: Seq<int>, amount: u8, attempts: nat)
    requires
        forall|k: int| 0 <= k < pending.len() ==> 0 <= #[trigger] pending[k] < rod.pole.len(),
    ensures
        settle(rod, pending, amount, attempts).rod.pole.len() == rod.pole.len(),
        forall|i: int|
            0 <= i < rod.pole.len() ==> #[trigger] settle(
                rod,
                pending,
                amount,
                attempts,
            ).rod.pole[i].held == rod.pole[i].held,
        begins_with(settle(rod, pending, amount, attempts).rod.exhaust, rod.exhaust),
    decreases attempts,
{
    if pending.len() == 0 || attempts == 0 {
        assert(rod.exhaust.take(rod.exhaust.len() as int) =~= rod.exhaust);
    } else {
        let index = pending.last();
        let rest = pending.drop_last();
        let len = rod.pole.len() as int;
        if rod.pole[index].held {
            let retry = retry_index(index, len);
            let mirror = mirror_index(retry, len);
            lemma_mod_bound(index + 1, len);
            lemma_settle_shape(rod, rest.push(mirror).push(retry), amount, (attempts - 1) as nat);
        } else {
            let next = landed(rod, index, amount);
            lemma_settle_shape(next, rest, amount, (attempts - 1) as nat);
            let last = settle(next, rest, amount, (attempts - 1) as nat).rod;
            assert(last.exhaust.take(rod.exhaust.len() as int) =~= last.exhaust.take(
                next.exhaust.len() as int,
            ).take(rod.exhaust.len() as int));
            assert(next.exhaust.take(rod.exhaust.len() as int) =~= rod.exhaust);
        }
    }
}

/// A strike on a slot that nobody holds lands there, and nowhere else.
pub proof fn lemma_strike_lands(rod: RodState, index: int, amount: u8)
    requires
        0 <= index < rod.pole.len(),
        !rod.pole[index].held,
    ensures
        strike_spec(rod, index, amount) == (Settled {
            rod: landed(rod, index, amount),
            pending: 0,
        }),
{
    reveal_with_fuel(settle, 2);
    assert(seq![index].drop_last() =~= Seq::<int>::empty());
}

/// A strike on an absent slot that nobody holds leaves the amount there,
/// whatever the amount, and changes nothing else.
pub proof fn lemma_strike_absent(rod: RodState, index: int, amount: u8)
    requires
        0 <= index < rod.pole.len(),
        !rod.pole[index].held,
        rod.pole[index].charge is None,
    ensures
        strike_spec(rod, index, amount).pending == 0,
        strike_spec(rod, index, amount).rod.pole == rod.pole.update(
            index,
            Slot { charge: Some(amount), held: false },
        ),
        strike_spec(rod, index, amount).rod.exhaust == rod.exhaust,
{
    lemma_strike_lands(rod, index, amount);
}

/// A strike on a present slot that nobody holds, with room left below
/// saturation, adds the amount there and appends nothing to the exhaust.
pub proof fn lemma_strike_with_headroom(rod: RodState, index: int, current: u8, amount: u8)
    requires
        0 <= index < rod.pole.len(),
        !rod.pole[index].held,
        rod.pole[index].charge == Some(current),
        current + amount < SATURATION,
    ensures
        strike_spec(rod, index, amount).pending == 0,
        strike_spec(rod, index, amount).rod.pole == rod.pole.update(
            index,
            Slot { charge: Some((current + amount) as u8), held: false },
        ),
        strike_spec(rod, index, amount).rod.exhaust == rod.exhaust,
{
    lemma_strike_lands(rod, index, amount);
}

/// A strike on a present slot that nobody holds, which reaches saturation,
/// resets the slot to zero and appends exactly one slot to the exhaust: the
/// amount of the strike, not the sum.
pub proof fn lemma_strike_saturating(rod: RodState, index: int, current: u8, amount: u8)
    requires
        0 <= index < rod.pole.len(),
        !rod.pole[index].held,
        rod.pole[index].charge == Some(current),
        current + amount >= SATURATION,
    ensures
        strike_spec(rod, index, amount).pending == 0,
        strike_spec(rod, index, amount).rod.pole == rod.pole.update(
            index,
            Slot { charge: Some(0u8), held: false },
        ),
        strike_spec(rod, index, amount).rod.exhaust == rod.exhaust.push(
            Slot { charge: Some(amount), held: false },
        ),
{
    lemma_strike_lands(rod, index, amount);
}

/// A strike on a held slot lands twice instead, where nobody holds the retry
/// slot and its mirror: first on the retry slot, then on the mirror.
pub proof fn lemma_strike_contended(rod: RodState, index: int, amount: u8)
    requires
        0 <= index < rod.pole.len(),
        rod.pole[index].held,
        !rod.pole[retry_index(index, rod.pole.len() as int)].held,
        !rod.pole[mirror_index(retry_index(index, rod.pole.len() as int), rod.pole.len() as int)].held,
    ensures
        strike_spec(rod, index, amount).pending == 0,
        strike_spec(rod, index, amount).rod == landed(
            landed(rod, retry_index(index, rod.pole.len() as int), amount),
            mirror_index(retry_index(index, rod.pole.len() as int), rod.pole.len() as int),
            amount,
        ),
{
    let len = rod.pole.len() as int;
    let retry = retry_index(index, len);
    let mirror = mirror_index(retry, len);
    lemma_mod_bound(index + 1, len);
    reveal_with_fuel(settle, 4);
    let rest = seq![index].drop_last();
    assert(rest =~= Seq::<int>::empty());
    let owed = rest.push(mirror).push(retry);
    assert(owed.last() == retry);
    assert(owed.drop_last() =~= seq![mirror]);
    assert(seq![mirror].drop_last() =~= Seq::<int>::empty());
}

impl LightningRod {
    /// A rod of `POLE_SLOTS` vacant slots that drains into `exhaust_handle`.
    pub fn new(exhaust_handle: StaticCharge<u8>) -> (rod: LightningRod)
        ensures
            rod@ == fresh_rod(exhaust_handle@),
    {
        let mut pole: Vec<Slot<u8>> = Vec::with_capacity(POLE_SLOTS);
        let mut i: usize = 0;
        while i < POLE_SLOTS
            invariant
                i <= POLE_SLOTS,
                pole.len() == i,
                forall|k: int| 0 <= k < i ==> pole[k] == vacant(),
            decreases POLE_SLOTS - i,
        {
            pole.push(Slot::new(None));
            i += 1;
        }
        let rod = LightningRod { static_charge_exhaust: exhaust_handle, pole };
        assert(rod@.pole =~= fresh_rod(exhaust_handle@).pole);
        rod
    }

    /// Strikes slot `index` of the pole with `charge`.
    ///
    /// Where nobody holds the slot the charge lands on it: an absent slot
    /// takes it, a present slot adds it, and a slot that would reach
    /// `SATURATION` falls to zero and drains the charge, as one new slot, into
    /// the exhaust. Where the slot is held the strike does not wait: the same
    /// charge is owed to the next slot and to that slot's mirror. At most
    /// `STRIKE_ATTEMPTS` slots are tried; strikes still owed after that are
    /// dropped and counted in the error.
    pub fn strike(&mut self, index: usize, charge: u8) -> (outcome: Result<(), Stalled>)
        requires
            index < old(self).pole.len(),
        ensures
            final(self)@ == strike_spec(old(self)@, index as int, charge).rod,
            outcome is Ok <==> strike_spec(old(self)@, index as int, charge).pending == 0,
            !old(self).pole[index as int].held ==> outcome is Ok && final(self)@ == landed(
                old(self)@,
                index as int,
                charge,
            ),
            outcome matches Err(stalled) ==> stalled.pending == strike_spec(
                old(self)@,
                index as int,
                charge,
            ).pending,
    {
        let len: usize = self.pole.len();
        let mut pending: Vec<usize> = Vec::new();
        pending.push(index);
        let mut attempts: usize = STRIKE_ATTEMPTS;
        proof {
            assert(as_ints(pending@) =~= seq![index as int]);
            if !self.pole[index as int].held {
                lemma_strike_lands(self@, index as int, charge);
            }
        }
        while attempts > 0 && pending.len() > 0
            invariant
                self.pole.len() == len,
                len == old(self).pole.len(),
                pending.len() + attempts <= STRIKE_ATTEMPTS + 1,
                forall|k: int| 0 <= k < pending.len() ==> pending[k] < len,
                settle(self@, as_ints(pending@), charge, attempts as nat) == strike_spec(
                    old(self)@,
                    index as int,
                    charge,
                ),
            decreases attempts,
        {
            let ghost before = self@;
            let ghost owed = as_ints(pending@);
            let target: usize = pending.pop().unwrap();
            proof {
                assert(as_ints(pending@) =~= owed.drop_last());
                assert(owed.last() == target as int);
            }
            match self.pole[target].try_acquire() {
                Ok(()) => {
                    let (after, overflow) = strike_charge(self.pole[target].charge, charge);
                    self.pole[target].charge = after;
                    self.pole[target].release();
                    if let Some(amount) = overflow {
                        self.static_charge_exhaust.push(Slot::new(Some(amount)));
                    }
                    proof {
                        assert(self@.pole =~= landed(before, target as int, charge).pole);
                        assert(self@.exhaust =~= landed(before, target as int, charge).exhaust);
                    }
                },
                Err(_) => {
                    let retry: usize = next_index(target, len);
                    let mirror: usize = opposite_index(retry, len);
                    pending.push(mirror);
                    pending.push(retry);
                    proof {
                        assert(self@.pole =~= before.pole);
                        assert(as_ints(pending@) =~= owed.drop_last().push(mirror as int).push(
                            retry as int,
                        ));
                    }
                },
            }
            attempts -= 1;
        }
        if pending.len() == 0 {
            Ok(())
        } else {
            Err(Stalled { pending: pending.len() })
        }
    }
}

impl Default for LightningRod {
    /// A rod with an exhaust of its own, empty at first.
    fn default() -> (rod: LightningRod)
        ensures
            rod@ == fresh_rod(Seq::empty()),
    {
        LightningRod::new(Vec::new())
    }
}

impl ElectricallyCharged for LightningRod {
    /// The charge on the pole.
    open spec fn stored_charge(&self) -> nat {
        total_u8(self.pole@)
    }

    fn charge_status(&self) -> (status: u64) {
        charge_status_u8(&self.pole)
    }
}

} // verus!
