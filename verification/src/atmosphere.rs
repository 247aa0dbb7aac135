//! The atmosphere that holds the ambient charge, and the catcher that draws it
//! into its rods and disperses what they drained back into the atmosphere.

use crate::chance::{random_u64, random_u8, random_usize};
use crate::electrically_charged::ElectricallyCharged;
use crate::lightningrod::{
    begins_with, fresh_rod, lemma_settle_shape, strike_spec, LightningRod, RodState,
    STRIKE_ATTEMPTS,
};
use crate::limits::{capped, capped_u64, capped_u8};
use crate::static_charge::{
    amount_u64, amount_u8, charge_status_u64, charge_status_u8, lemma_sum_uniform,
    lemma_total_u64_update, lemma_total_u8_update, saturated, total_u64, total_u8, Slot,
    StaticCharge,
};
use vstd::arithmetic::div_mod::lemma_mod_bound;
use vstd::prelude::*;

verus! {

/// The number of slots in the collector of a new catcher.
pub const COLLECTOR_SLOTS: usize = 100;

/// The most that one draw takes out of the atmosphere: two below the largest
/// charge of a pole slot.
pub const DRAW_LIMIT: u8 = 253;

/// The ambient pool of charge.
#[derive(Debug)]
pub struct Atmosphere {
    pub charge: StaticCharge<u64>,
}

impl View for Atmosphere {
    type V = Seq<Slot<u64>>;

    open spec fn view(&self) -> Seq<Slot<u64>> {
        self.charge@
    }
}

/// An atmosphere of `slots` slots that nobody holds, each charged with `charge`.
pub open spec fn fresh_field(slots: nat, charge: u64) -> Seq<Slot<u64>> {
    Seq::new(slots, |i: int| Slot { charge: Some(charge), held: false })
}

/// A new atmosphere holds `slots` times `charge` in all.
pub proof fn lemma_fresh_field_total(slots: nat, charge: u64)
    ensures
        total_u64(fresh_field(slots, charge)) == slots * charge,
{
    let amounts = fresh_field(slots, charge).map_values(|s: Slot<u64>| amount_u64(s));
    lemma_sum_uniform(amounts, charge as nat);
}

impl Atmosphere {
    /// An atmosphere of `slots` slots, each charged with `charge`.
    pub fn new(slots: usize, charge: u64) -> (atmosphere: Atmosphere)
        ensures
            atmosphere@ == fresh_field(slots as nat, charge),
            total_u64(atmosphere@) == slots * charge,
    {
        let mut field: Vec<Slot<u64>> = Vec::with_capacity(slots);
        let mut i: usize = 0;
        while i < slots
            invariant
                i <= slots,
                field.len() == i,
                forall|k: int| 0 <= k < i ==> field[k] == (Slot { charge: Some(charge), held: false }),
            decreases slots - i,
        {
            field.push(Slot::new(Some(charge)));
            i += 1;
        }
        proof {
            assert(field@ =~= fresh_field(slots as nat, charge));
            lemma_fresh_field_total(slots as nat, charge);
        }
        Atmosphere { charge: field }
    }
}

impl Default for Atmosphere {
    /// Ten thousand slots of one hundred thousand each.
    fn default() -> (atmosphere: Atmosphere)
        ensures
            atmosphere@ == fresh_field(10000, 100000),
    {
        Atmosphere::new(10000, 100000)
    }
}

impl ElectricallyCharged for Atmosphere {
    /// The sum of the present slots.
    open spec fn stored_charge(&self) -> nat {
        total_u64(self@)
    }

    fn charge_status(&self) -> (status: u64) {
        charge_status_u64(&self.charge)
    }
}

/// The catcher: its rods, the collector that they drain into, and the
/// atmosphere that they draw from.
#[derive(Debug)]
pub struct ThunderboltCatcher {
    pub charge_collector: StaticCharge<u8>,
    pub rods: Vec<LightningRod>,
    pub atmosphere: Atmosphere,
}

/// What a catcher is, as sequences of slots.
pub struct CatcherState {
    pub collector: Seq<Slot<u8>>,
    pub rods: Seq<RodState>,
    pub field: Seq<Slot<u64>>,
}

impl View for ThunderboltCatcher {
    type V = CatcherState;

    open spec fn view(&self) -> CatcherState {
        CatcherState {
            collector: self.charge_collector@,
            rods: self.rods@.map_values(|rod: LightningRod| rod@),
            field: self.atmosphere@,
        }
    }
}

/// A new catcher: `poles` fresh rods, a collector of `COLLECTOR_SLOTS` vacant
/// slots, and a fresh atmosphere.
pub open spec fn fresh_catcher(poles: nat, slots: nat, charge: u64) -> CatcherState {
    CatcherState {
        collector: Seq::new(COLLECTOR_SLOTS as nat, |i: int| Slot { charge: None, held: false }),
        rods: Seq::new(poles, |i: int| fresh_rod(Seq::empty())),
        field: fresh_field(slots, charge),
    }
}

impl ThunderboltCatcher {
    /// A catcher of `poles` rods over an atmosphere of `slots` slots, each
    /// charged with `charge`.
    pub fn new(poles: usize, slots: usize, charge: u64) -> (catcher: ThunderboltCatcher)
        ensures
            catcher@ == fresh_catcher(poles as nat, slots as nat, charge),
    {
        let mut collector: Vec<Slot<u8>> = Vec::with_capacity(COLLECTOR_SLOTS);
        let mut i: usize = 0;
        while i < COLLECTOR_SLOTS
            invariant
                i <= COLLECTOR_SLOTS,
                collector.len() == i,
                forall|k: int| 0 <= k < i ==> collector[k] == (Slot::<u8> { charge: None, held: false }),
            decreases COLLECTOR_SLOTS - i,
        {
            collector.push(Slot::new(None));
            i += 1;
        }
        let mut rods: Vec<LightningRod> = Vec::with_capacity(poles);
        let mut j: usize = 0;
        while j < poles
            invariant
                j <= poles,
                rods.len() == j,
                forall|k: int| 0 <= k < j ==> rods[k]@ == fresh_rod(Seq::empty()),
            decreases poles - j,
        {
            rods.push(LightningRod::new(Vec::new()));
            j += 1;
        }
        let catcher = ThunderboltCatcher {
            charge_collector: collector,
            rods,
            atmosphere: Atmosphere::new(slots, charge),
        };
        proof {
            let fresh = fresh_catcher(poles as nat, slots as nat, charge);
            assert(catcher@.collector =~= fresh.collector);
            assert(catcher@.rods =~= fresh.rods);
        }
        catcher
    }

    /// The charge in the atmosphere: exact while it fits a `u64`, the largest
    /// `u64` above that.
    pub fn field_total_charge(&self) -> (total: u64)
        ensures
            total == saturated(total_u64(self@.field)),
    {
        charge_status_u64(&self.atmosphere.charge)
    }

    /// The charge in the collector: exact while it fits a `u64`, the largest
    /// `u64` above that.
    pub fn collector_total_charge(&self) -> (total: u64)
        ensures
            total == saturated(total_u8(self@.collector)),
    {
        charge_status_u8(&self.charge_collector)
    }
}

/// Whether one dispersal moves charge from `source` to `dest`: nobody holds
/// either slot, and the source is present and not empty.
pub open spec fn disperses(source: Slot<u8>, dest: Slot<u64>) -> bool {
    !source.held && !dest.held && amount_u8(source) > 0
}

/// The amount that one dispersal moves: the draw, limited by what the source
/// holds and by the room that the destination has left below the largest `u64`.
pub open spec fn dispersed(source: Slot<u8>, dest: Slot<u64>, draw: u8) -> u8 {
    let room = u64::MAX - amount_u64(dest);
    capped(capped(draw as int, amount_u8(source) as int), room) as u8
}

/// The collector slot that a pick falls on.
pub open spec fn picked(pick: usize, len: nat) -> int {
    pick as int % len as int
}

/// The catcher after one dispersal into field slot `index`, where `pick`
/// chooses the collector slot and `draw` the amount.
///
/// Where the dispersal moves charge, the moved amount leaves the collector
/// slot and is added to the field slot; an absent field slot starts from
/// nothing. Otherwise nothing changes.
pub open spec fn disperse_step(state: CatcherState, index: int, pick: usize, draw: u8)
    -> CatcherState {
    if state.collector.len() == 0 {
        state
    } else {
        let chosen = picked(pick, state.collector.len());
        let source = state.collector[chosen];
        let dest = state.field[index];
        if disperses(source, dest) {
            let moved = dispersed(source, dest, draw);
            CatcherState {
                collector: state.collector.update(
                    chosen,
                    Slot { charge: Some((amount_u8(source) - moved) as u8), held: false },
                ),
                rods: state.rods,
                field: state.field.update(
                    index,
                    Slot { charge: Some((amount_u64(dest) + moved) as u64), held: false },
                ),
            }
        } else {
            state
        }
    }
}

/// The catcher after dispersals into the field slots before `upto`, in order,
/// each with its own pick and draw.
pub open spec fn disperse_pass(state: CatcherState, draws: Seq<(usize, u8)>, upto: nat)
    -> CatcherState
    decreases upto,
{
    if upto == 0 {
        state
    } else {
        let index = (upto - 1) as nat;
        let (pick, draw) = draws[index as int];
        disperse_step(disperse_pass(state, draws, index), index as int, pick, draw)
    }
}

/// One dispersal never adds to the collector: what leaves it arrives in the
/// field, and the rods and the lengths stay as they are.
pub proof fn lemma_disperse_step_moves(state: CatcherState, index: int, pick: usize, draw: u8)
    requires
        0 <= index < state.field.len(),
    ensures
        total_u8(disperse_step(state, index, pick, draw).collector) <= total_u8(state.collector),
        total_u8(disperse_step(state, index, pick, draw).collector) + total_u64(
            disperse_step(state, index, pick, draw).field,
        ) == total_u8(state.collector) + total_u64(state.field),
        disperse_step(state, index, pick, draw).rods == state.rods,
        disperse_step(state, index, pick, draw).collector.len() == state.collector.len(),
        disperse_step(state, index, pick, draw).field.len() == state.field.len(),
{
    if state.collector.len() > 0 {
        let chosen = picked(pick, state.collector.len());
        lemma_mod_bound(pick as int, state.collector.len() as int);
        let source = state.collector[chosen];
        let dest = state.field[index];
        if disperses(source, dest) {
            let moved = dispersed(source, dest, draw);
            lemma_total_u8_update(
                state.collector,
                chosen,
                Slot { charge: Some((amount_u8(source) - moved) as u8), held: false },
            );
            lemma_total_u64_update(
                state.field,
                index,
                Slot { charge: Some((amount_u64(dest) + moved) as u64), held: false },
            );
        }
    }
}

/// A pass of dispersals never adds to the collector: what leaves it arrives
/// in the field, and the rods and the lengths stay as they are.
pub proof fn lemma_disperse_pass_moves(state: CatcherState, draws: Seq<(usize, u8)>, upto: nat)
    requires
        upto <= state.field.len(),
    ensures
        total_u8(disperse_pass(state, draws, upto).collector) <= total_u8(state.collector),
        total_u8(disperse_pass(state, draws, upto).collector) + total_u64(
            disperse_pass(state, draws, upto).field,
        ) == total_u8(state.collector) + total_u64(state.field),
        disperse_pass(state, draws, upto).rods == state.rods,
        disperse_pass(state, draws, upto).collector.len() == state.collector.len(),
        disperse_pass(state, draws, upto).field.len() == state.field.len(),
    decreases upto,
{
    if upto > 0 {
        let index = (upto - 1) as nat;
        lemma_disperse_pass_moves(state, draws, index);
        lemma_disperse_step_moves(
            disperse_pass(state, draws, index),
            index as int,
            draws[index as int].0,
            draws[index as int].1,
        );
    }
}

/// A pass looks only at the draws of the slots that it reaches.
pub proof fn lemma_disperse_pass_prefix(
    state: CatcherState,
    draws: Seq<(usize, u8)>,
    more: Seq<(usize, u8)>,
    upto: nat,
)
    requires
        upto <= draws.len() <= more.len(),
        forall|k: int| 0 <= k < draws.len() ==> draws[k] == more[k],
    ensures
        disperse_pass(state, draws, upto) == disperse_pass(state, more, upto),
    decreases upto,
{
    if upto > 0 {
        lemma_disperse_pass_prefix(state, draws, more, (upto - 1) as nat);
    }
}

impl ThunderboltCatcher {
    /// Disperses into field slot `index` from the collector slot that `pick`
    /// chooses, with `draw` as the amount asked for. Returns what moved, or
    /// `None` where nothing was to be moved.
    ///
    /// Neither slot is waited for: where somebody holds one of them, or where
    /// the collector slot is absent or empty, nothing happens.
    pub fn disperse_into(&mut self, index: usize, pick: usize, draw: u8) -> (moved: Option<u8>)
        requires
            index < old(self)@.field.len(),
        ensures
            final(self)@ == disperse_step(old(self)@, index as int, pick, draw),
            moved == (if old(self)@.collector.len() > 0 && disperses(
                old(self)@.collector[picked(pick, old(self)@.collector.len())],
                old(self)@.field[index as int],
            ) {
                Some(
                    dispersed(
                        old(self)@.collector[picked(pick, old(self)@.collector.len())],
                        old(self)@.field[index as int],
                        draw,
                    ),
                )
            } else {
                None
            }),
    {
        let len: usize = self.charge_collector.len();
        if len == 0 {
            return None;
        }
        let chosen: usize = pick % len;
        let dest = self.atmosphere.charge[index];
        let source = self.charge_collector[chosen];
        if dest.held || source.held {
            return None;
        }
        match source.charge {
            None => None,
            Some(available) => {
                if available == 0 {
                    return None;
                }
                let stored: u64 = match dest.charge {
                    Some(present) => present,
                    None => 0,
                };
                let asked: u8 = capped_u8(draw, available);
                let room: u64 = u64::MAX - stored;
                let moved: u8 = capped_u64(asked as u64, room) as u8;
                self.charge_collector[chosen] = Slot { charge: Some(available - moved), held: false };
                self.atmosphere.charge[index] = Slot {
                    charge: Some(stored + moved as u64),
                    held: false,
                };
                Some(moved)
            },
        }
    }

    /// One pass of dispersal: each field slot in turn receives from a
    /// collector slot picked at random, an amount drawn at random.
    ///
    /// Whatever is drawn, the collector never gains, what it loses arrives in
    /// the atmosphere, and the rods are left alone.
    pub fn disperse_collected(&mut self)
        ensures
            exists|draws: Seq<(usize, u8)>|
                draws.len() == old(self)@.field.len() && final(self)@ == #[trigger] disperse_pass(
                    old(self)@,
                    draws,
                    old(self)@.field.len(),
                ),
            total_u8(final(self)@.collector) <= total_u8(old(self)@.collector),
            total_u8(final(self)@.collector) + total_u64(final(self)@.field) == total_u8(
                old(self)@.collector,
            ) + total_u64(old(self)@.field),
            final(self)@.rods == old(self)@.rods,
            final(self)@.collector.len() == old(self)@.collector.len(),
            final(self)@.field.len() == old(self)@.field.len(),
    {
        let slots: usize = self.atmosphere.charge.len();
        let ghost mut draws: Seq<(usize, u8)> = Seq::empty();
        let mut index: usize = 0;
        while index < slots
            invariant
                index <= slots,
                slots == old(self)@.field.len(),
                self@.field.len() == slots,
                draws.len() == index,
                self@ == disperse_pass(old(self)@, draws, index as nat),
            decreases slots - index,
        {
            let pick: usize = random_usize();
            let draw: u8 = random_u8();
            proof {
                lemma_disperse_pass_prefix(old(self)@, draws, draws.push((pick, draw)), index as nat);
                lemma_disperse_step_moves(self@, index as int, pick, draw);
                draws = draws.push((pick, draw));
            }
            self.disperse_into(index, pick, draw);
            index += 1;
        }
        proof {
            lemma_disperse_pass_moves(old(self)@, draws, slots as nat);
        }
    }
}

/// Whether a worker can draw from the slot: nobody holds it, and it is
/// present and not empty.
pub open spec fn drawable(slot: Slot<u64>) -> bool {
    !slot.held && amount_u64(slot) > 0
}

/// The first drawable slot of the field at or after `from`, if there is one.
pub open spec fn first_drawable_from(field: Seq<Slot<u64>>, from: int) -> Option<int>
    decreases field.len() - from,
{
    if from < 0 || from >= field.len() {
        None
    } else if drawable(field[from]) {
        Some(from)
    } else {
        first_drawable_from(field, from + 1)
    }
}

/// The first drawable slot of the field, if there is one.
pub open spec fn first_drawable(field: Seq<Slot<u64>>) -> Option<int> {
    first_drawable_from(field, 0)
}

/// The slot that a scan finds is drawable and no slot before it is; a scan
/// that finds none has passed no drawable slot.
pub proof fn lemma_first_drawable(field: Seq<Slot<u64>>, from: int)
    requires
        0 <= from,
    ensures
        match first_drawable_from(field, from) {
            Some(found) => from <= found < field.len() && drawable(field[found]) && forall|k: int|
                from <= k < found ==> !drawable(#[trigger] field[k]),
            None => forall|k: int| from <= k < field.len() ==> !drawable(#[trigger] field[k]),
        },
    decreases field.len() - from,
{
    if from < field.len() && !drawable(field[from]) {
        lemma_first_drawable(field, from + 1);
    }
}

/// The most that one draw takes from a slot that holds `available`.
pub open spec fn draw_limit(available: u64) -> u8 {
    capped(available as int, DRAW_LIMIT as int) as u8
}

/// The amount that a draw takes from a slot that holds `available`.
pub open spec fn drawn(available: u64, draw: u8) -> u8 {
    capped(draw as int, draw_limit(available) as int) as u8
}

/// The catcher after the worker of rod `rod` has drawn once, where `pick`
/// chooses the pole slot and `draw` the amount.
///
/// The draw comes out of the first drawable slot of the field and strikes
/// the rod, which drains into the collector. Where no slot is drawable, or the
/// rod has no pole, nothing changes.
pub open spec fn discharged(state: CatcherState, rod: int, pick: usize, draw: u8) -> CatcherState {
    match first_drawable(state.field) {
        None => state,
        Some(from) => {
            let pole = state.rods[rod].pole;
            if pole.len() == 0 {
                state
            } else {
                let available = state.field[from].charge.unwrap();
                let amount = drawn(available, draw);
                let settled = strike_spec(
                    RodState { exhaust: state.collector, pole },
                    picked(pick, pole.len()),
                    amount,
                );
                CatcherState {
                    collector: settled.rod.exhaust,
                    rods: state.rods.update(
                        rod,
                        RodState { exhaust: state.rods[rod].exhaust, pole: settled.rod.pole },
                    ),
                    field: state.field.update(
                        from,
                        Slot { charge: Some((available - amount) as u64), held: false },
                    ),
                }
            }
        },
    }
}

/// A draw keeps every length and every rod's own exhaust, only appends to the
/// collector, and takes out of the field what it drew and no more.
pub proof fn lemma_discharged_shape(state: CatcherState, rod: int, pick: usize, draw: u8)
    requires
        0 <= rod < state.rods.len(),
    ensures
        discharged(state, rod, pick, draw).field.len() == state.field.len(),
        discharged(state, rod, pick, draw).rods.len() == state.rods.len(),
        forall|r: int|
            0 <= r < state.rods.len() ==> (#[trigger] discharged(
                state,
                rod,
                pick,
                draw,
            ).rods[r]).pole.len() == state.rods[r].pole.len(),
        forall|r: int|
            0 <= r < state.rods.len() && r != rod ==> #[trigger] discharged(
                state,
                rod,
                pick,
                draw,
            ).rods[r] == state.rods[r],
        discharged(state, rod, pick, draw).rods[rod].exhaust == state.rods[rod].exhaust,
        begins_with(discharged(state, rod, pick, draw).collector, state.collector),
        total_u64(discharged(state, rod, pick, draw).field) <= total_u64(state.field),
        total_u64(state.field) - total_u64(discharged(state, rod, pick, draw).field) <= DRAW_LIMIT,
{
    lemma_first_drawable(state.field, 0);
    match first_drawable(state.field) {
        None => {
            assert(state.collector.take(state.collector.len() as int) =~= state.collector);
        },
        Some(from) => {
            let pole = state.rods[rod].pole;
            if pole.len() == 0 {
                assert(state.collector.take(state.collector.len() as int) =~= state.collector);
            } else {
                let available = state.field[from].charge.unwrap();
                let amount = drawn(available, draw);
                lemma_mod_bound(pick as int, pole.len() as int);
                lemma_settle_shape(
                    RodState { exhaust: state.collector, pole },
                    seq![picked(pick, pole.len())],
                    amount,
                    STRIKE_ATTEMPTS as nat,
                );
                lemma_total_u64_update(
                    state.field,
                    from,
                    Slot { charge: Some((available - amount) as u64), held: false },
                );
            }
        },
    }
}

impl Atmosphere {
    /// Scans the slots in order for the first one that a worker can draw from.
    pub fn find_drawable(&self) -> (found: Option<usize>)
        ensures
            match found {
                Some(index) => first_drawable(self@) == Some(index as int),
                None => first_drawable(self@) is None,
            },
    {
        let mut index: usize = 0;
        while index < self.charge.len()
            invariant
                index <= self.charge.len(),
                first_drawable_from(self@, index as int) == first_drawable(self@),
            decreases self.charge.len() - index,
        {
            let slot = self.charge[index];
            if !slot.held {
                if let Some(present) = slot.charge {
                    if present > 0 {
                        return Some(index);
                    }
                }
            }
            index += 1;
        }
        None
    }
}

impl ThunderboltCatcher {
    /// One draw by the worker of rod `rod`: takes from the first drawable slot
    /// of the atmosphere the amount that `draw` asks for, held to what the
    /// slot has and to `DRAW_LIMIT`, and strikes with it the pole slot that
    /// `pick` chooses. Returns the amount, or `None` where nothing was drawn.
    ///
    /// Slots that somebody holds, absent slots and empty slots are passed over.
    pub fn discharge_into(&mut self, rod: usize, pick: usize, draw: u8) -> (amount: Option<u8>)
        requires
            rod < old(self)@.rods.len(),
        ensures
            final(self)@ == discharged(old(self)@, rod as int, pick, draw),
            amount == (match first_drawable(old(self)@.field) {
                Some(from) => if old(self)@.rods[rod as int].pole.len() == 0 {
                    None
                } else {
                    Some(drawn(old(self)@.field[from].charge.unwrap(), draw))
                },
                None => None,
            }),
    {
        let found = self.atmosphere.find_drawable();
        proof {
            lemma_first_drawable(self@.field, 0);
        }
        match found {
            None => None,
            Some(from) => {
                let len: usize = self.rods[rod].pole.len();
                if len == 0 {
                    return None;
                }
                let available: u64 = match self.atmosphere.charge[from].charge {
                    Some(present) => present,
                    None => 0,
                };
                let limit: u8 = capped_u64(available, DRAW_LIMIT as u64) as u8;
                let amount: u8 = capped_u8(draw, limit);
                let index: usize = pick % len;
                let ghost before = self@;
                let ghost rods_before = self.rods@;
                core::mem::swap(&mut self.charge_collector, &mut self.rods[rod].static_charge_exhaust);
                let _ = self.rods[rod].strike(index, amount);
                core::mem::swap(&mut self.charge_collector, &mut self.rods[rod].static_charge_exhaust);
                self.atmosphere.charge[from] = Slot {
                    charge: Some(available - amount as u64),
                    held: false,
                };
                proof {
                    let after = discharged(before, rod as int, pick, draw);
                    assert(self.rods@.len() == rods_before.len());
                    assert(self@.rods =~= after.rods);
                    assert(self@.field =~= after.field);
                }
                Some(amount)
            },
        }
    }

    /// One draw by the worker of rod `rod`, with the pole slot and the amount
    /// left to chance.
    pub fn discharge(&mut self, rod: usize) -> (amount: Option<u8>)
        requires
            rod < old(self)@.rods.len(),
        ensures
            exists|pick: usize, draw: u8|
                final(self)@ == #[trigger] discharged(old(self)@, rod as int, pick, draw),
            final(self)@.field.len() == old(self)@.field.len(),
            final(self)@.rods.len() == old(self)@.rods.len(),
            begins_with(final(self)@.collector, old(self)@.collector),
            total_u64(final(self)@.field) <= total_u64(old(self)@.field),
    {
        let pick: usize = random_usize();
        let draw: u8 = random_u8();
        proof {
            lemma_discharged_shape(self@, rod as int, pick, draw);
        }
        self.discharge_into(rod, pick, draw)
    }
}

/// The longest pause of a worker between two turns, in microseconds.
pub const LONGEST_PAUSE: u64 = 10;

/// One worker of the generation phase: the rod that it serves, and the pause
/// that it takes between two turns, in microseconds.
#[derive(Clone, Copy, Debug, PartialEq, Eq)]
pub struct Worker {
    pub rod: usize,
    pub pause_micros: u64,
}

/// What a worker does after a turn.
#[derive(Clone, Copy, Debug, PartialEq, Eq)]
pub enum WorkerAction {
    /// Sleep for so many microseconds, then take the next turn.
    Pause { micros: u64 },
    /// Stop: the time is up.
    Finish,
}

/// The pause that a drawn number gives: between one microsecond and
/// `LONGEST_PAUSE`.
pub open spec fn pause_of(draw: u64) -> u64 {
    (draw % LONGEST_PAUSE + 1) as u64
}

/// What a worker does at a turn taken `elapsed_nanos` after its start, with
/// `run_nanos` to run: it stops once the elapsed time exceeds the time to run.
pub open spec fn next_action(worker: Worker, elapsed_nanos: u128, run_nanos: u128) -> WorkerAction {
    if elapsed_nanos > run_nanos {
        WorkerAction::Finish
    } else {
        WorkerAction::Pause { micros: worker.pause_micros }
    }
}

/// The catcher after a worker's turn: as it was once the time is up, and
/// after one draw before that.
pub open spec fn generated(
    state: CatcherState,
    worker: Worker,
    elapsed_nanos: u128,
    run_nanos: u128,
    pick: usize,
    draw: u8,
) -> CatcherState {
    if elapsed_nanos > run_nanos {
        state
    } else {
        discharged(state, worker.rod as int, pick, draw)
    }
}

impl Worker {
    /// The worker of rod `rod` whose pause comes from `draw`.
    pub fn with_draw(rod: usize, draw: u64) -> (worker: Worker)
        ensures
            worker == (Worker { rod, pause_micros: pause_of(draw) }),
            1 <= worker.pause_micros <= LONGEST_PAUSE,
    {
        Worker { rod, pause_micros: draw % LONGEST_PAUSE + 1 }
    }

    /// The worker of rod `rod`, with a pause left to chance.
    pub fn new(rod: usize) -> (worker: Worker)
        ensures
            worker.rod == rod,
            1 <= worker.pause_micros <= LONGEST_PAUSE,
    {
        Worker::with_draw(rod, random_u64())
    }
}

/// What runs the generation phase, one worker's turn at a time.
///
/// The caller owns the clock and the workers: it starts one worker per rod,
/// calls `generate` for a worker with the time that has passed since that
/// worker started, and does what the answer says.
pub trait ThunderboltThrower {
    /// Whether the worker has a rod here to serve.
    spec fn serves(&self, worker: Worker) -> bool;

    /// One turn of `worker`, taken `elapsed_nanos` after the worker started,
    /// in a phase that runs for `run_nanos`.
    fn generate(&mut self, worker: &Worker, elapsed_nanos: u128, run_nanos: u128) -> (action:
        WorkerAction)
        requires
            old(self).serves(*worker),
        ensures
            action == next_action(*worker, elapsed_nanos, run_nanos),
    ;
}

impl ThunderboltCatcher {
    /// One turn of `worker` with the pole slot and the amount given: nothing
    /// once the time is up, one draw before that.
    pub fn generate_with(
        &mut self,
        worker: &Worker,
        elapsed_nanos: u128,
        run_nanos: u128,
        pick: usize,
        draw: u8,
    ) -> (action: WorkerAction)
        requires
            worker.rod < old(self)@.rods.len(),
        ensures
            action == next_action(*worker, elapsed_nanos, run_nanos),
            final(self)@ == generated(old(self)@, *worker, elapsed_nanos, run_nanos, pick, draw),
    {
        if elapsed_nanos > run_nanos {
            WorkerAction::Finish
        } else {
            self.discharge_into(worker.rod, pick, draw);
            WorkerAction::Pause { micros: worker.pause_micros }
        }
    }
}

impl ThunderboltThrower for ThunderboltCatcher {
    open spec fn serves(&self, worker: Worker) -> bool {
        worker.rod < self@.rods.len()
    }

    /// Once the time is up the worker is told to finish and nothing changes.
    /// Before that the worker draws once, with the pole slot and the amount
    /// left to chance, and is told to pause.
    fn generate(&mut self, worker: &Worker, elapsed_nanos: u128, run_nanos: u128) -> (action:
        WorkerAction)
        ensures
            elapsed_nanos > run_nanos ==> final(self)@ == old(self)@,
            exists|pick: usize, draw: u8|
                final(self)@ == #[trigger] generated(
                    old(self)@,
                    *worker,
                    elapsed_nanos,
                    run_nanos,
                    pick,
                    draw,
                ),
            final(self)@.field.len() == old(self)@.field.len(),
            final(self)@.rods.len() == old(self)@.rods.len(),
            begins_with(final(self)@.collector, old(self)@.collector),
            total_u64(final(self)@.field) <= total_u64(old(self)@.field),
    {
        if elapsed_nanos > run_nanos {
            proof {
                assert(self@ == generated(self@, *worker, elapsed_nanos, run_nanos, 0, 0));
                assert(self@.collector.take(self@.collector.len() as int) =~= self@.collector);
            }
            WorkerAction::Finish
        } else {
            let pick: usize = random_usize();
            let draw: u8 = random_u8();
            proof {
                lemma_discharged_shape(self@, worker.rod as int, pick, draw);
            }
            self.generate_with(worker, elapsed_nanos, run_nanos, pick, draw)
        }
    }
}

impl Default for ThunderboltCatcher {
    /// A hundred rods over ten thousand slots of a hundred million each.
    fn default() -> (catcher: ThunderboltCatcher)
        ensures
            catcher@ == fresh_catcher(100, 10000, 100000000),
    {
        ThunderboltCatcher::new(100, 10000, 100000000)
    }
}

} // verus!
