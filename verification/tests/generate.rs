use thunderbolt::atmosphere::{
    Atmosphere, ThunderboltCatcher, ThunderboltThrower, Worker, WorkerAction, DRAW_LIMIT,
    LONGEST_PAUSE,
};
use thunderbolt::electrically_charged::ElectricallyCharged;
use thunderbolt::limits::{capped_u64, capped_u8};
use thunderbolt::static_charge::{charge_status_u64, charge_status_u8, Slot};

fn ambient(charge: u64) -> Slot<u64> {
    Slot { charge: Some(charge), held: false }
}

fn pole_sum(catcher: &ThunderboltCatcher, rod: usize) -> u64 {
    catcher.rods[rod].pole.iter().map(|slot| slot.charge.unwrap_or(0) as u64).sum()
}

#[test]
fn generate_for_no_time_draws_nothing() {
    let mut catcher = ThunderboltCatcher::new(1, 1, 100000);
    let worker = Worker::new(0);
    assert_eq!(catcher.generate(&worker, 1, 0), WorkerAction::Finish);
    assert_eq!(catcher.field_total_charge(), 100000);
    assert_eq!(catcher.atmosphere.charge, vec![ambient(100000)]);
    assert_eq!(catcher.collector_total_charge(), 0);
    assert_eq!(pole_sum(&catcher, 0), 0);
    assert!(catcher.rods[0].pole.iter().all(|slot| slot.charge.is_none()));
}

#[test]
fn generate_stops_once_the_time_is_exceeded() {
    let mut catcher = ThunderboltCatcher::new(2, 3, 500);
    let worker = Worker::with_draw(1, 4);
    assert_eq!(catcher.generate(&worker, 5000, 5000), WorkerAction::Pause { micros: 5 });
    assert_eq!(catcher.generate(&worker, 0, 0), WorkerAction::Pause { micros: 5 });
    let field = catcher.atmosphere.charge.clone();
    let pole = catcher.rods[1].pole.clone();
    assert_eq!(catcher.generate(&worker, 5001, 5000), WorkerAction::Finish);
    assert_eq!(catcher.generate(&worker, u128::MAX, 5000), WorkerAction::Finish);
    assert_eq!(catcher.atmosphere.charge, field);
    assert_eq!(catcher.rods[1].pole, pole);
}

#[test]
fn generate_draws_from_the_field_into_the_workers_rod() {
    for _ in 0..50 {
        let mut catcher = ThunderboltCatcher::new(3, 2, 1000);
        let worker = Worker::new(2);
        assert_eq!(
            catcher.generate(&worker, 10, 20),
            WorkerAction::Pause { micros: worker.pause_micros }
        );
        let taken = 1000 - catcher.atmosphere.charge[0].charge.unwrap();
        assert!(taken <= 253);
        assert_eq!(catcher.atmosphere.charge[1], ambient(1000));
        assert_eq!(pole_sum(&catcher, 2), taken);
        assert_eq!(pole_sum(&catcher, 0), 0);
        assert_eq!(pole_sum(&catcher, 1), 0);
        assert_eq!(catcher.rods[2].pole.iter().filter(|slot| slot.charge.is_some()).count(), 1);
        assert_eq!(catcher.charge_collector.len(), 100);
        assert_eq!(catcher.rods[2].pole.len(), 100);
    }
}

#[test]
fn generate_with_takes_the_given_draw() {
    let mut catcher = ThunderboltCatcher::new(1, 1, 1000);
    let worker = Worker::with_draw(0, 9);
    let action = catcher.generate_with(&worker, 3, 3, 205, 17);
    assert_eq!(action, WorkerAction::Pause { micros: 10 });
    assert_eq!(catcher.atmosphere.charge, vec![ambient(983)]);
    assert_eq!(catcher.rods[0].pole[5], Slot { charge: Some(17), held: false });
    let action = catcher.generate_with(&worker, 4, 3, 205, 17);
    assert_eq!(action, WorkerAction::Finish);
    assert_eq!(catcher.atmosphere.charge, vec![ambient(983)]);
    assert_eq!(catcher.rods[0].pole[5], Slot { charge: Some(17), held: false });
}

#[test]
fn discharge_takes_the_draw_up_to_the_limit() {
    assert_eq!(DRAW_LIMIT, 253);
    let mut catcher = ThunderboltCatcher::new(1, 1, 1000);
    assert_eq!(catcher.discharge_into(0, 0, 255), Some(253));
    assert_eq!(catcher.atmosphere.charge, vec![ambient(747)]);
    assert_eq!(catcher.rods[0].pole[0], Slot { charge: Some(253), held: false });
    assert_eq!(catcher.discharge_into(0, 1, 253), Some(253));
    assert_eq!(catcher.discharge_into(0, 2, 254), Some(253));
    assert_eq!(catcher.discharge_into(0, 3, 100), Some(100));
    assert_eq!(catcher.discharge_into(0, 4, 0), Some(0));
    assert_eq!(catcher.atmosphere.charge, vec![ambient(141)]);
    assert_eq!(catcher.rods[0].pole[4], Slot { charge: Some(0), held: false });
    assert_eq!(catcher.discharge_into(0, 5, 200), Some(141));
    assert_eq!(catcher.atmosphere.charge, vec![ambient(0)]);
    assert_eq!(catcher.discharge_into(0, 6, 200), None);
    assert_eq!(catcher.rods[0].pole[6], Slot { charge: None, held: false });
    assert_eq!(pole_sum(&catcher, 0), 1000);
}

#[test]
fn discharge_passes_over_slots_it_cannot_draw_from() {
    let mut catcher = ThunderboltCatcher::new(2, 5, 10);
    catcher.atmosphere.charge[0] = Slot { charge: None, held: false };
    catcher.atmosphere.charge[1] = ambient(0);
    catcher.atmosphere.charge[2] = Slot { charge: Some(10), held: true };
    assert_eq!(catcher.atmosphere.find_drawable(), Some(3));
    assert_eq!(catcher.discharge_into(1, 199, 4), Some(4));
    assert_eq!(
        catcher.atmosphere.charge,
        vec![
            Slot { charge: None, held: false },
            ambient(0),
            Slot { charge: Some(10), held: true },
            ambient(6),
            ambient(10),
        ]
    );
    assert_eq!(catcher.rods[1].pole[99], Slot { charge: Some(4), held: false });
    assert_eq!(pole_sum(&catcher, 0), 0);
    assert_eq!(catcher.discharge_into(1, 199, 200), Some(6));
    assert_eq!(catcher.atmosphere.find_drawable(), Some(4));
    assert_eq!(catcher.discharge_into(1, 199, 200), Some(10));
    assert_eq!(catcher.atmosphere.find_drawable(), None);
    assert_eq!(catcher.discharge_into(1, 199, 200), None);
    assert_eq!(catcher.rods[1].pole[99], Slot { charge: Some(20), held: false });
}

#[test]
fn discharge_drains_a_saturated_pole_slot_into_the_collector() {
    let mut catcher = ThunderboltCatcher::new(2, 1, 100000);
    catcher.rods[0].pole[8] = Slot { charge: Some(250), held: false };
    catcher.rods[0].static_charge_exhaust.push(Slot { charge: Some(1), held: false });
    assert_eq!(catcher.discharge_into(0, 8, 10), Some(10));
    assert_eq!(catcher.rods[0].pole[8], Slot { charge: Some(0), held: false });
    assert_eq!(catcher.charge_collector.len(), 101);
    assert_eq!(catcher.charge_collector[100], Slot { charge: Some(10), held: false });
    assert_eq!(catcher.collector_total_charge(), 10);
    assert_eq!(catcher.rods[0].static_charge_exhaust, vec![Slot { charge: Some(1), held: false }]);
    assert!(catcher.rods[1].static_charge_exhaust.is_empty());
    assert_eq!(catcher.field_total_charge(), 99990);
}

#[test]
fn discharge_on_a_held_pole_slot_strikes_twice() {
    let mut catcher = ThunderboltCatcher::new(1, 1, 100);
    catcher.rods[0].pole[0].held = true;
    assert_eq!(catcher.discharge_into(0, 100, 30), Some(30));
    assert_eq!(catcher.atmosphere.charge, vec![ambient(70)]);
    assert_eq!(catcher.rods[0].pole[1], Slot { charge: Some(30), held: false });
    assert_eq!(catcher.rods[0].pole[98], Slot { charge: Some(30), held: false });
    assert_eq!(pole_sum(&catcher, 0), 60);
}

#[test]
fn discharge_on_a_rod_without_a_pole_draws_nothing() {
    let mut catcher = ThunderboltCatcher::new(1, 1, 100);
    catcher.rods[0].pole.clear();
    assert_eq!(catcher.discharge_into(0, 3, 30), None);
    assert_eq!(catcher.discharge(0), None);
    assert_eq!(catcher.atmosphere.charge, vec![ambient(100)]);
}

#[test]
fn discharge_at_random_takes_what_it_says() {
    for _ in 0..50 {
        let mut catcher = ThunderboltCatcher::new(1, 1, 40);
        let amount = catcher.discharge(0).unwrap();
        assert!(amount <= 40);
        assert_eq!(catcher.atmosphere.charge, vec![ambient(40 - amount as u64)]);
        assert_eq!(pole_sum(&catcher, 0), amount as u64);
    }
}

#[test]
fn worker_pause_is_the_draw_modulo_ten_plus_one() {
    assert_eq!(LONGEST_PAUSE, 10);
    assert_eq!(Worker::with_draw(3, 0), Worker { rod: 3, pause_micros: 1 });
    assert_eq!(Worker::with_draw(3, 9), Worker { rod: 3, pause_micros: 10 });
    assert_eq!(Worker::with_draw(0, 10), Worker { rod: 0, pause_micros: 1 });
    assert_eq!(Worker::with_draw(7, 1234567), Worker { rod: 7, pause_micros: 8 });
    assert_eq!(Worker::with_draw(7, u64::MAX), Worker { rod: 7, pause_micros: 6 });
    for _ in 0..100 {
        let worker = Worker::new(11);
        assert_eq!(worker.rod, 11);
        assert!(1 <= worker.pause_micros && worker.pause_micros <= 10);
    }
}

#[test]
fn capped_values_stay_at_or_below_the_limit() {
    assert_eq!(capped_u8(200, 50), 50);
    assert_eq!(capped_u8(50, 200), 50);
    assert_eq!(capped_u8(0, 0), 0);
    assert_eq!(capped_u8(255, 254), 254);
    assert_eq!(capped_u64(1000, 253), 253);
    assert_eq!(capped_u64(253, 1000), 253);
    assert_eq!(capped_u64(u64::MAX, 0), 0);
    assert_eq!(capped_u64(7, 7), 7);
}

#[test]
fn atmosphere_total_is_slots_times_charge() {
    assert_eq!(Atmosphere::new(0, 5).charge_status(), 0);
    assert_eq!(Atmosphere::new(7, 0).charge_status(), 0);
    assert_eq!(Atmosphere::new(3, 11).charge_status(), 33);
    let atmosphere = Atmosphere::default();
    assert_eq!(atmosphere.charge.len(), 10000);
    assert_eq!(atmosphere.charge[9999], ambient(100000));
    assert_eq!(atmosphere.charge_status(), 1000000000);
}

#[test]
fn totals_count_present_slots_and_stop_at_the_largest_u64() {
    let mut atmosphere = Atmosphere::new(3, u64::MAX / 2);
    assert_eq!(atmosphere.charge_status(), u64::MAX);
    atmosphere.charge[2] = Slot { charge: None, held: false };
    assert_eq!(atmosphere.charge_status(), u64::MAX - 1);
    atmosphere.charge[1] = Slot { charge: Some(1), held: true };
    assert_eq!(atmosphere.charge_status(), u64::MAX / 2 + 1);
    assert_eq!(charge_status_u64(&vec![]), 0);
    assert_eq!(
        charge_status_u8(&vec![
            Slot { charge: Some(255), held: false },
            Slot { charge: None, held: false },
            Slot { charge: Some(1), held: true },
        ]),
        256
    );
}
