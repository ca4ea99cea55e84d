use vehicle_evolver::block::Block;
use vehicle_evolver::ramp::Rgb;
use vehicle_evolver::vehicle::Vehicle;
use vehicle_evolver::vehicle_states::{
    VehicleID, VehicleState, VehicleStates, VehicleStatus, COLLISION_GROUPS,
    FITNESS_FINISH_THRESHOLD,
};

fn marked_vehicle(place: usize) -> Vehicle {
    let mut cells = vec![Block::Air; 48];
    cells[place] = Block::Panel;
    Vehicle::from(cells)
}

fn ledger_of(n: usize) -> VehicleStates {
    VehicleStates::from((0..n).map(marked_vehicle).collect())
}

fn statuses(states: &VehicleStates) -> Vec<VehicleStatus> {
    states.get_vehicle_states().iter().map(|state| state.status).collect()
}

fn turbo(rank: usize, of: usize) -> Rgb {
    let color = colorous::TURBO.eval_rational(rank, of);
    Rgb { r: color.r, g: color.g, b: color.b }
}

#[test]
fn build_makes_pending_slots_in_order() {
    let states = ledger_of(3);
    let slots = states.get_vehicle_states();
    assert_eq!(slots.len(), 3);
    for (i, slot) in slots.iter().enumerate() {
        assert_eq!(slot.vehicle, marked_vehicle(i));
        assert_eq!(slot.fitness, i64::MIN);
        assert_eq!(slot.status, VehicleStatus::Pending);
        assert!(!slot.reached_finish);
        assert!(!slot.is_camera_target);
        assert!(!slot.fell_apart);
    }
    assert!(!states.all_done());
    assert!(VehicleStates::from(Vec::new()).all_done());
}

#[test]
fn new_ledger_has_ten_pending_slots() {
    let states = VehicleStates::new();
    assert_eq!(statuses(&states), vec![VehicleStatus::Pending; 10]);
    let state = VehicleState::new();
    assert_eq!(state.status, VehicleStatus::Pending);
    assert_eq!(state.fitness, i64::MIN);
    assert_eq!(state.clone(), state);
}

#[test]
fn ledger_scenario() {
    let mut states = ledger_of(3);
    let popped = states.pop_vehicles(2);
    assert_eq!(popped.len(), 2);
    assert_eq!(popped[0].0, marked_vehicle(0));
    assert_eq!(popped[0].1, VehicleID(0));
    assert_eq!(popped[1].0, marked_vehicle(1));
    assert_eq!(popped[1].1, VehicleID(1));
    assert_eq!(
        statuses(&states),
        vec![VehicleStatus::Running, VehicleStatus::Running, VehicleStatus::Pending]
    );
    assert!(!states.all_done());
    let first = states.finalize_vehicle(VehicleID(0));
    let second = states.finalize_vehicle(VehicleID(1));
    assert!(!first.repeated);
    assert!(!second.repeated);
    assert_eq!(first.vehicle, marked_vehicle(0));
    assert_eq!(second.vehicle, marked_vehicle(1));
    assert_eq!(
        statuses(&states),
        vec![VehicleStatus::Done, VehicleStatus::Done, VehicleStatus::Pending]
    );
    assert!(!states.all_done());
    let rest = states.pop_vehicles(2);
    assert_eq!(rest.len(), 1);
    assert_eq!(rest[0].1, VehicleID(2));
    states.finalize_vehicle(VehicleID(2));
    assert!(states.all_done());
}

#[test]
fn pop_skips_slots_that_are_not_pending() {
    let mut states = ledger_of(5);
    states.pop_vehicles(1);
    states.finalize_vehicle(VehicleID(0));
    states.get_vehicle_states_mut()[2].status = VehicleStatus::Done;
    let popped = states.pop_vehicles(2);
    let ids: Vec<VehicleID> = popped.iter().map(|entry| entry.1).collect();
    assert_eq!(ids, vec![VehicleID(1), VehicleID(3)]);
    assert_eq!(
        statuses(&states),
        vec![
            VehicleStatus::Done,
            VehicleStatus::Running,
            VehicleStatus::Done,
            VehicleStatus::Running,
            VehicleStatus::Pending
        ]
    );
}

#[test]
fn pop_with_nothing_pending_changes_nothing() {
    let mut states = ledger_of(2);
    assert_eq!(states.pop_vehicles(0).len(), 0);
    assert_eq!(statuses(&states), vec![VehicleStatus::Pending; 2]);
    assert_eq!(states.pop_vehicles(5).len(), 2);
    let before = statuses(&states);
    assert_eq!(states.pop_vehicles(5).len(), 0);
    assert_eq!(statuses(&states), before);
    let mut empty = ledger_of(0);
    assert_eq!(empty.pop_vehicles(3).len(), 0);
}

#[test]
fn a_batch_of_one_is_white() {
    let mut states = ledger_of(3);
    let popped = states.pop_vehicles(1);
    assert_eq!(popped.len(), 1);
    assert_eq!(popped[0].2, Rgb { r: 255, g: 255, b: 255 });
    assert_ne!(turbo(0, 1), Rgb { r: 255, g: 255, b: 255 });
}

#[test]
fn a_batch_is_coloured_along_the_ramp() {
    let mut states = ledger_of(4);
    let popped = states.pop_vehicles(3);
    assert_eq!(popped.len(), 3);
    for (rank, entry) in popped.iter().enumerate() {
        assert_eq!(entry.2, turbo(rank, 3));
    }
    assert_ne!(popped[0].2, popped[2].2);
    // The colours go by the limit of the batch, not by how many slots came.
    let mut few = ledger_of(2);
    let popped = few.pop_vehicles(30);
    assert_eq!(popped.len(), 2);
    assert_eq!(popped[0].2, turbo(0, 30));
    assert_eq!(popped[1].2, turbo(1, 30));
    assert_eq!(Rgb::for_slot(1, 30), turbo(1, 30));
    assert_eq!(Rgb::in_batch(1, (1, 2, 3)), Rgb { r: 255, g: 255, b: 255 });
    assert_eq!(Rgb::in_batch(2, (1, 2, 3)), Rgb { r: 1, g: 2, b: 3 });
}

#[test]
fn set_fitness_records_and_raises_the_finish_flag() {
    assert_eq!(FITNESS_FINISH_THRESHOLD, 14400);
    let mut states = ledger_of(3);
    states.pop_vehicles(3);
    states.set_fitness(VehicleID(0), 14399, true);
    states.set_fitness(VehicleID(1), 14400, false);
    states.set_fitness(VehicleID(2), -7, false);
    {
        let slots = states.get_vehicle_states();
        assert_eq!(slots[0].fitness, 14399);
        assert!(!slots[0].reached_finish);
        assert!(slots[0].fell_apart);
        assert_eq!(slots[1].fitness, 14400);
        assert!(slots[1].reached_finish);
        assert!(!slots[1].fell_apart);
        assert_eq!(slots[2].fitness, -7);
        assert!(!slots[2].reached_finish);
        assert_eq!(slots[2].status, VehicleStatus::Running);
    }
    // Once up, the flag stays up; the other flag follows the last report.
    states.set_fitness(VehicleID(1), 5, true);
    states.set_fitness(VehicleID(0), 20000, false);
    let slots = states.get_vehicle_states();
    assert_eq!(slots[1].fitness, 5);
    assert!(slots[1].reached_finish);
    assert!(slots[1].fell_apart);
    assert!(slots[0].reached_finish);
    assert!(!slots[0].fell_apart);
}

#[test]
fn finalize_returns_vehicle_and_fitness_and_tolerates_a_repeat() {
    let mut states = ledger_of(2);
    states.pop_vehicles(2);
    states.set_fitness(VehicleID(1), 321, false);
    let done = states.finalize_vehicle(VehicleID(1));
    assert_eq!(done.vehicle, marked_vehicle(1));
    assert_eq!(done.fitness, 321);
    assert!(!done.repeated);
    states.set_fitness(VehicleID(1), 654, false);
    let again = states.finalize_vehicle(VehicleID(1));
    assert_eq!(again.vehicle, marked_vehicle(1));
    assert_eq!(again.fitness, 654);
    assert!(again.repeated);
    assert_eq!(statuses(&states), vec![VehicleStatus::Running, VehicleStatus::Done]);
    let untouched = states.finalize_vehicle(VehicleID(0));
    assert_eq!(untouched.fitness, i64::MIN);
}

#[test]
fn camera_follows_the_fittest_running_slot() {
    let mut states = ledger_of(5);
    assert_eq!(states.mark_camera_target(), None);
    states.pop_vehicles(4);
    states.set_fitness(VehicleID(0), 10, false);
    states.set_fitness(VehicleID(1), 70, false);
    states.set_fitness(VehicleID(2), 70, false);
    states.set_fitness(VehicleID(3), 900, false);
    states.finalize_vehicle(VehicleID(3));
    assert_eq!(states.mark_camera_target(), Some(VehicleID(2)));
    let flags: Vec<bool> =
        states.get_vehicle_states().iter().map(|state| state.is_camera_target).collect();
    assert_eq!(flags, vec![false, false, true, false, false]);
    states.set_fitness(VehicleID(0), 71, false);
    assert_eq!(states.mark_camera_target(), Some(VehicleID(0)));
    let flags: Vec<bool> =
        states.get_vehicle_states().iter().map(|state| state.is_camera_target).collect();
    assert_eq!(flags, vec![true, false, false, false, false]);
}

#[test]
fn a_cloned_ledger_is_its_own() {
    let mut states = ledger_of(2);
    let copy = states.clone();
    states.pop_vehicles(2);
    assert_eq!(statuses(&copy), vec![VehicleStatus::Pending; 2]);
    assert_eq!(copy.get_vehicle_states()[1].vehicle, marked_vehicle(1));
}

#[test]
fn slots_are_written_with_their_signs() {
    let mut states = ledger_of(3);
    assert_eq!(states.get_vehicle_states()[0].to_text(), "🕒");
    states.pop_vehicles(2);
    states.set_fitness(VehicleID(0), 42, false);
    states.set_fitness(VehicleID(1), 14400, true);
    states.mark_camera_target();
    states.finalize_vehicle(VehicleID(0));
    let slots = states.get_vehicle_states();
    assert_eq!(slots[0].to_text(), "✅ fitness =    42      ");
    assert_eq!(slots[1].to_text(), "🔄 fitness = 14400 🏁 ❌ 🔆");
    assert_eq!(slots[2].to_text(), "🕒");
    assert_eq!(slots[1].to_text_with("x"), "🔄 fitness = x 🏁 ❌ 🔆");
    for fitness in [0i64, -1, 7, -12345, 123456, i64::MIN, i64::MAX] {
        let mut state = VehicleState::from(marked_vehicle(0));
        state.status = VehicleStatus::Running;
        state.fitness = fitness;
        assert_eq!(state.to_text(), format!("🔄 fitness = {:#5}      ", fitness));
        state.fell_apart = true;
        assert_eq!(state.to_text(), format!("🔄 fitness = {:#5}   ❌  ", fitness));
    }
}

#[test]
fn slots_have_a_collision_group_of_one_bit() {
    assert_eq!(COLLISION_GROUPS, 32);
    assert_eq!(VehicleID(0).collision_group(), Some(1));
    assert_eq!(VehicleID(1).collision_group(), Some(2));
    assert_eq!(VehicleID(5).collision_group(), Some(32));
    assert_eq!(VehicleID(31).collision_group(), Some(0x8000_0000));
    assert_eq!(VehicleID(32).collision_group(), None);
    assert_eq!(VehicleID(usize::MAX).collision_group(), None);
}
