use vehicle_evolver::block::Block;
use vehicle_evolver::fitness_cache::FitnessCache;
use vehicle_evolver::genetics::SimulationParams;
use vehicle_evolver::genetics_simulator::{
    Average, GenerationalStatistics, GeneticsSimulator, Pop, MAX_POPULATION,
};
use vehicle_evolver::vehicle::Vehicle;

fn numbered_vehicle(place: usize) -> Vehicle {
    let mut cells = vec![Block::Air; 48];
    cells[place] = Block::Wheel;
    Vehicle::from(cells)
}

fn engine_with_fitness(fitness: &[i64]) -> GeneticsSimulator {
    let mut sim = GeneticsSimulator::new(fitness.len());
    let vehicles: Vec<Vehicle> = (0..fitness.len()).map(numbered_vehicle).collect();
    let mut cache = FitnessCache::new();
    for (vehicle, value) in vehicles.iter().zip(fitness) {
        cache.insert(vehicle, *value);
    }
    sim.overwrite_population(vehicles);
    sim.fill_in_fitness(&cache);
    sim
}

fn params_with(tournament_k: u32, mutation_amount: u32) -> SimulationParams {
    SimulationParams {
        max_simultaneous_vehicles: 30,
        tournament_k,
        mutation_amount,
        place_only_best_vehicle: false,
    }
}

fn mean_of(average: Average) -> f64 {
    average.total as f64 / average.count as f64
}

fn differing(a: &Vehicle, b: &Vehicle) -> usize {
    a.to_cells().iter().zip(b.to_cells().iter()).filter(|(x, y)| x != y).count()
}

#[test]
fn new_engine_has_an_unscored_population() {
    assert_eq!(MAX_POPULATION, 0x0fff_ffff);
    let sim = GeneticsSimulator::new(6);
    assert_eq!(sim.get_population().len(), 6);
    assert!(sim.get_population().iter().all(|row| row.1.is_none()));
    assert!(sim.get_generational_statistics().is_empty());
    assert_eq!(sim.get_population_vehicles().len(), 6);
    assert!(!sim.is_filled());
    let empty = GeneticsSimulator::new(0);
    assert!(empty.get_population().is_empty());
    assert!(empty.is_filled());
}

#[test]
fn population_vehicles_are_the_rows_in_order() {
    let sim = engine_with_fitness(&[1, 2, 3, 4]);
    let vehicles = sim.get_population_vehicles();
    for (i, vehicle) in vehicles.iter().enumerate() {
        assert_eq!(*vehicle, numbered_vehicle(i));
        assert_eq!(sim.get_population()[i].0, numbered_vehicle(i));
    }
}

#[test]
fn fill_takes_what_is_on_file_and_nothing_else() {
    let mut sim = GeneticsSimulator::new(4);
    sim.overwrite_population((0..4).map(numbered_vehicle).collect());
    let mut cache = FitnessCache::new();
    cache.insert(&numbered_vehicle(0), 11);
    cache.insert(&numbered_vehicle(2), -5);
    cache.insert(&numbered_vehicle(40), 99);
    sim.fill_in_fitness(&cache);
    let fitness: Vec<Option<i64>> = sim.get_population().iter().map(|row| row.1).collect();
    assert_eq!(fitness, vec![Some(11), None, Some(-5), None]);
    assert!(!sim.is_filled());
    // A later fill with an emptier cache takes a fitness away again.
    sim.fill_in_fitness(&FitnessCache::new());
    assert!(sim.get_population().iter().all(|row| row.1.is_none()));
    cache.insert(&numbered_vehicle(1), 0);
    cache.insert(&numbered_vehicle(3), 0);
    sim.fill_in_fitness(&cache);
    assert!(sim.is_filled());
}

#[test]
fn statistics_of_a_filled_population() {
    let sim = engine_with_fitness(&[100, 300, 200, 400]);
    let mean = sim.avg_fitness();
    assert_eq!(mean, Average { total: 1000, count: 4 });
    assert_eq!(mean_of(mean), 250.0);
    assert_eq!(sim.max_fitness(), 400);
    let sim = engine_with_fitness(&[-3, -9]);
    assert_eq!(sim.avg_fitness(), Average { total: -12, count: 2 });
    assert_eq!(sim.max_fitness(), -3);
    let sim = engine_with_fitness(&[i64::MAX, i64::MAX, i64::MIN, i64::MAX]);
    assert_eq!(
        sim.avg_fitness(),
        Average { total: 3 * (i64::MAX as i128) + i64::MIN as i128, count: 4 }
    );
    assert_eq!(sim.max_fitness(), i64::MAX);
}

#[test]
fn step_logs_the_statistics_of_the_population_before() {
    let mut sim = engine_with_fitness(&[100, 300, 200, 400]);
    sim.step(&params_with(2, 1));
    let log = sim.get_generational_statistics();
    assert_eq!(log.len(), 1);
    assert_eq!(
        log[0],
        GenerationalStatistics::new(Average { total: 1000, count: 4 }, 400)
    );
    assert_eq!(mean_of(log[0].avg_fitness), 250.0);
    assert_eq!(log[0].max_fitness, 400);
}

#[test]
fn end_to_end_scenario() {
    let mut sim = engine_with_fitness(&[10, 50, 30, 90]);
    sim.step(&params_with(2, 1));
    let log = sim.get_generational_statistics();
    assert_eq!(log.len(), 1);
    assert_eq!(mean_of(log[0].avg_fitness), 45.0);
    assert_eq!(log[0].max_fitness as f64, 90.0);
    assert_eq!(sim.get_population().len(), 4);
    assert!(sim.get_population().iter().all(|row| row.1.is_none()));
}

#[test]
fn steps_append_to_the_log_in_order() {
    let mut sim = engine_with_fitness(&[1, 2, 3, 4, 5, 6]);
    sim.step(&params_with(3, 0));
    let mut cache = FitnessCache::new();
    for vehicle in sim.get_population_vehicles() {
        cache.insert(&vehicle, 7);
    }
    sim.fill_in_fitness(&cache);
    sim.step(&params_with(6, 2));
    let log = sim.get_generational_statistics();
    assert_eq!(log.len(), 2);
    assert_eq!(log[0], GenerationalStatistics::new(Average { total: 21, count: 6 }, 6));
    assert_eq!(log[1], GenerationalStatistics::new(Average { total: 42, count: 6 }, 7));
    assert_eq!(sim.get_population().len(), 6);
}

#[test]
fn step_without_mutation_deals_out_parent_columns() {
    // With no mutation every child is a crossover of two population rows: in
    // each column it has the blocks of one of them.
    let mut sim = engine_with_fitness(&[5, 6, 7, 8]);
    let parents = sim.get_population_vehicles();
    sim.step(&params_with(2, 0));
    for (child, fitness) in sim.get_population() {
        assert_eq!(*fitness, None);
        let wheels = child.to_cells().iter().filter(|cell| **cell == Block::Wheel).count();
        assert!(wheels <= 2);
        for cell in child.to_cells() {
            assert_ne!(cell, Block::Panel);
        }
        assert!(parents.iter().any(|parent| differing(parent, child) <= 2));
    }
}

#[test]
fn overwrite_replaces_every_row_and_keeps_the_log() {
    let mut sim = engine_with_fitness(&[1, 2]);
    sim.step(&params_with(2, 1));
    sim.overwrite_population(vec![numbered_vehicle(9), numbered_vehicle(8)]);
    assert_eq!(sim.get_population().len(), 2);
    assert_eq!(sim.get_population()[0], (numbered_vehicle(9), None));
    assert_eq!(sim.get_population()[1], (numbered_vehicle(8), None));
    assert_eq!(sim.get_generational_statistics().len(), 1);
}

#[test]
fn full_tournament_returns_the_global_maximum() {
    let sim = engine_with_fitness(&[10, 50, 30, 90, 20, 60]);
    for winner in sim.tournament_selection(6, 6) {
        assert_eq!(winner, (numbered_vehicle(3), Some(90)));
    }
    // More tournaments than rows, each over all rows.
    let winners = sim.tournament_selection(9, 11);
    assert_eq!(winners.len(), 11);
    for winner in winners {
        assert_eq!(winner.1, Some(90));
    }
}

#[test]
fn tournament_winners_are_rows_above_the_minimum() {
    let fitness = [10, 50, 30, 90, 20, 60];
    let sim = engine_with_fitness(&fitness);
    for k in 2..=6 {
        let winners = sim.tournament_selection(k, 40);
        assert_eq!(winners.len(), 40);
        for (vehicle, won) in winners {
            let won = won.unwrap();
            assert!(won >= 10);
            let place = fitness.iter().position(|f| *f == won).unwrap();
            assert_eq!(vehicle, numbered_vehicle(place));
            // The winner beats k - 1 other rows, so it is not among the k - 1 least.
            let below = fitness.iter().filter(|f| **f < won).count();
            assert!(below >= k - 1);
        }
    }
}

#[test]
fn tournament_winner_is_the_last_of_the_best_drawn() {
    let sim = engine_with_fitness(&[7, 9, 9, 1]);
    assert_eq!(sim.tournament_winner(&vec![0]), 0);
    assert_eq!(sim.tournament_winner(&vec![3, 0]), 1);
    assert_eq!(sim.tournament_winner(&vec![0, 3]), 0);
    assert_eq!(sim.tournament_winner(&vec![1, 0, 2, 3]), 2);
    assert_eq!(sim.tournament_winner(&vec![2, 3, 1, 0]), 2);
    assert_eq!(sim.tournament_winner(&vec![3, 1]), 1);
}

#[test]
fn candidates_come_from_overlapping_pairs() {
    let parents: Pop = vec![
        (Vehicle::new_fill_with(Block::Air), Some(1)),
        (Vehicle::new_fill_with(Block::Panel), Some(2)),
        (Vehicle::new_fill_with(Block::Wheel), Some(3)),
        (Vehicle::new_fill_with(Block::Air), Some(4)),
    ];
    let pool = GeneticsSimulator::candidates(&parents, &vec![1, 4, 7]);
    assert_eq!(pool.len(), 6);
    let expected = [
        (Block::Air, Block::Panel, 1),
        (Block::Panel, Block::Air, 1),
        (Block::Panel, Block::Wheel, 4),
        (Block::Wheel, Block::Panel, 4),
        (Block::Wheel, Block::Air, 7),
        (Block::Air, Block::Wheel, 7),
    ];
    for (candidate, (left, right, cut)) in pool.iter().zip(expected) {
        for row in 0..6 {
            for col in 0..8 {
                let want = if col < cut { left } else { right };
                assert_eq!(candidate.block_at(row, col), want);
            }
        }
    }
    assert_eq!(GeneticsSimulator::candidates(&Vec::new(), &Vec::new()).len(), 0);
    let picked = GeneticsSimulator::pick_children(&pool, &vec![5, 0]);
    assert_eq!(picked.len(), 2);
    assert_eq!(picked[0], (pool[5].clone(), None));
    assert_eq!(picked[1], (pool[0].clone(), None));
}

#[test]
fn crossover_returns_as_many_children_as_parents() {
    let mut sim = GeneticsSimulator::new(2);
    for n in [0usize, 2, 4, 10, 24] {
        let parents: Pop = (0..n).map(|i| (numbered_vehicle(i), Some(i as i64))).collect();
        let children = sim.crossover(&parents);
        assert_eq!(children.len(), n);
        for (child, fitness) in &children {
            assert_eq!(*fitness, None);
            assert_eq!(child.to_cells().len(), 48);
            // A child of two neighbours has at most their two wheels.
            let wheels = child.to_cells().iter().filter(|cell| **cell == Block::Wheel).count();
            assert!(wheels <= 2);
        }
    }
    assert_eq!(sim.get_population().len(), 2);
}

#[test]
fn crossover_of_two_parents_returns_both_candidates() {
    let mut sim = GeneticsSimulator::new(0);
    let parents: Pop = vec![
        (Vehicle::new_fill_with(Block::Panel), None),
        (Vehicle::new_fill_with(Block::Wheel), None),
    ];
    for _ in 0..10 {
        let children = sim.crossover(&parents);
        assert_eq!(children.len(), 2);
        // Two candidates, two children, none twice: the children are complements.
        for row in 0..6 {
            for col in 0..8 {
                assert_ne!(children[0].0.block_at(row, col), children[1].0.block_at(row, col));
            }
        }
    }
}

#[test]
fn mutate_all_mutates_each_child_within_the_amount() {
    let given: Pop = (0..6).map(|i| (numbered_vehicle(i), Some(i as i64))).collect();
    let mut children = given.clone();
    GeneticsSimulator::mutate_all(&mut children, 3);
    assert_eq!(children.len(), 6);
    for (before, after) in given.iter().zip(children.iter()) {
        assert!(differing(&before.0, &after.0) <= 3);
        assert_eq!(before.1, after.1);
    }
    let mut same = given.clone();
    GeneticsSimulator::mutate_all(&mut same, 0);
    assert_eq!(same, given);
}

#[test]
fn crossover_cuts_vary() {
    let mut sim = GeneticsSimulator::new(0);
    let parents: Pop = vec![
        (Vehicle::new_fill_with(Block::Panel), None),
        (Vehicle::new_fill_with(Block::Wheel), None),
    ];
    let mut seen = [false; 9];
    for _ in 0..80 {
        let children = sim.crossover(&parents);
        let panels = (0..8).filter(|col| children[0].0.block_at(0, *col) == Block::Panel).count();
        // The cut leaves at least one column to either parent.
        assert!(1 <= panels && panels <= 7);
        seen[panels] = true;
    }
    assert!(seen.iter().filter(|hit| **hit).count() > 2);
}
