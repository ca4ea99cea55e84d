use vstd::prelude::*;
use crate::block::Block;
use crate::fitness_cache::{is_best_entry, no_entries, FitnessCache};
use crate::genetics_simulator::{
    all_scored, filled_from, is_next_generation, is_statistics_of, none_scored, unscored,
    GeneticsSimulator, Row,
};
use crate::genome_key::genome_key;
use crate::vehicle::{is_vehicle_grid, Vehicle};
use crate::vehicle_states::{
    fresh_slot, with_status, SlotView, VehicleID, VehicleStates, VehicleStatus,
};

verus! {

/// The size of the population that a simulation starts with.
pub const INITIAL_POPULATION: usize = 24;

/// How far apart the blocks of a vehicle may lie along the track before the
/// vehicle counts as fallen apart.
pub const MAX_SPREAD: i64 = 1000;

/// The settings that the engine and the ledger read.
#[derive(Clone, Copy, Debug, PartialEq, Eq, Structural)]
pub struct SimulationParams {
    /// How many slots may run at once.
    pub max_simultaneous_vehicles: u32,
    /// How many rows are drawn for each tournament.
    pub tournament_k: u32,
    /// How many cells of each child are mutated.
    pub mutation_amount: u32,
    /// The elitism mode: every next population is made of copies of the best
    /// vehicle that was ever scored.
    pub place_only_best_vehicle: bool,
}

impl Default for SimulationParams {
    fn default() -> (params: SimulationParams)
        ensures
            params == (SimulationParams {
                max_simultaneous_vehicles: 30,
                tournament_k: 10,
                mutation_amount: 1,
                place_only_best_vehicle: false,
            }),
    {
        SimulationParams {
            max_simultaneous_vehicles: 30,
            tournament_k: 10,
            mutation_amount: 1,
            place_only_best_vehicle: false,
        }
    }
}

/// The population is made of copies of one vehicle of greatest fitness on
/// file, none with a fitness.
pub open spec fn is_elite_population(entries: Map<u128, i64>, rows: Seq<Row>) -> bool {
    exists|best: Seq<Seq<Block>>, fitness: i64|
        is_vehicle_grid(best) && #[trigger] is_best_entry(
            entries,
            genome_key(best) as u128,
            fitness,
        ) && forall|i: int| 0 <= i < rows.len() ==> #[trigger] rows[i] == (best, None::<i64>)
}

/// The ledger is the fresh ledger of the population: one pending slot for
/// each row, with the vehicle of that row.
pub open spec fn is_fresh_ledger(slots: Seq<SlotView>, rows: Seq<Row>) -> bool {
    &&& slots.len() == rows.len()
    &&& forall|i: int| 0 <= i < rows.len() ==> #[trigger] slots[i] == fresh_slot(rows[i].0)
}

/// The slots after the slots that `ids` names were finalized.
pub open spec fn after_finalizing(slots: Seq<SlotView>, ids: Seq<VehicleID>) -> Seq<SlotView> {
    Seq::new(
        slots.len(),
        |i: int|
            if ids.map_values(|id: VehicleID| id.0 as int).contains(i) {
                with_status(slots[i], VehicleStatus::Done)
            } else {
                slots[i]
            },
    )
}

/// The key under which the result of a slot is filed.
pub open spec fn slot_key(slots: Seq<SlotView>, id: VehicleID) -> u128 {
    genome_key(slots[id.0 as int].vehicle) as u128
}

/// The cache after the results of the slots that `ids` names were filed, in
/// the order of `ids`.
pub open spec fn after_filing(
    entries: Map<u128, i64>,
    slots: Seq<SlotView>,
    ids: Seq<VehicleID>,
) -> Map<u128, i64>
    decreases ids.len(),
{
    if ids.len() == 0 {
        entries
    } else {
        after_filing(
            entries.insert(slot_key(slots, ids[0]), slots[ids[0].0 as int].fitness),
            slots,
            ids.drop_first(),
        )
    }
}

/// How many of those results were filed over an entry that was there already.
pub open spec fn overwrites(
    entries: Map<u128, i64>,
    slots: Seq<SlotView>,
    ids: Seq<VehicleID>,
) -> nat
    decreases ids.len(),
{
    if ids.len() == 0 {
        0
    } else {
        overwrites(
            entries.insert(slot_key(slots, ids[0]), slots[ids[0].0 as int].fitness),
            slots,
            ids.drop_first(),
        ) + if entries.contains_key(slot_key(slots, ids[0])) {
            1nat
        } else {
            0nat
        }
    }
}

/// A new simulation: an engine with a random population of
/// `INITIAL_POPULATION` vehicles, copies of those vehicles for the first
/// ledger, and an empty cache.
pub fn initialize_vehicle_sim() -> (made: (GeneticsSimulator, Vec<Vehicle>, FitnessCache))
    ensures
        made.0.population().len() == INITIAL_POPULATION,
        made.0.population() == unscored(made.1@),
        made.0.statistics().len() == 0,
        made.2@ == no_entries(),
{
    let vehicles_sim = GeneticsSimulator::new(INITIAL_POPULATION);
    let initial_population = vehicles_sim.get_population_vehicles();
    let fitness_map = FitnessCache::new();
    proof {
        assert forall|i: int| 0 <= i < vehicles_sim.population().len() implies #[trigger] unscored(
            initial_population@,
        )[i] == vehicles_sim.population()[i] by {
            assert(vehicles_sim.population()[i].1 is None);
        }
        assert(vehicles_sim.population() =~= unscored(initial_population@));
    }
    (vehicles_sim, initial_population, fitness_map)
}

/// Closes the slots of a batch that has run and files their results.
///
/// Each slot that `ids` names is finalized, and its final fitness is filed in
/// the cache for its vehicle. The number that comes back says how many results
/// went over an entry that was on file already: a vehicle that was scored twice.
pub fn finalize_batch(
    vehicle_states: &mut VehicleStates,
    ids: &Vec<VehicleID>,
    map: &mut FitnessCache,
) -> (overwritten: usize)
    requires
        forall|j: int|
            0 <= j < ids@.len() ==> (#[trigger] ids@[j]).0 < old(vehicle_states)@.len() && old(
                vehicle_states,
            )@[ids@[j].0 as int].status != VehicleStatus::Pending,
    ensures
        final(vehicle_states)@ == after_finalizing(old(vehicle_states)@, ids@),
        final(map)@ == after_filing(old(map)@, old(vehicle_states)@, ids@),
        overwritten == overwrites(old(map)@, old(vehicle_states)@, ids@),
{
    let ghost slots = vehicle_states@;
    let ghost entries = map@;
    let mut overwritten: usize = 0;
    let mut j: usize = 0;
    proof {
        assert(ids@.skip(0) =~= ids@);
        assert(ids@.take(0).map_values(|id: VehicleID| id.0 as int) =~= Seq::<int>::empty());
        assert(vehicle_states@ =~= after_finalizing(slots, ids@.take(0)));
    }
    while j < ids.len()
        invariant
            j <= ids@.len(),
            overwritten <= j,
            forall|i: int|
                0 <= i < ids@.len() ==> (#[trigger] ids@[i]).0 < slots.len()
                    && slots[ids@[i].0 as int].status != VehicleStatus::Pending,
            vehicle_states@ == after_finalizing(slots, ids@.take(j as int)),
            after_filing(map@, slots, ids@.skip(j as int)) == after_filing(entries, slots, ids@),
            overwritten + overwrites(map@, slots, ids@.skip(j as int)) == overwrites(
                entries,
                slots,
                ids@,
            ),
        decreases ids@.len() - j,
    {
        let id = ids[j];
        let ghost states_before = vehicle_states@;
        let done = vehicle_states.finalize_vehicle(id);
        let previous = map.insert(&done.vehicle, done.fitness);
        proof {
            let rest = ids@.skip(j as int);
            assert(rest[0] == id);
            assert(rest.drop_first() =~= ids@.skip(j as int + 1));
            assert(states_before[id.0 as int].vehicle == slots[id.0 as int].vehicle);
            assert(states_before[id.0 as int].fitness == slots[id.0 as int].fitness);
            let earlier = ids@.take(j as int).map_values(|id: VehicleID| id.0 as int);
            let now = ids@.take(j as int + 1).map_values(|id: VehicleID| id.0 as int);
            assert(now =~= earlier.push(id.0 as int));
            assert forall|i: int| 0 <= i < slots.len() implies #[trigger] vehicle_states@[i]
                == after_finalizing(slots, ids@.take(j as int + 1))[i] by {
                if i == id.0 {
                    assert(now[j as int] == i);
                } else {
                    if earlier.contains(i) {
                        let w = choose|w: int| 0 <= w < earlier.len() && earlier[w] == i;
                        assert(now[w] == i);
                    }
                    if now.contains(i) {
                        let w = choose|w: int| 0 <= w < now.len() && now[w] == i;
                        assert(earlier[w] == i);
                    }
                }
            }
            assert(vehicle_states@ =~= after_finalizing(slots, ids@.take(j as int + 1)));
        }
        if previous.is_some() {
            overwritten += 1;
        }
        j += 1;
    }
    overwritten
}

/// Whether a vehicle fell apart: some two of its blocks lie further apart
/// along the track than `MAX_SPREAD`.
pub fn fell_apart(positions: &Vec<i64>) -> (apart: bool)
    ensures
        apart == exists|i: int, j: int|
            #![trigger positions@[i], positions@[j]]
            0 <= i < positions@.len() && 0 <= j < positions@.len() && positions@[i]
                - positions@[j] > MAX_SPREAD,
{
    if positions.len() == 0 {
        return false;
    }
    let mut low: usize = 0;
    let mut high: usize = 0;
    let mut i: usize = 1;
    while i < positions.len()
        invariant
            1 <= i <= positions@.len(),
            low < i,
            high < i,
            forall|j: int| 0 <= j < i ==> positions@[low as int] <= #[trigger] positions@[j],
            forall|j: int| 0 <= j < i ==> positions@[high as int] >= #[trigger] positions@[j],
        decreases positions@.len() - i,
    {
        if positions[i] < positions[low] {
            low = i;
        }
        if positions[i] > positions[high] {
            high = i;
        }
        i += 1;
    }
    let spread: i128 = positions[high] as i128 - positions[low] as i128;
    spread > MAX_SPREAD as i128
}

/// The generation boundary. While some slot of the ledger is not done nothing
/// happens. Once all are done, the engine reads the fitness of its population
/// from the cache and steps to the next generation; in the elitism mode the
/// new population is then replaced by copies of a best vehicle on file. The
/// ledger is replaced by the fresh ledger of the new population.
pub fn evolve_if_finished(
    sim: &mut GeneticsSimulator,
    vehicle_states: &mut VehicleStates,
    map: &FitnessCache,
    params: &SimulationParams,
) -> (evolved: bool)
    requires
        old(vehicle_states).spec_all_done() ==> all_scored(
            filled_from(old(sim).population(), map@),
        ) && 2 <= params.tournament_k <= old(sim).population().len(),
    ensures
        evolved == old(vehicle_states).spec_all_done(),
        !evolved ==> final(sim).population() == old(sim).population() && final(sim).statistics()
            == old(sim).statistics() && final(vehicle_states)@ == old(vehicle_states)@,
        evolved ==> {
            &&& final(sim).statistics().len() == old(sim).statistics().len() + 1
            &&& final(sim).statistics().drop_last() == old(sim).statistics()
            &&& is_statistics_of(
                filled_from(old(sim).population(), map@),
                final(sim).statistics().last(),
            )
            &&& final(sim).population().len() == old(sim).population().len()
            &&& none_scored(final(sim).population())
            &&& if params.place_only_best_vehicle {
                is_elite_population(map@, final(sim).population())
            } else {
                is_next_generation(
                    filled_from(old(sim).population(), map@),
                    final(sim).population(),
                    params.tournament_k as nat,
                    params.mutation_amount as nat,
                )
            }
            &&& is_fresh_ledger(final(vehicle_states)@, final(sim).population())
        },
{
    if !vehicle_states.all_done() {
        return false;
    }
    sim.fill_in_fitness(map);
    let ghost scored = sim.population();
    sim.step(params);
    if params.place_only_best_vehicle {
        let pop_size: usize = sim.get_population().len();
        let best = match map.best() {
            Some(best) => best,
            None => {
                proof {
                    assert(scored[0].1 is Some);
                    assert(map@.dom().contains(genome_key(scored[0].0) as u128));
                }
                vstd::pervasive::unreached()
            },
        };
        let mut copies: Vec<Vehicle> = Vec::new();
        let mut i: usize = 0;
        while i < pop_size
            invariant
                i <= pop_size,
                copies@.len() == i,
                forall|j: int| 0 <= j < i ==> (#[trigger] copies@[j])@ == best.0@,
            decreases pop_size - i,
        {
            copies.push(best.0.clone());
            i += 1;
        }
        sim.overwrite_population(copies);
        proof {
            assert(is_best_entry(map@, genome_key(best.0@) as u128, best.1));
            assert forall|i: int|
                0 <= i < sim.population().len() implies #[trigger] sim.population()[i] == (
                best.0@,
                None::<i64>,
            ) by {
                assert(sim.population()[i] == unscored(copies@)[i]);
            }
        }
    }
    let vehicles = sim.get_population_vehicles();
    *vehicle_states = VehicleStates::from(vehicles);
    true
}

} // verus!
