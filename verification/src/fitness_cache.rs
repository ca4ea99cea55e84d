use vstd::prelude::*;
use dashmap::DashMap;
use crate::block::Block;
use crate::genome_key::{genome_key, key_identifies_genome, KEY_LIMIT};
use crate::vehicle::{is_vehicle_grid, Vehicle};

verus! {

/// `dashmap::DashMap`, of which `cache_entries` says what it holds.
#[verifier::external_type_specification]
#[verifier::external_body]
#[verifier::reject_recursive_types(K)]
#[verifier::reject_recursive_types(V)]
#[verifier::reject_recursive_types(S)]
pub struct ExDashMap<K, V, S>(DashMap<K, V, S>);

/// What a map from keys to fitness holds.
pub uninterp spec fn cache_entries(map: DashMap<u128, i64>) -> Map<u128, i64>;

/// The entries of a map that holds nothing.
pub open spec fn no_entries() -> Map<u128, i64> {
    Map::empty()
}

/// Calls `DashMap::new`. Claimed of it: the new map holds nothing.
#[verifier::external_body]
fn map_new() -> (map: DashMap<u128, i64>)
    ensures
        cache_entries(map) == no_entries(),
{
    DashMap::new()
}

/// Calls `DashMap::insert`.
///
/// Claimed of it: afterwards the key has the new value and every other key
/// what it had; the value that the key had before comes back, and `None` if it
/// had none.
#[verifier::external_body]
fn map_insert(map: &mut DashMap<u128, i64>, key: u128, value: i64) -> (previous: Option<i64>)
    ensures
        cache_entries(*final(map)) == cache_entries(*old(map)).insert(key, value),
        previous == cache_entries(*old(map)).get(key),
    no_unwind
{
    map.insert(key, value)
}

/// Calls `DashMap::get` and copies the value out of the reference.
///
/// Claimed of it: the value of the key comes back, and `None` if it has none.
#[verifier::external_body]
fn map_get(map: &DashMap<u128, i64>, key: u128) -> (value: Option<i64>)
    ensures
        value == cache_entries(*map).get(key),
{
    map.get(&key).map(|entry| *entry.value())
}

/// Calls `DashMap::len`. Claimed of it: it counts the keys.
#[verifier::external_body]
fn map_len(map: &DashMap<u128, i64>) -> (n: usize)
    requires
        cache_entries(*map).dom().finite(),
    ensures
        n == cache_entries(*map).dom().len(),
{
    map.len()
}

/// Calls `DashMap::iter` and copies each key with its value.
///
/// Claimed of it: every pair that comes is held by the map, and every key of
/// the map comes. Nothing is claimed of the order.
#[verifier::external_body]
fn map_pairs(map: &DashMap<u128, i64>) -> (pairs: Vec<(u128, i64)>)
    ensures
        forall|i: int|
            0 <= i < pairs@.len() ==> cache_entries(*map).contains_pair(
                (#[trigger] pairs@[i]).0,
                pairs@[i].1,
            ),
        forall|key: u128| #[trigger]
            cache_entries(*map).contains_key(key) ==> exists|i: int|
                0 <= i < pairs@.len() && (#[trigger] pairs@[i]).0 == key,
{
    map.iter().map(|entry| (*entry.key(), *entry.value())).collect()
}

/// The cache of every fitness that was ever measured, filed under the key of
/// the vehicle. Vehicles with the same blocks in the same places share one
/// entry, whenever and wherever they were made. Entries are never removed.
pub struct FitnessCache {
    map: DashMap<u128, i64>,
}

impl View for FitnessCache {
    type V = Map<u128, i64>;

    /// The fitness on file under each key.
    closed spec fn view(&self) -> Map<u128, i64> {
        cache_entries(self.map)
    }
}

/// The fitness that `entries` holds for a grid, if any.
pub open spec fn fitness_on_file(entries: Map<u128, i64>, grid: Seq<Seq<Block>>) -> Option<i64> {
    entries.get(genome_key(grid) as u128)
}

/// `best` is an entry of greatest fitness.
pub open spec fn is_best_entry(entries: Map<u128, i64>, key: u128, fitness: i64) -> bool {
    &&& entries.contains_pair(key, fitness)
    &&& forall|other: u128| #[trigger] entries.contains_key(other) ==> entries[other] <= fitness
}

/// After a fitness was filed for one grid, that grid has it and every other
/// grid has what it had: no two different grids share an entry.
pub proof fn filing_touches_one_genome(
    entries: Map<u128, i64>,
    filed: Seq<Seq<Block>>,
    fitness: i64,
    asked: Seq<Seq<Block>>,
)
    requires
        is_vehicle_grid(filed),
        is_vehicle_grid(asked),
    ensures
        fitness_on_file(entries.insert(genome_key(filed) as u128, fitness), asked) == if asked
            == filed {
            Some(fitness)
        } else {
            fitness_on_file(entries, asked)
        },
{
    key_identifies_genome(filed, asked);
    key_identifies_genome(asked, filed);
}

impl FitnessCache {
    /// Every key on file is the key of a vehicle, and they are finitely many.
    #[verifier::type_invariant]
    pub open spec fn well_formed(self) -> bool {
        &&& self@.dom().finite()
        &&& forall|key: u128| #[trigger] self@.contains_key(key) ==> key < KEY_LIMIT
    }

    /// An empty cache.
    pub fn new() -> (cache: FitnessCache)
        ensures
            cache@ == no_entries(),
    {
        FitnessCache { map: map_new() }
    }

    /// Files a fitness for a vehicle. An earlier fitness of the same vehicle is
    /// overwritten and comes back, so that the caller can tell a vehicle that
    /// was scored twice.
    pub fn insert(&mut self, vehicle: &Vehicle, fitness: i64) -> (previous: Option<i64>)
        ensures
            final(self)@ == old(self)@.insert(genome_key(vehicle@) as u128, fitness),
            previous == fitness_on_file(old(self)@, vehicle@),
    {
        proof {
            use_type_invariant(&*self);
        }
        let key: u128 = vehicle.key();
        map_insert(&mut self.map, key, fitness)
    }

    /// The fitness on file for a vehicle, if any.
    pub fn get(&self, vehicle: &Vehicle) -> (fitness: Option<i64>)
        ensures
            fitness == fitness_on_file(self@, vehicle@),
    {
        map_get(&self.map, vehicle.key())
    }

    /// Whether a fitness is on file for a vehicle.
    pub fn contains_key(&self, vehicle: &Vehicle) -> (found: bool)
        ensures
            found == fitness_on_file(self@, vehicle@).is_some(),
    {
        map_get(&self.map, vehicle.key()).is_some()
    }

    /// How many different vehicles have a fitness on file.
    pub fn len(&self) -> (n: usize)
        ensures
            n == self@.dom().len(),
    {
        proof {
            use_type_invariant(self);
        }
        map_len(&self.map)
    }

    /// A vehicle of greatest fitness on file, with that fitness; `None` for an
    /// empty cache. Which one of several best vehicles comes is not fixed.
    pub fn best(&self) -> (best: Option<(Vehicle, i64)>)
        ensures
            best is None <==> self@.dom() == Set::<u128>::empty(),
            best matches Some(found) ==> is_best_entry(
                self@,
                genome_key(found.0@) as u128,
                found.1,
            ) && is_vehicle_grid(found.0@),
    {
        proof {
            use_type_invariant(self);
        }
        let pairs = map_pairs(&self.map);
        if pairs.len() == 0 {
            assert(self@.dom() =~= Set::<u128>::empty());
            return None;
        }
        let mut leader: usize = 0;
        let mut i: usize = 1;
        while i < pairs.len()
            invariant
                1 <= i <= pairs@.len(),
                leader < i,
                forall|j: int| 0 <= j < i ==> (#[trigger] pairs@[j]).1 <= pairs@[leader as int].1,
            decreases pairs@.len() - i,
        {
            if pairs[i].1 >= pairs[leader].1 {
                leader = i;
            }
            i += 1;
        }
        let key: u128 = pairs[leader].0;
        let fitness: i64 = pairs[leader].1;
        proof {
            assert(self@.contains_pair(pairs@[leader as int].0, pairs@[leader as int].1));
            assert(self@.dom().contains(key));
            assert forall|other: u128| #[trigger] self@.contains_key(other) implies self@[other]
                <= fitness by {
                let j = choose|j: int| 0 <= j < pairs@.len() && (#[trigger] pairs@[j]).0 == other;
                assert(self@.contains_pair(pairs@[j].0, pairs@[j].1));
            }
        }
        match Vehicle::from_key(key) {
            Some(vehicle) => Some((vehicle, fitness)),
            None => vstd::pervasive::unreached(),
        }
    }
}

} // verus!
