use vstd::prelude::*;
use rand::thread_rng;
use crate::block::Block;
use crate::chance::{pick_between, pick_distinct, PICK_LIMIT};
use crate::fitness_cache::{fitness_on_file, FitnessCache};
use crate::genetics::SimulationParams;
use crate::vehicle::{is_mutation, is_vehicle_grid, spliced, Vehicle, VEHICLE_COLUMNS};

verus! {

/// The largest population that the engine takes.
///
/// A tournament and the choice of the children each draw up to a whole
/// population of indices at once, which `PICK_LIMIT` bounds.
pub const MAX_POPULATION: usize = PICK_LIMIT;

/// A population: each vehicle with its fitness, where it is known.
pub type Pop = Vec<(Vehicle, Option<i64>)>;

/// A row of a population as contracts see it: the vehicle by its grid.
pub type Row = (Seq<Seq<Block>>, Option<i64>);

/// An arithmetic mean, kept exact: the total of the values and their number.
#[derive(Clone, Copy, Debug, PartialEq, Eq, Structural)]
pub struct Average {
    pub total: i128,
    pub count: usize,
}

/// What is logged of one generation.
#[derive(Clone, Copy, Debug, PartialEq, Eq, Structural)]
pub struct GenerationalStatistics {
    pub avg_fitness: Average,
    pub max_fitness: i64,
}

impl GenerationalStatistics {
    /// The entry with the given mean and greatest fitness.
    pub fn new(avg_fitness: Average, max_fitness: i64) -> (stats: GenerationalStatistics)
        ensures
            stats == (GenerationalStatistics { avg_fitness, max_fitness }),
    {
        GenerationalStatistics { avg_fitness, max_fitness }
    }
}

/// The rows of a population as contracts see them.
pub open spec fn rows_of(pop: Seq<(Vehicle, Option<i64>)>) -> Seq<Row> {
    pop.map_values(|row: (Vehicle, Option<i64>)| (row.0@, row.1))
}

/// Every row has a fitness.
pub open spec fn all_scored(rows: Seq<Row>) -> bool {
    forall|i: int| 0 <= i < rows.len() ==> (#[trigger] rows[i]).1 is Some
}

/// No row has a fitness.
pub open spec fn none_scored(rows: Seq<Row>) -> bool {
    forall|i: int| 0 <= i < rows.len() ==> (#[trigger] rows[i]).1 is None
}

/// Every row holds a grid of the vehicle shape.
pub open spec fn all_vehicles(rows: Seq<Row>) -> bool {
    forall|i: int| 0 <= i < rows.len() ==> is_vehicle_grid((#[trigger] rows[i]).0)
}

/// The fitness of a row that has one.
pub open spec fn fitness_of(row: Row) -> i64 {
    match row.1 {
        Some(fitness) => fitness,
        None => 0,
    }
}

/// The sum of the fitness of all rows.
pub open spec fn fitness_total(rows: Seq<Row>) -> int
    decreases rows.len(),
{
    if rows.len() == 0 {
        0
    } else {
        fitness_total(rows.drop_last()) + fitness_of(rows.last())
    }
}

/// `greatest` is the fitness of some row, and no row has more.
pub open spec fn is_greatest_fitness(rows: Seq<Row>, greatest: i64) -> bool {
    &&& exists|i: int| 0 <= i < rows.len() && fitness_of(#[trigger] rows[i]) == greatest
    &&& forall|i: int| 0 <= i < rows.len() ==> fitness_of(#[trigger] rows[i]) <= greatest
}

/// `least` is the fitness of some row, and no row has less.
pub open spec fn is_least_fitness(rows: Seq<Row>, least: i64) -> bool {
    &&& exists|i: int| 0 <= i < rows.len() && fitness_of(#[trigger] rows[i]) == least
    &&& forall|i: int| 0 <= i < rows.len() ==> fitness_of(#[trigger] rows[i]) >= least
}

/// `stats` is what is logged of a generation with these rows: the mean of
/// their fitness, as total and number, and the greatest fitness.
pub open spec fn is_statistics_of(rows: Seq<Row>, stats: GenerationalStatistics) -> bool {
    &&& stats.avg_fitness.total == fitness_total(rows)
    &&& stats.avg_fitness.count == rows.len()
    &&& is_greatest_fitness(rows, stats.max_fitness)
}

/// The rows that `vehicles` make as a new population: none has a fitness.
pub open spec fn unscored(vehicles: Seq<Vehicle>) -> Seq<Row> {
    vehicles.map_values(|vehicle: Vehicle| (vehicle@, None::<i64>))
}

/// The rows of a population after its fitness was read from the cache: every
/// row has what is on file for its vehicle, or nothing.
pub open spec fn filled_from(rows: Seq<Row>, entries: Map<u128, i64>) -> Seq<Row> {
    rows.map_values(|row: Row| (row.0, fitness_on_file(entries, row.0)))
}

/// The grids of a list of vehicles.
pub open spec fn grids_of(vehicles: Seq<Vehicle>) -> Seq<Seq<Seq<Block>>> {
    vehicles.map_values(|vehicle: Vehicle| vehicle@)
}

/// The indices that a tournament of size `k` may draw from `size` rows: `k`
/// different ones, or all of them where there are fewer.
pub open spec fn is_draw(draw: Seq<usize>, size: nat, k: nat) -> bool {
    &&& draw.len() == if k <= size {
        k
    } else {
        size
    }
    &&& draw.no_duplicates()
    &&& forall|i: int| 0 <= i < draw.len() ==> #[trigger] draw[i] < size
}

/// The row drawn at place `at` wins the tournament of the rows that `draw`
/// names: none of them has more fitness, and of those that have as much it
/// was drawn last.
pub open spec fn is_winner(rows: Seq<Row>, draw: Seq<usize>, at: int) -> bool {
    &&& 0 <= at < draw.len()
    &&& forall|q: int|
        0 <= q < draw.len() ==> fitness_of(rows[#[trigger] draw[q] as int]) <= fitness_of(
            rows[draw[at] as int],
        )
    &&& forall|q: int|
        at < q < draw.len() ==> fitness_of(rows[#[trigger] draw[q] as int]) < fitness_of(
            rows[draw[at] as int],
        )
}

/// `row` is what some tournament of size `k` over `rows` gives.
pub open spec fn is_tournament_win(rows: Seq<Row>, k: nat, row: Row) -> bool {
    exists|draw: Seq<usize>, at: int|
        is_draw(draw, rows.len(), k) && #[trigger] is_winner(rows, draw, at) && row
            == rows[draw[at] as int]
}

/// `chosen` is what `rounds` tournaments of size `k` over `rows` give.
pub open spec fn is_selection(rows: Seq<Row>, k: nat, rounds: nat, chosen: Seq<Row>) -> bool {
    &&& chosen.len() == rounds
    &&& forall|i: int| 0 <= i < rounds ==> is_tournament_win(rows, k, #[trigger] chosen[i])
}

/// How many candidates the crossover of `parents` rows makes: two for each
/// pair of neighbours.
pub open spec fn pool_size(parents: nat) -> nat {
    if parents == 0 {
        0
    } else {
        (2 * (parents - 1)) as nat
    }
}

/// One cut for each pair of neighbours among `parents` rows, each a column
/// that leaves something on both sides.
pub open spec fn are_cuts(cuts: Seq<usize>, parents: nat) -> bool {
    &&& cuts.len() == pool_size(parents) / 2
    &&& forall|i: int| 0 <= i < cuts.len() ==> 1 <= #[trigger] cuts[i] < VEHICLE_COLUMNS
}

/// The candidates of a crossover: for each parent and its next neighbour, in
/// the order of the parents, the two children of their one-point crossover at
/// the cut of that pair. Every parent but the first and the last is in two pairs.
pub open spec fn candidate_pool(parents: Seq<Row>, cuts: Seq<usize>) -> Seq<Seq<Seq<Block>>> {
    Seq::new(
        pool_size(parents.len()),
        |j: int|
            if j % 2 == 0 {
                spliced(parents[j / 2].0, parents[j / 2 + 1].0, cuts[j / 2] as int)
            } else {
                spliced(parents[j / 2 + 1].0, parents[j / 2].0, cuts[j / 2] as int)
            },
    )
}

/// The candidates that `picks` names, as rows without a fitness.
pub open spec fn picked_from(pool: Seq<Seq<Seq<Block>>>, picks: Seq<usize>) -> Seq<Row> {
    Seq::new(picks.len(), |i: int| (pool[picks[i] as int], None::<i64>))
}

/// `children` is what some crossover of `parents` gives: as many of the
/// candidates as there are parents, no candidate twice.
pub open spec fn is_offspring(parents: Seq<Row>, children: Seq<Row>) -> bool {
    exists|cuts: Seq<usize>, picks: Seq<usize>|
        are_cuts(cuts, parents.len()) && is_draw(picks, pool_size(parents.len()), parents.len())
            && children == #[trigger] picked_from(candidate_pool(parents, cuts), picks)
}

/// `after` is what some mutation of `amount` cells in every row makes of `before`.
pub open spec fn is_mutated_population(before: Seq<Row>, after: Seq<Row>, amount: nat) -> bool {
    &&& after.len() == before.len()
    &&& forall|i: int|
        0 <= i < before.len() ==> is_mutation(before[i].0, (#[trigger] after[i]).0, amount)
            && after[i].1 == before[i].1
}

/// `next` is what some step makes of the population `current`: tournaments of
/// size `k` choose as many parents as there are rows, their crossover gives as
/// many children, and every child is mutated in `amount` cells.
pub open spec fn is_next_generation(
    current: Seq<Row>,
    next: Seq<Row>,
    k: nat,
    amount: nat,
) -> bool {
    exists|parents: Seq<Row>, children: Seq<Row>|
        is_selection(current, k, current.len(), parents) && #[trigger] is_offspring(
            parents,
            children,
        ) && is_mutated_population(children, next, amount)
}

/// A draw of as many different indices as there are rows names every row.
pub proof fn full_draw_names_every_row(draw: Seq<usize>, size: nat)
    requires
        draw.len() == size,
        draw.no_duplicates(),
        forall|i: int| 0 <= i < draw.len() ==> #[trigger] draw[i] < size,
    ensures
        forall|index: usize| index < size ==> #[trigger] draw.contains(index),
{
    let numbers = draw.map_values(|drawn: usize| drawn as int);
    assert(numbers.no_duplicates());
    numbers.unique_seq_to_set();
    vstd::set_lib::lemma_int_range(0, size as int);
    let all = vstd::set_lib::set_int_range(0, size as int);
    assert(numbers.to_set().subset_of(all)) by {
        assert forall|number: int| numbers.to_set().contains(number) implies all.contains(
            number,
        ) by {
            let i = choose|i: int| 0 <= i < numbers.len() && numbers[i] == number;
            assert(draw[i] < size);
        }
    }
    vstd::seq_lib::seq_to_set_is_finite(numbers);
    vstd::set_lib::lemma_subset_equality(numbers.to_set(), all);
    assert forall|index: usize| index < size implies #[trigger] draw.contains(index) by {
        assert(all.contains(index as int));
        assert(numbers.to_set().contains(index as int));
        let i = choose|i: int| 0 <= i < numbers.len() && numbers[i] == index as int;
        assert(draw[i] == index);
    }
}

/// The rows that have no more fitness than `fitness`, by their indices.
pub open spec fn rows_not_above(rows: Seq<Row>, fitness: i64) -> Set<int> {
    Set::new(|i: int| 0 <= i < rows.len() && fitness_of(rows[i]) <= fitness)
}

/// What a tournament of size `k` gives has at least as much fitness as `k`
/// rows of the population, itself among them, or as all rows where the
/// population has fewer: the larger the tournament, the higher the winner
/// stands in the population.
pub proof fn tournament_win_outranks_its_draw(rows: Seq<Row>, k: nat, row: Row)
    requires
        is_tournament_win(rows, k, row),
    ensures
        rows_not_above(rows, fitness_of(row)).finite(),
        rows_not_above(rows, fitness_of(row)).len() >= if k <= rows.len() {
            k
        } else {
            rows.len()
        },
{
    let (draw, at) = choose|draw: Seq<usize>, at: int|
        is_draw(draw, rows.len(), k) && #[trigger] is_winner(rows, draw, at) && row
            == rows[draw[at] as int];
    let below = rows_not_above(rows, fitness_of(row));
    let numbers = draw.map_values(|drawn: usize| drawn as int);
    assert(numbers.no_duplicates());
    numbers.unique_seq_to_set();
    vstd::set_lib::lemma_int_range(0, rows.len() as int);
    let all = vstd::set_lib::set_int_range(0, rows.len() as int);
    assert(below.subset_of(all));
    vstd::set_lib::lemma_len_subset(below, all);
    assert(numbers.to_set().subset_of(below)) by {
        assert forall|number: int| numbers.to_set().contains(number) implies below.contains(
            number,
        ) by {
            let q = choose|q: int| 0 <= q < numbers.len() && numbers[q] == number;
            assert(draw[q] < rows.len());
            assert(fitness_of(rows[draw[q] as int]) <= fitness_of(rows[draw[at] as int]));
        }
    }
    vstd::set_lib::lemma_len_subset(numbers.to_set(), below);
}

/// What a tournament gives has at least the least fitness of the population.
pub proof fn tournament_win_is_bounded(rows: Seq<Row>, k: nat, row: Row, least: i64)
    requires
        rows.len() <= usize::MAX,
        is_tournament_win(rows, k, row),
        is_least_fitness(rows, least),
    ensures
        least <= fitness_of(row),
{
    tournament_win_is_a_row(rows, k, row);
}

/// What a tournament gives is a row of the population; and a tournament as
/// large as the population gives a row of the greatest fitness. The
/// population is one that a vector can hold.
pub proof fn tournament_win_is_a_row(rows: Seq<Row>, k: nat, row: Row)
    requires
        rows.len() <= usize::MAX,
        is_tournament_win(rows, k, row),
    ensures
        rows.contains(row),
        k >= rows.len() ==> is_greatest_fitness(rows, fitness_of(row)),
{
    let (draw, at) = choose|draw: Seq<usize>, at: int|
        is_draw(draw, rows.len(), k) && #[trigger] is_winner(rows, draw, at) && row
            == rows[draw[at] as int];
    assert(draw[at] < rows.len());
    assert(rows[draw[at] as int] == row);
    if k >= rows.len() {
        full_draw_names_every_row(draw, rows.len());
        assert forall|i: int| 0 <= i < rows.len() implies fitness_of(#[trigger] rows[i])
            <= fitness_of(row) by {
            assert(draw.contains(i as usize));
            let q = choose|q: int| 0 <= q < draw.len() && draw[q] == i as usize;
            assert(fitness_of(rows[draw[q] as int]) <= fitness_of(rows[draw[at] as int]));
        }
    }
}

/// The evolutionary engine: the current population and the log of the
/// generations that it has gone through.
pub struct GeneticsSimulator {
    population: Pop,
    generational_statistics: Vec<GenerationalStatistics>,
}

impl GeneticsSimulator {
    /// The population is of even size, so that it can be paired, and within
    /// what the engine takes.
    #[verifier::type_invariant]
    pub open spec fn well_formed(self) -> bool {
        &&& self.population().len() % 2 == 0
        &&& self.population().len() <= MAX_POPULATION
    }

    /// The current population.
    pub closed spec fn population(self) -> Seq<Row> {
        rows_of(self.population@)
    }

    /// The log: one entry for each generation that was stepped over, oldest first.
    pub closed spec fn statistics(self) -> Seq<GenerationalStatistics> {
        self.generational_statistics@
    }

    /// An engine with a population of `population_size` random vehicles, none
    /// with a fitness, and an empty log.
    pub fn new(population_size: usize) -> (sim: GeneticsSimulator)
        requires
            population_size % 2 == 0,
            population_size <= MAX_POPULATION,
        ensures
            sim.population().len() == population_size,
            none_scored(sim.population()),
            all_vehicles(sim.population()),
            sim.statistics().len() == 0,
    {
        let mut population: Pop = Vec::new();
        let mut i: usize = 0;
        while i < population_size
            invariant
                i <= population_size,
                population@.len() == i,
                none_scored(rows_of(population@)),
                all_vehicles(rows_of(population@)),
            decreases population_size - i,
        {
            let ghost before = rows_of(population@);
            let vehicle = Vehicle::new();
            population.push((vehicle, None));
            proof {
                assert(rows_of(population@) =~= before.push((vehicle@, None)));
            }
            i += 1;
        }
        GeneticsSimulator { population, generational_statistics: Vec::new() }
    }

    /// The log, oldest generation first.
    pub fn get_generational_statistics(&self) -> (log: &Vec<GenerationalStatistics>)
        ensures
            log@ == self.statistics(),
    {
        &self.generational_statistics
    }

    /// The current population.
    pub fn get_population(&self) -> (population: &Pop)
        ensures
            rows_of(population@) == self.population(),
            population@.len() % 2 == 0,
            population@.len() <= MAX_POPULATION,
    {
        proof {
            use_type_invariant(self);
        }
        &self.population
    }

    /// Copies of the vehicles of the population, in its order.
    pub fn get_population_vehicles(&self) -> (vehicles: Vec<Vehicle>)
        ensures
            vehicles@.len() == self.population().len(),
            forall|i: int|
                0 <= i < vehicles@.len() ==> (#[trigger] vehicles@[i])@ == self.population()[i].0,
    {
        let mut vehicles: Vec<Vehicle> = Vec::new();
        let mut i: usize = 0;
        while i < self.population.len()
            invariant
                i <= self.population@.len(),
                vehicles@.len() == i,
                forall|j: int|
                    0 <= j < i ==> (#[trigger] vehicles@[j])@ == self.population()[j].0,
            decreases self.population@.len() - i,
        {
            vehicles.push(self.population[i].0.clone());
            i += 1;
        }
        vehicles
    }

    /// Whether every row has a fitness, as statistics and selection need it.
    pub fn is_filled(&self) -> (filled: bool)
        ensures
            filled == all_scored(self.population()),
    {
        let mut i: usize = 0;
        while i < self.population.len()
            invariant
                i <= self.population@.len(),
                forall|j: int| 0 <= j < i ==> (#[trigger] self.population()[j]).1 is Some,
            decreases self.population@.len() - i,
        {
            if self.population[i].1.is_none() {
                assert(self.population()[i as int].1 is None);
                return false;
            }
            i += 1;
        }
        true
    }

    /// Reads the fitness of every row from the cache: a row whose vehicle has
    /// a fitness on file gets it, every other row is left without one.
    pub fn fill_in_fitness(&mut self, map: &FitnessCache)
        ensures
            final(self).population() == filled_from(old(self).population(), map@),
            final(self).statistics() == old(self).statistics(),
    {
        proof {
            use_type_invariant(&*self);
        }
        let ghost before = self.population();
        let mut i: usize = 0;
        while i < self.population.len()
            invariant
                i <= self.population@.len(),
                self.population().len() == before.len(),
                self.statistics() == old(self).statistics(),
                before.len() % 2 == 0,
                before.len() <= MAX_POPULATION,
                forall|j: int|
                    0 <= j < i ==> #[trigger] self.population()[j] == filled_from(before, map@)[j],
                forall|j: int|
                    i <= j < before.len() ==> #[trigger] self.population()[j] == before[j],
            decreases self.population@.len() - i,
        {
            let ghost rows_before = self.population();
            let ghost stored_before = self.population@;
            let found = map.get(&self.population[i].0);
            self.population[i].1 = found;
            proof {
                assert forall|j: int|
                    0 <= j < before.len() && j != i implies #[trigger] self.population()[j]
                    == rows_before[j] by {
                    assert(self.population@[j] == stored_before[j]);
                }
                assert(self.population@[i as int].0 == stored_before[i as int].0);
                assert(rows_before[i as int] == before[i as int]);
            }
            i += 1;
        }
        assert(self.population() =~= filled_from(before, map@));
    }

    /// The mean fitness of the population, as the total and the number of rows.
    pub fn avg_fitness(&self) -> (mean: Average)
        requires
            all_scored(self.population()),
        ensures
            mean.total == fitness_total(self.population()),
            mean.count == self.population().len(),
    {
        proof {
            use_type_invariant(self);
        }
        let mut total: i128 = 0;
        let mut i: usize = 0;
        assert(self.population().take(0) =~= Seq::<Row>::empty());
        while i < self.population.len()
            invariant
                i <= self.population@.len(),
                self.population@.len() <= MAX_POPULATION,
                all_scored(self.population()),
                total == fitness_total(self.population().take(i as int)),
                -(i as int) * 0x8000_0000_0000_0000 <= total <= (i as int) * 0x8000_0000_0000_0000,
            decreases self.population@.len() - i,
        {
            let fitness: i64 = match self.population[i].1 {
                Some(fitness) => fitness,
                None => {
                    assert(self.population()[i as int].1 is None);
                    vstd::pervasive::unreached()
                },
            };
            proof {
                let longer = self.population().take(i as int + 1);
                assert(longer.drop_last() =~= self.population().take(i as int));
                assert(longer.last() == self.population()[i as int]);
            }
            total = total + fitness as i128;
            i += 1;
        }
        assert(self.population().take(i as int) =~= self.population());
        Average { total, count: self.population.len() }
    }

    /// The greatest fitness in the population.
    pub fn max_fitness(&self) -> (greatest: i64)
        requires
            all_scored(self.population()),
            self.population().len() > 0,
        ensures
            is_greatest_fitness(self.population(), greatest),
    {
        let mut greatest: i64 = match self.population[0].1 {
            Some(fitness) => fitness,
            None => {
                assert(self.population()[0].1 is None);
                vstd::pervasive::unreached()
            },
        };
        assert(fitness_of(self.population()[0]) == greatest);
        let mut i: usize = 1;
        while i < self.population.len()
            invariant
                1 <= i <= self.population@.len(),
                all_scored(self.population()),
                exists|j: int|
                    0 <= j < i && fitness_of(#[trigger] self.population()[j]) == greatest,
                forall|j: int|
                    0 <= j < i ==> fitness_of(#[trigger] self.population()[j]) <= greatest,
            decreases self.population@.len() - i,
        {
            let fitness: i64 = match self.population[i].1 {
                Some(fitness) => fitness,
                None => {
                    assert(self.population()[i as int].1 is None);
                    vstd::pervasive::unreached()
                },
            };
            if fitness > greatest {
                greatest = fitness;
                assert(fitness_of(self.population()[i as int]) == greatest);
            }
            i += 1;
        }
        greatest
    }

    /// The fitness of one row.
    fn fitness_at(&self, i: usize) -> (fitness: i64)
        requires
            i < self.population().len(),
            all_scored(self.population()),
        ensures
            fitness == fitness_of(self.population()[i as int]),
    {
        match self.population[i].1 {
            Some(fitness) => fitness,
            None => {
                assert(self.population()[i as int].1 is None);
                vstd::pervasive::unreached()
            },
        }
    }

    /// Decides a tournament among the rows that `draw` names: the place in
    /// `draw` of the row with the greatest fitness, and of several such rows
    /// the one that was drawn last.
    pub fn tournament_winner(&self, draw: &Vec<usize>) -> (at: usize)
        requires
            all_scored(self.population()),
            draw@.len() > 0,
            forall|i: int| 0 <= i < draw@.len() ==> #[trigger] draw@[i] < self.population().len(),
        ensures
            is_winner(self.population(), draw@, at as int),
    {
        let mut at: usize = 0;
        let mut best: i64 = self.fitness_at(draw[0]);
        let mut q: usize = 1;
        while q < draw.len()
            invariant
                1 <= q <= draw@.len(),
                at < q,
                all_scored(self.population()),
                forall|i: int|
                    0 <= i < draw@.len() ==> #[trigger] draw@[i] < self.population().len(),
                best == fitness_of(self.population()[draw@[at as int] as int]),
                forall|p: int|
                    0 <= p < q ==> fitness_of(self.population()[#[trigger] draw@[p] as int])
                        <= best,
                forall|p: int|
                    at < p < q ==> fitness_of(self.population()[#[trigger] draw@[p] as int])
                        < best,
            decreases draw@.len() - q,
        {
            let fitness: i64 = self.fitness_at(draw[q]);
            if fitness >= best {
                at = q;
                best = fitness;
            }
            q += 1;
        }
        at
    }

    /// Holds `n` tournaments of size `k`. Each draws `k` different rows of the
    /// population, or all rows where there are fewer, and a copy of the row
    /// with the greatest fitness among them goes on. A row can win more than
    /// one tournament.
    pub fn tournament_selection(&self, k: usize, n: usize) -> (winners: Pop)
        requires
            k > 1,
            k <= n,
            all_scored(self.population()),
            self.population().len() > 0,
        ensures
            is_selection(self.population(), k as nat, n as nat, rows_of(winners@)),
            winners@.len() == n,
            forall|i: int|
                0 <= i < n ==> self.population().contains(#[trigger] rows_of(winners@)[i]),
            k >= self.population().len() ==> forall|i: int|
                0 <= i < n ==> is_greatest_fitness(
                    self.population(),
                    fitness_of(#[trigger] rows_of(winners@)[i]),
                ),
            all_scored(rows_of(winners@)),
            all_vehicles(rows_of(winners@)),
    {
        proof {
            use_type_invariant(self);
        }
        let mut rng = thread_rng();
        let size: usize = self.population.len();
        let drawn: usize = if k > size {
            size
        } else {
            k
        };
        let mut winners: Pop = Vec::new();
        let mut round: usize = 0;
        while round < n
            invariant
                round <= n,
                size == self.population().len(),
                0 < size <= MAX_POPULATION,
                drawn == if k > size {
                    size
                } else {
                    k
                },
                k > 1,
                all_scored(self.population()),
                winners@.len() == round,
                forall|i: int|
                    0 <= i < round ==> is_tournament_win(
                        self.population(),
                        k as nat,
                        #[trigger] rows_of(winners@)[i],
                    ),
                forall|i: int|
                    0 <= i < round ==> self.population().contains(
                        #[trigger] rows_of(winners@)[i],
                    ),
                k >= size ==> forall|i: int|
                    0 <= i < round ==> is_greatest_fitness(
                        self.population(),
                        fitness_of(#[trigger] rows_of(winners@)[i]),
                    ),
                all_scored(rows_of(winners@)),
                all_vehicles(rows_of(winners@)),
            decreases n - round,
        {
            let draw = pick_distinct(&mut rng, size, drawn);
            let at: usize = self.tournament_winner(&draw);
            let row = &self.population[draw[at]];
            let copy = (row.0.clone(), row.1);
            let ghost before = rows_of(winners@);
            proof {
                use_type_invariant(&copy.0);
            }
            winners.push(copy);
            proof {
                let won = self.population()[draw@[at as int] as int];
                assert(rows_of(winners@) =~= before.push(won));
                assert(is_draw(draw@, size as nat, k as nat));
                assert(is_winner(self.population(), draw@, at as int));
                assert(is_tournament_win(self.population(), k as nat, won));
                tournament_win_is_a_row(self.population(), k as nat, won);
            }
            round += 1;
        }
        winners
    }

    /// The candidates that a crossover of `parents` with the given cuts makes.
    ///
    /// This is the part of a crossover that chance has no hand in.
    pub fn candidates(parents: &Pop, cuts: &Vec<usize>) -> (pool: Vec<Vehicle>)
        requires
            are_cuts(cuts@, parents@.len()),
        ensures
            grids_of(pool@) == candidate_pool(rows_of(parents@), cuts@),
            all_vehicles(unscored(pool@)),
    {
        let mut pool: Vec<Vehicle> = Vec::new();
        let mut i: usize = 0;
        while i < cuts.len()
            invariant
                i <= cuts@.len(),
                are_cuts(cuts@, parents@.len()),
                pool@.len() == 2 * i,
                forall|j: int|
                    0 <= j < 2 * i ==> (#[trigger] pool@[j])@ == candidate_pool(
                        rows_of(parents@),
                        cuts@,
                    )[j],
                all_vehicles(unscored(pool@)),
            decreases cuts@.len() - i,
        {
            let children = parents[i].0.one_point_crossover(&parents[i + 1].0, cuts[i]);
            let ghost before = pool@;
            pool.push(children.0);
            pool.push(children.1);
            proof {
                assert forall|j: int| 0 <= j < 2 * (i + 1) implies (#[trigger] pool@[j])@
                    == candidate_pool(rows_of(parents@), cuts@)[j] by {
                    if j < 2 * i {
                        assert(pool@[j] == before[j]);
                    }
                }
                assert forall|j: int| 0 <= j < pool@.len() implies is_vehicle_grid(
                    (#[trigger] unscored(pool@)[j]).0,
                ) by {
                    if j < 2 * i {
                        assert(unscored(pool@)[j] == unscored(before)[j]);
                    }
                }
            }
            i += 1;
        }
        assert(grids_of(pool@) =~= candidate_pool(rows_of(parents@), cuts@));
        pool
    }

    /// Copies of the candidates that `picks` names, as rows without a fitness.
    pub fn pick_children(pool: &Vec<Vehicle>, picks: &Vec<usize>) -> (children: Pop)
        requires
            forall|i: int| 0 <= i < picks@.len() ==> #[trigger] picks@[i] < pool@.len(),
        ensures
            rows_of(children@) == picked_from(grids_of(pool@), picks@),
    {
        let mut children: Pop = Vec::new();
        let mut i: usize = 0;
        while i < picks.len()
            invariant
                i <= picks@.len(),
                children@.len() == i,
                forall|j: int| 0 <= j < picks@.len() ==> #[trigger] picks@[j] < pool@.len(),
                forall|j: int|
                    0 <= j < i ==> #[trigger] rows_of(children@)[j] == picked_from(
                        grids_of(pool@),
                        picks@,
                    )[j],
            decreases picks@.len() - i,
        {
            let ghost before = rows_of(children@);
            children.push((pool[picks[i]].clone(), None));
            proof {
                assert forall|j: int| 0 <= j < i + 1 implies #[trigger] rows_of(children@)[j]
                    == picked_from(grids_of(pool@), picks@)[j] by {
                    if j < i {
                        assert(rows_of(children@)[j] == before[j]);
                    }
                }
            }
            i += 1;
        }
        assert(rows_of(children@) =~= picked_from(grids_of(pool@), picks@));
        children
    }

    /// Crosses `parents` over into as many children.
    ///
    /// Every parent is crossed with its next neighbour, so that the pairs
    /// overlap, each pair at a cut drawn for it; that gives two candidates for
    /// each pair. As many candidates as there are parents are then drawn, none
    /// twice, and are the children. The engine itself is left as it is.
    pub fn crossover(&mut self, parents: &Pop) -> (children: Pop)
        requires
            parents@.len() % 2 == 0,
            parents@.len() <= MAX_POPULATION,
        ensures
            is_offspring(rows_of(parents@), rows_of(children@)),
            children@.len() == parents@.len(),
            none_scored(rows_of(children@)),
            all_vehicles(rows_of(children@)),
            final(self).population() == old(self).population(),
            final(self).statistics() == old(self).statistics(),
    {
        let mut rng = thread_rng();
        let mut cuts: Vec<usize> = Vec::new();
        let mut i: usize = 0;
        while i + 1 < parents.len()
            invariant
                parents@.len() <= MAX_POPULATION,
                cuts@.len() == i,
                i == 0 || i < parents@.len(),
                forall|j: int| 0 <= j < i ==> 1 <= #[trigger] cuts@[j] < VEHICLE_COLUMNS,
            decreases parents@.len() - i,
        {
            cuts.push(pick_between(&mut rng, 1, VEHICLE_COLUMNS));
            i += 1;
        }
        let pool = GeneticsSimulator::candidates(parents, &cuts);
        assert(pool@.len() == grids_of(pool@).len());
        let picks = pick_distinct(&mut rng, pool.len(), parents.len());
        let children = GeneticsSimulator::pick_children(&pool, &picks);
        proof {
            let made = candidate_pool(rows_of(parents@), cuts@);
            assert(is_draw(picks@, pool_size(parents@.len()), parents@.len()));
            assert(rows_of(children@) == picked_from(made, picks@));
            assert(rows_of(children@).len() == children@.len());
            assert(picked_from(made, picks@).len() == picks@.len());
            assert(picks@.len() == parents@.len());
            assert forall|j: int| 0 <= j < children@.len() implies is_vehicle_grid(
                (#[trigger] rows_of(children@)[j]).0,
            ) by {
                assert(rows_of(children@).len() == children@.len());
                assert(picked_from(made, picks@).len() == picks@.len());
                assert(picks@[j] < pool@.len());
                assert(rows_of(children@)[j] == picked_from(made, picks@)[j]);
                assert(made[picks@[j] as int] == grids_of(pool@)[picks@[j] as int]);
                assert(is_vehicle_grid(unscored(pool@)[picks@[j] as int].0));
            }
        }
        children
    }

    /// Mutates every child in `amount` cells, each child on its own.
    pub fn mutate_all(children: &mut Pop, amount: usize)
        ensures
            is_mutated_population(
                rows_of(old(children)@),
                rows_of(final(children)@),
                amount as nat,
            ),
            all_vehicles(rows_of(final(children)@)),
    {
        let ghost given = rows_of(children@);
        let mut i: usize = 0;
        while i < children.len()
            invariant
                i <= children@.len(),
                children@.len() == given.len(),
                forall|j: int|
                    0 <= j < i ==> is_mutation(
                        given[j].0,
                        (#[trigger] rows_of(children@)[j]).0,
                        amount as nat,
                    ) && rows_of(children@)[j].1 == given[j].1 && is_vehicle_grid(
                        rows_of(children@)[j].0,
                    ),
                forall|j: int|
                    i <= j < given.len() ==> #[trigger] rows_of(children@)[j] == given[j],
            decreases children@.len() - i,
        {
            let ghost rows_before = rows_of(children@);
            let ghost stored_before = children@;
            children[i].0.mutate(amount);
            proof {
                assert forall|j: int| 0 <= j < given.len() && j != i implies #[trigger] rows_of(
                    children@,
                )[j] == rows_before[j] by {
                    assert(children@[j] == stored_before[j]);
                }
                assert(children@[i as int].1 == stored_before[i as int].1);
                assert(rows_before[i as int] == given[i as int]);
            }
            i += 1;
        }
    }

    /// Goes from one generation to the next.
    ///
    /// The statistics of the current population are logged first. Then
    /// tournaments choose as many parents as the population has rows, the
    /// parents are crossed over into as many children, every child is mutated,
    /// and the children, none with a fitness, become the population.
    pub fn step(&mut self, params: &SimulationParams)
        requires
            all_scored(old(self).population()),
            2 <= params.tournament_k <= old(self).population().len(),
        ensures
            final(self).statistics().len() == old(self).statistics().len() + 1,
            final(self).statistics().drop_last() == old(self).statistics(),
            is_statistics_of(old(self).population(), final(self).statistics().last()),
            is_next_generation(
                old(self).population(),
                final(self).population(),
                params.tournament_k as nat,
                params.mutation_amount as nat,
            ),
            final(self).population().len() == old(self).population().len(),
            none_scored(final(self).population()),
            all_vehicles(final(self).population()),
    {
        proof {
            use_type_invariant(&*self);
        }
        let tournament_k: usize = params.tournament_k as usize;
        let avg_fitness = self.avg_fitness();
        let max_fitness: i64 = self.max_fitness();
        let stats = GenerationalStatistics::new(avg_fitness, max_fitness);
        let mut log: Vec<GenerationalStatistics> = Vec::new();
        std::mem::swap(&mut self.generational_statistics, &mut log);
        log.push(stats);
        self.generational_statistics = log;
        assert(self.statistics().drop_last() =~= old(self).statistics());
        let new_parents = self.tournament_selection(tournament_k, self.population.len());
        let mut children = self.crossover(&new_parents);
        let ghost crossed = rows_of(children@);
        GeneticsSimulator::mutate_all(&mut children, params.mutation_amount as usize);
        proof {
            assert(is_offspring(rows_of(new_parents@), crossed));
            assert forall|j: int| 0 <= j < children@.len() implies (#[trigger] rows_of(
                children@,
            )[j]).1 is None by {
                assert(crossed[j].1 is None);
            }
        }
        self.population = children;
    }

    /// Replaces the population by `pop`, in its order and without any fitness.
    /// The size of the population stays what it is.
    pub fn overwrite_population(&mut self, pop: Vec<Vehicle>)
        requires
            pop@.len() == old(self).population().len(),
        ensures
            final(self).population() == unscored(pop@),
            final(self).statistics() == old(self).statistics(),
    {
        proof {
            use_type_invariant(&*self);
        }
        let ghost given = pop@;
        let mut pop = pop;
        let mut reversed: Pop = Vec::new();
        while pop.len() > 0
            invariant
                pop@.len() + reversed@.len() == given.len(),
                forall|j: int| 0 <= j < pop@.len() ==> pop@[j] == given[j],
                forall|j: int|
                    0 <= j < reversed@.len() ==> #[trigger] rows_of(reversed@)[j] == unscored(
                        given,
                    )[given.len() - 1 - j],
            decreases pop@.len(),
        {
            let ghost reversed_before = rows_of(reversed@);
            match pop.pop() {
                Some(vehicle) => {
                    reversed.push((vehicle, None));
                },
                None => {},
            }
            proof {
                assert forall|j: int| 0 <= j < reversed@.len() implies #[trigger] rows_of(
                    reversed@,
                )[j] == unscored(given)[given.len() - 1 - j] by {
                    if j < reversed@.len() - 1 {
                        assert(rows_of(reversed@)[j] == reversed_before[j]);
                    }
                }
            }
        }
        let mut rows: Pop = Vec::new();
        while reversed.len() > 0
            invariant
                rows@.len() + reversed@.len() == given.len(),
                forall|j: int|
                    0 <= j < reversed@.len() ==> #[trigger] rows_of(reversed@)[j] == unscored(
                        given,
                    )[given.len() - 1 - j],
                forall|j: int|
                    0 <= j < rows@.len() ==> #[trigger] rows_of(rows@)[j] == unscored(given)[j],
            decreases reversed@.len(),
        {
            let ghost rows_before = rows_of(rows@);
            let ghost reversed_before = rows_of(reversed@);
            match reversed.pop() {
                Some(row) => {
                    rows.push(row);
                },
                None => {},
            }
            proof {
                assert forall|j: int| 0 <= j < reversed@.len() implies #[trigger] rows_of(
                    reversed@,
                )[j] == unscored(given)[given.len() - 1 - j] by {
                    assert(rows_of(reversed@)[j] == reversed_before[j]);
                }
                assert forall|j: int| 0 <= j < rows@.len() implies #[trigger] rows_of(rows@)[j]
                    == unscored(given)[j] by {
                    if j < rows@.len() - 1 {
                        assert(rows_of(rows@)[j] == rows_before[j]);
                    } else {
                        assert(rows_of(rows@)[j] == reversed_before[reversed_before.len() - 1]);
                    }
                }
            }
        }
        assert(rows_of(rows@) =~= unscored(given));
        self.population = rows;
    }
}

} // verus!
