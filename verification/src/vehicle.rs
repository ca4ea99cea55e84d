use vstd::prelude::*;
use vstd::std_specs::cmp::PartialEqSpecImpl;
use rand::rngs::ThreadRng;
use rand::thread_rng;
use crate::block::{Block, BLOCK_KINDS};
use crate::chance::{
    flip, has_positive_weight, pick_distinct, pick_one, pick_weighted, total_weight,
};
use crate::grid::{grid_from_cells, grid_get, grid_rows, grid_set, Grid};
use crate::text::push_char;

verus! {

/// Rows of every vehicle grid.
pub const VEHICLE_ROWS: usize = 6;

/// Columns of every vehicle grid.
pub const VEHICLE_COLUMNS: usize = 8;

/// Cells of every vehicle grid: `VEHICLE_ROWS * VEHICLE_COLUMNS`.
pub const VEHICLE_CELLS: usize = 48;

/// The shape of every vehicle grid: rows, then columns.
pub const VEHICLE_SHAPE: (usize, usize) = (6, 8);

/// A grid of the one shape that vehicles have.
pub open spec fn is_vehicle_grid(rows: Seq<Seq<Block>>) -> bool {
    &&& rows.len() == VEHICLE_ROWS
    &&& forall|r: int| 0 <= r < VEHICLE_ROWS ==> (#[trigger] rows[r]).len() == VEHICLE_COLUMNS
}

/// The grid whose cells, read row by row, are `cells`.
pub open spec fn grid_of_cells(cells: Seq<Block>) -> Seq<Seq<Block>> {
    Seq::new(
        VEHICLE_ROWS as nat,
        |r: int| Seq::new(VEHICLE_COLUMNS as nat, |c: int| cells[r * VEHICLE_COLUMNS + c]),
    )
}

/// The cells of a grid, read row by row.
pub open spec fn cells_of_grid(rows: Seq<Seq<Block>>) -> Seq<Block> {
    Seq::new(
        VEHICLE_CELLS as nat,
        |i: int| rows[i / (VEHICLE_COLUMNS as int)][i % (VEHICLE_COLUMNS as int)],
    )
}

/// The grid that is `kind` in every cell.
pub open spec fn filled_grid(kind: Block) -> Seq<Seq<Block>> {
    Seq::new(VEHICLE_ROWS as nat, |r: int| Seq::new(VEHICLE_COLUMNS as nat, |c: int| kind))
}

/// The child of a one-point crossover: the columns left of `cut` come from
/// `left`, the columns from `cut` on come from `right`, in every row alike.
pub open spec fn spliced(left: Seq<Seq<Block>>, right: Seq<Seq<Block>>, cut: int) -> Seq<
    Seq<Block>,
> {
    Seq::new(
        VEHICLE_ROWS as nat,
        |r: int|
            Seq::new(
                VEHICLE_COLUMNS as nat,
                |c: int|
                    if c < cut {
                        left[r][c]
                    } else {
                        right[r][c]
                    },
            ),
    )
}

/// A grid written out: one line for each row, one sign for each block, and
/// a line feed after every row.
pub open spec fn grid_text(rows: Seq<Seq<Block>>) -> Seq<char> {
    Seq::new(
        54,
        |i: int|
            if i % 9 == 8 {
                '\n'
            } else {
                rows[i / 9][i % 9].spec_symbol()
            },
    )
}

/// A grid with the cell at `place` replaced; places count the cells row by row.
pub open spec fn with_cell(grid: Seq<Seq<Block>>, place: int, kind: Block) -> Seq<Seq<Block>> {
    grid.update(
        place / (VEHICLE_COLUMNS as int),
        grid[place / (VEHICLE_COLUMNS as int)].update(place % (VEHICLE_COLUMNS as int), kind),
    )
}

/// A grid after the cells at `places` were replaced, one after the other, by `kinds`.
pub open spec fn mutated(grid: Seq<Seq<Block>>, places: Seq<usize>, kinds: Seq<Block>) -> Seq<
    Seq<Block>,
>
    decreases places.len(),
{
    if places.len() == 0 {
        grid
    } else {
        mutated(
            with_cell(grid, places[0] as int, kinds[0]),
            places.drop_first(),
            kinds.drop_first(),
        )
    }
}

/// The places that a mutation of `amount` cells may touch: `amount` different
/// cells, or every cell once where `amount` is the number of cells or more.
pub open spec fn is_placement(places: Seq<usize>, amount: nat) -> bool {
    &&& places.len() == if amount <= VEHICLE_CELLS {
        amount
    } else {
        VEHICLE_CELLS as nat
    }
    &&& places.no_duplicates()
    &&& forall|i: int| 0 <= i < places.len() ==> #[trigger] places[i] < VEHICLE_CELLS
}

/// `after` is what some mutation of `amount` cells makes of `before`.
pub open spec fn is_mutation(before: Seq<Seq<Block>>, after: Seq<Seq<Block>>, amount: nat) -> bool {
    exists|places: Seq<usize>, kinds: Seq<Block>|
        is_placement(places, amount) && kinds.len() == places.len() && after == #[trigger] mutated(
            before,
            places,
            kinds,
        )
}

/// The places in which two grids differ.
pub open spec fn changed_cells(before: Seq<Seq<Block>>, after: Seq<Seq<Block>>) -> Set<usize> {
    Set::new(
        |place: usize|
            place < VEHICLE_CELLS && cells_of_grid(before)[place as int] != cells_of_grid(
                after,
            )[place as int],
    )
}

/// The child of a uniform crossover that takes each cell from `heads` where
/// the mask is set and from `tails` where it is not.
pub open spec fn blended(heads: Seq<Seq<Block>>, tails: Seq<Seq<Block>>, mask: Seq<bool>) -> Seq<
    Seq<Block>,
> {
    Seq::new(
        VEHICLE_ROWS as nat,
        |r: int|
            Seq::new(
                VEHICLE_COLUMNS as nat,
                |c: int|
                    if mask[r * VEHICLE_COLUMNS + c] {
                        heads[r][c]
                    } else {
                        tails[r][c]
                    },
            ),
    )
}

/// `children` is what a uniform crossover of `first` and `second` may give:
/// under some mask the one child is the blend and the other its complement.
pub open spec fn is_uniform_crossover(
    first: Seq<Seq<Block>>,
    second: Seq<Seq<Block>>,
    children: (Seq<Seq<Block>>, Seq<Seq<Block>>),
) -> bool {
    exists|mask: Seq<bool>|
        mask.len() == VEHICLE_CELLS && children.0 == #[trigger] blended(second, first, mask)
            && children.1 == blended(first, second, mask)
}

/// Replacing one cell keeps the shape and every other cell.
pub proof fn with_cell_keeps_rest(grid: Seq<Seq<Block>>, place: int, kind: Block)
    requires
        is_vehicle_grid(grid),
        0 <= place < VEHICLE_CELLS,
    ensures
        is_vehicle_grid(with_cell(grid, place, kind)),
        forall|i: int|
            0 <= i < VEHICLE_CELLS ==> #[trigger] cells_of_grid(with_cell(grid, place, kind))[i]
                == if i == place {
                kind
            } else {
                cells_of_grid(grid)[i]
            },
{
    let after = with_cell(grid, place, kind);
    assert forall|i: int| 0 <= i < VEHICLE_CELLS implies #[trigger] cells_of_grid(after)[i]
        == if i == place {
        kind
    } else {
        cells_of_grid(grid)[i]
    } by {
        if i / 8 == place / 8 && i % 8 == place % 8 {
            assert(i == place);
        }
    }
}

/// A mutation keeps the shape, leaves every cell outside its places as it was,
/// and so changes at most as many cells as it has places.
pub proof fn mutation_touches_only_its_places(
    before: Seq<Seq<Block>>,
    places: Seq<usize>,
    kinds: Seq<Block>,
)
    requires
        is_vehicle_grid(before),
        kinds.len() == places.len(),
        forall|i: int| 0 <= i < places.len() ==> #[trigger] places[i] < VEHICLE_CELLS,
    ensures
        is_vehicle_grid(mutated(before, places, kinds)),
        forall|place: usize|
            place < VEHICLE_CELLS && !places.contains(place) ==> #[trigger] cells_of_grid(
                mutated(before, places, kinds),
            )[place as int] == cells_of_grid(before)[place as int],
        changed_cells(before, mutated(before, places, kinds)).subset_of(places.to_set()),
        changed_cells(before, mutated(before, places, kinds)).finite(),
        changed_cells(before, mutated(before, places, kinds)).len() <= places.len(),
    decreases places.len(),
{
    let after = mutated(before, places, kinds);
    if places.len() == 0 {
    } else {
        let step = with_cell(before, places[0] as int, kinds[0]);
        with_cell_keeps_rest(before, places[0] as int, kinds[0]);
        mutation_touches_only_its_places(step, places.drop_first(), kinds.drop_first());
        assert forall|place: usize|
            place < VEHICLE_CELLS && !places.contains(place) implies #[trigger] cells_of_grid(
            after,
        )[place as int] == cells_of_grid(before)[place as int] by {
            if places.drop_first().contains(place) {
                let j = choose|j: int|
                    0 <= j < places.drop_first().len() && places.drop_first()[j] == place;
                assert(places[j + 1] == place);
            }
            assert(place != places[0]);
        }
    }
    assert(changed_cells(before, after).subset_of(places.to_set())) by {
        assert forall|place: usize|
            changed_cells(before, after).contains(place) implies #[trigger] places.to_set().contains(
            place,
        ) by {
            if !places.contains(place) {
                assert(cells_of_grid(after)[place as int] == cells_of_grid(before)[place as int]);
            }
        }
    }
    places.lemma_cardinality_of_set();
    vstd::set_lib::lemma_len_subset(changed_cells(before, after), places.to_set());
}

/// Crossing two grids over and then crossing the two children over again at
/// the same column gives the two grids back: a crossover only deals the
/// columns out, it neither makes nor loses a block.
pub proof fn crossover_twice_restores(a: Seq<Seq<Block>>, b: Seq<Seq<Block>>, cut: int)
    requires
        is_vehicle_grid(a),
        is_vehicle_grid(b),
    ensures
        is_vehicle_grid(spliced(a, b, cut)),
        spliced(spliced(a, b, cut), spliced(b, a, cut), cut) == a,
        spliced(spliced(b, a, cut), spliced(a, b, cut), cut) == b,
{
    grids_equal_by_cells(spliced(spliced(a, b, cut), spliced(b, a, cut), cut), a);
    grids_equal_by_cells(spliced(spliced(b, a, cut), spliced(a, b, cut), cut), b);
}

/// Every cell of the child of a crossover comes from the parent on its side
/// of the cut; a cut at the first column would hand over the whole of `right`,
/// a cut after the last column the whole of `left`.
pub proof fn crossover_is_a_partition(left: Seq<Seq<Block>>, right: Seq<Seq<Block>>, cut: int)
    requires
        is_vehicle_grid(left),
        is_vehicle_grid(right),
    ensures
        forall|r: int, c: int|
            0 <= r < VEHICLE_ROWS && 0 <= c < cut && c < VEHICLE_COLUMNS ==> #[trigger] spliced(
                left,
                right,
                cut,
            )[r][c] == left[r][c],
        forall|r: int, c: int|
            0 <= r < VEHICLE_ROWS && cut <= c < VEHICLE_COLUMNS && 0 <= c ==> #[trigger] spliced(
                left,
                right,
                cut,
            )[r][c] == right[r][c],
        cut <= 0 ==> spliced(left, right, cut) == right,
        cut >= VEHICLE_COLUMNS ==> spliced(left, right, cut) == left,
{
    if cut <= 0 {
        grids_equal_by_cells(spliced(left, right, cut), right);
    }
    if cut >= VEHICLE_COLUMNS {
        grids_equal_by_cells(spliced(left, right, cut), left);
    }
}

/// Two grids of the vehicle shape with the same cell in every place are the same grid.
pub proof fn grids_equal_by_cells(a: Seq<Seq<Block>>, b: Seq<Seq<Block>>)
    requires
        is_vehicle_grid(a),
        is_vehicle_grid(b),
        forall|r: int, c: int|
            0 <= r < VEHICLE_ROWS && 0 <= c < VEHICLE_COLUMNS ==> a[r][c] == b[r][c],
    ensures
        a == b,
{
    assert forall|r: int| 0 <= r < VEHICLE_ROWS implies a[r] == b[r] by {
        assert(a[r].len() == b[r].len());
        assert(a[r] =~= b[r]);
    }
    assert(a =~= b);
}

/// Reading a grid row by row and laying the cells out again gives the same grid.
pub proof fn cells_round_trip(rows: Seq<Seq<Block>>, cells: Seq<Block>)
    ensures
        is_vehicle_grid(rows) ==> grid_of_cells(cells_of_grid(rows)) == rows,
        cells.len() == VEHICLE_CELLS ==> cells_of_grid(grid_of_cells(cells)) == cells,
        is_vehicle_grid(grid_of_cells(cells)),
{
    if is_vehicle_grid(rows) {
        grids_equal_by_cells(grid_of_cells(cells_of_grid(rows)), rows);
    }
    if cells.len() == VEHICLE_CELLS {
        assert(cells_of_grid(grid_of_cells(cells)) =~= cells);
    }
}

/// One candidate solution: a grid of `VEHICLE_ROWS` by `VEHICLE_COLUMNS` blocks.
///
/// A vehicle is a value: it is equal to another exactly when every cell is.
#[derive(Debug, Hash)]
pub struct Vehicle {
    blocks: Grid,
}

impl View for Vehicle {
    type V = Seq<Seq<Block>>;

    /// The rows of the grid from the top, each row its cells from the left.
    closed spec fn view(&self) -> Seq<Seq<Block>> {
        grid_rows(self.blocks)
    }
}

impl Vehicle {
    /// Every vehicle has the one shape.
    #[verifier::type_invariant]
    pub open spec fn well_formed(self) -> bool {
        is_vehicle_grid(self@)
    }

    /// The vehicle whose cells, read row by row, are `blocks`.
    pub fn from(blocks: Vec<Block>) -> (vehicle: Vehicle)
        requires
            blocks@.len() == VEHICLE_CELLS,
        ensures
            vehicle@ == grid_of_cells(blocks@),
            is_vehicle_grid(vehicle@),
    {
        let ghost cells = blocks@;
        match grid_from_cells(VEHICLE_ROWS, VEHICLE_COLUMNS, blocks) {
            Ok(grid) => {
                proof {
                    grids_equal_by_cells(grid_rows(grid), grid_of_cells(cells));
                }
                Vehicle { blocks: grid }
            },
            Err(_) => {
                proof {
                    assert(false);
                }
                vstd::pervasive::unreached()
            },
        }
    }

    /// The vehicle that is `b` in every cell.
    pub fn new_fill_with(b: Block) -> (vehicle: Vehicle)
        ensures
            vehicle@ == filled_grid(b),
    {
        let mut cells: Vec<Block> = Vec::new();
        let mut i: usize = 0;
        while i < VEHICLE_CELLS
            invariant
                i <= VEHICLE_CELLS,
                cells@.len() == i,
                forall|j: int| 0 <= j < i ==> cells@[j] == b,
            decreases VEHICLE_CELLS - i,
        {
            cells.push(b);
            i += 1;
        }
        let vehicle = Vehicle::from(cells);
        proof {
            grids_equal_by_cells(vehicle@, filled_grid(b));
        }
        vehicle
    }

    /// The vehicle that is air in every cell.
    pub fn new_empty() -> (vehicle: Vehicle)
        ensures
            vehicle@ == filled_grid(Block::Air),
    {
        Vehicle::new_fill_with(Block::Air)
    }

    /// The block in one cell.
    pub fn block_at(&self, row: usize, col: usize) -> (b: Block)
        requires
            row < VEHICLE_ROWS,
            col < VEHICLE_COLUMNS,
        ensures
            b == self@[row as int][col as int],
    {
        proof {
            use_type_invariant(self);
        }
        grid_get(&self.blocks, row, col)
    }

    /// The cells read row by row.
    pub fn to_cells(&self) -> (cells: Vec<Block>)
        ensures
            cells@ == cells_of_grid(self@),
            is_vehicle_grid(self@),
    {
        proof {
            use_type_invariant(self);
        }
        let mut cells: Vec<Block> = Vec::new();
        let mut i: usize = 0;
        while i < VEHICLE_CELLS
            invariant
                i <= VEHICLE_CELLS,
                cells@.len() == i,
                is_vehicle_grid(self@),
                forall|j: int| 0 <= j < i ==> cells@[j] == cells_of_grid(self@)[j],
            decreases VEHICLE_CELLS - i,
        {
            let b = self.block_at(i / VEHICLE_COLUMNS, i % VEHICLE_COLUMNS);
            cells.push(b);
            i += 1;
        }
        assert(cells@ =~= cells_of_grid(self@));
        cells
    }

    /// The vehicle written out, as it is shown and logged.
    pub fn to_text(&self) -> (text: String)
        ensures
            text@ == grid_text(self@),
    {
        let mut text = String::new();
        let mut row: usize = 0;
        while row < VEHICLE_ROWS
            invariant
                row <= VEHICLE_ROWS,
                text@.len() == row * 9,
                forall|i: int| 0 <= i < text@.len() ==> #[trigger] text@[i] == grid_text(self@)[i],
            decreases VEHICLE_ROWS - row,
        {
            let mut col: usize = 0;
            while col < VEHICLE_COLUMNS
                invariant
                    row < VEHICLE_ROWS,
                    col <= VEHICLE_COLUMNS,
                    text@.len() == row * 9 + col,
                    forall|i: int|
                        0 <= i < text@.len() ==> #[trigger] text@[i] == grid_text(self@)[i],
                decreases VEHICLE_COLUMNS - col,
            {
                let ghost written = text@;
                push_char(&mut text, self.block_at(row, col).symbol());
                proof {
                    let at = row * 9 + col;
                    assert(at / 9 == row && at % 9 == col);
                    assert forall|i: int| 0 <= i < text@.len() implies #[trigger] text@[i]
                        == grid_text(self@)[i] by {
                        if i < at {
                            assert(text@[i] == written[i]);
                        }
                    }
                }
                col += 1;
            }
            let ghost written = text@;
            push_char(&mut text, '\n');
            proof {
                let at = row * 9 + 8;
                assert(at % 9 == 8);
                assert forall|i: int| 0 <= i < text@.len() implies #[trigger] text@[i]
                    == grid_text(self@)[i] by {
                    if i < at {
                        assert(text@[i] == written[i]);
                    }
                }
            }
            row += 1;
        }
        assert(text@ =~= grid_text(self@));
        text
    }

    /// One-point crossover at the column `crossover_point`.
    ///
    /// The first child has this vehicle's columns left of the point and the
    /// other's from the point on; the second child is the complement. The cut
    /// runs through every row at the same column.
    pub fn one_point_crossover(&self, other: &Vehicle, crossover_point: usize) -> (children: (
        Vehicle,
        Vehicle,
    ))
        requires
            1 <= crossover_point < VEHICLE_COLUMNS,
        ensures
            children.0@ == spliced(self@, other@, crossover_point as int),
            children.1@ == spliced(other@, self@, crossover_point as int),
            is_vehicle_grid(children.0@),
            is_vehicle_grid(children.1@),
    {
        proof {
            use_type_invariant(self);
            use_type_invariant(other);
        }
        let mut brother: Vec<Block> = Vec::new();
        let mut sister: Vec<Block> = Vec::new();
        let mut i: usize = 0;
        while i < VEHICLE_CELLS
            invariant
                i <= VEHICLE_CELLS,
                1 <= crossover_point < VEHICLE_COLUMNS,
                brother@.len() == i,
                sister@.len() == i,
                is_vehicle_grid(self@),
                is_vehicle_grid(other@),
                forall|j: int|
                    0 <= j < i ==> brother@[j] == (if j % 8 < crossover_point {
                        self@[j / 8][j % 8]
                    } else {
                        other@[j / 8][j % 8]
                    }),
                forall|j: int|
                    0 <= j < i ==> sister@[j] == (if j % 8 < crossover_point {
                        other@[j / 8][j % 8]
                    } else {
                        self@[j / 8][j % 8]
                    }),
            decreases VEHICLE_CELLS - i,
        {
            let row: usize = i / VEHICLE_COLUMNS;
            let col: usize = i % VEHICLE_COLUMNS;
            let mine = self.block_at(row, col);
            let theirs = other.block_at(row, col);
            if col >= crossover_point {
                brother.push(theirs);
                sister.push(mine);
            } else {
                brother.push(mine);
                sister.push(theirs);
            }
            i += 1;
        }
        let first = Vehicle::from(brother);
        let second = Vehicle::from(sister);
        proof {
            grids_equal_by_cells(first@, spliced(self@, other@, crossover_point as int));
            grids_equal_by_cells(second@, spliced(other@, self@, crossover_point as int));
        }
        (first, second)
    }

    /// A random vehicle, drawn with the generator of the calling thread.
    pub fn new() -> (vehicle: Vehicle)
        ensures
            is_vehicle_grid(vehicle@),
    {
        let rng = thread_rng();
        Vehicle::new_with_rng(rng)
    }

    /// A random vehicle: every cell is drawn on its own, with the weights of
    /// `kind_weights`, so that panels come most often.
    pub fn new_with_rng(rng: ThreadRng) -> (vehicle: Vehicle)
        ensures
            is_vehicle_grid(vehicle@),
    {
        let mut rng = rng;
        let weights = kind_weights();
        let mut cells: Vec<Block> = Vec::new();
        let mut i: usize = 0;
        while i < VEHICLE_CELLS
            invariant
                i <= VEHICLE_CELLS,
                cells@.len() == i,
                weights@ == seq![4u32, 10u32, 3u32],
                total_weight(weights@) == 17,
            decreases VEHICLE_CELLS - i,
        {
            proof {
                assert(weights@[1] > 0);
                assert(has_positive_weight(weights@));
            }
            let kind = match pick_weighted(&mut rng, &weights) {
                Some(drawn) => match Block::from_code(drawn as u8) {
                    Some(kind) => kind,
                    None => vstd::pervasive::unreached(),
                },
                None => vstd::pervasive::unreached(),
            };
            cells.push(kind);
            i += 1;
        }
        Vehicle::from(cells)
    }

    /// Replaces the cells at `places`, one after the other, by `kinds`.
    ///
    /// This is the part of a mutation that chance has no hand in.
    pub fn mutate_at(&mut self, places: &Vec<usize>, kinds: &Vec<Block>)
        requires
            places@.len() == kinds@.len(),
            forall|i: int| 0 <= i < places@.len() ==> #[trigger] places@[i] < VEHICLE_CELLS,
        ensures
            final(self)@ == mutated(old(self)@, places@, kinds@),
            is_vehicle_grid(final(self)@),
    {
        proof {
            use_type_invariant(&*self);
            assert(places@.skip(0) =~= places@);
            assert(kinds@.skip(0) =~= kinds@);
        }
        let mut i: usize = 0;
        while i < places.len()
            invariant
                i <= places@.len(),
                places@.len() == kinds@.len(),
                forall|j: int| 0 <= j < places@.len() ==> #[trigger] places@[j] < VEHICLE_CELLS,
                is_vehicle_grid(self@),
                mutated(self@, places@.skip(i as int), kinds@.skip(i as int)) == mutated(
                    old(self)@,
                    places@,
                    kinds@,
                ),
            decreases places@.len() - i,
        {
            let place: usize = places[i];
            let ghost before = self@;
            proof {
                with_cell_keeps_rest(before, place as int, kinds@[i as int]);
                assert(places@.skip(i as int)[0] == place);
                assert(kinds@.skip(i as int)[0] == kinds@[i as int]);
                assert(places@.skip(i as int).drop_first() =~= places@.skip(i as int + 1));
                assert(kinds@.skip(i as int).drop_first() =~= kinds@.skip(i as int + 1));
            }
            grid_set(&mut self.blocks, place / VEHICLE_COLUMNS, place % VEHICLE_COLUMNS, kinds[i]);
            i += 1;
        }
    }

    /// Mutates `amount` cells: draws that many different cells (every cell once
    /// where `amount` is the number of cells or more) and gives each a kind
    /// drawn from all kinds alike, which may be the kind it had.
    pub fn mutate(&mut self, amount: usize)
        ensures
            is_mutation(old(self)@, final(self)@, amount as nat),
            is_vehicle_grid(final(self)@),
            changed_cells(old(self)@, final(self)@).finite(),
            changed_cells(old(self)@, final(self)@).len() <= amount,
    {
        proof {
            use_type_invariant(&*self);
        }
        let mut rng = thread_rng();
        let wanted: usize = if amount > VEHICLE_CELLS {
            VEHICLE_CELLS
        } else {
            amount
        };
        let places = pick_distinct(&mut rng, VEHICLE_CELLS, wanted);
        let mut kinds: Vec<Block> = Vec::new();
        let mut i: usize = 0;
        while i < places.len()
            invariant
                i <= places@.len(),
                kinds@.len() == i,
            decreases places@.len() - i,
        {
            kinds.push(random_kind(&mut rng));
            i += 1;
        }
        self.mutate_at(&places, &kinds);
        proof {
            assert(is_placement(places@, amount as nat));
            mutation_touches_only_its_places(old(self)@, places@, kinds@);
        }
    }

    /// Uniform crossover under a given mask, which holds one entry for every
    /// cell, row by row. Where the mask is set, the first child takes the cell
    /// of `other` and the second child that of this vehicle; where it is not
    /// set, the other way round.
    pub fn masked_crossover(&self, other: &Vehicle, mask: &Vec<bool>) -> (children: (
        Vehicle,
        Vehicle,
    ))
        requires
            mask@.len() == VEHICLE_CELLS,
        ensures
            children.0@ == blended(other@, self@, mask@),
            children.1@ == blended(self@, other@, mask@),
            is_vehicle_grid(children.0@),
            is_vehicle_grid(children.1@),
    {
        proof {
            use_type_invariant(self);
            use_type_invariant(other);
        }
        let mut brother: Vec<Block> = Vec::new();
        let mut sister: Vec<Block> = Vec::new();
        let mut i: usize = 0;
        while i < VEHICLE_CELLS
            invariant
                i <= VEHICLE_CELLS,
                mask@.len() == VEHICLE_CELLS,
                brother@.len() == i,
                sister@.len() == i,
                is_vehicle_grid(self@),
                is_vehicle_grid(other@),
                forall|j: int|
                    0 <= j < i ==> #[trigger] brother@[j] == (if mask@[j] {
                        other@[j / 8][j % 8]
                    } else {
                        self@[j / 8][j % 8]
                    }),
                forall|j: int|
                    0 <= j < i ==> #[trigger] sister@[j] == (if mask@[j] {
                        self@[j / 8][j % 8]
                    } else {
                        other@[j / 8][j % 8]
                    }),
            decreases VEHICLE_CELLS - i,
        {
            let row: usize = i / VEHICLE_COLUMNS;
            let col: usize = i % VEHICLE_COLUMNS;
            let mine = self.block_at(row, col);
            let theirs = other.block_at(row, col);
            if mask[i] {
                brother.push(theirs);
                sister.push(mine);
            } else {
                brother.push(mine);
                sister.push(theirs);
            }
            i += 1;
        }
        let first = Vehicle::from(brother);
        let second = Vehicle::from(sister);
        proof {
            grids_equal_by_cells(first@, blended(other@, self@, mask@));
            grids_equal_by_cells(second@, blended(self@, other@, mask@));
        }
        (first, second)
    }

    /// Uniform crossover: for every cell a fair coin decides which parent the
    /// second child takes it from, and the first child takes it from the other.
    pub fn uniform_crossover(&self, other: &Vehicle) -> (children: (Vehicle, Vehicle))
        ensures
            is_uniform_crossover(self@, other@, (children.0@, children.1@)),
            is_vehicle_grid(children.0@),
            is_vehicle_grid(children.1@),
    {
        let mut rng = thread_rng();
        let mut mask: Vec<bool> = Vec::new();
        let mut i: usize = 0;
        while i < VEHICLE_CELLS
            invariant
                i <= VEHICLE_CELLS,
                mask@.len() == i,
            decreases VEHICLE_CELLS - i,
        {
            mask.push(flip(&mut rng));
            i += 1;
        }
        self.masked_crossover(other, &mask)
    }
}

/// The weights with which the kinds of a random vehicle are drawn, by the
/// number of the kind: air 4, panel 10, wheel 3.
pub fn kind_weights() -> (weights: Vec<u32>)
    ensures
        weights@ == seq![4u32, 10u32, 3u32],
        total_weight(weights@) == 17,
{
    let mut weights: Vec<u32> = Vec::new();
    weights.push(4);
    weights.push(10);
    weights.push(3);
    proof {
        reveal_with_fuel(total_weight, 4);
        assert(weights@.drop_last() =~= seq![4u32, 10u32]);
        assert(weights@.drop_last().drop_last() =~= seq![4u32]);
        assert(weights@.drop_last().drop_last().drop_last() =~= Seq::<u32>::empty());
    }
    weights
}

/// A kind drawn from all kinds alike.
fn random_kind(rng: &mut ThreadRng) -> (kind: Block) {
    match pick_one(rng, BLOCK_KINDS as usize) {
        Some(drawn) => match Block::from_code(drawn as u8) {
            Some(kind) => kind,
            None => vstd::pervasive::unreached(),
        },
        None => vstd::pervasive::unreached(),
    }
}

impl Clone for Vehicle {
    fn clone(&self) -> (copy: Self)
        ensures
            copy@ == self@,
    {
        let copy = Vehicle::from(self.to_cells());
        proof {
            cells_round_trip(self@, Seq::empty());
        }
        copy
    }
}

impl PartialEq for Vehicle {
    fn eq(&self, other: &Vehicle) -> (same: bool) {
        proof {
            use_type_invariant(self);
            use_type_invariant(other);
        }
        let mut i: usize = 0;
        while i < VEHICLE_CELLS
            invariant
                i <= VEHICLE_CELLS,
                is_vehicle_grid(self@),
                is_vehicle_grid(other@),
                forall|j: int|
                    0 <= j < i ==> cells_of_grid(self@)[j] == #[trigger] cells_of_grid(other@)[j],
            decreases VEHICLE_CELLS - i,
        {
            let row: usize = i / VEHICLE_COLUMNS;
            let col: usize = i % VEHICLE_COLUMNS;
            if self.block_at(row, col) != other.block_at(row, col) {
                return false;
            }
            i += 1;
        }
        proof {
            assert forall|r: int, c: int|
                0 <= r < VEHICLE_ROWS && 0 <= c < VEHICLE_COLUMNS implies self@[r][c]
                == other@[r][c] by {
                let j = r * 8 + c;
                assert(j / 8 == r && j % 8 == c);
                assert(cells_of_grid(self@)[j] == cells_of_grid(other@)[j]);
            }
            grids_equal_by_cells(self@, other@);
        }
        true
    }
}

impl PartialEqSpecImpl for Vehicle {
    open spec fn obeys_eq_spec() -> bool {
        true
    }

    open spec fn eq_spec(&self, other: &Vehicle) -> bool {
        self@ == other@
    }
}

impl Eq for Vehicle {

}

} // verus!
