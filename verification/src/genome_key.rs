use vstd::prelude::*;
use crate::block::Block;
use crate::vehicle::{
    cells_of_grid, cells_round_trip, grids_equal_by_cells, is_vehicle_grid, Vehicle,
    VEHICLE_CELLS,
};

verus! {

/// One more than the largest key: three to the power of the number of cells.
pub const KEY_LIMIT: u128 = 79766443076872509863361;

/// Three to the power of `n`.
pub open spec fn pow3(n: nat) -> nat
    decreases n,
{
    if n == 0 {
        1
    } else {
        3 * pow3((n - 1) as nat)
    }
}

/// The number that a row of cells spells in base three, the first cell being
/// the lowest digit.
pub open spec fn cells_value(cells: Seq<Block>) -> nat
    decreases cells.len(),
{
    if cells.len() == 0 {
        0
    } else {
        cells[0].spec_code() as nat + 3 * cells_value(cells.drop_first())
    }
}

/// The key of a grid: the number that its cells spell, read row by row.
///
/// The key is the content address of a vehicle: the fitness cache files a
/// fitness under it.
pub open spec fn genome_key(rows: Seq<Seq<Block>>) -> nat {
    cells_value(cells_of_grid(rows))
}

/// The number that `n` cells spell is below three to the power of `n`.
pub proof fn cells_value_is_bounded(cells: Seq<Block>)
    ensures
        cells_value(cells) < pow3(cells.len()),
    decreases cells.len(),
{
    if cells.len() > 0 {
        cells_value_is_bounded(cells.drop_first());
        Block::code_round_trip(cells[0], 0);
    }
}

/// Rows of cells of one length that spell the same number are the same row.
pub proof fn cells_value_is_injective(a: Seq<Block>, b: Seq<Block>)
    requires
        a.len() == b.len(),
        cells_value(a) == cells_value(b),
    ensures
        a == b,
    decreases a.len(),
{
    if a.len() == 0 {
        assert(a =~= b);
    } else {
        Block::code_round_trip(a[0], 0);
        Block::code_round_trip(b[0], 0);
        let x = cells_value(a.drop_first());
        let y = cells_value(b.drop_first());
        assert(a[0].spec_code() as int + 3 * x == b[0].spec_code() as int + 3 * y);
        assert(a[0].spec_code() == b[0].spec_code());
        assert(a[0] == b[0]);
        cells_value_is_injective(a.drop_first(), b.drop_first());
        assert(a =~= seq![a[0]] + a.drop_first());
        assert(b =~= seq![b[0]] + b.drop_first());
    }
}

/// The value of `KEY_LIMIT`.
pub proof fn key_limit_is_power()
    ensures
        pow3(VEHICLE_CELLS as nat) == KEY_LIMIT,
{
    reveal_with_fuel(pow3, 50);
}

/// Two vehicle grids have the same key exactly when they are the same grid:
/// the same block in every place. Every key is below `KEY_LIMIT`.
pub proof fn key_identifies_genome(a: Seq<Seq<Block>>, b: Seq<Seq<Block>>)
    requires
        is_vehicle_grid(a),
        is_vehicle_grid(b),
    ensures
        genome_key(a) == genome_key(b) <==> a == b,
        a == b <==> (forall|r: int, c: int| 0 <= r < 6 && 0 <= c < 8 ==> a[r][c] == b[r][c]),
        genome_key(a) < KEY_LIMIT,
{
    if genome_key(a) == genome_key(b) {
        cells_value_is_injective(cells_of_grid(a), cells_of_grid(b));
        cells_round_trip(a, Seq::empty());
        cells_round_trip(b, Seq::empty());
    }
    if forall|r: int, c: int| 0 <= r < 6 && 0 <= c < 8 ==> a[r][c] == b[r][c] {
        grids_equal_by_cells(a, b);
    }
    cells_value_is_bounded(cells_of_grid(a));
    key_limit_is_power();
}

impl Vehicle {
    /// The key of this vehicle.
    pub fn key(&self) -> (key: u128)
        ensures
            key == genome_key(self@),
            key < KEY_LIMIT,
    {
        let cells = self.to_cells();
        let mut key: u128 = 0;
        let mut i: usize = VEHICLE_CELLS;
        proof {
            assert(cells@.skip(VEHICLE_CELLS as int) =~= Seq::<Block>::empty());
            key_limit_is_power();
        }
        while i > 0
            invariant
                i <= VEHICLE_CELLS,
                cells@.len() == VEHICLE_CELLS,
                key == cells_value(cells@.skip(i as int)),
                pow3(VEHICLE_CELLS as nat) == KEY_LIMIT,
            decreases i,
        {
            i -= 1;
            let digit: u8 = cells[i].code();
            proof {
                let tail = cells@.skip(i as int);
                assert(tail.drop_first() =~= cells@.skip(i as int + 1));
                assert(tail[0] == cells@[i as int]);
                cells_value_is_bounded(tail);
                pow3_is_monotonic(tail.len(), VEHICLE_CELLS as nat);
            }
            key = key * 3 + digit as u128;
        }
        proof {
            assert(cells@.skip(0) =~= cells@);
            cells_value_is_bounded(cells@);
        }
        key
    }

    /// The vehicle with the given key; `None` where no vehicle has it, which
    /// are the keys from `KEY_LIMIT` on.
    pub fn from_key(key: u128) -> (found: Option<Vehicle>)
        ensures
            found is Some <==> key < KEY_LIMIT,
            found matches Some(vehicle) ==> genome_key(vehicle@) == key && is_vehicle_grid(
                vehicle@,
            ),
    {
        if key >= KEY_LIMIT {
            return None;
        }
        let mut cells: Vec<Block> = Vec::new();
        let mut rest: u128 = key;
        let mut i: usize = 0;
        proof {
            key_limit_is_power();
            assert(Seq::<Block>::empty() + Seq::<Block>::empty() =~= Seq::<Block>::empty());
        }
        while i < VEHICLE_CELLS
            invariant
                i <= VEHICLE_CELLS,
                cells@.len() == i,
                rest < pow3((VEHICLE_CELLS - i) as nat),
                forall|tail: Seq<Block>|
                    cells_value(tail) == rest ==> #[trigger] cells_value(cells@ + tail) == key,
            decreases VEHICLE_CELLS - i,
        {
            let digit: u8 = (rest % 3) as u8;
            let kind = match Block::from_code(digit) {
                Some(kind) => kind,
                None => vstd::pervasive::unreached(),
            };
            let ghost before = cells@;
            let ghost old_rest = rest;
            cells.push(kind);
            rest = rest / 3;
            proof {
                Block::code_round_trip(kind, digit);
                assert forall|tail: Seq<Block>|
                    cells_value(tail) == rest implies #[trigger] cells_value(cells@ + tail)
                    == key by {
                    let longer = seq![kind] + tail;
                    assert(longer.drop_first() =~= tail);
                    assert(cells_value(longer) == old_rest);
                    assert(cells@ + tail =~= before + longer);
                }
            }
            i += 1;
        }
        let ghost spelled = cells@;
        let vehicle = Vehicle::from(cells);
        proof {
            assert(rest == 0);
            assert(cells_value(Seq::<Block>::empty()) == rest);
            assert(spelled + Seq::<Block>::empty() =~= spelled);
            cells_round_trip(vehicle@, spelled);
        }
        Some(vehicle)
    }
}

/// Powers of three grow with the exponent.
pub proof fn pow3_is_monotonic(low: nat, high: nat)
    requires
        low <= high,
    ensures
        pow3(low) <= pow3(high),
    decreases high,
{
    if low < high {
        pow3_is_monotonic(low, (high - 1) as nat);
    }
}

} // verus!
