use std::collections::hash_map::DefaultHasher;
use std::hash::{Hash, Hasher};

use vehicle_evolver::block::{Block, Joint, BLOCK_KINDS};
use vehicle_evolver::genome_key::KEY_LIMIT;
use vehicle_evolver::vehicle::{
    kind_weights, Vehicle, VEHICLE_CELLS, VEHICLE_COLUMNS, VEHICLE_ROWS, VEHICLE_SHAPE,
};

fn striped_cells() -> Vec<Block> {
    let mut cells = Vec::new();
    for i in 0..VEHICLE_CELLS {
        cells.push(match i % 3 {
            0 => Block::Air,
            1 => Block::Panel,
            _ => Block::Wheel,
        });
    }
    cells
}

fn std_hash_of(vehicle: &Vehicle) -> u64 {
    let mut hasher = DefaultHasher::new();
    vehicle.hash(&mut hasher);
    hasher.finish()
}

fn differing_cells(a: &Vehicle, b: &Vehicle) -> usize {
    let mut n = 0;
    for row in 0..VEHICLE_ROWS {
        for col in 0..VEHICLE_COLUMNS {
            if a.block_at(row, col) != b.block_at(row, col) {
                n += 1;
            }
        }
    }
    n
}

#[test]
fn test() {
    let v1 = Vehicle::new_fill_with(Block::Panel);
    let v2 = Vehicle::new_fill_with(Block::Wheel);

    for x in 1..8 {
        let v3 = v1.one_point_crossover(&v2, x);
        println!(
            "vehicle after one-point crossover:\n{}\n\n{}\n---",
            v3.0.to_text(),
            v3.1.to_text()
        );
    }

    for _ in 1..8 {
        let v3 = v1.uniform_crossover(&v2);
        println!(
            "vehicle after uniform crossover:\n{}\n\n{}\n---",
            v3.0.to_text(),
            v3.1.to_text()
        );
    }
}

#[test]
fn shape_constants_agree() {
    assert_eq!(VEHICLE_SHAPE, (6, 8));
    assert_eq!(VEHICLE_ROWS, 6);
    assert_eq!(VEHICLE_COLUMNS, 8);
    assert_eq!(VEHICLE_CELLS, VEHICLE_ROWS * VEHICLE_COLUMNS);
}

#[test]
fn block_codes_round_trip() {
    assert_eq!(BLOCK_KINDS, 3);
    assert_eq!(Block::Air.code(), 0);
    assert_eq!(Block::Panel.code(), 1);
    assert_eq!(Block::Wheel.code(), 2);
    assert_eq!(Block::from_code(0), Some(Block::Air));
    assert_eq!(Block::from_code(1), Some(Block::Panel));
    assert_eq!(Block::from_code(2), Some(Block::Wheel));
    assert_eq!(Block::from_code(3), None);
    assert_eq!(Block::from_code(255), None);
    assert_eq!(Block::all(), vec![Block::Air, Block::Panel, Block::Wheel]);
}

#[test]
fn filled_vehicle_has_the_kind_everywhere() {
    let v = Vehicle::new_fill_with(Block::Panel);
    for row in 0..6 {
        for col in 0..8 {
            assert_eq!(v.block_at(row, col), Block::Panel);
        }
    }
    let empty = Vehicle::new_empty();
    assert_eq!(empty, Vehicle::new_fill_with(Block::Air));
}

#[test]
fn from_lays_cells_out_row_by_row() {
    let cells = striped_cells();
    let v = Vehicle::from(cells.clone());
    for row in 0..VEHICLE_ROWS {
        for col in 0..VEHICLE_COLUMNS {
            assert_eq!(v.block_at(row, col), cells[row * VEHICLE_COLUMNS + col]);
        }
    }
    assert_eq!(v.block_at(0, 1), Block::Panel);
    assert_eq!(v.block_at(1, 0), Block::Wheel);
    assert_eq!(v.to_cells(), cells);
}

#[test]
fn equal_content_is_equal_and_hashes_equal() {
    let a = Vehicle::from(striped_cells());
    let b = Vehicle::from(striped_cells());
    assert_eq!(a, b);
    assert_eq!(std_hash_of(&a), std_hash_of(&b));
    assert_eq!(a.key(), b.key());
    let copy = a.clone();
    assert_eq!(copy, a);
    assert_eq!(copy.key(), a.key());
}

#[test]
fn any_differing_cell_makes_unequal() {
    let base = striped_cells();
    let a = Vehicle::from(base.clone());
    for place in 0..VEHICLE_CELLS {
        let mut cells = base.clone();
        cells[place] = match cells[place] {
            Block::Air => Block::Panel,
            Block::Panel => Block::Wheel,
            Block::Wheel => Block::Air,
        };
        let b = Vehicle::from(cells);
        assert_ne!(a, b);
        assert_ne!(a.key(), b.key());
    }
}

#[test]
fn keys_spell_the_cells_in_base_three() {
    assert_eq!(KEY_LIMIT, 79766443076872509863361);
    assert_eq!(Vehicle::new_empty().key(), 0);
    assert_eq!(Vehicle::new_fill_with(Block::Wheel).key(), KEY_LIMIT - 1);
    assert_eq!(Vehicle::new_fill_with(Block::Panel).key(), (KEY_LIMIT - 1) / 2);
    let mut cells = vec![Block::Air; VEHICLE_CELLS];
    cells[0] = Block::Wheel;
    cells[1] = Block::Panel;
    cells[2] = Block::Wheel;
    assert_eq!(Vehicle::from(cells).key(), 2 + 3 + 18);
}

#[test]
fn keys_read_back_to_the_same_vehicle() {
    let v = Vehicle::from(striped_cells());
    assert_eq!(Vehicle::from_key(v.key()), Some(v));
    assert_eq!(Vehicle::from_key(0), Some(Vehicle::new_empty()));
    assert_eq!(
        Vehicle::from_key(KEY_LIMIT - 1),
        Some(Vehicle::new_fill_with(Block::Wheel))
    );
    assert_eq!(Vehicle::from_key(KEY_LIMIT), None);
    assert_eq!(Vehicle::from_key(u128::MAX), None);
    for _ in 0..20 {
        let random = Vehicle::new();
        assert!(random.key() < KEY_LIMIT);
        assert_eq!(Vehicle::from_key(random.key()), Some(random));
    }
}

#[test]
fn one_point_crossover_is_a_partition() {
    let a = Vehicle::new_fill_with(Block::Panel);
    let b = Vehicle::new_fill_with(Block::Wheel);
    for cut in 1..VEHICLE_COLUMNS {
        let (first, second) = a.one_point_crossover(&b, cut);
        for row in 0..VEHICLE_ROWS {
            for col in 0..VEHICLE_COLUMNS {
                if col < cut {
                    assert_eq!(first.block_at(row, col), Block::Panel);
                    assert_eq!(second.block_at(row, col), Block::Wheel);
                } else {
                    assert_eq!(first.block_at(row, col), Block::Wheel);
                    assert_eq!(second.block_at(row, col), Block::Panel);
                }
            }
        }
    }
}

#[test]
fn one_point_crossover_at_the_edges() {
    let a = Vehicle::from(striped_cells());
    let b = Vehicle::new_fill_with(Block::Wheel);
    let (first, second) = a.one_point_crossover(&b, 1);
    for row in 0..VEHICLE_ROWS {
        assert_eq!(first.block_at(row, 0), a.block_at(row, 0));
        assert_eq!(second.block_at(row, 0), Block::Wheel);
        for col in 1..VEHICLE_COLUMNS {
            assert_eq!(first.block_at(row, col), Block::Wheel);
            assert_eq!(second.block_at(row, col), a.block_at(row, col));
        }
    }
    let (first, second) = a.one_point_crossover(&b, 7);
    for row in 0..VEHICLE_ROWS {
        for col in 0..7 {
            assert_eq!(first.block_at(row, col), a.block_at(row, col));
            assert_eq!(second.block_at(row, col), Block::Wheel);
        }
        assert_eq!(first.block_at(row, 7), Block::Wheel);
        assert_eq!(second.block_at(row, 7), a.block_at(row, 7));
    }
}

#[test]
fn crossing_over_twice_restores_the_parents() {
    let a = Vehicle::from(striped_cells());
    let b = Vehicle::new();
    for cut in 1..VEHICLE_COLUMNS {
        let (first, second) = a.one_point_crossover(&b, cut);
        let (again_a, again_b) = first.one_point_crossover(&second, cut);
        assert_eq!(again_a, a);
        assert_eq!(again_b, b);
    }
}

#[test]
fn masked_crossover_follows_the_mask() {
    let a = Vehicle::new_fill_with(Block::Panel);
    let b = Vehicle::new_fill_with(Block::Wheel);
    let mut mask = vec![false; VEHICLE_CELLS];
    mask[0] = true;
    mask[9] = true;
    mask[47] = true;
    let (first, second) = a.masked_crossover(&b, &mask);
    for row in 0..VEHICLE_ROWS {
        for col in 0..VEHICLE_COLUMNS {
            if mask[row * VEHICLE_COLUMNS + col] {
                assert_eq!(first.block_at(row, col), Block::Wheel);
                assert_eq!(second.block_at(row, col), Block::Panel);
            } else {
                assert_eq!(first.block_at(row, col), Block::Panel);
                assert_eq!(second.block_at(row, col), Block::Wheel);
            }
        }
    }
    assert_eq!(first.block_at(1, 1), Block::Wheel);
}

#[test]
fn uniform_crossover_children_are_complements() {
    let a = Vehicle::new_fill_with(Block::Panel);
    let b = Vehicle::new_fill_with(Block::Wheel);
    let mut from_a = 0;
    for _ in 0..20 {
        let (first, second) = a.uniform_crossover(&b);
        for row in 0..VEHICLE_ROWS {
            for col in 0..VEHICLE_COLUMNS {
                let one = first.block_at(row, col);
                let two = second.block_at(row, col);
                assert!(one == Block::Panel || one == Block::Wheel);
                assert_ne!(one, two);
                assert!(two == Block::Panel || two == Block::Wheel);
                if one == Block::Panel {
                    from_a += 1;
                }
            }
        }
    }
    // 960 fair coins: both sides come up.
    assert!(from_a > 0 && from_a < 960);
}

#[test]
fn mutate_at_replaces_exactly_the_named_cells() {
    let mut v = Vehicle::new_fill_with(Block::Panel);
    v.mutate_at(&vec![0, 9, 47, 9], &vec![Block::Wheel, Block::Air, Block::Panel, Block::Wheel]);
    for place in 0..VEHICLE_CELLS {
        let expected = match place {
            0 => Block::Wheel,
            9 => Block::Wheel,
            _ => Block::Panel,
        };
        assert_eq!(v.block_at(place / 8, place % 8), expected);
    }
    let before = v.clone();
    v.mutate_at(&vec![], &vec![]);
    assert_eq!(v, before);
}

#[test]
fn mutate_changes_at_most_amount_cells() {
    for amount in [0usize, 1, 2, 5, 47, 48, 49, 1000, usize::MAX] {
        for _ in 0..10 {
            let before = Vehicle::new();
            let mut after = before.clone();
            after.mutate(amount);
            assert!(differing_cells(&before, &after) <= amount.min(VEHICLE_CELLS));
        }
    }
    let before = Vehicle::new();
    let mut after = before.clone();
    after.mutate(0);
    assert_eq!(after, before);
}

#[test]
fn mutate_draws_every_kind_in_the_long_run() {
    let mut seen = [false; 3];
    for _ in 0..50 {
        let mut v = Vehicle::new_fill_with(Block::Panel);
        v.mutate(VEHICLE_CELLS);
        for cell in v.to_cells() {
            seen[cell.code() as usize] = true;
        }
    }
    assert_eq!(seen, [true, true, true]);
}

#[test]
fn random_vehicles_have_the_shape_and_favour_panels() {
    assert_eq!(kind_weights(), vec![4, 10, 3]);
    let mut counts = [0usize; 3];
    for _ in 0..100 {
        let cells = Vehicle::new().to_cells();
        assert_eq!(cells.len(), VEHICLE_CELLS);
        for cell in cells {
            counts[cell.code() as usize] += 1;
        }
    }
    assert!(counts[1] > counts[0]);
    assert!(counts[0] > 0);
    assert!(counts[1] > counts[2]);
    assert!(counts[2] > 0);
    let with_rng = Vehicle::new_with_rng(rand::thread_rng());
    assert_eq!(with_rng.to_cells().len(), VEHICLE_CELLS);
}


#[test]
fn vehicles_are_written_row_by_row() {
    assert_eq!(Block::Air.symbol(), '◻');
    assert_eq!(Block::Panel.symbol(), '◼');
    assert_eq!(Block::Wheel.symbol(), '⭕');
    assert_eq!(Vehicle::new_fill_with(Block::Panel).to_text(), "◼◼◼◼◼◼◼◼\n".repeat(6));
    let mut cells = vec![Block::Air; VEHICLE_CELLS];
    cells[0] = Block::Wheel;
    cells[7] = Block::Panel;
    cells[8] = Block::Panel;
    cells[47] = Block::Wheel;
    let text = Vehicle::from(cells).to_text();
    let lines: Vec<&str> = text.lines().collect();
    assert_eq!(
        lines,
        vec![
            "⭕◻◻◻◻◻◻◼",
            "◼◻◻◻◻◻◻◻",
            "◻◻◻◻◻◻◻◻",
            "◻◻◻◻◻◻◻◻",
            "◻◻◻◻◻◻◻◻",
            "◻◻◻◻◻◻◻⭕"
        ]
    );
    assert!(text.ends_with('\n'));
    assert_eq!(text.chars().count(), 54);
}

#[test]
fn neighbours_are_joined_by_their_kinds() {
    assert_eq!(Block::Panel.joint_with(Block::Panel), Joint::Fixed);
    assert_eq!(Block::Panel.joint_with(Block::Wheel), Joint::WheelSecond);
    assert_eq!(Block::Wheel.joint_with(Block::Panel), Joint::WheelFirst);
    assert_eq!(Block::Wheel.joint_with(Block::Wheel), Joint::Loose);
    for kind in Block::all() {
        assert_eq!(Block::Air.joint_with(kind), Joint::Loose);
        assert_eq!(kind.joint_with(Block::Air), Joint::Loose);
    }
}
