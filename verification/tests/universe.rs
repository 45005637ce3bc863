use game_of_life::bitmask::Bitmask;
use game_of_life::entity::Cell;
use game_of_life::pattern;
use game_of_life::pattern::{glider, space_ship};
use game_of_life::universe::Universe;

fn grid(width: u32, height: u32, alive: &[(u32, u32)]) -> Universe {
    let mut seed = vec![false; (width * height) as usize];
    for (row, column) in alive {
        seed[(row * width + column) as usize] = true;
    }
    Universe::from_seed(width, height, &seed)
}

fn live_cells(universe: &Universe) -> Vec<(u32, u32)> {
    let mut found = Vec::new();
    for row in 0..universe.height() {
        for column in 0..universe.width() {
            if universe.is_alive(row, column) {
                found.push((row, column));
            }
        }
    }
    found
}

/// Reads cell `index` from the packed words as an outside reader does.
fn decode(words: &[u32], len: usize, index: usize) -> bool {
    (words[(len - index - 1) / 32] >> (index % 32)) & 1 == 1
}

#[test]
fn new_is_128_by_128_with_the_parity_pattern() {
    let universe = Universe::new();
    assert_eq!(universe.width(), 128);
    assert_eq!(universe.height(), 128);
    assert_eq!(universe.cells_len(), 16384);
    assert_eq!(universe.cells().len(), 16384 / 32 + 1);
    for index in 0..16384u32 {
        let expected = index % 2 == 0 || index % 7 == 0;
        assert_eq!(universe.is_alive(index / 128, index % 128), expected);
    }
    let pattern = pattern::default(128, 128);
    for index in 0..16384u32 {
        assert_eq!(
            universe.is_alive(index / 128, index % 128),
            pattern[index as usize].to_bool()
        );
    }
}

#[test]
fn from_seed_keeps_every_cell_where_the_seed_has_it() {
    for (width, height) in [(1u32, 1u32), (3, 3), (7, 7), (8, 8), (5, 13), (33, 1), (10, 10)] {
        let size = (width * height) as usize;
        let seed: Vec<bool> = (0..size).map(|i| (i * 7 + i / 3) % 4 == 1).collect();
        let universe = Universe::from_seed(width, height, &seed);
        assert_eq!(universe.width(), width);
        assert_eq!(universe.height(), height);
        assert_eq!(universe.cells_len(), size);
        for row in 0..height {
            for column in 0..width {
                assert_eq!(
                    universe.is_alive(row, column),
                    seed[(row * width + column) as usize]
                );
            }
        }
    }
}

#[test]
fn cells_decode_by_slot_and_shift() {
    for (width, height) in [(7u32, 7u32), (8, 8), (5, 13)] {
        let size = (width * height) as usize;
        let seed: Vec<bool> = (0..size).map(|i| (i * 5 + i / 2) % 3 == 0).collect();
        let universe = Universe::from_seed(width, height, &seed);
        let words = universe.cells();
        assert_eq!(words.len(), size / 32 + 1);
        for index in 0..size {
            assert_eq!(decode(words, size, index), seed[index]);
        }
    }
}

#[test]
fn cells_of_a_small_grid() {
    // Three cells in one word: cell i in bit i.
    let universe = Universe::from_seed(3, 1, &[true, false, true]);
    assert_eq!(universe.cells(), [0b101]);
    // 64 cells: word 0 holds the cells 32..64, word 1 the cells 0..32.
    let mut seed = [false; 64];
    seed[0] = true;
    seed[33] = true;
    let universe = Universe::from_seed(8, 8, &seed);
    assert_eq!(universe.cells(), [0b10, 0b1, 0]);
}

#[test]
fn live_neighbor_count_counts_the_eight_neighbors() {
    let universe = grid(7, 7, &[(1, 1), (1, 2), (1, 3), (2, 1), (2, 3), (3, 1), (3, 2), (3, 3)]);
    assert_eq!(universe.live_neighbor_count(2, 2), 8);
    assert_eq!(universe.live_neighbor_count(1, 1), 2);
    assert_eq!(universe.live_neighbor_count(1, 2), 4);
    assert_eq!(universe.live_neighbor_count(0, 0), 1);
    assert_eq!(universe.live_neighbor_count(0, 2), 3);
    assert_eq!(universe.live_neighbor_count(4, 4), 1);
    assert_eq!(universe.live_neighbor_count(4, 0), 1);
    assert_eq!(universe.live_neighbor_count(6, 6), 0);
    assert_eq!(universe.live_neighbor_count(5, 2), 0);
}

#[test]
fn live_neighbor_count_does_not_count_the_cell_itself() {
    let universe = grid(4, 4, &[(1, 1)]);
    assert_eq!(universe.live_neighbor_count(1, 1), 0);
    assert_eq!(universe.live_neighbor_count(0, 0), 1);
}

#[test]
fn live_neighbor_count_wraps_around_the_corner() {
    let universe = grid(6, 4, &[(3, 5)]);
    assert_eq!(universe.live_neighbor_count(0, 0), 1);
    let universe = grid(6, 4, &[(0, 0)]);
    assert_eq!(universe.live_neighbor_count(3, 5), 1);
}

#[test]
fn live_neighbor_count_wraps_around_each_edge() {
    let universe = grid(5, 4, &[(3, 2), (1, 4)]);
    assert_eq!(universe.live_neighbor_count(0, 2), 1);
    assert_eq!(universe.live_neighbor_count(0, 1), 1);
    assert_eq!(universe.live_neighbor_count(0, 3), 2);
    assert_eq!(universe.live_neighbor_count(1, 0), 1);
    assert_eq!(universe.live_neighbor_count(0, 0), 1);
    assert_eq!(universe.live_neighbor_count(2, 0), 1);
}

#[test]
fn live_neighbor_count_on_a_grid_of_one_cell() {
    // Every neighbor of the only cell is the cell itself.
    let universe = grid(1, 1, &[(0, 0)]);
    assert_eq!(universe.live_neighbor_count(0, 0), 8);
    let universe = grid(1, 1, &[]);
    assert_eq!(universe.live_neighbor_count(0, 0), 0);
}

#[test]
fn a_live_cell_with_no_live_neighbor_dies() {
    let mut universe = grid(5, 5, &[(2, 2)]);
    universe.tick();
    assert_eq!(live_cells(&universe), vec![]);
}

#[test]
fn a_live_cell_with_one_live_neighbor_dies() {
    let mut universe = grid(5, 5, &[(2, 2), (2, 3)]);
    universe.tick();
    assert_eq!(universe.is_alive(2, 2), false);
    assert_eq!(universe.is_alive(2, 3), false);
    assert_eq!(live_cells(&universe), vec![]);
}

#[test]
fn a_live_cell_with_two_live_neighbors_survives() {
    let mut universe = grid(6, 6, &[(1, 1), (2, 2), (3, 3)]);
    assert_eq!(universe.live_neighbor_count(2, 2), 2);
    universe.tick();
    assert_eq!(universe.is_alive(2, 2), true);
    assert_eq!(live_cells(&universe), vec![(2, 2)]);
}

#[test]
fn a_live_cell_with_three_live_neighbors_survives() {
    let mut universe = grid(6, 6, &[(1, 1), (1, 3), (2, 2), (3, 2)]);
    assert_eq!(universe.live_neighbor_count(2, 2), 3);
    universe.tick();
    assert_eq!(universe.is_alive(2, 2), true);
}

#[test]
fn a_live_cell_with_four_live_neighbors_dies() {
    let mut universe = grid(6, 6, &[(1, 1), (1, 3), (2, 2), (3, 1), (3, 3)]);
    assert_eq!(universe.live_neighbor_count(2, 2), 4);
    universe.tick();
    assert_eq!(universe.is_alive(2, 2), false);
}

#[test]
fn a_dead_cell_with_three_live_neighbors_comes_alive() {
    let mut universe = grid(6, 6, &[(1, 1), (1, 3), (3, 2)]);
    assert_eq!(universe.live_neighbor_count(2, 2), 3);
    universe.tick();
    assert_eq!(universe.is_alive(2, 2), true);
    assert_eq!(live_cells(&universe), vec![(2, 2)]);
}

#[test]
fn a_dead_cell_with_two_live_neighbors_stays_dead() {
    let mut universe = grid(6, 6, &[(1, 1), (3, 3)]);
    assert_eq!(universe.live_neighbor_count(2, 2), 2);
    universe.tick();
    assert_eq!(universe.is_alive(2, 2), false);
}

#[test]
fn a_blinker_turns() {
    let mut universe = grid(5, 5, &[(2, 1), (2, 2), (2, 3)]);
    universe.tick();
    assert_eq!(live_cells(&universe), vec![(1, 2), (2, 2), (3, 2)]);
    universe.tick();
    assert_eq!(live_cells(&universe), vec![(2, 1), (2, 2), (2, 3)]);
}

#[test]
fn a_block_is_a_still_life() {
    for (width, height) in [(3u32, 3u32), (4, 4), (5, 3), (8, 8), (6, 9)] {
        let block = [(1, 1), (1, 2), (2, 1), (2, 2)];
        let mut universe = grid(width, height, &block);
        let words = universe.cells().to_vec();
        universe.tick();
        assert_eq!(live_cells(&universe), block.to_vec());
        assert_eq!(universe.cells(), words);
        assert_eq!(universe.width(), width);
        assert_eq!(universe.height(), height);
    }
}

#[test]
fn a_block_across_the_seam_is_a_still_life() {
    let mut universe = grid(5, 4, &[(0, 0), (0, 4), (3, 0), (3, 4)]);
    universe.tick();
    assert_eq!(live_cells(&universe), vec![(0, 0), (0, 4), (3, 0), (3, 4)]);
}

#[test]
fn tick_on_the_space_ship() {
    let seed: Vec<bool> = space_ship(8, 8).iter().map(|cell| cell.to_bool()).collect();
    let mut universe = Universe::from_seed(8, 8, &seed);
    assert_eq!(
        live_cells(&universe),
        vec![(0, 0), (0, 3), (1, 4), (2, 0), (2, 4), (3, 1), (3, 2), (3, 3), (3, 4)]
    );
    universe.tick();
    // --------
    // ---##---
    // -##-##--
    // -####---
    // --##----
    assert_eq!(
        live_cells(&universe),
        vec![
            (1, 3),
            (1, 4),
            (2, 1),
            (2, 2),
            (2, 4),
            (2, 5),
            (3, 1),
            (3, 2),
            (3, 3),
            (3, 4),
            (4, 2),
            (4, 3)
        ]
    );
}

#[test]
fn tick_on_an_empty_grid_does_nothing() {
    for (width, height) in [(0u32, 0u32), (0, 5), (5, 0)] {
        let mut universe = Universe::from_seed(width, height, &[]);
        universe.tick();
        assert_eq!(universe.width(), width);
        assert_eq!(universe.height(), height);
        assert_eq!(universe.cells_len(), 0);
        assert_eq!(universe.cells(), [0]);
    }
}

#[test]
fn toggle_cell_flips_one_cell() {
    let mut universe = grid(5, 4, &[(1, 1), (2, 3)]);
    universe.toggle_cell(2, 3);
    assert_eq!(live_cells(&universe), vec![(1, 1)]);
    universe.toggle_cell(3, 4);
    assert_eq!(live_cells(&universe), vec![(1, 1), (3, 4)]);
    universe.toggle_cell(3, 4);
    universe.toggle_cell(1, 1);
    assert_eq!(live_cells(&universe), vec![]);
}

#[test]
fn spawn_glider_at_the_origin_lands_at_3_3() {
    for (width, height) in [(7u32, 7u32), (8, 8), (6, 9)] {
        let mut universe = grid(width, height, &[]);
        universe.spawn_glider(0, 0);
        let block = glider();
        let mut k = 0;
        for column in 3..6 {
            for row in 3..6 {
                assert_eq!(universe.is_alive(row, column), block[k]);
                k += 1;
            }
        }
        assert_eq!(
            live_cells(&universe),
            vec![(3, 4), (4, 5), (5, 3), (5, 4), (5, 5)]
        );
    }
}

#[test]
fn spawn_glider_three_before_the_anchor() {
    let mut universe = grid(12, 10, &[]);
    universe.spawn_glider(7, 9);
    assert_eq!(
        live_cells(&universe),
        vec![(4, 7), (5, 8), (6, 6), (6, 7), (6, 8)]
    );
}

#[test]
fn spawn_glider_keeps_the_margin() {
    for (row, column) in [(0u32, 0u32), (3, 3), (5, 6), (6, 2), (1, 6)] {
        let mut universe = grid(8, 8, &[]);
        universe.spawn_glider(row, column);
        assert_eq!(
            live_cells(&universe),
            vec![(3, 4), (4, 5), (5, 3), (5, 4), (5, 5)]
        );
    }
}

#[test]
fn spawn_glider_overwrites_the_block_and_nothing_else() {
    let all: Vec<(u32, u32)> = (0..8).flat_map(|r| (0..8).map(move |c| (r, c))).collect();
    let mut universe = grid(8, 8, &all);
    universe.spawn_glider(0, 0);
    for row in 0..8 {
        for column in 0..8 {
            let inside = (3..6).contains(&row) && (3..6).contains(&column);
            let expected = if inside {
                glider()[((column - 3) * 3 + (row - 3)) as usize]
            } else {
                true
            };
            assert_eq!(universe.is_alive(row, column), expected);
        }
    }
}

#[test]
fn stamp_pattern_writes_column_by_column() {
    let mut universe = grid(9, 9, &[]);
    let pattern = [true, false, false, true, true, false, true, true, true];
    universe.stamp_pattern(8, 7, &pattern);
    assert_eq!(
        live_cells(&universe),
        vec![(5, 4), (5, 5), (5, 6), (6, 5), (6, 6), (7, 6)]
    );
}

#[test]
fn set_width_kills_every_cell() {
    let mut universe = Universe::new();
    universe.set_width(10);
    assert_eq!(universe.width(), 10);
    assert_eq!(universe.height(), 128);
    assert_eq!(universe.cells_len(), 1280);
    assert_eq!(universe.cells(), vec![0u32; 1280 / 32 + 1]);
    assert_eq!(live_cells(&universe), vec![]);
}

#[test]
fn set_height_kills_every_cell() {
    let mut universe = Universe::new();
    universe.set_height(3);
    assert_eq!(universe.width(), 128);
    assert_eq!(universe.height(), 3);
    assert_eq!(universe.cells_len(), 384);
    assert_eq!(universe.cells(), vec![0u32; 384 / 32 + 1]);
    assert_eq!(live_cells(&universe), vec![]);
}

#[test]
fn set_width_to_nothing() {
    let mut universe = Universe::new();
    universe.set_width(0);
    assert_eq!(universe.width(), 0);
    assert_eq!(universe.cells_len(), 0);
    universe.tick();
    assert_eq!(universe.cells_len(), 0);
    universe.set_width(4);
    universe.set_height(4);
    universe.toggle_cell(1, 1);
    assert_eq!(live_cells(&universe), vec![(1, 1)]);
}

#[test]
fn cells_follow_the_pattern_cells() {
    let pattern = space_ship(8, 8);
    let seed: Vec<bool> = pattern.iter().map(|cell| cell.to_bool()).collect();
    let universe = Universe::from_seed(8, 8, &seed);
    for index in 0..64u32 {
        let alive = universe.is_alive(index / 8, index % 8);
        assert_eq!(alive, pattern[index as usize] == Cell::Alive);
    }
}

#[test]
fn stamp_fits_when_the_block_lies_inside() {
    let universe = grid(8, 6, &[]);
    assert_eq!(universe.stamp_fits(0, 0), true);
    assert_eq!(universe.stamp_fits(6, 8), true);
    assert_eq!(universe.stamp_fits(6, 9), false);
    assert_eq!(universe.stamp_fits(7, 8), false);
    assert_eq!(universe.stamp_fits(u32::MAX, 0), false);
    let universe = grid(5, 6, &[]);
    assert_eq!(universe.stamp_fits(0, 0), false);
    let universe = grid(2, 2, &[]);
    assert_eq!(universe.stamp_fits(0, 0), false);
}

#[test]
fn from_seed_packs_as_new_does() {
    for (width, height) in [(0u32, 0u32), (3, 3), (7, 7), (8, 4), (8, 8), (16, 6), (33, 1), (5, 13)] {
        let size = (width * height) as usize;
        let seed: Vec<bool> = (0..size).map(|i| (i * 3 + i / 5) % 4 == 0).collect();
        let universe = Universe::from_seed(width, height, &seed);
        assert_eq!(universe.cells(), Bitmask::new(&seed).as_slice());
    }
}

#[test]
fn universe_is_found_at_the_crate_root() {
    let universe = game_of_life::Universe::from_seed(2, 1, &[true, false]);
    assert_eq!(universe.is_alive(0, 0), true);
    assert_eq!(universe.is_alive(0, 1), false);
}
