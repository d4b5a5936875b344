use game_of_life::Cell;
use game_of_life::GridError;
use game_of_life::Universe;

fn all_dead(width: u32, height: u32) -> Vec<bool> {
    vec![false; (width as usize) * (height as usize)]
}

fn alive(u: &Universe, row: u32, column: u32) -> bool {
    u.get_cell(row, column) == Ok(Cell::Alive)
}

fn snapshot(u: &Universe) -> Vec<bool> {
    let mut cells = Vec::new();
    for row in 0..u.height() {
        for column in 0..u.width() {
            cells.push(alive(u, row, column));
        }
    }
    cells
}

#[test]
fn toroidal_wraparound_diagonal_neighbor() {
    let mut seeds = all_dead(3, 3);
    seeds[0] = true;
    let u = Universe::new(3, 3, seeds);
    assert!(alive(&u, 0, 0));
    assert_eq!(u.live_neighbor_count(2, 2), 1);
}

#[test]
fn toroidal_wraparound_all_eight_neighbors_of_corner() {
    let mut seeds = all_dead(3, 3);
    seeds[0] = true;
    let u = Universe::new(3, 3, seeds);
    // every cell is a toroidal neighbor of (0, 0)'s eight positions
    assert_eq!(u.live_neighbor_count(0, 1), 1);
    assert_eq!(u.live_neighbor_count(1, 0), 1);
    assert_eq!(u.live_neighbor_count(1, 1), 1);
    assert_eq!(u.live_neighbor_count(0, 2), 1);
    assert_eq!(u.live_neighbor_count(2, 0), 1);
    assert_eq!(u.live_neighbor_count(1, 2), 1);
    assert_eq!(u.live_neighbor_count(2, 1), 1);
    // the live cell itself: its eight wrapped neighbors are all dead cells
    assert_eq!(u.live_neighbor_count(0, 0), 0);
}

#[test]
fn one_by_one_grid_counts_itself_eight_times() {
    let u = Universe::new(1, 1, vec![true]);
    assert_eq!(u.live_neighbor_count(0, 0), 8);
}

#[test]
fn blinker_oscillates_with_period_two() {
    let mut u = Universe::new(7, 7, all_dead(7, 7));
    u.set_cells(&[(3, 2), (3, 3), (3, 4)]).unwrap();
    let horizontal = snapshot(&u);
    u.tick();
    // vertical line centered on the same middle cell
    for row in 0..7 {
        for column in 0..7 {
            let expected = column == 3 && (2..=4).contains(&row);
            assert_eq!(alive(&u, row, column), expected, "at ({row}, {column})");
        }
    }
    u.tick();
    assert_eq!(snapshot(&u), horizontal);
}

#[test]
fn block_is_a_still_life() {
    let mut u = Universe::new(6, 6, all_dead(6, 6));
    u.set_cells(&[(2, 2), (2, 3), (3, 2), (3, 3)]).unwrap();
    let before = snapshot(&u);
    for _ in 0..5 {
        u.tick();
        assert_eq!(snapshot(&u), before);
    }
}

#[test]
fn reset_all_dead_is_idempotent() {
    let mut seeds = all_dead(5, 4);
    seeds[3] = true;
    seeds[17] = true;
    let mut u = Universe::new(5, 4, seeds);
    u.reset_all_dead();
    let once = snapshot(&u);
    assert!(once.iter().all(|&c| !c));
    u.reset_all_dead();
    assert_eq!(snapshot(&u), once);
    assert_eq!(u.width(), 5);
    assert_eq!(u.height(), 4);
}

#[test]
fn set_width_clears_state() {
    let mut seeds = all_dead(4, 4);
    seeds[5] = true;
    let mut u = Universe::new(4, 4, seeds);
    u.set_cells(&[(0, 0), (3, 3), (2, 1)]).unwrap();
    u.set_width(7);
    assert_eq!(u.width(), 7);
    assert_eq!(u.height(), 4);
    for row in 0..4 {
        for column in 0..7 {
            assert!(!alive(&u, row, column));
        }
    }
    // the packed buffer holds exactly 7 * 4 bits, all clear
    let blocks = u.cells();
    assert_eq!(blocks.len(), (7 * 4 + 31) / 32);
    assert!(blocks.iter().all(|&b| b == 0));
}

#[test]
fn set_height_clears_state() {
    let mut u = Universe::new(3, 3, vec![true; 9]);
    u.set_height(5);
    assert_eq!(u.width(), 3);
    assert_eq!(u.height(), 5);
    for row in 0..5 {
        for column in 0..3 {
            assert!(!alive(&u, row, column));
        }
    }
}

#[test]
fn glider_at_origin_is_rejected() {
    let mut seeds = all_dead(6, 6);
    seeds[7] = true;
    seeds[22] = true;
    let mut u = Universe::new(6, 6, seeds);
    let before = snapshot(&u);
    u.insert_glider(0, 0);
    assert_eq!(snapshot(&u), before);
}

#[test]
fn glider_stamp_overwrites_its_box() {
    let mut u = Universe::new(5, 5, vec![true; 25]);
    u.insert_glider(1, 1);
    // box rows 0..=2, columns 0..=2, overwritten with the glider
    let expected_box = [
        [false, true, false],
        [false, false, true],
        [true, true, true],
    ];
    for row in 0..5 {
        for column in 0..5 {
            let expected = if row < 3 && column < 3 {
                expected_box[row as usize][column as usize]
            } else {
                true
            };
            assert_eq!(alive(&u, row, column), expected, "at ({row}, {column})");
        }
    }
}

#[test]
fn pulsar_stamp_has_forty_eight_live_cells() {
    let mut u = Universe::new(15, 15, vec![true; 225]);
    u.insert_pulsar(7, 7);
    let live = snapshot(&u).iter().filter(|&&c| c).count();
    assert_eq!(live, 48);
    // spot checks: a bar cell, the center, a corner
    assert!(alive(&u, 1, 3));
    assert!(!alive(&u, 7, 7));
    assert!(!alive(&u, 0, 0));
}

#[test]
fn pulsar_near_edge_is_rejected() {
    let mut u = Universe::new(15, 15, vec![true; 225]);
    let before = snapshot(&u);
    u.insert_pulsar(6, 7);
    assert_eq!(snapshot(&u), before);
    u.insert_pulsar(0, 0);
    assert_eq!(snapshot(&u), before);
}

#[test]
fn pulsar_oscillates_with_period_three() {
    let mut u = Universe::new(17, 17, all_dead(17, 17));
    u.insert_pulsar(8, 8);
    let start = snapshot(&u);
    u.tick();
    assert_ne!(snapshot(&u), start);
    u.tick();
    assert_ne!(snapshot(&u), start);
    u.tick();
    assert_eq!(snapshot(&u), start);
}

#[test]
fn toggle_twice_restores_the_cell() {
    let mut seeds = all_dead(4, 3);
    seeds[6] = true;
    let mut u = Universe::new(4, 3, seeds);
    let before = snapshot(&u);
    assert_eq!(u.toggle_cell(1, 2), Ok(()));
    assert_ne!(snapshot(&u), before);
    assert_eq!(u.toggle_cell(1, 2), Ok(()));
    assert_eq!(snapshot(&u), before);
}

#[test]
fn toggle_out_of_range_reports_and_changes_nothing() {
    let mut u = Universe::new(3, 3, vec![true; 9]);
    let before = snapshot(&u);
    assert_eq!(u.toggle_cell(3, 0), Err(GridError::OutOfBounds));
    assert_eq!(u.toggle_cell(0, 3), Err(GridError::OutOfBounds));
    assert_eq!(snapshot(&u), before);
}

#[test]
fn set_cells_rejects_any_out_of_range_coordinate() {
    let mut u = Universe::new(3, 3, all_dead(3, 3));
    let r = u.set_cells(&[(0, 0), (5, 1)]);
    assert_eq!(r, Err(GridError::OutOfBounds));
    // nothing was applied, not even the in-range coordinate
    assert!(snapshot(&u).iter().all(|&c| !c));
}

#[test]
fn set_cells_leaves_unlisted_cells_alone() {
    let mut seeds = all_dead(4, 4);
    seeds[10] = true;
    let mut u = Universe::new(4, 4, seeds);
    u.set_cells(&[(0, 1), (3, 0)]).unwrap();
    for row in 0..4 {
        for column in 0..4 {
            let expected = (row, column) == (0, 1) || (row, column) == (3, 0) || (row, column)
                == (2, 2);
            assert_eq!(alive(&u, row, column), expected, "at ({row}, {column})");
        }
    }
}

#[test]
fn get_cell_out_of_range_reports() {
    let u = Universe::new(2, 2, all_dead(2, 2));
    assert_eq!(u.get_cell(2, 0), Err(GridError::OutOfBounds));
    assert_eq!(u.get_cell(0, 2), Err(GridError::OutOfBounds));
    assert_eq!(u.get_cell(1, 1), Ok(Cell::Dead));
}

#[test]
fn reset_reseeds_every_cell() {
    let mut u = Universe::new(3, 2, all_dead(3, 2));
    let seeds = vec![true, false, true, false, true, false];
    u.reset(seeds.clone());
    assert_eq!(snapshot(&u), seeds);
    assert_eq!(u.width(), 3);
    assert_eq!(u.height(), 2);
}

#[test]
fn render_draws_one_glyph_per_cell_and_one_line_per_row() {
    let mut u = Universe::new(3, 2, all_dead(3, 2));
    u.set_cells(&[(0, 1), (1, 0), (1, 2)]).unwrap();
    assert_eq!(u.render(), "◻◼◻\n◼◻◼\n");
}

#[test]
fn packed_buffer_matches_cell_reads() {
    let mut u = Universe::new(34, 2, all_dead(34, 2));
    u.set_cells(&[(0, 0), (0, 33), (1, 5)]).unwrap();
    let blocks: Vec<u32> = u.cells().to_vec();
    assert_eq!(blocks.len(), (34 * 2 + 31) / 32);
    for row in 0..2u32 {
        for column in 0..34u32 {
            let i = (row * 34 + column) as usize;
            let bit = (blocks[i / 32] >> (i % 32)) & 1 == 1;
            assert_eq!(bit, alive(&u, row, column), "bit {i}");
        }
    }
    let same = u.get_cells();
    assert_eq!(same, &blocks[..]);
}

#[test]
fn zero_width_grid_ticks_as_a_no_op() {
    let mut u = Universe::new(0, 5, Vec::new());
    u.tick();
    assert_eq!(u.width(), 0);
    assert_eq!(u.height(), 5);
    assert_eq!(u.cells().len(), 0);
    assert_eq!(u.render(), "\n\n\n\n\n");
}

#[test]
fn new_takes_seed_decisions_as_given() {
    let seeds = vec![true, true, false, false, true, false];
    let u = Universe::new(2, 3, seeds.clone());
    assert_eq!(snapshot(&u), seeds);
}

#[test]
fn underpopulation_and_overpopulation() {
    // a lone live cell dies; a dead cell with three neighbors is born
    let mut u = Universe::new(7, 7, all_dead(7, 7));
    u.set_cells(&[(1, 1)]).unwrap();
    u.tick();
    assert!(snapshot(&u).iter().all(|&c| !c));
    // a live cell with four neighbors dies of overpopulation
    let mut v = Universe::new(7, 7, all_dead(7, 7));
    v.set_cells(&[(3, 3), (2, 3), (4, 3), (3, 2), (3, 4)]).unwrap();
    v.tick();
    assert!(!alive(&v, 3, 3));
}
