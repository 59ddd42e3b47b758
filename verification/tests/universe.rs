use game_of_life::patterns::wrap_signed;
use game_of_life::seed::ALIVE_BELOW;
use game_of_life::{Seed, Universe};

fn alive_at(universe: &Universe, cells: &[(u32, u32)]) -> Vec<usize> {
    let mut indices: Vec<usize> = cells.iter().map(|&(r, c)| universe.get_index(r, c)).collect();
    indices.sort();
    indices.dedup();
    indices
}

#[test]
fn new_dead_universe_has_no_live_cell() {
    let universe = Universe::new(64, 64, Seed::Dead);
    assert_eq!(universe.width(), 64);
    assert_eq!(universe.height(), 64);
    assert_eq!(universe.get_cells().len(), 64 * 64);
    assert_eq!(universe.get_alive_cells(), Vec::<usize>::new());
}

#[test]
fn new_with_arithmetic_seed_marks_every_second_and_seventh_cell() {
    let universe = Universe::new(5, 3, Seed::Arithmetic);
    assert_eq!(universe.get_cells().len(), 15);
    assert_eq!(universe.get_alive_cells(), vec![0, 2, 4, 6, 7, 8, 10, 12, 14]);
}

#[test]
fn new_with_draws_is_alive_below_the_middle_of_the_range() {
    let draws = vec![0, ALIVE_BELOW - 1, ALIVE_BELOW, u32::MAX, 1, 3_000_000_000];
    let universe = Universe::new(3, 2, Seed::Draws(draws));
    assert_eq!(universe.get_alive_cells(), vec![0, 1, 4]);
}

#[test]
fn alive_bound_is_half_of_the_range() {
    assert_eq!(ALIVE_BELOW, 2_147_483_648);
}

#[test]
fn seed_alive_at_follows_the_policy() {
    assert!(!Seed::Dead.alive_at(0));
    assert!(Seed::Arithmetic.alive_at(14));
    assert!(Seed::Arithmetic.alive_at(21));
    assert!(!Seed::Arithmetic.alive_at(15));
    let draws = Seed::Draws(vec![5, u32::MAX]);
    assert!(draws.alive_at(0));
    assert!(!draws.alive_at(1));
}

#[test]
fn get_index_is_row_major() {
    let universe = Universe::new(7, 4, Seed::Dead);
    assert_eq!(universe.get_index(0, 0), 0);
    assert_eq!(universe.get_index(0, 6), 6);
    assert_eq!(universe.get_index(1, 0), 7);
    assert_eq!(universe.get_index(3, 6), 27);
    assert_eq!(universe.get_index(2, 5), 19);
}

#[test]
fn neighbor_count_wraps_across_both_edges() {
    let mut universe = Universe::new(3, 3, Seed::Dead);
    universe.set_cells(&[(0, 0)]);
    assert_eq!(universe.live_neighbor_count(2, 2), 1);
    assert_eq!(universe.live_neighbor_count(0, 0), 0);
    assert_eq!(universe.live_neighbor_count(1, 1), 1);
}

#[test]
fn neighbor_count_wraps_across_one_edge() {
    let mut universe = Universe::new(6, 5, Seed::Dead);
    universe.set_cells(&[(4, 2), (0, 5)]);
    assert_eq!(universe.live_neighbor_count(0, 2), 1);
    assert_eq!(universe.live_neighbor_count(0, 1), 1);
    assert_eq!(universe.live_neighbor_count(0, 0), 1);
    assert_eq!(universe.live_neighbor_count(4, 0), 1);
    assert_eq!(universe.live_neighbor_count(2, 2), 0);
}

#[test]
fn neighbor_count_reaches_eight_and_leaves_the_cell_out() {
    let mut universe = Universe::new(5, 5, Seed::Dead);
    universe.set_cells(&[(1, 1), (1, 2), (1, 3), (2, 1), (2, 2), (2, 3), (3, 1), (3, 2), (3, 3)]);
    assert_eq!(universe.live_neighbor_count(2, 2), 8);
    assert_eq!(universe.live_neighbor_count(1, 1), 3);
    assert_eq!(universe.live_neighbor_count(1, 2), 5);
    assert_eq!(universe.live_neighbor_count(0, 0), 1);
}

#[test]
fn neighbor_count_on_a_two_by_two_grid_counts_cells_twice() {
    let mut universe = Universe::new(2, 2, Seed::Dead);
    universe.set_cells(&[(0, 1)]);
    // The column neighbour is reached by the step back and the step forward.
    assert_eq!(universe.live_neighbor_count(0, 0), 2);
    assert_eq!(universe.live_neighbor_count(1, 0), 4);
    assert_eq!(universe.live_neighbor_count(1, 1), 2);
    assert_eq!(universe.live_neighbor_count(0, 1), 0);
}

#[test]
fn neighbor_count_on_a_single_cell_grid() {
    let mut universe = Universe::new(1, 1, Seed::Dead);
    assert_eq!(universe.live_neighbor_count(0, 0), 0);
    universe.toggle_cell(0, 0);
    // Of the nine pairs of steps four are two zero steps; the other five
    // lead back to the cell itself.
    assert_eq!(universe.live_neighbor_count(0, 0), 5);
}

#[test]
fn neighbor_count_on_a_single_row() {
    let mut universe = Universe::new(4, 1, Seed::Dead);
    universe.set_cells(&[(0, 1)]);
    assert_eq!(universe.live_neighbor_count(0, 0), 3);
    assert_eq!(universe.live_neighbor_count(0, 1), 1);
    assert_eq!(universe.live_neighbor_count(0, 2), 3);
    assert_eq!(universe.live_neighbor_count(0, 3), 0);
}

#[test]
fn tick_keeps_the_number_of_cells() {
    let mut universe = Universe::new(9, 5, Seed::Arithmetic);
    for _ in 0..6 {
        universe.tick();
        assert_eq!(universe.width(), 9);
        assert_eq!(universe.height(), 5);
        assert_eq!(universe.get_cells().len(), 45);
    }
}

#[test]
fn tick_turns_a_blinker() {
    let mut universe = Universe::new(5, 5, Seed::Dead);
    let across = [(2, 1), (2, 2), (2, 3)];
    let down = [(1, 2), (2, 2), (3, 2)];
    universe.set_cells(&across);
    universe.tick();
    assert_eq!(universe.get_alive_cells(), alive_at(&universe, &down));
    universe.tick();
    assert_eq!(universe.get_alive_cells(), alive_at(&universe, &across));
}

#[test]
fn tick_on_a_full_block_kills_the_centre_and_keeps_the_corners() {
    let mut universe = Universe::new(7, 7, Seed::Dead);
    universe.set_cells(&[(2, 2), (2, 3), (2, 4), (3, 2), (3, 3), (3, 4), (4, 2), (4, 3), (4, 4)]);
    assert_eq!(universe.live_neighbor_count(3, 3), 8);
    assert_eq!(universe.live_neighbor_count(2, 2), 3);
    universe.tick();
    let cells = universe.get_cells();
    assert!(!cells[universe.get_index(3, 3)]);
    assert!(cells[universe.get_index(2, 2)]);
    assert!(cells[universe.get_index(2, 4)]);
    assert!(cells[universe.get_index(4, 2)]);
    assert!(cells[universe.get_index(4, 4)]);
    let expected =
        [(2, 2), (2, 4), (4, 2), (4, 4), (1, 3), (3, 1), (3, 5), (5, 3)];
    assert_eq!(universe.get_alive_cells(), alive_at(&universe, &expected));
}

#[test]
fn tick_keeps_a_square_still() {
    let mut universe = Universe::new(4, 4, Seed::Dead);
    let square = [(1, 1), (1, 2), (2, 1), (2, 2)];
    universe.set_cells(&square);
    universe.tick();
    assert_eq!(universe.get_alive_cells(), alive_at(&universe, &square));
}

#[test]
fn tick_decides_every_cell_from_the_same_generation() {
    // A row of three across the seam: decided in place, the first cell
    // would be gone before its neighbours are counted.
    let mut universe = Universe::new(5, 5, Seed::Dead);
    universe.set_cells(&[(0, 4), (0, 0), (0, 1)]);
    universe.tick();
    assert_eq!(universe.get_alive_cells(), alive_at(&universe, &[(4, 0), (0, 0), (1, 0)]));
}

#[test]
fn glider_moves_one_cell_diagonally_in_four_ticks() {
    let mut universe = Universe::new(8, 8, Seed::Dead);
    universe.set_cells(&[(0, 1), (1, 2), (2, 0), (2, 1), (2, 2)]);
    for _ in 0..4 {
        universe.tick();
    }
    assert_eq!(
        universe.get_alive_cells(),
        alive_at(&universe, &[(1, 2), (2, 3), (3, 1), (3, 2), (3, 3)])
    );
}

#[test]
fn glider_on_a_six_by_six_grid() {
    let mut universe = Universe::new(6, 6, Seed::Dead);
    universe.add_spaceship(0, 0);
    for _ in 0..4 {
        universe.tick();
    }
    assert_eq!(
        universe.get_alive_cells(),
        alive_at(&universe, &[(1, 2), (2, 3), (3, 1), (3, 2), (3, 3)])
    );
}

#[test]
fn dead_grid_stays_dead() {
    let mut universe = Universe::new(6, 4, Seed::Dead);
    for _ in 0..10 {
        universe.tick();
        assert!(universe.get_alive_cells().is_empty());
    }
}

#[test]
fn set_cells_then_alive_cells_is_the_sorted_index_set() {
    let mut universe = Universe::new(4, 3, Seed::Arithmetic);
    universe.set_cells(&[(2, 3), (0, 1), (1, 0), (0, 1), (2, 3), (1, 2)]);
    assert_eq!(universe.get_alive_cells(), vec![1, 4, 6, 11]);
}

#[test]
fn set_cells_twice_is_set_cells_once() {
    let mut universe = Universe::new(4, 3, Seed::Dead);
    universe.set_cells(&[(1, 1), (2, 0)]);
    let once = universe.get_alive_cells();
    universe.set_cells(&[(1, 1), (2, 0)]);
    assert_eq!(universe.get_alive_cells(), once);
    assert_eq!(once, vec![5, 8]);
}

#[test]
fn set_cells_with_no_cell_clears_the_grid() {
    let mut universe = Universe::new(4, 3, Seed::Arithmetic);
    universe.set_cells(&[]);
    assert!(universe.get_alive_cells().is_empty());
    assert_eq!(universe.get_cells().len(), 12);
}

#[test]
fn toggle_cell_flips_one_cell() {
    let mut universe = Universe::new(4, 3, Seed::Dead);
    universe.set_cells(&[(0, 0), (2, 3)]);
    universe.toggle_cell(1, 2);
    assert_eq!(universe.get_alive_cells(), vec![0, 6, 11]);
    universe.toggle_cell(0, 0);
    assert_eq!(universe.get_alive_cells(), vec![6, 11]);
    universe.toggle_cell(1, 2);
    assert_eq!(universe.get_alive_cells(), vec![11]);
}

#[test]
fn random_cells_overwrites_every_cell() {
    let mut universe = Universe::new(3, 2, Seed::Dead);
    universe.set_cells(&[(0, 0), (0, 1), (1, 2)]);
    universe.random_cells(&[u32::MAX, 0, ALIVE_BELOW - 1, ALIVE_BELOW, 7, 4_000_000_000]);
    assert_eq!(universe.get_alive_cells(), vec![1, 2, 4]);
}

#[test]
fn reset_cells_clears_and_keeps_the_size() {
    let mut universe = Universe::new(5, 5, Seed::Arithmetic);
    universe.reset_cells();
    assert_eq!(universe.get_cells().len(), 25);
    assert!(universe.get_alive_cells().is_empty());
}

#[test]
fn set_width_to_a_wider_grid_clears_and_grows() {
    let mut universe = Universe::new(4, 3, Seed::Arithmetic);
    universe.set_width(10);
    assert_eq!(universe.width(), 10);
    assert_eq!(universe.height(), 3);
    assert_eq!(universe.get_cells().len(), 30);
    assert!(universe.get_alive_cells().is_empty());
}

#[test]
fn set_width_to_a_narrower_grid_clears_and_shrinks() {
    let mut universe = Universe::new(10, 3, Seed::Arithmetic);
    universe.set_width(2);
    assert_eq!(universe.width(), 2);
    assert_eq!(universe.get_cells().len(), 6);
    assert_eq!(universe.cells().len(), 1);
    assert!(universe.get_alive_cells().is_empty());
    universe.toggle_cell(2, 1);
    assert_eq!(universe.get_alive_cells(), vec![5]);
}

#[test]
fn set_height_clears_and_resizes() {
    let mut universe = Universe::new(4, 3, Seed::Arithmetic);
    universe.set_height(9);
    assert_eq!(universe.height(), 9);
    assert_eq!(universe.width(), 4);
    assert_eq!(universe.get_cells().len(), 36);
    assert!(universe.get_alive_cells().is_empty());
    universe.set_cells(&[(8, 3)]);
    universe.set_height(1);
    assert_eq!(universe.get_cells().len(), 4);
    assert!(universe.get_alive_cells().is_empty());
}

#[test]
fn cells_packs_thirty_two_cells_to_a_word() {
    let mut universe = Universe::new(11, 3, Seed::Dead);
    assert_eq!(universe.cells(), &[0u32, 0u32][..]);
    universe.set_cells(&[(0, 0), (0, 3), (2, 9), (2, 10)]);
    assert_eq!(universe.cells(), &[0x8000_0009u32, 0b1u32][..]);
    let universe = Universe::new(8, 8, Seed::Dead);
    assert_eq!(universe.cells().len(), 2);
}

#[test]
fn get_cells_shows_the_same_cells_as_the_listing() {
    let mut universe = Universe::new(4, 4, Seed::Dead);
    universe.set_cells(&[(1, 1), (3, 2)]);
    let listed: Vec<usize> = universe.get_cells().ones().collect();
    assert_eq!(listed, universe.get_alive_cells());
    assert_eq!(listed, vec![5, 14]);
}

#[test]
fn add_spaceship_stamps_the_glider_at_the_anchor() {
    let mut universe = Universe::new(6, 6, Seed::Dead);
    universe.add_spaceship(1, 2);
    assert_eq!(
        universe.get_alive_cells(),
        alive_at(&universe, &[(1, 3), (2, 4), (3, 2), (3, 3), (3, 4)])
    );
}

#[test]
fn add_spaceship_wraps_round_the_edges() {
    let mut universe = Universe::new(6, 5, Seed::Dead);
    universe.add_spaceship(4, 5);
    assert_eq!(
        universe.get_alive_cells(),
        alive_at(&universe, &[(4, 0), (0, 1), (1, 5), (1, 0), (1, 1)])
    );
}

#[test]
fn add_spaceship_only_adds() {
    let mut universe = Universe::new(6, 6, Seed::Dead);
    universe.set_cells(&[(5, 5), (0, 1)]);
    universe.add_spaceship(0, 0);
    assert_eq!(
        universe.get_alive_cells(),
        alive_at(&universe, &[(5, 5), (0, 1), (1, 2), (2, 0), (2, 1), (2, 2)])
    );
}

#[test]
fn add_spaceship_takes_an_anchor_at_the_end_of_the_range() {
    let mut universe = Universe::new(7, 5, Seed::Dead);
    // 4294967295 = 0 (mod 5) and 3 (mod 7); the offsets are added before
    // the remainder is taken.
    universe.add_spaceship(u32::MAX, u32::MAX);
    assert_eq!(
        universe.get_alive_cells(),
        alive_at(&universe, &[(0, 4), (1, 5), (2, 3), (2, 4), (2, 5)])
    );
}

fn pulsar_cells(row: i64, col: i64, height: i64, width: i64) -> Vec<(u32, u32)> {
    let quadrant: [(i64, i64); 12] = [
        (2, 1),
        (3, 1),
        (4, 1),
        (1, 2),
        (1, 3),
        (1, 4),
        (2, 6),
        (3, 6),
        (4, 6),
        (6, 2),
        (6, 3),
        (6, 4),
    ];
    let mut cells = Vec::new();
    for (sr, sc) in [(1, 1), (1, -1), (-1, 1), (-1, -1)] {
        for (dr, dc) in quadrant {
            let r = (row + sr * dr).rem_euclid(height);
            let c = (col + sc * dc).rem_euclid(width);
            cells.push((r as u32, c as u32));
        }
    }
    cells
}

#[test]
fn add_pulsar_stamps_forty_eight_cells() {
    let mut universe = Universe::new(17, 17, Seed::Dead);
    universe.add_pulsar(8, 8);
    let alive = universe.get_alive_cells();
    assert_eq!(alive.len(), 48);
    assert_eq!(alive, alive_at(&universe, &pulsar_cells(8, 8, 17, 17)));
    assert_eq!(&alive[..6], &[38, 39, 40, 44, 45, 46]);
    assert!(universe.get_cells()[universe.get_index(10, 9)]);
    assert!(universe.get_cells()[universe.get_index(2, 4)]);
    assert!(!universe.get_cells()[universe.get_index(8, 8)]);
}

#[test]
fn add_pulsar_wraps_round_the_edges() {
    let mut universe = Universe::new(20, 15, Seed::Dead);
    universe.add_pulsar(0, 0);
    let alive = universe.get_alive_cells();
    assert_eq!(alive.len(), 48);
    assert_eq!(alive, alive_at(&universe, &pulsar_cells(0, 0, 15, 20)));
    assert!(universe.get_cells()[universe.get_index(13, 19)]);
    assert!(universe.get_cells()[universe.get_index(2, 1)]);
    assert!(universe.get_cells()[universe.get_index(9, 18)]);
}

#[test]
fn add_pulsar_on_a_small_grid_and_a_negative_anchor() {
    let mut universe = Universe::new(4, 5, Seed::Dead);
    universe.add_pulsar(-7, -1);
    assert_eq!(universe.get_alive_cells(), alive_at(&universe, &pulsar_cells(-7, -1, 5, 4)));
    assert_eq!(universe.get_cells().len(), 20);
}

#[test]
fn add_pulsar_only_adds() {
    let mut universe = Universe::new(17, 17, Seed::Dead);
    universe.set_cells(&[(8, 8), (10, 9)]);
    universe.add_pulsar(8, 8);
    assert_eq!(universe.get_alive_cells().len(), 49);
    assert!(universe.get_cells()[universe.get_index(8, 8)]);
}

#[test]
fn pulsar_has_period_three() {
    let mut universe = Universe::new(17, 17, Seed::Dead);
    universe.add_pulsar(8, 8);
    let start = universe.get_alive_cells();
    universe.tick();
    assert_ne!(universe.get_alive_cells(), start);
    universe.tick();
    universe.tick();
    assert_eq!(universe.get_alive_cells(), start);
}

#[test]
fn wrap_signed_is_the_euclidean_remainder() {
    assert_eq!(wrap_signed(0, 0, 5), 0);
    assert_eq!(wrap_signed(3, 4, 5), 2);
    assert_eq!(wrap_signed(-1, 0, 5), 4);
    assert_eq!(wrap_signed(0, -6, 4), 2);
    assert_eq!(wrap_signed(0, -4, 4), 0);
    assert_eq!(wrap_signed(-7, -3, 5), 0);
    assert_eq!(wrap_signed(i32::MIN, -6, 10), 6);
    assert_eq!(wrap_signed(i32::MAX, 6, 10), 3);
    assert_eq!(wrap_signed(i32::MIN, i32::MIN, u32::MAX), 4_294_967_294);
    assert_eq!(wrap_signed(5, -6, 1), 0);
}
