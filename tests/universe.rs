use wasm_game_of_life::{Universe, UniverseError};

fn initial_universe() -> Universe {
    let mut universe = Universe::new(6, 6);
    universe.set_alive(&[(1, 3), (2, 3), (3, 3)]).unwrap();
    universe
}

fn expected_universe() -> Universe {
    let mut universe = Universe::new(6, 6);
    universe.set_alive(&[(2, 2), (2, 3), (2, 4)]).unwrap();
    universe
}

#[test]
pub fn test_tick() {
    let mut initial_universe = initial_universe();
    let expected_universe = expected_universe();

    initial_universe.tick();

    assert_eq!(
        initial_universe.get_alive_cell_indexes(),
        expected_universe.get_alive_cell_indexes()
    );
}

#[test]
pub fn test_width() {
    let universe = initial_universe();
    assert_eq!(universe.width(), 6);
}

#[test]
pub fn test_height() {
    let universe = initial_universe();
    assert_eq!(universe.height(), 6);
}

#[test]
fn vertical_blinker_turns_horizontal() {
    let mut universe = initial_universe();
    universe.tick();
    assert_eq!(universe.get_alive_cell_indexes(), vec![(2, 2), (2, 3), (2, 4)]);
    universe.tick();
    assert_eq!(universe.get_alive_cell_indexes(), vec![(1, 3), (2, 3), (3, 3)]);
}

#[test]
fn new_universe_is_all_dead() {
    let universe = Universe::new(4, 5);
    assert_eq!(universe.width(), 5);
    assert_eq!(universe.height(), 4);
    assert!(universe.get_alive_cell_indexes().is_empty());
}

#[test]
fn empty_grid_ticks_to_nothing() {
    let mut universe = Universe::new(0, 5);
    universe.tick();
    assert!(universe.get_alive_cell_indexes().is_empty());
    assert_eq!(universe.set_alive(&[(0, 0)]), Err(UniverseError::OutOfRange));
    let mut narrow = Universe::new(3, 0);
    narrow.tick();
    assert!(narrow.get_alive_cell_indexes().is_empty());
}

#[test]
fn alive_cells_come_in_row_major_order() {
    let mut universe = Universe::new(4, 4);
    universe.set_alive(&[(3, 0), (0, 3), (1, 1), (0, 0)]).unwrap();
    assert_eq!(universe.get_alive_cell_indexes(), vec![(0, 0), (0, 3), (1, 1), (3, 0)]);
}

#[test]
fn set_alive_rejects_out_of_range_and_changes_nothing() {
    let mut universe = Universe::new(6, 6);
    assert_eq!(universe.set_alive(&[(1, 1), (6, 0)]), Err(UniverseError::OutOfRange));
    assert_eq!(universe.set_alive(&[(0, 6)]), Err(UniverseError::OutOfRange));
    assert!(universe.get_alive_cell_indexes().is_empty());
}

#[test]
fn seeding_twice_equals_seeding_once() {
    let cells = [(0, 1), (2, 2), (4, 5), (2, 2)];
    let mut once = Universe::new(5, 6);
    once.set_alive(&cells).unwrap();
    let mut twice = Universe::new(5, 6);
    twice.set_alive(&cells).unwrap();
    twice.set_alive(&cells).unwrap();
    assert_eq!(once.get_alive_cell_indexes(), twice.get_alive_cell_indexes());
    assert_eq!(once.get_alive_cell_indexes(), vec![(0, 1), (2, 2), (4, 5)]);
}

#[test]
fn block_is_a_still_life() {
    let mut universe = Universe::new(6, 6);
    universe.set_alive(&[(2, 2), (2, 3), (3, 2), (3, 3)]).unwrap();
    for _ in 0..4 {
        universe.tick();
        assert_eq!(universe.get_alive_cell_indexes(), vec![(2, 2), (2, 3), (3, 2), (3, 3)]);
    }
}

#[test]
fn corner_counts_neighbours_across_edges() {
    let mut universe = Universe::new(5, 5);
    universe.set_alive(&[(4, 4), (4, 0), (0, 4)]).unwrap();
    universe.tick();
    assert_eq!(universe.get_alive_cell_indexes(), vec![(0, 0), (0, 4), (4, 0), (4, 4)]);
}

#[test]
fn same_seed_same_history() {
    let cells = [(1, 1), (1, 2), (2, 1), (3, 3)];
    let mut a = Universe::new(7, 8);
    let mut b = Universe::new(7, 8);
    a.set_alive(&cells).unwrap();
    b.set_alive(&cells).unwrap();
    let expected = [
        vec![(1, 1), (1, 2), (2, 1)],
        vec![(1, 1), (1, 2), (2, 1), (2, 2)],
        vec![(1, 1), (1, 2), (2, 1), (2, 2)],
    ];
    for step in expected.iter() {
        a.tick();
        b.tick();
        assert_eq!(a.get_alive_cell_indexes(), b.get_alive_cell_indexes());
        assert_eq!(&a.get_alive_cell_indexes(), step);
    }
}

#[test]
fn size_is_kept_across_ticks() {
    let mut universe = Universe::generate_predefined_universe_even_and_7(7, 9);
    for _ in 0..5 {
        universe.tick();
        assert_eq!(universe.width(), 9);
        assert_eq!(universe.height(), 7);
        for (row, col) in universe.get_alive_cell_indexes() {
            assert!(row < 7 && col < 9);
        }
    }
}

#[test]
fn predefined_pattern_marks_multiples_of_two_and_seven() {
    let universe = Universe::generate_predefined_universe_even_and_7(3, 3);
    assert_eq!(
        universe.get_alive_cell_indexes(),
        vec![(0, 0), (0, 2), (1, 1), (2, 0), (2, 1), (2, 2)]
    );
}

#[test]
fn random_universe_follows_the_draws() {
    let universe = Universe::generate_random_universe(2, 3, &[true, false, true, false, false, true]);
    assert_eq!(universe.get_alive_cell_indexes(), vec![(0, 0), (0, 2), (1, 2)]);
    let short = Universe::generate_random_universe(2, 3, &[false, true]);
    assert_eq!(short.get_alive_cell_indexes(), vec![(0, 1)]);
}

#[test]
fn stable_universe_needs_room() {
    assert_eq!(
        Universe::generate_simple_stable_universe(10, 10).err(),
        Some(UniverseError::OutOfRange)
    );
    assert_eq!(
        Universe::generate_simple_stable_universe(29, 64).err(),
        Some(UniverseError::OutOfRange)
    );
    assert_eq!(
        Universe::generate_simple_stable_universe(64, 28).err(),
        Some(UniverseError::OutOfRange)
    );
    let universe = Universe::generate_simple_stable_universe(30, 29).unwrap();
    assert_eq!(universe.get_alive_cell_indexes(), vec![(27, 28), (28, 28), (29, 28)]);
}

#[test]
fn cells_are_packed_into_blocks() {
    let mut universe = Universe::new(6, 6);
    universe.set_alive(&[(0, 1), (1, 0), (5, 5)]).unwrap();
    assert_eq!(universe.cells(), &[(1u32 << 1) | (1u32 << 6), 1u32 << 3][..]);
}
