use gba_life::game::{Game, Rand};

fn blinker_horizontal() -> Vec<bool> {
    vec![false, false, false, true, true, true, false, false, false]
}

fn blinker_vertical() -> Vec<bool> {
    vec![false, true, false, false, true, false, false, true, false]
}

#[test]
fn blinker_oscillates_with_period_two() {
    let mut game = Game::from_cells(3, 3, &blinker_horizontal()).unwrap();
    assert_eq!(game.next(), blinker_vertical());
    assert_eq!(game.cells(), blinker_vertical());
    assert_eq!(game.next(), blinker_horizontal());
    assert_eq!(game.cells(), blinker_horizontal());
}

#[test]
fn same_dimensions_give_same_initial_generation() {
    let a = Game::new(40, 60);
    let b = Game::new(40, 60);
    assert_eq!(a.cells(), b.cells());
    assert_eq!(a.cells().len(), 2400);
}

#[test]
fn seeding_follows_the_generator() {
    let game = Game::new(3, 3);
    assert_eq!(game.cells(), vec![true, true, true, true, true, false, true, true, false]);
    let wide = Game::new(1, 12);
    assert_eq!(
        wide.cells(),
        vec![true, true, true, true, true, false, true, true, false, false, false, true]
    );
}

#[test]
fn seeded_grid_advances_by_the_rule() {
    let mut game = Game::new(3, 3);
    assert_eq!(game.next(), vec![true, false, true, false, false, false, true, true, false]);
}

#[test]
fn generation_has_rows_times_cols_cells() {
    let mut game = Game::new(4, 7);
    for _ in 0..5 {
        let next = game.next();
        assert_eq!(next.len(), 28);
        assert_eq!(next, game.cells());
    }
    assert_eq!(game.row_size(), 4);
    assert_eq!(game.col_size(), 7);
}

#[test]
fn flat_index_is_row_major() {
    // a single live cell at (1, 2) of a 3 by 4 grid, with its two live neighbours
    let mut cells = vec![false; 12];
    cells[0 * 4 + 2] = true;
    cells[1 * 4 + 1] = true;
    cells[2 * 4 + 3] = true;
    let mut game = Game::from_cells(3, 4, &cells).unwrap();
    let next = game.next();
    let alive: Vec<usize> = (0..12).filter(|&i| next[i]).collect();
    assert_eq!(alive, vec![1 * 4 + 2]);
}

#[test]
fn three_neighbours_give_birth() {
    let cells = vec![true, true, false, true, false, false, false, false, false];
    let mut game = Game::from_cells(3, 3, &cells).unwrap();
    let next = game.next();
    assert!(next[4]);
    assert!(next[0]);
}

#[test]
fn live_cell_with_two_neighbours_survives() {
    let cells = vec![true, false, false, false, true, false, false, false, true];
    let mut game = Game::from_cells(3, 3, &cells).unwrap();
    let next = game.next();
    assert_eq!(next, vec![false, false, false, false, true, false, false, false, false]);
}

#[test]
fn dead_cell_with_two_neighbours_stays_dead() {
    let cells = vec![true, false, true, false, false, false, false, false, false];
    let mut game = Game::from_cells(3, 3, &cells).unwrap();
    assert_eq!(game.next(), vec![false; 9]);
}

#[test]
fn overcrowded_and_lonely_cells_die() {
    let mut full = Game::from_cells(3, 3, &vec![true; 9]).unwrap();
    assert_eq!(full.next(), vec![true, false, true, false, false, false, true, false, true]);
    let mut lonely = Game::from_cells(1, 1, &vec![true]).unwrap();
    assert_eq!(lonely.next(), vec![false]);
}

#[test]
fn corner_sees_only_three_neighbours() {
    let mut block = Game::from_cells(2, 2, &vec![true; 4]).unwrap();
    assert_eq!(block.next(), vec![true; 4]);
    // live cells on the opposite edges do not wrap around to the corner
    let cells = vec![false, false, true, false, false, false, true, false, true];
    let mut game = Game::from_cells(3, 3, &cells).unwrap();
    let next = game.next();
    assert!(!next[0]);
}

#[test]
fn dead_generation_stays_dead() {
    let mut game = Game::from_cells(5, 6, &vec![false; 30]).unwrap();
    assert_eq!(game.next(), vec![false; 30]);
    assert_eq!(game.next(), vec![false; 30]);
}

#[test]
fn empty_dimensions_give_empty_generations() {
    let mut none = Game::new(0, 5);
    assert!(none.next().is_empty());
    let mut flat = Game::new(5, 0);
    assert!(flat.next().is_empty());
    assert!(flat.cells().is_empty());
}

#[test]
fn from_cells_rejects_wrong_length() {
    assert!(Game::from_cells(3, 3, &vec![false; 8]).is_none());
    assert!(Game::from_cells(3, 3, &vec![false; 10]).is_none());
    assert!(Game::from_cells(usize::MAX, 2, &vec![false; 4]).is_none());
    assert!(Game::from_cells(2, 2, &vec![false; 4]).is_some());
}

#[test]
fn generator_can_be_built_from_any_seed() {
    let _ = Rand::new(0);
    let _ = Rand::new(usize::MAX);
}
