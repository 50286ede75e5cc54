use game_of_life::cells::CellSet;
use game_of_life::game::{Game, GameError};

fn game_with_cells(dims: (i32, i32), cells: &[(usize, usize)]) -> Game {
    let mut seed = CellSet::new();
    for &c in cells {
        seed.insert(c);
    }
    Game::initialize(dims, &seed).unwrap()
}

fn assert_exact_live(game: &Game, expected: &[(usize, usize)]) {
    let live = game.live_cells().unwrap();
    assert_eq!(live.len(), expected.len());
    for &(col, row) in expected {
        assert!(game.is_alive(col, row), "({}, {}) should be alive", col, row);
    }
}

#[test]
fn test_block_still_life() {
    // A 2x2 block on a 6x6 grid is unchanged by repeated ticks.
    let block = [(2, 2), (3, 2), (2, 3), (3, 3)];
    let mut game = game_with_cells((6, 6), &block);
    for _ in 0..5 {
        game.tick().unwrap();
        assert_exact_live(&game, &block);
    }
}

#[test]
fn test_block_still_life_wrapping() {
    // The same block still stands when it straddles the wrapped edge.
    let block = [(5, 0), (0, 0), (5, 5), (0, 5)];
    let mut game = game_with_cells((6, 6), &block);
    game.tick().unwrap();
    assert_exact_live(&game, &block);
}

#[test]
fn test_blinker_oscillates() {
    let horizontal = [(1, 2), (2, 2), (3, 2)];
    let vertical = [(2, 1), (2, 2), (2, 3)];
    let mut game = game_with_cells((5, 5), &horizontal);

    game.tick().unwrap();
    assert_exact_live(&game, &vertical);

    game.tick().unwrap();
    assert_exact_live(&game, &horizontal);
}

#[test]
fn test_glider_synchronous_update() {
    // A glider's next generation is correct only if every count is taken
    // from the pre-tick snapshot; naive in-place mutation would corrupt it.
    let glider = [(1, 0), (2, 1), (0, 2), (1, 2), (2, 2)];
    let mut game = game_with_cells((10, 10), &glider);

    game.tick().unwrap();
    assert_exact_live(&game, &[(0, 1), (2, 1), (1, 2), (2, 2), (1, 3)]);
    assert!(!game.is_alive(1, 0));
    assert!(!game.is_alive(0, 2));

    // After three more ticks the glider has translated by (+1, +1).
    for _ in 0..3 {
        game.tick().unwrap();
    }
    assert_exact_live(&game, &[(2, 1), (3, 2), (1, 3), (2, 3), (3, 3)]);
}

#[test]
fn test_empty_grid_stays_empty() {
    let mut game = game_with_cells((5, 5), &[]);
    for _ in 0..4 {
        game.tick().unwrap();
        assert_eq!(game.live_cells().unwrap().len(), 0);
    }
}

#[test]
fn test_lonely_cell_dies() {
    // On a 1x1 torus the only cell is its own single neighbor, so one
    // live neighbor is all it ever has and it starves.
    let mut game = game_with_cells((1, 1), &[(0, 0)]);
    game.count_neighbors();
    assert_eq!(game.neighbor_count_of(0, 0), 1);
    game.tick().unwrap();
    assert!(!game.is_alive(0, 0));
}

#[test]
fn test_initialize_rejects_bad_dimensions() {
    let seed = CellSet::new();
    assert_eq!(
        Game::initialize((0, 5), &seed).err().unwrap(),
        GameError::InvalidDimensionsError
    );
    assert_eq!(
        Game::initialize((5, 0), &seed).err().unwrap(),
        GameError::InvalidDimensionsError
    );
    assert_eq!(
        Game::initialize((-3, 4), &seed).err().unwrap(),
        GameError::InvalidDimensionsError
    );
}

#[test]
fn test_tick_before_initialize_fails() {
    let mut game = Game::new();
    assert_eq!(game.tick(), Err(GameError::InvalidStateError));
    assert!(matches!(game.live_cells(), Err(GameError::InvalidStateError)));

    // After initialization the same calls succeed.
    let mut game = Game::initialize((4, 4), &CellSet::new()).unwrap();
    assert_eq!(game.tick(), Ok(()));
    assert!(game.live_cells().is_ok());
}

#[test]
fn test_seed_outside_grid_is_dropped() {
    // Seed cells beyond the grid are ignored at initialization.
    let mut seed = CellSet::new();
    seed.insert((1, 1));
    seed.insert((9, 9));
    let game = Game::initialize((3, 3), &seed).unwrap();
    assert!(game.is_alive(1, 1));
    assert!(!game.is_alive(9, 9));
    assert_eq!(game.live_cells().unwrap().len(), 1);
}

#[test]
fn test_cell_set_operations() {
    let mut cells = CellSet::new();
    assert_eq!(cells.len(), 0);
    cells.insert((1, 2));
    cells.insert((1, 2));
    cells.insert((3, 4));
    assert_eq!(cells.len(), 2);
    assert!(cells.contains((1, 2)));
    assert!(cells.contains((3, 4)));
    cells.remove((1, 2));
    assert!(!cells.contains((1, 2)));
    assert_eq!(cells.len(), 1);
    cells.insert((5, 6));
    let listed = cells.as_list().clone();
    assert_eq!(listed.len(), 2);
    assert!(listed.contains(&(3, 4)));
    assert!(listed.contains(&(5, 6)));
    cells.clear();
    assert_eq!(cells.len(), 0);
}
