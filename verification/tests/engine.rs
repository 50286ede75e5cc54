use game_of_life::cells::CellSet;
use game_of_life::game::Game;

#[test]
fn test_apply_rules() {
    let seed = CellSet::new();
    let mut game = Game::initialize((1, 1), &seed).unwrap();
    let coords: (usize, usize) = (0, 0);

    game.insert_live_cell(0, 0); // Living cell
    game.set_neighbor_count(0, 0, 1); // Set up neighbors count
    game.apply_rules();
    // A live cell with a single live neighbor starves.
    assert_eq!(game.is_alive(coords.0, coords.1), false);

    game.insert_live_cell(0, 0); // Living cell
    game.set_neighbor_count(0, 0, 2); // Set up neighbors count
    game.apply_rules();
    assert_eq!(game.is_alive(coords.0, coords.1), true);

    game.insert_live_cell(0, 0); // Living cell
    game.set_neighbor_count(0, 0, 4); // Set up neighbors count
    game.apply_rules();
    assert_eq!(game.is_alive(coords.0, coords.1), false);

    game.remove_live_cell(0, 0); // Dead cell
    game.set_neighbor_count(0, 0, 3); // Set up neighbors count
    game.apply_rules();
    assert_eq!(game.is_alive(coords.0, coords.1), true);
}

#[test]
fn test_get_neighbors() {
    let game = Game::initialize((3, 3), &Game::create_random_grid((3, 3))).unwrap();
    let neighbors = game.get_neighbors(0, 0);
    assert_eq!(
        neighbors,
        vec![(0, 1), (0, 2), (1, 0), (1, 1), (1, 2), (2, 0), (2, 1), (2, 2)]
    );

    let neighbors = game.get_neighbors(2, 2);
    assert_eq!(
        neighbors,
        vec![(0, 0), (0, 1), (0, 2), (1, 0), (1, 1), (1, 2), (2, 0), (2, 1)]
    );

    let game = Game::initialize((4, 3), &Game::create_random_grid((4, 3))).unwrap();
    let neighbors = game.get_neighbors(0, 0);
    assert_eq!(
        neighbors,
        vec![(0, 1), (0, 2), (1, 0), (1, 1), (1, 2), (3, 0), (3, 1), (3, 2)],
        "For cell (0, 0)"
    );

    let game = Game::initialize((3, 4), &Game::create_random_grid((3, 4))).unwrap();
    let neighbors = game.get_neighbors(0, 0);
    assert_eq!(
        neighbors,
        vec![(0, 1), (0, 3), (1, 0), (1, 1), (1, 3), (2, 0), (2, 1), (2, 3)],
        "For cell (0, 0)"
    );
}

#[test]
fn test_count_neighbors() {
    let mut game = Game::initialize((3, 4), &Game::create_random_grid((3, 4))).unwrap();
    game.clear_live_cells(); // Kill all cells

    // Set up the grid with specific cells alive
    game.insert_live_cell(0, 1);
    game.insert_live_cell(1, 0);

    game.create_neighbor_map();
    game.count_neighbors();

    assert_eq!(game.neighbor_count_of(0, 0), 2, "For cell (0, 0)");
    assert_eq!(game.neighbor_count_of(0, 1), 1, "For cell (0, 1)");
    assert_eq!(game.neighbor_count_of(0, 2), 1, "For cell (0, 2)");
    assert_eq!(game.neighbor_count_of(0, 3), 1, "For cell (0, 3)");
    assert_eq!(game.neighbor_count_of(1, 0), 1, "For cell (1, 0)");
    assert_eq!(game.neighbor_count_of(1, 1), 2, "For cell (1, 1)");
    assert_eq!(game.neighbor_count_of(1, 2), 1, "For cell (1, 2)");
    assert_eq!(game.neighbor_count_of(1, 3), 1, "For cell (1, 3)");
    assert_eq!(game.neighbor_count_of(2, 0), 2, "For cell (2, 0)");
    assert_eq!(game.neighbor_count_of(2, 1), 2, "For cell (2, 1)");
    assert_eq!(game.neighbor_count_of(2, 2), 1, "For cell (2, 2)");
    assert_eq!(game.neighbor_count_of(2, 3), 1, "For cell (2, 3)");
}

#[test]
fn test_neighbor_symmetry_small_grid() {
    // Every neighbor relation on a 4x4 torus is symmetric.
    let game = Game::initialize((4, 4), &CellSet::new()).unwrap();
    for col in 0..4usize {
        for row in 0..4usize {
            for &(nc, nr) in game.get_neighbors(col, row).iter() {
                let back = game.get_neighbors(nc, nr);
                assert!(
                    back.contains(&(col, row)),
                    "({}, {}) missing from neighbors of ({}, {})",
                    col,
                    row,
                    nc,
                    nr
                );
            }
        }
    }
}

#[test]
fn test_neighbor_count_exactly_eight() {
    let game = Game::initialize((3, 3), &CellSet::new()).unwrap();
    for col in 0..3usize {
        for row in 0..3usize {
            assert_eq!(game.get_neighbors(col, row).len(), 8);
        }
    }
}

#[test]
fn test_neighbor_count_degenerate_grids() {
    // On a 2x2 torus the eight offsets collapse to three distinct
    // neighbors, with no coordinate repeated.
    let game = Game::initialize((2, 2), &CellSet::new()).unwrap();
    let neighbors = game.get_neighbors(0, 0);
    assert_eq!(neighbors, vec![(0, 1), (1, 0), (1, 1)]);
    assert!(neighbors.len() < 8);

    // On a 1x1 torus the only cell is its own single neighbor.
    let game = Game::initialize((1, 1), &CellSet::new()).unwrap();
    assert_eq!(game.get_neighbors(0, 0), vec![(0, 0)]);

    // A 1-wide strip: (0, 1) sees itself (horizontal wrap) and its two
    // vertical neighbors, each once.
    let game = Game::initialize((1, 4), &CellSet::new()).unwrap();
    assert_eq!(game.get_neighbors(0, 1), vec![(0, 0), (0, 1), (0, 2)]);
}

#[test]
fn test_dimensions_and_reset() {
    let mut game = Game::initialize((3, 3), &CellSet::new()).unwrap();
    assert_eq!(game.dimensions(), (3, 3));

    // Resetting with new dimensions rebuilds the neighbor index for the
    // new grid size.
    game.reset((5, 6), &CellSet::new()).unwrap();
    assert_eq!(game.dimensions(), (5, 6));
    assert_eq!(game.get_neighbors(4, 5).len(), 8);
    assert_eq!(
        game.get_neighbors(0, 0),
        vec![(0, 1), (0, 5), (1, 0), (1, 1), (1, 5), (4, 0), (4, 1), (4, 5)]
    );
    assert_eq!(game.live_cells().unwrap().len(), 0);

    // Invalid dimensions leave the engine untouched.
    assert_eq!(game.reset((0, 9), &CellSet::new()).err().unwrap(),
        game_of_life::game::GameError::InvalidDimensionsError);
    assert_eq!(game.dimensions(), (5, 6));
}

#[test]
fn test_create_random_grid_bounds() {
    let cells = Game::create_random_grid((4, 4));
    for col in 0..4usize {
        for row in 0..4usize {
            // Merely exercises membership; any answer is within bounds.
            let _ = cells.contains((col, row));
        }
    }
    assert!(!cells.contains((4, 0)));
    assert!(!cells.contains((0, 4)));
    assert!(!cells.contains((7, 7)));

    let empty = Game::create_random_grid((-1, 4));
    assert_eq!(empty.len(), 0);
    let empty = Game::create_random_grid((4, 0));
    assert_eq!(empty.len(), 0);
}
