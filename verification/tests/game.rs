use snake::game::ConfigError;
use snake::game::Direction;
use snake::game::Game;
use snake::game::Pos;
use snake::game::Tile;

fn util_idx_for_pos(pos: Pos, cols: usize) -> usize {
    pos.y * cols + pos.x
}

#[test]
fn board_initializes_properly() {
    let game = Game::new(100, 100, 10).unwrap();

    assert_eq!(game.board.len(), (100 / 10) * (100 / 10));
    assert_eq!(game.snake.tiles.len(), 1);
    assert_eq!(game.snake.tiles[0].x, 5);
    assert_eq!(game.snake.tiles[0].y, 5);
}

#[test]
fn snake_eats_food_properly_when_small_len() {
    // The food is placed at random; redraw boards whose food sits in the
    // leftmost column (no cell to its left to start from) or in the
    // rightmost one (the growth cell would lie off the board).
    let mut game = Game::new(100, 100, 10).unwrap();
    let mut guard = 0;
    while game.food_location % game.cols == 0 || game.food_location % game.cols == game.cols - 1
    {
        game = Game::new(100, 100, 10).unwrap();
        guard += 1;
        assert!(guard < 10_000);
    }

    // Setup snake about to eat food
    let food_x = game.food_location % game.cols;
    let food_y = game.food_location / game.cols;
    game.snake.tiles[0] = Pos { x: food_x - 1, y: food_y };
    game.change_direction(Direction::Right);

    let food_location = game.food_location;
    assert!(game.update());

    // New food is moved to a new location
    assert_ne!(food_location, game.food_location);
    // Snake is increased by one
    assert_eq!(game.snake.tiles.len(), 2);
    // Snake head is where food is
    assert_eq!(util_idx_for_pos(game.snake.tiles[0], game.cols), food_location);
    // New end of snake is behind snake head
    assert_eq!(game.snake.tiles[1].x, food_location % game.cols + 1);
}

#[test]
fn first_step_right_from_center() {
    let mut game = Game::new(100, 100, 10).unwrap();
    assert_eq!(game.cols, 10);
    assert_eq!(game.rows, 10);
    assert_eq!(game.snake.tiles[0], Pos { x: 5, y: 5 });

    game.change_direction(Direction::Right);
    assert!(game.update());
    assert_eq!(game.snake.tiles[0], Pos { x: 6, y: 5 });
    // length was 1, so the vacated center cell holds no body
    assert!(matches!(game.board[5 * 10 + 5], Tile::Empty));
    assert!(matches!(game.board[5 * 10 + 6], Tile::SnakeHead));
}

#[test]
fn eating_food_forced_next_to_head() {
    let mut game = Game::new(100, 100, 10).unwrap();
    // force the food onto the cell right of the head
    let old_food = game.food_location;
    game.board[old_food] = Tile::Empty;
    game.board[5 * 10 + 6] = Tile::Food;
    game.food_location = 5 * 10 + 6;

    game.change_direction(Direction::Right);
    assert!(game.update());
    assert_eq!(game.snake.tiles.len(), 2);
    assert_ne!(game.food_location, 5 * 10 + 6);
    assert_eq!(game.snake.tiles[0], Pos { x: 6, y: 5 });
    assert_eq!(game.snake.tiles[1], Pos { x: 7, y: 5 });
    assert!(matches!(game.board[5 * 10 + 6], Tile::SnakeHead));
    assert!(matches!(game.board[5 * 10 + 7], Tile::SnakeBody));
    assert!(matches!(game.board[game.food_location], Tile::Food));
}

#[test]
fn construction_rejects_bad_geometry() {
    assert_eq!(Game::new(100, 100, 0).err(), Some(ConfigError::ZeroSize));
    assert_eq!(Game::new(5, 100, 10).err(), Some(ConfigError::ZeroSize));
    assert_eq!(Game::new(100, 5, 10).err(), Some(ConfigError::ZeroSize));
    assert_eq!(Game::new(10, 10, 10).err(), Some(ConfigError::BoardTooSmall));
    assert_eq!(Game::new(usize::MAX, usize::MAX, 1).err(), Some(ConfigError::BoardTooLarge));
}

#[test]
fn construction_places_one_food_off_the_head() {
    for _ in 0..50 {
        let game = Game::new(100, 100, 10).unwrap();
        let head_idx = 5 * 10 + 5;
        assert!(game.food_location < 100);
        assert_ne!(game.food_location, head_idx);
        assert!(matches!(game.board[game.food_location], Tile::Food));
        assert!(matches!(game.board[head_idx], Tile::SnakeHead));
        assert!(matches!(game.current_direction(), Direction::Stationary));
        let food_count = game
            .board
            .iter()
            .filter(|t| matches!(t, Tile::Food))
            .count();
        assert_eq!(food_count, 1);
    }
}

#[test]
fn any_direction_allowed_at_length_one() {
    let mut game = Game::new(100, 100, 10).unwrap();
    game.change_direction(Direction::Left);
    assert!(matches!(game.current_direction(), Direction::Left));
    game.change_direction(Direction::Right);
    assert!(matches!(game.current_direction(), Direction::Right));
    game.change_direction(Direction::Up);
    assert!(matches!(game.current_direction(), Direction::Up));
    game.change_direction(Direction::Down);
    assert!(matches!(game.current_direction(), Direction::Down));
}

#[test]
fn reversal_is_ignored_at_length_two() {
    let mut game = Game::new(100, 100, 10).unwrap();
    // a two-segment snake whose second segment trails the head
    game.snake.tiles = vec![Pos { x: 5, y: 5 }, Pos { x: 4, y: 5 }];
    game.change_direction(Direction::Right);
    assert!(matches!(game.current_direction(), Direction::Right));

    // the exact reverse targets the second segment's cell: ignored
    game.change_direction(Direction::Left);
    assert!(matches!(game.current_direction(), Direction::Right));

    // a turn is taken
    game.change_direction(Direction::Up);
    assert!(matches!(game.current_direction(), Direction::Up));
}

#[test]
fn running_into_the_wall_ends_the_game() {
    let mut game = Game::new(100, 100, 10).unwrap();
    // park the food in a corner away from the head's path
    let old_food = game.food_location;
    game.board[old_food] = Tile::Empty;
    game.board[0] = Tile::Food;
    game.food_location = 0;

    game.change_direction(Direction::Right);
    for step in 0..4 {
        assert!(game.update(), "step {step} should stay alive");
    }
    assert_eq!(game.snake.tiles[0], Pos { x: 9, y: 5 });
    // the head stands at the rightmost column: the next step is a loss
    assert!(!game.update());
    assert_eq!(game.snake.tiles[0], Pos { x: 9, y: 5 });
    assert_eq!(game.snake.tiles.len(), 1);
}

#[test]
fn standing_self_collision_ends_the_game() {
    let mut game = Game::new(100, 100, 10).unwrap();
    game.snake.tiles = vec![Pos { x: 5, y: 5 }, Pos { x: 4, y: 5 }, Pos { x: 5, y: 5 }];
    game.change_direction(Direction::Right);
    assert!(!game.update());
    // nothing moved
    assert_eq!(game.snake.tiles.len(), 3);
    assert_eq!(game.snake.tiles[0], Pos { x: 5, y: 5 });
}

#[test]
fn update_without_direction_is_a_noop() {
    let mut game = Game::new(100, 100, 10).unwrap();
    let food = game.food_location;
    assert!(game.update());
    assert_eq!(game.snake.tiles.len(), 1);
    assert_eq!(game.snake.tiles[0], Pos { x: 5, y: 5 });
    assert_eq!(game.food_location, food);
}

#[test]
fn eating_without_room_to_grow_keeps_the_length() {
    // a 1x2 board: head at (0,1), the food can only sit at (0,0)
    let mut game = Game::new(10, 20, 10).unwrap();
    assert_eq!(game.cols, 1);
    assert_eq!(game.rows, 2);
    assert_eq!(game.snake.tiles[0], Pos { x: 0, y: 1 });
    assert_eq!(game.food_location, 0);

    game.change_direction(Direction::Down);
    assert!(game.update());
    // the growth cell (1, 0) lies off this one-column board: no growth
    assert_eq!(game.snake.tiles.len(), 1);
    assert_eq!(game.snake.tiles[0], Pos { x: 0, y: 0 });
    // the food went to the only empty cell, the vacated one
    assert_eq!(game.food_location, 1);

    // the next step runs into the bottom wall
    assert!(!game.update());
}

#[test]
fn filling_the_board_ends_the_game() {
    // a 2x1 board: head at (1,0), food at (0,0); eating fills the board
    let mut game = Game::new(20, 10, 10).unwrap();
    assert_eq!(game.cols, 2);
    assert_eq!(game.rows, 1);
    assert_eq!(game.snake.tiles[0], Pos { x: 1, y: 0 });
    assert_eq!(game.food_location, 0);

    game.change_direction(Direction::Left);
    // the snake grows into the vacated cell and covers the whole board:
    // no cell is left for food, which counts as the end of this game
    assert!(!game.update());
    assert_eq!(game.snake.tiles.len(), 2);
    assert_eq!(game.snake.tiles[0], Pos { x: 0, y: 0 });
    assert_eq!(game.snake.tiles[1], Pos { x: 1, y: 0 });
}

#[test]
fn reset_rebuilds_the_initial_state() {
    let mut game = Game::new(100, 100, 10).unwrap();
    game.change_direction(Direction::Up);
    assert!(game.update());
    assert!(game.update());

    game.reset();
    assert_eq!(game.cols, 10);
    assert_eq!(game.rows, 10);
    assert_eq!(game.snake.tiles.len(), 1);
    assert_eq!(game.snake.tiles[0], Pos { x: 5, y: 5 });
    assert!(matches!(game.current_direction(), Direction::Stationary));
    assert_eq!(game.board.len(), 100);
    assert_ne!(game.food_location, 5 * 10 + 5);
    assert!(matches!(game.board[game.food_location], Tile::Food));
    assert!(matches!(game.board[5 * 10 + 5], Tile::SnakeHead));
}

#[test]
fn render_data_projects_every_cell() {
    let game = Game::new(100, 100, 10).unwrap();
    let cells = game.render_data();
    assert_eq!(cells.len(), 100);
    for (k, cell) in cells.iter().enumerate() {
        assert_eq!(cell.col, k % 10);
        assert_eq!(cell.row, k / 10);
        let expected = match game.board[k] {
            Tile::Empty => 1,
            Tile::Food => 2,
            Tile::SnakeBody | Tile::SnakeHead => 0,
        };
        assert_eq!(cell.coloridx, expected);
    }
    let snake_cells = cells.iter().filter(|c| c.coloridx == 0).count();
    let food_cells = cells.iter().filter(|c| c.coloridx == 2).count();
    assert_eq!(snake_cells, 1);
    assert_eq!(food_cells, 1);
}
