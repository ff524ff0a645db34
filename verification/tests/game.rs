use std::collections::VecDeque;

use snake::game::{Direction, Game, GameError, Point};

/// Builds a game state directly from its parts.
fn game_with(
    cells: &[(i32, i32)],
    food: (i32, i32),
    direction: Direction,
    game_over: bool,
    width: i32,
    height: i32,
) -> Game {
    let mut snake: VecDeque<Point> = VecDeque::new();
    for &(x, y) in cells {
        snake.push_back(Point { x, y });
    }
    let score = (cells.len() - 1) as u64;
    let game = Game { snake, food: Point { x: food.0, y: food.1 }, direction, score, game_over, width, height };
    assert!(game.is_well_formed());
    game
}

#[test]
fn create_centers_snake() {
    let game = Game::new(20, 20).unwrap();
    assert_eq!(game.width, 20);
    assert_eq!(game.height, 20);
    assert_eq!(game.snake.len(), 1);
    assert_eq!(game.snake[0], Point { x: 10, y: 10 });
    assert!(game.direction == Direction::Right);
    assert_eq!(game.score, 0);
    assert!(!game.game_over);
    assert!(game.food != Point { x: 10, y: 10 });
    assert!(game.food.x >= 0 && game.food.x < 20);
    assert!(game.food.y >= 0 && game.food.y < 20);
    assert!(game.is_well_formed());
}

#[test]
fn create_centers_odd_board() {
    let game = Game::new(5, 9).unwrap();
    assert_eq!(game.snake[0], Point { x: 2, y: 4 });
    assert_eq!(game.snake.len(), 1);
}

#[test]
fn create_rejects_nonpositive_dimensions() {
    assert!(matches!(Game::new(0, 5), Err(GameError::InvalidDimensions)));
    assert!(matches!(Game::new(5, 0), Err(GameError::InvalidDimensions)));
    assert!(matches!(Game::new(-3, -7), Err(GameError::InvalidDimensions)));
}

#[test]
fn create_rejects_one_cell_board() {
    assert!(matches!(Game::new(1, 1), Err(GameError::BoardFull)));
}

#[test]
fn food_is_never_on_the_fresh_snake() {
    for _ in 0..50 {
        let game = Game::new(3, 3).unwrap();
        assert!(game.food != Point { x: 1, y: 1 });
        assert!(game.food.x >= 0 && game.food.x < 3);
        assert!(game.food.y >= 0 && game.food.y < 3);
    }
}

#[test]
fn eating_grows_and_scores() {
    // Board 5x5, snake at (2,2) heading right, food forced at (4,2):
    // after two ticks the head is on the food cell, the score is 1 and the
    // body has two segments.
    let mut game = game_with(&[(2, 2)], (4, 2), Direction::Right, false, 5, 5);
    game.update();
    assert_eq!(game.snake[0], Point { x: 3, y: 2 });
    assert_eq!(game.snake.len(), 1);
    assert_eq!(game.score, 0);
    assert!(!game.game_over);
    game.update();
    assert_eq!(game.snake[0], Point { x: 4, y: 2 });
    assert_eq!(game.snake.len(), 2);
    assert_eq!(game.score, 1);
    assert!(!game.game_over);
    assert!(game.is_well_formed());
}

#[test]
fn wall_hit_ends_the_game() {
    // Board 3x3, snake at (1,1) heading up: one tick to (1,0), the next
    // would leave the board, so the game ends with the body unchanged.
    let mut game = game_with(&[(1, 1)], (0, 2), Direction::Up, false, 3, 3);
    game.update();
    assert_eq!(game.snake[0], Point { x: 1, y: 0 });
    assert!(!game.game_over);
    game.update();
    assert!(game.game_over);
    assert_eq!(game.snake.len(), 1);
    assert_eq!(game.snake[0], Point { x: 1, y: 0 });
    assert_eq!(game.score, 0);
}

#[test]
fn reversal_bites_the_neck() {
    // Snake occupying (1,1),(1,2),(1,3) with the head at (1,1), forced
    // into reverse: the next tick moves onto (1,2), which is body, and the
    // game ends.
    let mut game = game_with(&[(1, 1), (1, 2), (1, 3)], (0, 0), Direction::Up, false, 5, 5);
    game.set_direction(Direction::Down);
    assert!(game.direction == Direction::Down);
    game.update();
    assert!(game.game_over);
    assert_eq!(game.snake.len(), 3);
    assert_eq!(game.snake[0], Point { x: 1, y: 1 });
    assert_eq!(game.score, 2);
}

#[test]
fn tail_cell_is_fatal_in_the_same_step() {
    // The collision check runs against the pre-move body, the current tail
    // included: stepping onto the cell the tail still occupies ends the
    // game.
    let mut game = game_with(
        &[(0, 1), (1, 1), (1, 0), (0, 0)],
        (2, 0),
        Direction::Up,
        false,
        3,
        2,
    );
    game.update();
    assert!(game.game_over);
    assert_eq!(game.snake.len(), 4);
}

#[test]
fn ai_moves_toward_food() {
    // Food directly below the head with all four neighbours free: the
    // heuristic picks Down, and applying it moves the head down one cell
    // without ending the game.
    let mut game = game_with(&[(2, 2)], (2, 3), Direction::Right, false, 5, 5);
    game.ai_move();
    assert!(game.direction == Direction::Down);
    game.update();
    assert_eq!(game.snake[0], Point { x: 2, y: 3 });
    assert!(!game.game_over);
    assert_eq!(game.score, 1);
}

#[test]
fn ai_breaks_ties_in_examination_order() {
    // Food two cells above the head: Up's next cell has squared distance
    // 1, Down's 9, Left's and Right's 5, so Up wins strictly.
    let mut game = game_with(&[(2, 2)], (2, 0), Direction::Left, false, 5, 5);
    game.ai_move();
    assert!(game.direction == Direction::Up);

    // Food diagonally below-right: Down's next cell (2,3) and Right's
    // (3,2) are both at squared distance 1; Down is examined first and
    // keeps the tie.
    let mut tie = game_with(&[(2, 2)], (3, 3), Direction::Up, false, 5, 5);
    tie.ai_move();
    assert!(tie.direction == Direction::Down);
}

#[test]
fn ai_keeps_heading_when_boxed_in() {
    // Head in the corner with both free neighbours covered by body: no
    // valid move exists, the heading stays, and the next tick ends the
    // game.
    let mut game = game_with(&[(0, 0), (0, 1), (1, 0)], (1, 1), Direction::Right, false, 2, 2);
    game.ai_move();
    assert!(game.direction == Direction::Right);
    game.update();
    assert!(game.game_over);
    assert_eq!(game.snake.len(), 3);
}

#[test]
fn finished_game_is_frozen() {
    // Once the game is over, ticks and heuristic moves leave every field
    // exactly as it was.
    let mut game = game_with(&[(1, 1)], (0, 0), Direction::Left, true, 3, 3);
    for _ in 0..3 {
        game.update();
        game.ai_move();
    }
    assert_eq!(game.snake.len(), 1);
    assert_eq!(game.snake[0], Point { x: 1, y: 1 });
    assert_eq!(game.food, Point { x: 0, y: 0 });
    assert!(game.direction == Direction::Left);
    assert_eq!(game.score, 0);
    assert!(game.game_over);
    assert_eq!(game.width, 3);
    assert_eq!(game.height, 3);
}

#[test]
fn body_stays_distinct_and_in_bounds() {
    // Drive a real game with the heuristic: after every step the state
    // stays well-formed (body points pairwise distinct and on the board)
    // and the body never shrinks, growing only together with the score.
    let mut game = Game::new(8, 8).unwrap();
    for _ in 0..200 {
        game.ai_move();
        let len_before = game.snake.len();
        let score_before = game.score;
        game.update();
        assert!(game.is_well_formed());
        let len_after = game.snake.len();
        let score_after = game.score;
        assert!(
            (len_after == len_before && score_after == score_before)
                || (len_after == len_before + 1 && score_after == score_before + 1)
        );
        if game.game_over {
            break;
        }
        for i in 0..game.snake.len() {
            let p = game.snake[i];
            assert!(p.x >= 0 && p.x < 8 && p.y >= 0 && p.y < 8);
            for j in 0..i {
                assert!(game.snake[j] != p);
            }
        }
    }
}

#[test]
fn spawn_food_finds_a_free_cell() {
    let mut game = game_with(&[(0, 0), (1, 0), (2, 0)], (0, 1), Direction::Right, false, 3, 2);
    for _ in 0..20 {
        assert!(game.spawn_food().is_ok());
        assert!(game.food.x >= 0 && game.food.x < 3);
        assert!(game.food.y >= 0 && game.food.y < 2);
        assert!(game.food.y == 1, "row 0 is fully covered by the body");
        assert!(!game.snake.contains(&game.food));
    }
}

#[test]
fn spawn_food_fails_closed_on_a_full_board() {
    let mut snake: VecDeque<Point> = VecDeque::new();
    for x in 0..2 {
        for y in 0..2 {
            snake.push_back(Point { x, y });
        }
    }
    let mut game = Game {
        snake,
        food: Point { x: 0, y: 0 },
        direction: Direction::Right,
        score: 3,
        game_over: true,
        width: 2,
        height: 2,
    };
    assert_eq!(game.spawn_food().unwrap_err(), GameError::BoardFull);
    assert_eq!(game.food, Point { x: 0, y: 0 });
}

#[test]
fn eating_the_last_free_cell_completes_the_game() {
    // A 2x2 board with three body cells and the food on the last free
    // cell: eating it leaves no room for new food, so the game ends.
    let mut game = game_with(&[(0, 1), (0, 0), (1, 0)], (1, 1), Direction::Right, false, 2, 2);
    game.update();
    assert_eq!(game.snake.len(), 4);
    assert_eq!(game.score, 3);
    assert!(game.game_over);
    assert!(game.is_well_formed());
}

#[test]
fn set_direction_changes_only_the_heading() {
    let mut game = game_with(&[(1, 1)], (2, 2), Direction::Up, false, 4, 4);
    game.set_direction(Direction::Left);
    assert!(game.direction == Direction::Left);
    assert_eq!(game.snake.len(), 1);
    assert_eq!(game.snake[0], Point { x: 1, y: 1 });
    assert_eq!(game.food, Point { x: 2, y: 2 });
    assert_eq!(game.score, 0);
    assert!(!game.game_over);
}

#[test]
fn well_formedness_check_rejects_bad_states() {
    let mut game = game_with(&[(1, 1)], (2, 2), Direction::Up, false, 4, 4);
    assert!(game.is_well_formed());
    game.food = Point { x: 1, y: 1 };
    assert!(!game.is_well_formed(), "food on the body");
    game.food = Point { x: 4, y: 2 };
    assert!(!game.is_well_formed(), "food off the board");
    game.food = Point { x: 2, y: 2 };
    game.score = 7;
    assert!(!game.is_well_formed(), "score out of step with the body");
    game.score = 0;
    game.snake.push_back(Point { x: 1, y: 1 });
    game.score = 1;
    assert!(!game.is_well_formed(), "duplicate body cell");
}
