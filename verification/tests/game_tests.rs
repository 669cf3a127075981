use snake_game::game::{
    Difficulty, Direction, Game, KeyCode, KeyEvent, KeyState, Position, Snake, StepError,
};
use snake_game::vga_buffer::Writer;

#[test]
fn difficulty_divisors() {
    assert_eq!(Difficulty::Easy.as_u32(), 10);
    assert_eq!(Difficulty::Medium.as_u32(), 5);
    assert_eq!(Difficulty::Hard.as_u32(), 3);
}

#[test]
fn new_snake_has_three_cells() {
    let snake = Snake::new();
    let body = snake.body();
    assert_eq!(body.len(), 3);
    assert_eq!(body[0], Position(11, 0));
    assert_eq!(body[1], Position(11, 1));
    assert_eq!(body[2], Position(11, 2));
    assert_eq!(snake.head(), Position(11, 2));
    assert_eq!(snake.direction(), Direction::Right);
    assert_eq!(snake.treat(), None);
    assert!(!snake.is_at_maximum_length());
}

#[test]
fn growth_appends_head_and_keeps_order() {
    let mut snake = Snake::new();
    let result = snake.grow();
    assert_eq!(result, Ok(()));
    let body = snake.body();
    assert_eq!(body.len(), 4);
    assert_eq!(body[0], Position(11, 0));
    assert_eq!(body[1], Position(11, 1));
    assert_eq!(body[2], Position(11, 2));
    assert_eq!(body[3], Position(11, 3));
    assert_eq!(snake.head(), Position(11, 3));
}

#[test]
fn movement_shifts_body_toward_tail() {
    let mut snake = Snake::new();
    let result = snake.move_snake();
    assert_eq!(result, Ok(()));
    let body = snake.body();
    assert_eq!(body.len(), 3);
    assert_eq!(body[0], Position(11, 1));
    assert_eq!(body[1], Position(11, 2));
    assert_eq!(body[2], Position(11, 3));
}

#[test]
fn occupies_and_has_treat() {
    let snake = Snake::new();
    assert!(snake.occupies(Position(11, 0)));
    assert!(snake.occupies(Position(11, 2)));
    assert!(!snake.occupies(Position(11, 3)));
    assert!(!snake.has_treat(Position(11, 3)));
}

#[test]
fn reversal_is_ignored() {
    let mut snake = Snake::new();
    snake.turn(Direction::Left);
    assert_eq!(snake.direction(), Direction::Right);
    let result = snake.move_snake();
    assert_eq!(result, Ok(()));
    assert_eq!(snake.head(), Position(11, 3));
}

#[test]
fn perpendicular_turn_is_applied() {
    let mut snake = Snake::new();
    snake.turn(Direction::Up);
    assert_eq!(snake.direction(), Direction::Up);
    let result = snake.move_snake();
    assert_eq!(result, Ok(()));
    assert_eq!(snake.head(), Position(10, 2));

    let mut snake = Snake::new();
    snake.turn(Direction::Down);
    assert_eq!(snake.direction(), Direction::Down);
    let result = snake.move_snake();
    assert_eq!(result, Ok(()));
    assert_eq!(snake.head(), Position(12, 2));
}

#[test]
fn bounds_exceeded_at_rightmost_column() {
    let mut snake = Snake::new();
    // head starts at column 2; 75 moves bring it to the rightmost column 77
    for _ in 0..75 {
        assert_eq!(snake.move_snake(), Ok(()));
    }
    assert_eq!(snake.head(), Position(11, 77));
    assert_eq!(snake.next_step(), None);
    let result = snake.move_snake();
    assert_eq!(result, Err(StepError::BoundsExceeded));
    // the snake is unchanged by the failed step
    assert_eq!(snake.head(), Position(11, 77));
    assert_eq!(snake.body().len(), 3);
}

#[test]
fn bounds_exceeded_at_top_row() {
    let mut snake = Snake::new();
    snake.turn(Direction::Up);
    for _ in 0..11 {
        assert_eq!(snake.move_snake(), Ok(()));
    }
    assert_eq!(snake.head(), Position(0, 2));
    assert_eq!(snake.move_snake(), Err(StepError::BoundsExceeded));
}

#[test]
fn self_collision_is_terminal() {
    let mut snake = Snake::new();
    // lengthen to five cells so a tight turn can bite the body
    assert_eq!(snake.grow(), Ok(()));
    assert_eq!(snake.grow(), Ok(()));
    assert_eq!(snake.body().len(), 5);
    snake.turn(Direction::Up);
    assert_eq!(snake.move_snake(), Ok(()));
    snake.turn(Direction::Left);
    assert_eq!(snake.move_snake(), Ok(()));
    snake.turn(Direction::Down);
    let body_before: Vec<Position> = snake.body().to_vec();
    let result = snake.move_snake();
    assert_eq!(result, Err(StepError::SelfCollision));
    assert_eq!(snake.body(), &body_before[..]);
}

#[test]
fn growth_at_capacity_is_rejected() {
    let mut snake = Snake::new();
    // grow along row 11 to the wall, then up, then left: 97 extra cells
    for _ in 0..75 {
        assert_eq!(snake.grow(), Ok(()));
    }
    snake.turn(Direction::Up);
    for _ in 0..11 {
        assert_eq!(snake.grow(), Ok(()));
    }
    snake.turn(Direction::Left);
    for _ in 0..11 {
        assert_eq!(snake.grow(), Ok(()));
    }
    assert_eq!(snake.body().len(), 100);
    assert!(snake.is_at_maximum_length());
    let result = snake.grow();
    assert_eq!(result, Err(StepError::GrowthAtCapacity));
    assert_eq!(snake.body().len(), 100);
}

#[test]
fn new_game_initial_state() {
    let game = Game::new();
    assert_eq!(game.difficulty(), Difficulty::Hard);
    assert_eq!(game.counter(), 0);
    assert!(!game.game_over());
    assert_eq!(game.snake().body().len(), 3);
    assert_eq!(game.snake().head(), Position(11, 2));
}

#[test]
fn keyboard_press_stages_direction() {
    let mut game = Game::new();
    let mut writer = Writer::new();
    game.accept_keyboard_input(KeyEvent { code: KeyCode::ArrowUp, state: KeyState::Down });
    game.refresh_frame(&mut writer);
    assert_eq!(game.snake().direction(), Direction::Up);
    assert_eq!(game.snake().head(), Position(10, 2));
}

#[test]
fn key_release_and_other_keys_are_ignored() {
    let mut game = Game::new();
    let mut writer = Writer::new();
    game.accept_keyboard_input(KeyEvent { code: KeyCode::ArrowDown, state: KeyState::Up });
    game.accept_keyboard_input(KeyEvent { code: KeyCode::Other, state: KeyState::Down });
    game.refresh_frame(&mut writer);
    // nothing was staged, so the snake keeps heading right
    assert_eq!(game.snake().direction(), Direction::Right);
    assert_eq!(game.snake().head(), Position(11, 3));
}

#[test]
fn reversal_request_keeps_current_direction() {
    let mut game = Game::new();
    let mut writer = Writer::new();
    game.accept_keyboard_input(KeyEvent { code: KeyCode::ArrowLeft, state: KeyState::Down });
    game.refresh_frame(&mut writer);
    assert_eq!(game.snake().direction(), Direction::Right);
    assert_eq!(game.snake().head(), Position(11, 3));
}

#[test]
fn counter_advances_every_tick() {
    let mut game = Game::new();
    let mut writer = Writer::new();
    for expected in 0..7u32 {
        assert_eq!(game.counter(), expected);
        game.refresh_frame(&mut writer);
    }
}

#[test]
fn medium_difficulty_steps_once_per_five_ticks() {
    let mut game = Game::with_difficulty(Difficulty::Medium);
    let mut writer = Writer::new();
    // tick 1: counter 0 qualifies, the snake advances and the frame renders
    game.refresh_frame(&mut writer);
    assert_eq!(game.snake().head(), Position(11, 3));
    assert_eq!(writer.char_at(0, 0), b'#');
    // head (11, 3) is drawn at grid cell (12, 4)
    assert_eq!(writer.char_at(12, 4), b'>');
    // ticks 2..=5: counters 1..=4 do not qualify; nothing moves or renders
    for _ in 0..4 {
        game.refresh_frame(&mut writer);
        assert_eq!(game.snake().head(), Position(11, 3));
        assert_eq!(writer.char_at(12, 4), b'>');
    }
    // tick 6: counter 5 qualifies again
    game.refresh_frame(&mut writer);
    assert_eq!(game.snake().head(), Position(11, 4));
    assert_eq!(writer.char_at(12, 5), b'>');
}

#[test]
fn tick_places_treat_off_the_body() {
    let mut game = Game::new();
    let mut writer = Writer::new();
    // a placed treat can be consumed by the very step that follows its
    // placement, so look across a few ticks; each qualifying tick places
    // a treat again whenever none is left
    let mut seen_treat = false;
    for _ in 0..9 {
        game.refresh_frame(&mut writer);
        if let Some(Position(row, col)) = game.snake().treat() {
            seen_treat = true;
            assert!(row < 23);
            assert!(col < 78);
            assert!(!game.snake().occupies(Position(row, col)));
        }
    }
    assert!(seen_treat);
}

#[test]
fn repeated_ticks_keep_treat_off_the_body() {
    let mut game = Game::new();
    let mut writer = Writer::new();
    for _ in 0..30 {
        game.refresh_frame(&mut writer);
        if let Some(p) = game.snake().treat() {
            assert!(!game.snake().occupies(p));
        }
    }
}

#[test]
fn rendered_frame_has_border_and_body() {
    let mut game = Game::new();
    let mut writer = Writer::new();
    game.refresh_frame(&mut writer);
    for col in 0..80 {
        assert_eq!(writer.char_at(0, col), b'#');
        assert_eq!(writer.char_at(24, col), b'#');
    }
    for row in 0..25 {
        assert_eq!(writer.char_at(row, 0), b'#');
        assert_eq!(writer.char_at(row, 79), b'#');
    }
    // body cells (11, 1) and (11, 2) are drawn as '+' at rows shifted by the border
    assert_eq!(writer.char_at(12, 2), b'+');
    assert_eq!(writer.char_at(12, 3), b'+');
    assert_eq!(writer.char_at(12, 4), b'>');
}

#[test]
fn hitting_the_wall_ends_the_game_with_message() {
    let mut game = Game::new();
    let mut writer = Writer::new();
    // hard difficulty: one simulation step every 3 ticks; 76 steps hit the wall
    for _ in 0..(76 * 3) {
        game.refresh_frame(&mut writer);
    }
    assert!(game.game_over());
    // the terminal message is centered on an 80-column line:
    // "Bounds reached!" is 15 bytes, so it starts at column 32, and the
    // 13 trailing blank lines leave it on row 11
    let msg = b"Bounds reached!";
    for (i, &b) in msg.iter().enumerate() {
        assert_eq!(writer.char_at(11, 32 + i), b);
    }
    assert_eq!(writer.char_at(11, 31), b' ');
    assert_eq!(writer.char_at(11, 47), b' ');
}

#[test]
fn after_game_over_the_grid_never_changes() {
    let mut game = Game::new();
    let mut writer = Writer::new();
    for _ in 0..(76 * 3) {
        game.refresh_frame(&mut writer);
    }
    assert!(game.game_over());
    let mut snapshot = Vec::new();
    for row in 0..25 {
        for col in 0..80 {
            snapshot.push(writer.char_at(row, col));
        }
    }
    let column_before = writer.column();
    for _ in 0..10 {
        game.refresh_frame(&mut writer);
    }
    assert!(game.game_over());
    assert_eq!(writer.column(), column_before);
    let mut idx = 0;
    for row in 0..25 {
        for col in 0..80 {
            assert_eq!(writer.char_at(row, col), snapshot[idx]);
            idx += 1;
        }
    }
}

#[test]
fn game_over_is_terminal() {
    let mut game = Game::new();
    let mut writer = Writer::new();
    // an unsteered snake runs into the wall and the game never resumes
    for _ in 0..1000 {
        game.refresh_frame(&mut writer);
    }
    assert!(game.game_over());
    game.accept_keyboard_input(KeyEvent { code: KeyCode::ArrowUp, state: KeyState::Down });
    for _ in 0..10 {
        game.refresh_frame(&mut writer);
    }
    assert!(game.game_over());
}
