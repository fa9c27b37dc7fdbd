use snake_core::game::Game;
use snake_core::grid::{Direction, Position};
use snake_core::model::{DirectionInput, Event};
use snake_core::store::{Entity, EntityId, Role, SnakeHead};

const NONE: DirectionInput = DirectionInput { left: false, down: false, up: false, right: false };
const FAR: Position = Position { x: 15, y: 15 };
const SPARE: Position = Position { x: 16, y: 16 };

fn press(d: Direction) -> DirectionInput {
    DirectionInput {
        left: d == Direction::Left,
        down: d == Direction::Down,
        up: d == Direction::Up,
        right: d == Direction::Right,
    }
}

fn cell(x: i32, y: i32) -> Position {
    Position { x, y }
}

fn food_cells(game: &Game) -> Vec<Position> {
    let mut cells = Vec::new();
    for id in game.store().ids() {
        let e = game.store().get(id).unwrap();
        if e.role == Role::Food {
            cells.push(e.position);
        }
    }
    cells
}

/// Plays one cycle of 150 ms with `d` pressed and no food but at `growth`.
fn tick(game: &mut Game, d: Option<Direction>, growth: Position) -> Vec<Event> {
    assert!(game.accepts(150));
    let input = match d {
        Some(d) => press(d),
        None => NONE,
    };
    game.update_at(150, input, SPARE, growth)
}

/// A snake of four segments with the head at (3,6), going up.
fn long_snake() -> Game {
    let mut game = Game::game_setup_at(cell(3, 4));
    assert_eq!(tick(&mut game, None, cell(3, 5)), vec![Event::Growth]);
    assert_eq!(tick(&mut game, None, cell(3, 6)), vec![Event::Growth]);
    assert_eq!(tick(&mut game, None, FAR), vec![Event::Growth]);
    game
}

#[test]
fn a_new_game_holds_food_segment_and_head() {
    let game = Game::game_setup_at(cell(7, 9));
    assert_eq!(game.store().count(), 3);
    assert_eq!(
        game.store().get(EntityId(0)),
        Some(Entity { role: Role::Food, position: cell(7, 9) })
    );
    assert_eq!(
        game.store().get(EntityId(1)),
        Some(Entity { role: Role::Segment, position: cell(3, 2) })
    );
    assert_eq!(
        game.store().get(EntityId(2)),
        Some(Entity {
            role: Role::Head(SnakeHead {
                current_direction: Direction::Up,
                intended_direction: Direction::Up,
            }),
            position: cell(3, 3),
        })
    );
    assert_eq!(game.head(), EntityId(2));
    assert_eq!(game.segments(), &vec![EntityId(1)]);
    assert_eq!(game.last_tail_position(), None);
    assert!(game.events().is_empty());
    assert_eq!(game.move_timer().interval, 150);
    assert_eq!(game.food_timer().interval, 10000);
}

#[test]
fn a_new_game_with_random_food_has_it_inside_the_arena() {
    for _ in 0..200 {
        let game = Game::game_setup();
        let food = food_cells(&game);
        assert_eq!(food.len(), 1);
        assert!(food[0].is_in_arena());
        assert_eq!(game.head_position(), cell(3, 3));
        assert_eq!(game.body(), vec![cell(3, 2)]);
    }
}

#[test]
fn one_tick_without_input_moves_the_chain_up() {
    let mut game = Game::game_setup_at(FAR);
    let events = tick(&mut game, None, SPARE);
    assert!(events.is_empty());
    assert_eq!(game.head_position(), cell(3, 4));
    assert_eq!(game.body(), vec![cell(3, 3)]);
    assert_eq!(game.last_tail_position(), Some(cell(3, 2)));
    assert_eq!(game.current_direction(), Direction::Up);
}

#[test]
fn eating_removes_the_food_and_grows_the_snake_by_one() {
    let mut game = Game::game_setup_at(cell(3, 4));
    assert_eq!(game.segments().len(), 1);
    let events = tick(&mut game, None, cell(9, 9));
    assert_eq!(events, vec![Event::Growth]);
    assert_eq!(game.head_position(), cell(3, 4));
    assert_eq!(game.segments().len(), 2);
    assert_eq!(game.last_tail_position(), Some(cell(3, 2)));
    assert_eq!(game.body(), vec![cell(3, 3), cell(3, 2)]);
    // the eaten item is gone; the replacement lies on the cell given for it
    assert_eq!(food_cells(&game), vec![cell(9, 9)]);
    // the new segment took the slot that the food left
    assert_eq!(game.segments(), &vec![EntityId(1), EntityId(0)]);
    assert!(game.events().is_empty());
}

#[test]
fn two_food_items_on_one_cell_grow_the_snake_by_one() {
    let mut game = Game::game_setup_at(cell(3, 4));
    game.spawn_food(cell(3, 4));
    let events = tick(&mut game, None, cell(9, 9));
    assert_eq!(events, vec![Event::Growth, Event::Growth]);
    assert_eq!(game.segments().len(), 2);
    assert_eq!(food_cells(&game), vec![cell(9, 9)]);
}

#[test]
fn a_reversal_is_ignored() {
    let mut game = Game::game_setup_at(FAR);
    let events = tick(&mut game, Some(Direction::Down), SPARE);
    assert!(events.is_empty());
    assert_eq!(game.current_direction(), Direction::Up);
    assert_eq!(game.intended_direction(), Direction::Down);
    assert_eq!(game.head_position(), cell(3, 4));
    // the refused intent stays latched and is refused again
    tick(&mut game, None, SPARE);
    assert_eq!(game.current_direction(), Direction::Up);
    assert_eq!(game.head_position(), cell(3, 5));
}

#[test]
fn the_head_follows_a_sequence_of_turns() {
    let mut game = Game::game_setup_at(FAR);
    let turns = [
        Direction::Up,
        Direction::Right,
        Direction::Right,
        Direction::Down,
        Direction::Right,
        Direction::Up,
        Direction::Up,
        Direction::Left,
    ];
    let (mut x, mut y) = (3, 3);
    for d in turns {
        assert!(tick(&mut game, Some(d), SPARE).is_empty());
        match d {
            Direction::Left => x -= 1,
            Direction::Right => x += 1,
            Direction::Up => y += 1,
            Direction::Down => y -= 1,
        }
        assert_eq!(game.head_position(), cell(x, y));
        assert_eq!(game.current_direction(), d);
    }
    assert_eq!(game.head_position(), cell(5, 5));
}

#[test]
fn leaving_the_arena_on_the_left_ends_the_game() {
    let mut game = Game::game_setup_at(FAR);
    assert!(tick(&mut game, Some(Direction::Left), SPARE).is_empty());
    assert!(tick(&mut game, None, SPARE).is_empty());
    assert!(tick(&mut game, None, SPARE).is_empty());
    assert_eq!(game.head_position(), cell(0, 3));
    assert_eq!(game.current_direction(), Direction::Left);
    let events = tick(&mut game, None, SPARE);
    assert_eq!(events, vec![Event::GameOver]);
    assert_eq!(game.head_position(), cell(3, 3));
}

#[test]
fn leaving_the_arena_at_the_top_ends_the_game() {
    let mut game = Game::game_setup_at(FAR);
    for _ in 0..16 {
        assert!(tick(&mut game, None, SPARE).is_empty());
    }
    assert_eq!(game.head_position(), cell(3, 19));
    assert_eq!(tick(&mut game, None, SPARE), vec![Event::GameOver]);
    assert_eq!(game.head_position(), cell(3, 3));
    assert_eq!(game.body(), vec![cell(3, 2)]);
}

#[test]
fn a_restart_leaves_one_head_and_one_segment() {
    let mut game = long_snake();
    assert_eq!(game.store().count(), 6);
    for _ in 0..13 {
        assert!(tick(&mut game, Some(Direction::Right), SPARE).is_empty());
    }
    for _ in 0..3 {
        assert!(tick(&mut game, None, SPARE).is_empty());
    }
    assert_eq!(game.head_position(), cell(19, 6));
    let tail_before = game.last_tail_position();
    let events = tick(&mut game, None, SPARE);
    assert_eq!(events, vec![Event::GameOver]);
    assert_eq!(game.store().count(), 2);
    assert_eq!(game.store().ids(), vec![EntityId(0), EntityId(1)]);
    assert_eq!(
        game.store().get(EntityId(0)),
        Some(Entity { role: Role::Segment, position: cell(3, 2) })
    );
    assert_eq!(game.head(), EntityId(1));
    assert_eq!(game.segments(), &vec![EntityId(0)]);
    assert_eq!(game.head_position(), cell(3, 3));
    assert_eq!(game.current_direction(), Direction::Up);
    assert_eq!(game.intended_direction(), Direction::Up);
    assert!(food_cells(&game).is_empty());
    assert!(game.events().is_empty());
    // the record of the tail is not part of the restart
    assert_ne!(game.last_tail_position(), tail_before);
    assert_eq!(game.last_tail_position(), Some(cell(15, 6)));
}

#[test]
fn running_into_the_body_brings_one_terminal_event() {
    let mut game = long_snake();
    assert_eq!(game.head_position(), cell(3, 6));
    assert_eq!(game.body(), vec![cell(3, 5), cell(3, 4), cell(3, 3), cell(3, 2)]);
    assert!(tick(&mut game, Some(Direction::Left), SPARE).is_empty());
    assert!(tick(&mut game, Some(Direction::Down), SPARE).is_empty());
    assert!(tick(&mut game, Some(Direction::Right), SPARE).is_empty());
    // the head now shares its cell with the tail
    assert_eq!(game.head_position(), cell(3, 5));
    assert_eq!(game.body(), vec![cell(2, 5), cell(2, 6), cell(3, 6), cell(3, 5)]);
    let events = tick(&mut game, None, SPARE);
    assert_eq!(events, vec![Event::GameOver]);
    assert_eq!(game.store().count(), 2);
    assert_eq!(game.head_position(), cell(3, 3));
}

#[test]
fn a_cycle_that_is_too_short_moves_nothing_but_latches_the_input() {
    let mut game = Game::game_setup_at(FAR);
    let events = game.update_at(100, press(Direction::Left), SPARE, SPARE);
    assert!(events.is_empty());
    assert_eq!(game.head_position(), cell(3, 3));
    assert_eq!(game.body(), vec![cell(3, 2)]);
    assert_eq!(game.current_direction(), Direction::Up);
    assert_eq!(game.intended_direction(), Direction::Left);
    assert_eq!(game.last_tail_position(), None);
    // the intent survives cycles without input until the timer finishes
    assert!(game.update_at(49, NONE, SPARE, SPARE).is_empty());
    assert_eq!(game.head_position(), cell(3, 3));
    assert!(game.update_at(1, NONE, SPARE, SPARE).is_empty());
    assert_eq!(game.head_position(), cell(2, 3));
    assert_eq!(game.current_direction(), Direction::Left);
    assert_eq!(game.move_timer().elapsed, 0);
}

#[test]
fn a_long_delay_is_caught_up_one_move_per_cycle() {
    let mut game = Game::game_setup_at(FAR);
    assert!(game.update_at(400, NONE, SPARE, SPARE).is_empty());
    assert_eq!(game.head_position(), cell(3, 4));
    assert_eq!(game.move_timer().elapsed, 250);
    assert!(game.update_at(0, NONE, SPARE, SPARE).is_empty());
    assert_eq!(game.head_position(), cell(3, 5));
    assert_eq!(game.move_timer().elapsed, 100);
    assert!(game.update_at(0, NONE, SPARE, SPARE).is_empty());
    assert_eq!(game.head_position(), cell(3, 5));
    assert_eq!(game.move_timer().elapsed, 100);
}

#[test]
fn the_food_timer_brings_food_every_ten_seconds() {
    let mut game = Game::game_setup_at(FAR);
    // 66 cycles of 150 ms: the snake is steered in a square to stay inside
    let mut spawned = 0;
    let course = [Direction::Right, Direction::Down, Direction::Left, Direction::Up];
    for i in 0..67 {
        let before = food_cells(&game).len();
        let events = game.update_at(150, press(course[i % 4]), cell(12, 12), SPARE);
        assert!(events.is_empty());
        if food_cells(&game).len() > before {
            spawned += 1;
            assert_eq!(i, 66);
        }
    }
    assert_eq!(spawned, 1);
    assert_eq!(food_cells(&game), vec![FAR, cell(12, 12)]);
    assert_eq!(game.food_timer().elapsed, 50);
    assert!(game.food_timer().finished);
}

#[test]
fn timer_and_growth_in_one_cycle_bring_two_food_items() {
    let mut game = Game::game_setup_at(cell(3, 4));
    game.food_spawner_at(9850, SPARE, SPARE);
    assert_eq!(food_cells(&game), vec![cell(3, 4)]);
    let events = game.update_at(150, NONE, cell(1, 1), cell(2, 2));
    assert_eq!(events, vec![Event::Growth]);
    assert_eq!(food_cells(&game), vec![cell(1, 1), cell(2, 2)]);
}

#[test]
fn food_may_be_spawned_on_the_snake() {
    let mut game = Game::game_setup_at(FAR);
    let id = game.spawn_food(cell(3, 3));
    assert_eq!(id, EntityId(3));
    assert_eq!(food_cells(&game), vec![FAR, cell(3, 3)]);
    // food under the head is eaten at the next tick only if the head is on it then
    assert!(tick(&mut game, None, SPARE).is_empty());
    assert_eq!(food_cells(&game), vec![FAR, cell(3, 3)]);
}

#[test]
fn a_cycle_with_random_food_keeps_it_inside_the_arena() {
    for _ in 0..50 {
        let mut game = Game::game_setup_at(cell(3, 4));
        assert!(game.accepts(10000));
        let events = game.update(10000, NONE);
        assert_eq!(events, vec![Event::Growth]);
        let food = food_cells(&game);
        assert_eq!(food.len(), 2);
        assert!(food.iter().all(|c| c.is_in_arena()));
        assert_eq!(game.segments().len(), 2);
    }
}

#[test]
fn played_cycles_keep_the_segments_on_cells_of_their_own() {
    let mut game = long_snake();
    let course = [
        Direction::Right,
        Direction::Right,
        Direction::Down,
        Direction::Down,
        Direction::Left,
        Direction::Down,
        Direction::Right,
        Direction::Up,
    ];
    for d in course {
        tick(&mut game, Some(d), SPARE);
        let body = game.body();
        for a in 0..body.len() {
            for b in (a + 1)..body.len() {
                assert_ne!(body[a], body[b]);
            }
        }
    }
}

#[test]
fn a_head_on_two_segments_brings_one_terminal_event() {
    let mut game = Game::game_setup_at(cell(3, 4));
    // one cycle by hand, in which the growth manager is invoked five times
    game.snake_timer(150);
    game.handle_movement(NONE);
    game.snake_movement();
    game.snake_eating();
    for _ in 0..5 {
        game.snake_growth();
    }
    assert_eq!(
        game.body(),
        vec![cell(3, 3), cell(3, 2), cell(3, 2), cell(3, 2), cell(3, 2), cell(3, 2)]
    );
    // the growth event is still pending when the next cycle runs
    assert_eq!(tick(&mut game, Some(Direction::Left), FAR), vec![Event::Growth]);
    assert_eq!(game.segments().len(), 7);
    assert!(tick(&mut game, Some(Direction::Down), SPARE).is_empty());
    assert!(tick(&mut game, None, SPARE).is_empty());
    assert!(tick(&mut game, Some(Direction::Right), SPARE).is_empty());
    assert_eq!(game.head_position(), cell(3, 2));
    let body = game.body();
    assert_eq!(body.iter().filter(|c| **c == cell(3, 2)).count(), 2);
    let events = tick(&mut game, None, SPARE);
    assert_eq!(events, vec![Event::GameOver]);
    assert_eq!(game.store().count(), 2);
}
