use snake_core::game::{spawn_initial_snake, spawn_segment, Game};
use snake_core::grid::{Direction, Position, ARENA_HEIGHT, ARENA_WIDTH};
use snake_core::model::{DirectionInput, Event};
use snake_core::random::random_cell;
use snake_core::store::{Entity, EntityId, EntityStore, Role, SnakeHead};
use snake_core::timer::Timer;

fn at(x: i32, y: i32) -> Position {
    Position { x, y }
}

fn pressed(left: bool, down: bool, up: bool, right: bool) -> DirectionInput {
    DirectionInput { left, down, up, right }
}

#[test]
fn opposite_pairs_the_directions() {
    assert_eq!(Direction::Left.opposite(), Direction::Right);
    assert_eq!(Direction::Right.opposite(), Direction::Left);
    assert_eq!(Direction::Up.opposite(), Direction::Down);
    assert_eq!(Direction::Down.opposite(), Direction::Up);
    for d in [Direction::Left, Direction::Up, Direction::Right, Direction::Down] {
        assert_eq!(d.opposite().opposite(), d);
        assert_ne!(d.opposite(), d);
    }
}

#[test]
fn a_step_changes_one_coordinate_by_one() {
    let p = at(4, 7);
    assert_eq!(p.step(Direction::Left), at(3, 7));
    assert_eq!(p.step(Direction::Right), at(5, 7));
    assert_eq!(p.step(Direction::Up), at(4, 8));
    assert_eq!(p.step(Direction::Down), at(4, 6));
    assert_eq!(at(0, 0).step(Direction::Left), at(-1, 0));
}

#[test]
fn the_arena_is_twenty_by_twenty() {
    assert_eq!(ARENA_WIDTH, 20);
    assert_eq!(ARENA_HEIGHT, 20);
    assert!(at(0, 0).is_in_arena());
    assert!(at(19, 19).is_in_arena());
    assert!(!at(20, 0).is_in_arena());
    assert!(!at(0, 20).is_in_arena());
    assert!(!at(-1, 5).is_in_arena());
    assert!(!at(5, -1).is_in_arena());
}

#[test]
fn random_cells_lie_inside_the_arena() {
    let mut seen_other_than_origin = false;
    for _ in 0..2000 {
        let c = random_cell();
        assert!(c.is_in_arena());
        if c != at(0, 0) {
            seen_other_than_origin = true;
        }
    }
    assert!(seen_other_than_origin);
}

#[test]
fn a_timer_finishes_once_per_interval() {
    let mut t = Timer::new(150);
    assert_eq!(t, Timer { elapsed: 0, interval: 150, finished: false });
    t.tick(100);
    assert!(!t.finished());
    assert_eq!(t.elapsed, 100);
    t.tick(100);
    assert!(t.finished());
    assert_eq!(t.elapsed, 50);
    t.tick(99);
    assert!(!t.finished());
    assert_eq!(t.elapsed, 149);
    t.tick(1);
    assert!(t.finished());
    assert_eq!(t.elapsed, 0);
}

#[test]
fn a_timer_takes_off_one_interval_per_tick() {
    let mut t = Timer::new(150);
    t.tick(1000);
    assert!(t.finished());
    assert_eq!(t.elapsed, 850);
    t.tick(0);
    assert!(t.finished());
    assert_eq!(t.elapsed, 700);
}

#[test]
fn a_timer_tells_whether_it_has_room() {
    let mut t = Timer::new(10);
    t.tick(5);
    assert!(t.can_accept(u64::MAX - 5));
    assert!(!t.can_accept(u64::MAX - 4));
    t.tick(u64::MAX - 5);
    assert!(t.finished());
    assert_eq!(t.elapsed, u64::MAX - 10);
}

#[test]
fn size_hints_are_in_hundredths_of_a_cell() {
    let head = Role::Head(SnakeHead {
        current_direction: Direction::Up,
        intended_direction: Direction::Up,
    });
    assert_eq!(head.size_hint(), 65);
    assert_eq!(Role::Segment.size_hint(), 65);
    assert_eq!(Role::Food.size_hint(), 80);
}

#[test]
fn the_store_fills_the_first_free_slot() {
    let mut store = EntityStore::new();
    assert_eq!(store.slot_count(), 0);
    assert_eq!(store.count(), 0);
    let a = store.spawn(Entity { role: Role::Food, position: at(1, 1) });
    let b = store.spawn(Entity { role: Role::Segment, position: at(2, 2) });
    let c = store.spawn(Entity { role: Role::Food, position: at(3, 3) });
    assert_eq!((a, b, c), (EntityId(0), EntityId(1), EntityId(2)));
    assert_eq!(store.count(), 3);
    assert!(store.despawn(b));
    assert!(!store.despawn(b));
    assert!(!store.despawn(EntityId(7)));
    assert_eq!(store.count(), 2);
    assert_eq!(store.slot_count(), 3);
    assert!(!store.contains(b));
    assert_eq!(store.get(b), None);
    assert_eq!(store.get(EntityId(7)), None);
    assert_eq!(store.ids(), vec![a, c]);
    let d = store.spawn(Entity { role: Role::Food, position: at(4, 4) });
    assert_eq!(d, EntityId(1));
    let e = store.spawn(Entity { role: Role::Food, position: at(5, 5) });
    assert_eq!(e, EntityId(3));
    assert_eq!(store.entity(d).position, at(4, 4));
    assert_eq!(store.get(a), Some(Entity { role: Role::Food, position: at(1, 1) }));
}

#[test]
fn the_store_replaces_and_clears() {
    let mut store = EntityStore::new();
    let a = store.spawn(Entity { role: Role::Food, position: at(1, 1) });
    let b = store.spawn(Entity { role: Role::Food, position: at(2, 2) });
    store.replace(a, Entity { role: Role::Segment, position: at(9, 9) });
    assert_eq!(store.get(a), Some(Entity { role: Role::Segment, position: at(9, 9) }));
    assert_eq!(store.get(b), Some(Entity { role: Role::Food, position: at(2, 2) }));
    store.clear();
    assert_eq!(store.count(), 0);
    assert_eq!(store.slot_count(), 2);
    assert!(store.ids().is_empty());
    assert_eq!(store.spawn(Entity { role: Role::Food, position: at(0, 0) }), EntityId(0));
}

#[test]
fn the_initial_snake_is_a_segment_and_a_head() {
    let mut store = EntityStore::new();
    let (segment, head) = spawn_initial_snake(&mut store);
    assert_eq!((segment, head), (EntityId(0), EntityId(1)));
    assert_eq!(store.get(segment), Some(Entity { role: Role::Segment, position: at(3, 2) }));
    assert_eq!(
        store.get(head),
        Some(Entity {
            role: Role::Head(SnakeHead {
                current_direction: Direction::Up,
                intended_direction: Direction::Up,
            }),
            position: at(3, 3),
        })
    );
    let more = spawn_segment(&mut store, at(8, 8));
    assert_eq!(more, EntityId(2));
    assert_eq!(store.get(more), Some(Entity { role: Role::Segment, position: at(8, 8) }));
}

#[test]
fn the_latch_takes_the_first_pressed_direction_in_its_order() {
    let mut game = Game::game_setup_at(at(15, 15));
    // going up: left wins over everything
    game.handle_movement(pressed(true, true, true, true));
    assert_eq!(game.intended_direction(), Direction::Left);
    // without left, down wins, though it is the reversal
    game.handle_movement(pressed(false, true, true, true));
    assert_eq!(game.intended_direction(), Direction::Down);
    // up is the direction of travel and is passed over
    game.handle_movement(pressed(false, false, true, true));
    assert_eq!(game.intended_direction(), Direction::Right);
    // the direction of travel alone changes nothing
    game.handle_movement(pressed(false, false, true, false));
    assert_eq!(game.intended_direction(), Direction::Right);
    // nor does an empty input
    game.handle_movement(pressed(false, false, false, false));
    assert_eq!(game.intended_direction(), Direction::Right);
    assert_eq!(game.current_direction(), Direction::Up);
    assert_eq!(game.head_position(), at(3, 3));
}

#[test]
fn the_latch_passes_over_the_direction_of_travel() {
    let mut game = Game::game_setup_at(at(15, 15));
    game.update_at(150, pressed(true, false, false, false), at(0, 0), at(0, 0));
    assert_eq!(game.current_direction(), Direction::Left);
    game.handle_movement(pressed(true, true, false, false));
    assert_eq!(game.intended_direction(), Direction::Down);
}

#[test]
fn the_parts_of_a_cycle_run_one_by_one() {
    let mut game = Game::game_setup_at(at(3, 4));
    game.snake_timer(150);
    assert!(game.move_timer().finished);
    game.handle_movement(pressed(false, false, false, false));
    game.snake_movement();
    assert_eq!(game.head_position(), at(3, 4));
    assert_eq!(game.body(), vec![at(3, 3)]);
    assert_eq!(game.last_tail_position(), Some(at(3, 2)));
    assert!(game.events().is_empty());
    game.snake_eating();
    assert_eq!(game.events(), &vec![Event::Growth]);
    assert!(game.has_event(Event::Growth));
    assert!(!game.has_event(Event::GameOver));
    assert_eq!(game.store().get(EntityId(0)), None);
    assert_eq!(game.segments().len(), 1);
    game.snake_growth();
    assert_eq!(game.segments().len(), 2);
    assert_eq!(game.body(), vec![at(3, 3), at(3, 2)]);
    // a second call in the same cycle adds a second segment
    game.snake_growth();
    assert_eq!(game.body(), vec![at(3, 3), at(3, 2), at(3, 2)]);
    game.food_spawner_at(150, at(5, 5), at(6, 6));
    assert_eq!(
        game.store().get(EntityId(4)),
        Some(Entity { role: Role::Food, position: at(6, 6) })
    );
    assert_eq!(game.store().count(), 5);
    game.game_over();
    assert_eq!(game.store().count(), 5);
}

#[test]
fn the_parts_wait_for_the_move_timer() {
    let mut game = Game::game_setup_at(at(3, 3));
    game.snake_timer(149);
    game.snake_movement();
    game.snake_eating();
    assert_eq!(game.head_position(), at(3, 3));
    assert_eq!(game.last_tail_position(), None);
    assert!(game.events().is_empty());
    assert_eq!(game.store().count(), 3);
    game.snake_growth();
    assert_eq!(game.segments().len(), 1);
}

#[test]
fn leaving_the_arena_still_moves_the_snake() {
    let mut game = Game::game_setup_at(at(15, 15));
    game.handle_movement(pressed(true, false, false, false));
    for _ in 0..3 {
        game.snake_timer(150);
        game.snake_movement();
    }
    assert_eq!(game.head_position(), at(0, 3));
    assert!(game.events().is_empty());
    game.snake_timer(150);
    game.snake_movement();
    assert_eq!(game.events(), &vec![Event::GameOver]);
    assert_eq!(game.head_position(), at(-1, 3));
    assert_eq!(game.body(), vec![at(0, 3)]);
    game.game_over();
    assert_eq!(game.head_position(), at(3, 3));
    assert_eq!(game.body(), vec![at(3, 2)]);
    // handling the same event again changes nothing
    game.game_over();
    assert_eq!(game.store().ids(), vec![EntityId(0), EntityId(1)]);
    assert_eq!(game.head(), EntityId(1));
}

#[test]
fn the_random_food_spawner_fires_on_its_timer() {
    let mut game = Game::game_setup_at(at(15, 15));
    game.food_spawner(9999);
    assert_eq!(game.store().count(), 3);
    game.food_spawner(1);
    assert_eq!(game.store().count(), 4);
    let food = game.store().get(EntityId(3)).unwrap();
    assert_eq!(food.role, Role::Food);
    assert!(food.position.is_in_arena());
}

#[test]
fn a_game_tells_what_time_it_accepts() {
    let mut game = Game::game_setup_at(at(15, 15));
    assert!(game.accepts(u64::MAX));
    game.update_at(100, pressed(false, false, false, false), at(0, 0), at(0, 0));
    assert!(game.accepts(u64::MAX - 100));
    assert!(!game.accepts(u64::MAX - 99));
}
