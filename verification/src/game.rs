//! The game: its state and the parts of an update cycle.
//!
//! A cycle runs its parts in a fixed order: the move timer, the input latch,
//! movement with its collision checks, eating, growth, the food spawner and
//! the game-over handler. [`Game::update`] runs them all; each part is also a
//! method of its own.

use vstd::prelude::*;
use vstd::pervasive::unreached;
use crate::grid::{Direction, Position};
use crate::model::{
    holds_food_at, holds_segment, initial, initial_head, initial_segment, repeated,
    food_count_upto, DirectionInput, Event, GameView, FOOD_SPAWN_INTERVAL, MOVE_INTERVAL,
};
use crate::store::{
    first_free, live, spawned, Entity, EntityId, EntityStore, Role, Slots, SnakeHead,
};
use crate::timer::Timer;
use crate::wellformed::{
    lemma_after_reset_wf, lemma_cycle_end_wf, lemma_eaten_wf, lemma_grown_wf, lemma_initial_wf, lemma_latched_wf,
    lemma_moved_wf, lemma_rank_of_segment, lemma_rank_of_slot, lemma_restarted,
    lemma_with_food_wf,
};
use crate::random::random_cell;

verus! {

/// The whole state of one game.
pub struct Game {
    store: EntityStore,
    head: EntityId,
    segments: Vec<EntityId>,
    last_tail: Option<Position>,
    move_timer: Timer,
    food_timer: Timer,
    events: Vec<Event>,
}

impl View for Game {
    type V = GameView;

    closed spec fn view(&self) -> GameView {
        GameView {
            slots: self.store@,
            head: self.head,
            segments: self.segments@,
            last_tail: self.last_tail,
            move_timer: self.move_timer,
            food_timer: self.food_timer,
            events: self.events@,
        }
    }
}

/// Spawns one body segment on `position` and returns its handle.
pub fn spawn_segment(store: &mut EntityStore, position: Position) -> (id: EntityId)
    ensures
        id.0 == first_free(old(store)@),
        final(store)@ == spawned(old(store)@, Entity { role: Role::Segment, position }),
        !live(old(store)@, id),
        live(final(store)@, id),
{
    store.spawn(Entity { role: Role::Segment, position })
}

/// Spawns the snake as it starts: first one segment, then the head, each at
/// its starting cell, the head going up. Returns the handle of the segment
/// and that of the head.
pub fn spawn_initial_snake(store: &mut EntityStore) -> (ids: (EntityId, EntityId))
    ensures
        ids.0.0 == first_free(old(store)@),
        ids.1.0 == first_free(spawned(old(store)@, initial_segment())),
        final(store)@ == spawned(spawned(old(store)@, initial_segment()), initial_head()),
{
    let first_segment = spawn_segment(store, Position { x: 3, y: 2 });
    let head = store.spawn(
        Entity {
            role: Role::Head(
                SnakeHead {
                    current_direction: Direction::Up,
                    intended_direction: Direction::Up,
                },
            ),
            position: Position { x: 3, y: 3 },
        },
    );
    (first_segment, head)
}

/// Tells whether `cell` occurs in `cells`.
fn contains_position(cells: &Vec<Position>, cell: Position) -> (found: bool)
    ensures
        found == cells@.contains(cell),
{
    let n: usize = cells.len();
    let mut i: usize = 0;
    while i < n
        invariant
            i <= n,
            n == cells@.len(),
            forall|j: int| 0 <= j < i ==> cells@[j] != cell,
        decreases n - i,
    {
        if cells[i] == cell {
            return true;
        }
        i += 1;
    }
    false
}

/// Reads the cell of every listed segment, in the order of the list, before
/// any of them is written.
fn segment_positions(store: &EntityStore, segments: &Vec<EntityId>) -> (cells: Vec<Position>)
    requires
        forall|k: int| 0 <= k < segments@.len() ==> live(store@, #[trigger] segments@[k]),
    ensures
        cells@.len() == segments@.len(),
        forall|k: int|
            0 <= k < segments@.len() ==> #[trigger] cells@[k] == store@[segments@[k].0 as int].unwrap().position,
{
    let n: usize = segments.len();
    let mut cells: Vec<Position> = Vec::new();
    let mut k: usize = 0;
    while k < n
        invariant
            k <= n,
            n == segments@.len(),
            cells@.len() == k,
            forall|k: int| 0 <= k < segments@.len() ==> live(store@, #[trigger] segments@[k]),
            forall|j: int|
                0 <= j < k ==> #[trigger] cells@[j] == store@[segments@[j].0 as int].unwrap().position,
        decreases n - k,
    {
        let e = store.entity(segments[k]);
        cells.push(e.position);
        k += 1;
    }
    cells
}

/// Puts segment `k` of the list on `cells[k]`, for every `k`. Slots that the
/// list does not name keep what they hold.
fn place_segments(store: &mut EntityStore, segments: &Vec<EntityId>, cells: &Vec<Position>)
    requires
        cells@.len() >= segments@.len(),
        forall|k: int| 0 <= k < segments@.len() ==> live(old(store)@, #[trigger] segments@[k]),
        forall|k: int, l: int|
            0 <= k < l < segments@.len() ==> #[trigger] segments@[k] != #[trigger] segments@[l],
    ensures
        final(store)@.len() == old(store)@.len(),
        forall|k: int|
            0 <= k < segments@.len() ==> final(store)@[(#[trigger] segments@[k]).0 as int] == Some(
                Entity { role: Role::Segment, position: cells@[k] },
            ),
        forall|i: int|
            0 <= i < old(store)@.len() && (forall|k: int|
                0 <= k < segments@.len() ==> (#[trigger] segments@[k]).0 != i)
                ==> #[trigger] final(store)@[i] == old(store)@[i],
{
    let ghost pre = store@;
    let n: usize = segments.len();
    let mut m: usize = 0;
    while m < n
        invariant
            m <= n,
            n == segments@.len(),
            cells@.len() >= n,
            store@.len() == pre.len(),
            forall|k: int| 0 <= k < segments@.len() ==> live(store@, #[trigger] segments@[k]),
            forall|k: int, l: int|
                0 <= k < l < segments@.len() ==> #[trigger] segments@[k] != #[trigger] segments@[l],
            forall|k: int|
                0 <= k < m ==> store@[(#[trigger] segments@[k]).0 as int] == Some(
                    Entity { role: Role::Segment, position: cells@[k] },
                ),
            forall|i: int|
                0 <= i < pre.len() && (forall|k: int|
                    0 <= k < m ==> (#[trigger] segments@[k]).0 != i) ==> #[trigger] store@[i]
                    == pre[i],
        decreases n - m,
    {
        let ghost before = store@;
        store.replace(segments[m], Entity { role: Role::Segment, position: cells[m] });
        proof {
            assert forall|k: int| 0 <= k < m + 1 implies store@[(#[trigger] segments@[k]).0 as int]
                == Some(Entity { role: Role::Segment, position: cells@[k] }) by {
                if k < m {
                    assert(segments@[k] != segments@[m as int]);
                }
            }
            assert forall|i: int|
                0 <= i < pre.len() && (forall|k: int|
                    0 <= k < m + 1 ==> (#[trigger] segments@[k]).0 != i) implies #[trigger] store@[i]
                == pre[i] by {
                assert(segments@[m as int].0 != i);
                assert(before[i] == pre[i]);
            }
        }
        m += 1;
    }
}

/// Despawns every food item that lies on `cell` and adds one growth event
/// for each.
fn eat_food_at(store: &mut EntityStore, events: &mut Vec<Event>, cell: Position)
    ensures
        final(store)@ == Seq::new(
            old(store)@.len(),
            |i: int|
                if holds_food_at(old(store)@[i], cell) {
                    None
                } else {
                    old(store)@[i]
                },
        ),
        final(events)@ == old(events)@ + repeated(
            Event::Growth,
            food_count_upto(old(store)@, cell, old(store)@.len()),
        ),
{
    let ghost pre = store@;
    let ghost pre_events = events@;
    let n: usize = store.slot_count();
    let mut i: usize = 0;
    while i < n
        invariant
            i <= n,
            n == pre.len(),
            store@.len() == n,
            forall|j: int|
                0 <= j < n ==> #[trigger] store@[j] == if j < i && holds_food_at(pre[j], cell) {
                    None
                } else {
                    pre[j]
                },
            events@ == pre_events + repeated(Event::Growth, food_count_upto(pre, cell, i as nat)),
        decreases n - i,
    {
        let id = EntityId(i);
        let ghost before_events = events@;
        let mut eaten = false;
        match store.get(id) {
            Some(e) => {
                match e.role {
                    Role::Food => {
                        if e.position == cell {
                            eaten = true;
                        }
                    },
                    _ => {},
                }
            },
            None => {},
        }
        proof {
            assert(eaten == holds_food_at(pre[i as int], cell));
        }
        if eaten {
            store.despawn(id);
            events.push(Event::Growth);
            proof {
                assert(events@ =~= pre_events + repeated(
                    Event::Growth,
                    food_count_upto(pre, cell, (i + 1) as nat),
                ));
            }
        }
        i += 1;
    }
    proof {
        assert(store@ =~= Seq::new(
            pre.len(),
            |i: int|
                if holds_food_at(pre[i], cell) {
                    None
                } else {
                    pre[i]
                },
        ));
    }
}

impl Game {
    /// Reads the head: the directions it carries and its cell.
    fn head_parts(&self) -> (r: (SnakeHead, Position))
        requires
            self@.wf(),
        ensures
            r.0 == self@.head_data(),
            r.1 == self@.head_position(),
    {
        let e = self.store.entity(self.head);
        match e.role {
            Role::Head(h) => (h, e.position),
            _ => unreached(),
        }
    }

    /// Tells whether an event of kind `event` is pending.
    pub fn has_event(&self, event: Event) -> (found: bool)
        ensures
            found == self@.events.contains(event),
    {
        let n: usize = self.events.len();
        let mut i: usize = 0;
        while i < n
            invariant
                i <= n,
                n == self.events@.len(),
                forall|j: int| 0 <= j < i ==> self.events@[j] != event,
            decreases n - i,
        {
            if self.events[i] == event {
                return true;
            }
            i += 1;
        }
        false
    }

    /// Starts a game with its first food item on `food_cell`.
    pub fn game_setup_at(food_cell: Position) -> (game: Game)
        ensures
            game@ == initial(food_cell),
            game@.wf(),
    {
        let mut store = EntityStore::new();
        store.spawn(Entity { role: Role::Food, position: food_cell });
        let ids = spawn_initial_snake(&mut store);
        let mut segments: Vec<EntityId> = Vec::new();
        segments.push(ids.0);
        let game = Game {
            store,
            head: ids.1,
            segments,
            last_tail: None,
            move_timer: Timer::new(MOVE_INTERVAL),
            food_timer: Timer::new(FOOD_SPAWN_INTERVAL),
            events: Vec::new(),
        };
        proof {
            reveal_with_fuel(crate::store::first_free_from, 4);
            lemma_initial_wf(food_cell);
            assert(game@.slots =~= initial(food_cell).slots);
            assert(game@.segments =~= initial(food_cell).segments);
            assert(game@.events =~= initial(food_cell).events);
        }
        game
    }

    /// Starts a game with its first food item on a random cell of the arena.
    pub fn game_setup() -> (game: Game)
        ensures
            exists|food_cell: Position| food_cell.in_arena() && game@ == initial(food_cell),
            game@.wf(),
    {
        let food_cell = random_cell();
        Game::game_setup_at(food_cell)
    }

    /// Advances the move timer by `delta` milliseconds.
    pub fn snake_timer(&mut self, delta: u64)
        requires
            old(self)@.move_timer.accepts(delta),
        ensures
            final(self)@ == old(self)@.time_advanced(delta),
            old(self)@.wf() ==> final(self)@.wf(),
    {
        self.move_timer.tick(delta);
    }

    /// Latches the input: the head's intent becomes the first pressed
    /// direction, in the order left, down, up, right, that is not the
    /// direction of travel. With no such direction the intent stays.
    pub fn handle_movement(&mut self, input: DirectionInput)
        requires
            old(self)@.wf(),
        ensures
            final(self)@ == old(self)@.latched(input),
            final(self)@.wf(),
    {
        let (h, position) = self.head_parts();
        let intended = if h.current_direction != Direction::Left && input.left {
            Direction::Left
        } else if h.current_direction != Direction::Down && input.down {
            Direction::Down
        } else if h.current_direction != Direction::Up && input.up {
            Direction::Up
        } else if h.current_direction != Direction::Right && input.right {
            Direction::Right
        } else {
            h.intended_direction
        };
        self.store.replace(
            self.head,
            Entity {
                role: Role::Head(
                    SnakeHead {
                        current_direction: h.current_direction,
                        intended_direction: intended,
                    },
                ),
                position,
            },
        );
        proof {
            lemma_latched_wf(old(self)@, input);
        }
    }

    /// Moves the snake by one cell if the move timer finished in this cycle.
    ///
    /// The head commits its intent unless that is the opposite of its
    /// direction, and steps. Leaving the arena adds a terminal event, and so
    /// does a head whose cell before the move was also a segment's. Then
    /// every segment takes the cell of what was ahead of it, and the cell
    /// that the tail left is recorded.
    pub fn snake_movement(&mut self)
        requires
            old(self)@.wf(),
            old(self)@.move_timer.finished ==> old(self)@.head_position().can_step(),
        ensures
            final(self)@ == old(self)@.movement(),
            final(self)@.wf(),
    {
        if !self.move_timer.finished() {
            return;
        }
        let ghost pre = self@;
        let (h, last_head_pos) = self.head_parts();
        let dir = if h.intended_direction != h.current_direction.opposite() {
            h.intended_direction
        } else {
            h.current_direction
        };
        let new_pos = last_head_pos.step(dir);
        proof {
            assert forall|k: int| 0 <= k < pre.segments.len() implies live(
                pre.slots,
                #[trigger] pre.segments[k],
            ) && pre.segments[k].0 != pre.head.0 by {
                lemma_rank_of_segment(pre, k);
            }
        }
        let mut cells = segment_positions(&self.store, &self.segments);
        self.store.replace(
            self.head,
            Entity {
                role: Role::Head(
                    SnakeHead { current_direction: dir, intended_direction: h.intended_direction },
                ),
                position: new_pos,
            },
        );
        if !new_pos.is_in_arena() {
            self.events.push(Event::GameOver);
        }
        let hit = contains_position(&cells, last_head_pos);
        proof {
            assert(cells@ =~= pre.body());
            if pre.hits_body() {
                let k = choose|k: int|
                    0 <= k < pre.segments.len() && #[trigger] pre.segment_position(k)
                        == pre.head_position();
                assert(cells@[k] == last_head_pos);
            }
            if hit {
                let k = choose|k: int| 0 <= k < cells@.len() && cells@[k] == last_head_pos;
                assert(pre.segment_position(k) == pre.head_position());
            }
        }
        if hit {
            self.events.push(Event::GameOver);
        }
        cells.insert(0, last_head_pos);
        let ghost mid = self.store@;
        place_segments(&mut self.store, &self.segments, &cells);
        let n: usize = self.segments.len();
        self.last_tail = Some(cells[n]);
        proof {
            lemma_moved_wf(pre);
            assert(self.events@ =~= pre.moved().events);
            assert forall|i: int| 0 <= i < pre.slots.len() implies self.store@[i]
                == pre.moved().slots[i] by {
                if i == pre.head.0 {
                    assert(self.store@[i] == mid[i]);
                } else if holds_segment(pre.slots[i]) {
                    lemma_rank_of_slot(pre, i);
                    let r = pre.rank(i);
                    assert(self.segments@[r].0 == i);
                    assert(cells@[r] == pre.chain_position(r));
                } else {
                    assert forall|k: int| 0 <= k < pre.segments.len() implies (
                    #[trigger] self.segments@[k]).0 != i by {
                        lemma_rank_of_segment(pre, k);
                    }
                    assert(self.store@[i] == mid[i]);
                }
            }
            assert(self.store@ =~= pre.moved().slots);
        }
    }

    /// Checks whether the head reached food, if the move timer finished in
    /// this cycle: every food item on the head's cell is despawned, and each
    /// adds a growth event.
    pub fn snake_eating(&mut self)
        requires
            old(self)@.wf(),
            old(self)@.move_timer.finished ==> old(self)@.last_tail is Some,
        ensures
            final(self)@ == old(self)@.eating(),
            final(self)@.wf(),
    {
        if !self.move_timer.finished() {
            return;
        }
        let (_, head_pos) = self.head_parts();
        eat_food_at(&mut self.store, &mut self.events, head_pos);
        proof {
            lemma_eaten_wf(old(self)@);
        }
    }

    /// Lets the snake grow if a growth event is pending: one new segment, on
    /// the cell that the tail left at the latest move, becomes the new tail.
    /// However many growth events are pending, one call adds one segment.
    pub fn snake_growth(&mut self)
        requires
            old(self)@.wf(),
        ensures
            final(self)@ == old(self)@.grown(),
            final(self)@.wf(),
    {
        proof {
            self.store.lemma_bounded();
            lemma_grown_wf(self@);
        }
        if self.has_event(Event::Growth) {
            let cell = self.last_tail.unwrap();
            let id = spawn_segment(&mut self.store, cell);
            self.segments.push(id);
        }
    }

    /// Spawns one food item on `cell`, whatever else lies there, and returns
    /// its handle.
    pub fn spawn_food(&mut self, cell: Position) -> (id: EntityId)
        requires
            old(self)@.wf(),
        ensures
            final(self)@ == old(self)@.with_food(cell),
            final(self)@.wf(),
            id.0 == first_free(old(self)@.slots),
    {
        proof {
            self.store.lemma_bounded();
            lemma_with_food_wf(self@, cell);
        }
        self.store.spawn(Entity { role: Role::Food, position: cell })
    }

    /// Advances the food timer and tells which of the two reasons to spawn
    /// food hold in this cycle: the timer finished, a growth event is pending.
    fn food_triggers(&mut self, delta: u64) -> (r: (bool, bool))
        requires
            old(self)@.wf(),
            old(self)@.food_timer.accepts(delta),
        ensures
            final(self)@ == (GameView {
                food_timer: old(self)@.food_timer.ticked(delta),
                ..old(self)@
            }),
            final(self)@.wf(),
            r.0 == old(self)@.food_timer.ticked(delta).finished,
            r.1 == old(self)@.events.contains(Event::Growth),
    {
        self.food_timer.tick(delta);
        let growth = self.has_event(Event::Growth);
        (self.food_timer.finished(), growth)
    }

    /// Runs the food spawner with the cells given: one food item on
    /// `timer_cell` if the food timer finishes with `delta` more
    /// milliseconds, and one on `growth_cell` if a growth event is pending.
    /// Both are spawned where both hold. A cell that is not needed is ignored.
    pub fn food_spawner_at(&mut self, delta: u64, timer_cell: Position, growth_cell: Position)
        requires
            old(self)@.wf(),
            old(self)@.food_timer.accepts(delta),
        ensures
            final(self)@ == old(self)@.food_spawned(delta, timer_cell, growth_cell),
            final(self)@.wf(),
    {
        let (timer_fired, growth) = self.food_triggers(delta);
        if timer_fired {
            self.spawn_food(timer_cell);
        }
        if growth {
            self.spawn_food(growth_cell);
        }
    }

    /// Runs the food spawner, drawing a random cell of the arena for each
    /// food item that it spawns.
    pub fn food_spawner(&mut self, delta: u64)
        requires
            old(self)@.wf(),
            old(self)@.food_timer.accepts(delta),
        ensures
            exists|timer_cell: Position, growth_cell: Position|
                timer_cell.in_arena() && growth_cell.in_arena() && final(self)@
                    == #[trigger] old(self)@.food_spawned(delta, timer_cell, growth_cell),
            final(self)@.wf(),
    {
        let (timer_fired, growth) = self.food_triggers(delta);
        let mut timer_cell = Position { x: 0, y: 0 };
        let mut growth_cell = Position { x: 0, y: 0 };
        if timer_fired {
            timer_cell = random_cell();
            self.spawn_food(timer_cell);
        }
        if growth {
            growth_cell = random_cell();
            self.spawn_food(growth_cell);
        }
        proof {
            assert(self@ == old(self)@.food_spawned(delta, timer_cell, growth_cell));
        }
    }

    /// Handles a terminal event if one is pending: every entity is despawned,
    /// and the snake is spawned anew as it starts. Timers and the record of
    /// the tail's last cell stay as they are.
    pub fn game_over(&mut self)
        requires
            old(self)@.wf(),
        ensures
            final(self)@ == old(self)@.after_reset(),
            final(self)@.wf(),
    {
        proof {
            lemma_after_reset_wf(self@);
            lemma_restarted(self@);
        }
        if self.has_event(Event::GameOver) {
            self.store.clear();
            let ids = spawn_initial_snake(&mut self.store);
            let mut segments: Vec<EntityId> = Vec::new();
            segments.push(ids.0);
            self.segments = segments;
            self.head = ids.1;
            proof {
                assert(self@.segments =~= old(self)@.restarted().segments);
            }
        }
    }

    /// Ends a cycle: runs the game-over handler, then hands out the events of
    /// the cycle and leaves none pending.
    fn finish_cycle(&mut self) -> (events: Vec<Event>)
        requires
            old(self)@.wf(),
        ensures
            events@ == old(self)@.after_reset().events,
            final(self)@ == old(self)@.after_reset().events_cleared(),
            final(self)@.wf(),
            final(self)@.head_position().in_arena(),
    {
        proof {
            lemma_cycle_end_wf(self@);
        }
        self.game_over();
        let mut events: Vec<Event> = Vec::new();
        core::mem::swap(&mut events, &mut self.events);
        events
    }

    /// Runs one whole cycle with the cells given for the food spawner, and
    /// returns the events of the cycle in the order in which they came up.
    pub fn update_at(
        &mut self,
        delta: u64,
        input: DirectionInput,
        timer_cell: Position,
        growth_cell: Position,
    ) -> (events: Vec<Event>)
        requires
            old(self)@.wf(),
            old(self)@.move_timer.accepts(delta),
            old(self)@.food_timer.accepts(delta),
            old(self)@.head_position().can_step(),
        ensures
            events@ == old(self)@.cycle(delta, input, timer_cell, growth_cell).events,
            final(self)@ == old(self)@.cycle(
                delta,
                input,
                timer_cell,
                growth_cell,
            ).events_cleared(),
            final(self)@.wf(),
            final(self)@.head_position().in_arena(),
    {
        self.snake_timer(delta);
        self.handle_movement(input);
        self.snake_movement();
        self.snake_eating();
        self.snake_growth();
        self.food_spawner_at(delta, timer_cell, growth_cell);
        self.finish_cycle()
    }

    /// Runs one whole cycle: `delta` milliseconds pass, the input is latched,
    /// the snake moves and eats if the move timer finished, grows if it ate,
    /// food is spawned on random cells, and a terminal event restarts the
    /// game. Returns the events of the cycle; none stays pending.
    pub fn update(&mut self, delta: u64, input: DirectionInput) -> (events: Vec<Event>)
        requires
            old(self)@.wf(),
            old(self)@.move_timer.accepts(delta),
            old(self)@.food_timer.accepts(delta),
            old(self)@.head_position().can_step(),
        ensures
            exists|timer_cell: Position, growth_cell: Position|
                timer_cell.in_arena() && growth_cell.in_arena() && events@ == (
                #[trigger] old(self)@.cycle(delta, input, timer_cell, growth_cell)).events
                    && final(self)@ == old(self)@.cycle(
                    delta,
                    input,
                    timer_cell,
                    growth_cell,
                ).events_cleared(),
            final(self)@.wf(),
            final(self)@.head_position().in_arena(),
    {
        self.snake_timer(delta);
        self.handle_movement(input);
        self.snake_movement();
        self.snake_eating();
        self.snake_growth();
        let ghost before_food = self@;
        self.food_spawner(delta);
        let ghost (timer_cell, growth_cell) = choose|timer_cell: Position, growth_cell: Position|
            timer_cell.in_arena() && growth_cell.in_arena() && self@
                == #[trigger] before_food.food_spawned(delta, timer_cell, growth_cell);
        let events = self.finish_cycle();
        proof {
            let end = old(self)@.cycle(delta, input, timer_cell, growth_cell);
            assert(events@ == end.events);
            assert(self@ == end.events_cleared());
        }
        events
    }

    /// Tells whether a cycle of `delta` milliseconds can be run: both timers
    /// have room for the time, and the head for a step.
    pub fn accepts(&self, delta: u64) -> (ok: bool)
        requires
            self@.wf(),
        ensures
            ok == (self@.move_timer.accepts(delta) && self@.food_timer.accepts(delta)
                && self@.head_position().can_step()),
    {
        let (_, p) = self.head_parts();
        self.move_timer.can_accept(delta) && self.food_timer.can_accept(delta) && i32::MIN < p.x
            && p.x < i32::MAX && i32::MIN < p.y && p.y < i32::MAX
    }

    /// The entity store, to look up what a handle names.
    pub fn store(&self) -> (store: &EntityStore)
        ensures
            store@ == self@.slots,
    {
        &self.store
    }

    /// The handle of the head.
    pub fn head(&self) -> (id: EntityId)
        ensures
            id == self@.head,
    {
        self.head
    }

    /// The cell of the head.
    pub fn head_position(&self) -> (cell: Position)
        requires
            self@.wf(),
        ensures
            cell == self@.head_position(),
    {
        self.head_parts().1
    }

    /// The direction of the latest move.
    pub fn current_direction(&self) -> (d: Direction)
        requires
            self@.wf(),
        ensures
            d == self@.head_data().current_direction,
    {
        self.head_parts().0.current_direction
    }

    /// The direction that the latest input asked for.
    pub fn intended_direction(&self) -> (d: Direction)
        requires
            self@.wf(),
        ensures
            d == self@.head_data().intended_direction,
    {
        self.head_parts().0.intended_direction
    }

    /// The handles of the segments, the one next to the head first.
    pub fn segments(&self) -> (segments: &Vec<EntityId>)
        ensures
            segments@ == self@.segments,
    {
        &self.segments
    }

    /// The cells of the segments, the one next to the head first.
    pub fn body(&self) -> (cells: Vec<Position>)
        requires
            self@.wf(),
        ensures
            cells@ == self@.body(),
    {
        let cells = segment_positions(&self.store, &self.segments);
        proof {
            assert(cells@ =~= self@.body());
        }
        cells
    }

    /// The cell that the tail left at the latest move, if there was a move.
    pub fn last_tail_position(&self) -> (cell: Option<Position>)
        ensures
            cell == self@.last_tail,
    {
        self.last_tail
    }

    /// The timer that paces the moves.
    pub fn move_timer(&self) -> (timer: Timer)
        ensures
            timer == self@.move_timer,
    {
        self.move_timer
    }

    /// The timer that paces the food.
    pub fn food_timer(&self) -> (timer: Timer)
        ensures
            timer == self@.food_timer,
    {
        self.food_timer
    }

    /// The events that are pending, oldest first.
    pub fn events(&self) -> (events: &Vec<Event>)
        ensures
            events@ == self@.events,
    {
        &self.events
    }
}

} // verus!
