//! The mathematical model of a game: its state as plain values, and each
//! part of an update cycle as a function from state to state.
//!
//! The executable functions of [`crate::game`] are proved to compute exactly
//! these functions, and the laws of [`crate::laws`] are proved about them.

use vstd::prelude::*;
use crate::grid::{Direction, Position};
use crate::store::{cleared, first_free, live, spawned, Entity, EntityId, Role, Slots, SnakeHead};
use crate::timer::Timer;

verus! {

/// What happened during a cycle, for the parts that run later in it.
#[derive(Clone, Copy, Debug, PartialEq, Eq, Structural)]
pub enum Event {
    /// The head reached a food item, which was eaten.
    Growth,
    /// The head left the arena or ran into the body.
    GameOver,
}

/// The directions that are held down at the moment.
#[derive(Clone, Copy, Debug, PartialEq, Eq, Structural)]
pub struct DirectionInput {
    pub left: bool,
    pub down: bool,
    pub up: bool,
    pub right: bool,
}

/// The state of a game as contracts see it.
pub struct GameView {
    /// The slots of the entity store.
    pub slots: Slots,
    /// The handle of the snake's head.
    pub head: EntityId,
    /// The handles of the body's segments, the one next to the head first.
    pub segments: Seq<EntityId>,
    /// The cell that the tail left at the latest move.
    pub last_tail: Option<Position>,
    /// The timer that paces the moves.
    pub move_timer: Timer,
    /// The timer that paces the food.
    pub food_timer: Timer,
    /// The events of the cycle so far, oldest first.
    pub events: Seq<Event>,
}

/// The cell where the head starts.
pub open spec fn initial_head_position() -> Position {
    Position { x: 3, y: 3 }
}

/// The cell where the first segment starts.
pub open spec fn initial_segment_position() -> Position {
    Position { x: 3, y: 2 }
}

/// The head as it starts: at its starting cell, going up.
pub open spec fn initial_head() -> Entity {
    Entity {
        role: Role::Head(
            SnakeHead {
                current_direction: Direction::Up,
                intended_direction: Direction::Up,
            },
        ),
        position: initial_head_position(),
    }
}

/// The first segment as it starts.
pub open spec fn initial_segment() -> Entity {
    Entity { role: Role::Segment, position: initial_segment_position() }
}

/// The interval between two moves, in milliseconds.
pub const MOVE_INTERVAL: u64 = 150;

/// The interval between two food items that the timer brings, in milliseconds.
pub const FOOD_SPAWN_INTERVAL: u64 = 10000;

/// The state in which a game starts: one food item on `food_cell`, then the
/// first segment and the head, the timers at zero and nothing pending.
pub open spec fn initial(food_cell: Position) -> GameView {
    GameView {
        slots: seq![
            Some(Entity { role: Role::Food, position: food_cell }),
            Some(initial_segment()),
            Some(initial_head()),
        ],
        head: EntityId(2),
        segments: seq![EntityId(1)],
        last_tail: None,
        move_timer: Timer { elapsed: 0, interval: MOVE_INTERVAL, finished: false },
        food_timer: Timer { elapsed: 0, interval: FOOD_SPAWN_INTERVAL, finished: false },
        events: Seq::<Event>::empty(),
    }
}

/// The slot holds a head.
pub open spec fn holds_head(slot: Option<Entity>) -> bool {
    slot is Some && slot.unwrap().role is Head
}

/// The slot holds a segment.
pub open spec fn holds_segment(slot: Option<Entity>) -> bool {
    slot is Some && slot.unwrap().role is Segment
}

/// The slot holds a food item that lies on cell `p`.
pub open spec fn holds_food_at(slot: Option<Entity>, p: Position) -> bool {
    slot is Some && slot.unwrap().role is Food && slot.unwrap().position == p
}

/// The number of food items on cell `p` among the first `n` slots.
pub open spec fn food_count_upto(slots: Slots, p: Position, n: nat) -> nat
    decreases n,
{
    if n == 0 || n > slots.len() {
        0
    } else {
        food_count_upto(slots, p, (n - 1) as nat) + if holds_food_at(slots[n - 1], p) {
            1nat
        } else {
            0nat
        }
    }
}

/// The direction that an input selects: the first pressed one in the order
/// left, down, up, right that differs from the direction of travel; the
/// earlier intent where there is none.
pub open spec fn selected_direction(
    current: Direction,
    intended: Direction,
    input: DirectionInput,
) -> Direction {
    if current != Direction::Left && input.left {
        Direction::Left
    } else if current != Direction::Down && input.down {
        Direction::Down
    } else if current != Direction::Up && input.up {
        Direction::Up
    } else if current != Direction::Right && input.right {
        Direction::Right
    } else {
        intended
    }
}

/// The direction in which a head moves next: the intended one, unless that
/// would turn the snake right round.
pub open spec fn committed_direction(head: SnakeHead) -> Direction {
    if head.intended_direction != head.current_direction.spec_opposite() {
        head.intended_direction
    } else {
        head.current_direction
    }
}

/// `n` events of one kind.
pub open spec fn repeated(event: Event, n: nat) -> Seq<Event> {
    Seq::new(n, |j: int| event)
}

/// One terminal event if `cond` holds, none otherwise.
pub open spec fn game_over_if(cond: bool) -> Seq<Event> {
    if cond {
        seq![Event::GameOver]
    } else {
        Seq::<Event>::empty()
    }
}

impl GameView {
    /// The head entity.
    pub open spec fn head_entity(self) -> Entity {
        self.slots[self.head.0 as int].unwrap()
    }

    /// The directions that the head carries.
    pub open spec fn head_data(self) -> SnakeHead {
        match self.head_entity().role {
            Role::Head(h) => h,
            _ => SnakeHead {
                current_direction: Direction::Up,
                intended_direction: Direction::Up,
            },
        }
    }

    /// The cell of the head.
    pub open spec fn head_position(self) -> Position {
        self.head_entity().position
    }

    /// The cell of segment `k`, counted from the head.
    pub open spec fn segment_position(self, k: int) -> Position {
        self.slots[self.segments[k].0 as int].unwrap().position
    }

    /// The cells of the body, the segment next to the head first.
    pub open spec fn body(self) -> Seq<Position> {
        Seq::new(self.segments.len(), |k: int| self.segment_position(k))
    }

    /// The head's handle names a live head.
    pub open spec fn has_head(self) -> bool {
        live(self.slots, self.head) && holds_head(self.slots[self.head.0 as int])
    }

    /// The head travels in the direction it intends, or the intent is to
    /// turn right round, which no move will follow. This holds when a game
    /// starts and after every move.
    pub open spec fn intent_settled(self) -> bool {
        let h = self.head_data();
        h.intended_direction == h.current_direction || h.intended_direction
            == h.current_direction.spec_opposite()
    }

    /// The store and the list of segments agree, there is one head, and the
    /// pending events are backed by the state:
    /// - the head's handle names a live head, and no other slot holds one;
    /// - the list names live segments, each once, and every segment in the
    ///   store is in the list; the body is never empty;
    /// - where a growth is pending, the tail's last cell is known;
    /// - where the head is outside the arena, a terminal event is pending.
    pub open spec fn wf(self) -> bool {
        &&& live(self.slots, self.head)
        &&& holds_head(self.slots[self.head.0 as int])
        &&& forall|i: int|
            0 <= i < self.slots.len() && holds_head(#[trigger] self.slots[i]) ==> i == self.head.0
        &&& self.segments.len() >= 1
        &&& forall|k: int|
            0 <= k < self.segments.len() ==> live(self.slots, #[trigger] self.segments[k])
                && holds_segment(self.slots[self.segments[k].0 as int])
        &&& forall|k: int, l: int|
            0 <= k < l < self.segments.len() ==> #[trigger] self.segments[k]
                != #[trigger] self.segments[l]
        &&& forall|i: int|
            0 <= i < self.slots.len() && holds_segment(#[trigger] self.slots[i])
                ==> self.is_listed(i)
        &&& self.events.contains(Event::Growth) ==> self.last_tail is Some
        &&& !self.head_position().in_arena() ==> self.events.contains(Event::GameOver)
    }

    /// Slot `i` is named in the list of segments.
    pub open spec fn is_listed(self, i: int) -> bool {
        exists|k: int| 0 <= k < self.segments.len() && (#[trigger] self.segments[k]).0 == i
    }

    /// The place in the list of the segment in slot `i`.
    pub open spec fn rank(self, i: int) -> int {
        choose|k: int| 0 <= k < self.segments.len() && (#[trigger] self.segments[k]).0 == i
    }

    /// The head's cell coincides with the cell of some segment.
    pub open spec fn hits_body(self) -> bool {
        exists|k: int| 0 <= k < self.segments.len() && #[trigger] self.segment_position(k) == self.head_position()
    }

    /// The cell to which segment `k` moves: that of whatever is ahead of it
    /// in the chain, the head for the first segment.
    pub open spec fn chain_position(self, k: int) -> Position {
        if k == 0 {
            self.head_position()
        } else {
            self.segment_position(k - 1)
        }
    }

    /// The state with `delta` milliseconds more on the move timer.
    pub open spec fn time_advanced(self, delta: u64) -> GameView {
        GameView { move_timer: self.move_timer.ticked(delta), ..self }
    }

    /// The state after the input was latched: the head's intent follows the
    /// input, nothing else changes.
    pub open spec fn latched(self, input: DirectionInput) -> GameView {
        let h = self.head_data();
        let head = Entity {
            role: Role::Head(
                SnakeHead {
                    current_direction: h.current_direction,
                    intended_direction: selected_direction(
                        h.current_direction,
                        h.intended_direction,
                        input,
                    ),
                },
            ),
            position: self.head_position(),
        };
        GameView { slots: self.slots.update(self.head.0 as int, Some(head)), ..self }
    }

    /// The head after one move.
    pub open spec fn moved_head(self) -> Entity {
        let h = self.head_data();
        let dir = committed_direction(h);
        Entity {
            role: Role::Head(
                SnakeHead { current_direction: dir, intended_direction: h.intended_direction },
            ),
            position: self.head_position().stepped(dir),
        }
    }

    /// The state after one move: the head commits its direction and steps,
    /// every segment takes the cell of what was ahead of it, the tail's old
    /// cell is recorded, and a terminal event is added for leaving the arena
    /// and another for a head that stood on a segment's cell before the move.
    /// Food stays where it is.
    pub open spec fn moved(self) -> GameView {
        GameView {
            slots: Seq::new(
                self.slots.len(),
                |i: int|
                    if i == self.head.0 {
                        Some(self.moved_head())
                    } else if holds_segment(self.slots[i]) {
                        Some(
                            Entity {
                                role: Role::Segment,
                                position: self.chain_position(self.rank(i)),
                            },
                        )
                    } else {
                        self.slots[i]
                    },
            ),
            last_tail: Some(self.segment_position(self.segments.len() - 1)),
            events: self.events + game_over_if(!self.moved_head().position.in_arena())
                + game_over_if(self.hits_body()),
            ..self
        }
    }

    /// What the movement engine does in a cycle: a move if the move timer
    /// finished in it, nothing otherwise.
    pub open spec fn movement(self) -> GameView {
        if self.move_timer.finished {
            self.moved()
        } else {
            self
        }
    }

    /// What the eating check does in a cycle: it runs if the move timer
    /// finished in it, as the move does.
    pub open spec fn eating(self) -> GameView {
        if self.move_timer.finished {
            self.eaten()
        } else {
            self
        }
    }

    /// The state after eating: every food item on the head's cell is gone,
    /// and one growth event was added for each.
    pub open spec fn eaten(self) -> GameView {
        let p = self.head_position();
        GameView {
            slots: Seq::new(
                self.slots.len(),
                |i: int|
                    if holds_food_at(self.slots[i], p) {
                        None
                    } else {
                        self.slots[i]
                    },
            ),
            events: self.events + repeated(
                Event::Growth,
                food_count_upto(self.slots, p, self.slots.len()),
            ),
            ..self
        }
    }

    /// The state after growth: where a growth event is pending, one segment
    /// more, at the end of the list and on the cell that the tail left.
    pub open spec fn grown(self) -> GameView {
        if self.events.contains(Event::Growth) && self.last_tail is Some {
            GameView {
                slots: spawned(
                    self.slots,
                    Entity { role: Role::Segment, position: self.last_tail.unwrap() },
                ),
                segments: self.segments.push(EntityId(first_free(self.slots) as usize)),
                ..self
            }
        } else {
            self
        }
    }

    /// The state with one more food item, on `cell`.
    pub open spec fn with_food(self, cell: Position) -> GameView {
        GameView {
            slots: spawned(self.slots, Entity { role: Role::Food, position: cell }),
            ..self
        }
    }

    /// The state after the food spawner ran: its timer has `delta` more, a
    /// food item lies on `timer_cell` if the timer finished, and another on
    /// `growth_cell` if a growth event is pending. Both can happen at once.
    pub open spec fn food_spawned(
        self,
        delta: u64,
        timer_cell: Position,
        growth_cell: Position,
    ) -> GameView {
        let timer = self.food_timer.ticked(delta);
        let s = GameView { food_timer: timer, ..self };
        let s = if timer.finished {
            s.with_food(timer_cell)
        } else {
            s
        };
        if self.events.contains(Event::Growth) {
            s.with_food(growth_cell)
        } else {
            s
        }
    }

    /// The starting snake in a store emptied of everything: one segment and
    /// the head, both at their starting cells, the head going up.
    pub open spec fn restarted(self) -> GameView {
        let s0 = cleared(self.slots);
        let s1 = spawned(s0, initial_segment());
        let s2 = spawned(s1, initial_head());
        GameView {
            slots: s2,
            head: EntityId(first_free(s1) as usize),
            segments: seq![EntityId(first_free(s0) as usize)],
            ..self
        }
    }

    /// The state after the game-over handler ran: restarted where a terminal
    /// event is pending, unchanged otherwise.
    pub open spec fn after_reset(self) -> GameView {
        if self.events.contains(Event::GameOver) {
            self.restarted()
        } else {
            self
        }
    }

    /// The state with no event pending.
    pub open spec fn events_cleared(self) -> GameView {
        GameView { events: Seq::<Event>::empty(), ..self }
    }

    /// The state of a cycle just before the game-over handler runs: time
    /// advances, the input is latched, the snake moves and eats if the move
    /// timer finished, it grows if it ate, and the food spawner runs.
    pub open spec fn before_reset(
        self,
        delta: u64,
        input: DirectionInput,
        timer_cell: Position,
        growth_cell: Position,
    ) -> GameView {
        self.time_advanced(delta).latched(input).movement().eating().grown().food_spawned(
            delta,
            timer_cell,
            growth_cell,
        )
    }

    /// The state at the end of a whole cycle, before its events are cleared:
    /// all parts have run in their order, the game-over handler last.
    pub open spec fn cycle(
        self,
        delta: u64,
        input: DirectionInput,
        timer_cell: Position,
        growth_cell: Position,
    ) -> GameView {
        self.before_reset(delta, input, timer_cell, growth_cell).after_reset()
    }
}

} // verus!
