//! Laws of the game: what holds of every state and every input.
//!
//! Each law is a proof about the model of [`crate::model`], which the
//! executable functions of [`crate::game`] are proved to follow.

use vstd::prelude::*;
use crate::grid::{Direction, Position, ARENA_HEIGHT, ARENA_WIDTH};
use crate::model::{
    committed_direction, food_count_upto, game_over_if, initial, initial_head_position,
    initial_segment_position, repeated, selected_direction, DirectionInput, Event, GameView,
    MOVE_INTERVAL,
};
use crate::store::{
    first_free, lemma_first_free, lemma_spawned, live, live_count, live_count_upto, spawned,
    Entity, EntityId, Role, Slots,
};
use crate::wellformed::{
    lemma_contains_concat, lemma_contains_game_over_if, lemma_contains_repeated, lemma_eaten_wf,
    lemma_grown_wf, lemma_latched_wf, lemma_moved_wf, lemma_rank_of_segment, lemma_restarted,
    lemma_restarted_shape,
};

verus! {

/// A snake cannot turn right round: where the intent is the opposite of the
/// direction of travel, a move keeps the direction and goes one cell on in
/// it. The intent itself stays as it was latched.
pub proof fn lemma_reversal_rejected(s: GameView)
    requires
        s.wf(),
        s.head_data().intended_direction == s.head_data().current_direction.spec_opposite(),
    ensures
        s.moved().head_data().current_direction == s.head_data().current_direction,
        s.moved().head_data().intended_direction == s.head_data().intended_direction,
        s.moved().head_position() == s.head_position().stepped(s.head_data().current_direction),
{
    lemma_moved_wf(s);
}

/// Any other intent is committed: the snake then travels in the intended
/// direction and goes one cell in it.
pub proof fn lemma_intent_committed(s: GameView)
    requires
        s.wf(),
        s.head_data().intended_direction != s.head_data().current_direction.spec_opposite(),
    ensures
        s.moved().head_data().current_direction == s.head_data().intended_direction,
        s.moved().head_position() == s.head_position().stepped(s.head_data().intended_direction),
{
    lemma_moved_wf(s);
}

/// A move adds one terminal event if the head leaves the arena and one if
/// the head stood on a segment's cell, however many segments lie there; it
/// adds no other event and keeps those that were pending.
pub proof fn lemma_move_events(s: GameView)
    requires
        s.wf(),
    ensures
        s.moved().events.len() == s.events.len() + (if s.moved_head().position.in_arena() {
            0int
        } else {
            1int
        }) + (if s.hits_body() {
            1int
        } else {
            0int
        }),
        s.moved().events.subrange(0, s.events.len() as int) =~= s.events,
        forall|j: int|
            s.events.len() <= j < s.moved().events.len() ==> s.moved().events[j]
                == Event::GameOver,
        s.moved().events.contains(Event::GameOver) <==> s.events.contains(Event::GameOver)
            || !s.moved_head().position.in_arena() || s.hits_body(),
        s.moved().events.contains(Event::Growth) <==> s.events.contains(Event::Growth),
{
    let a = s.events + game_over_if(!s.moved_head().position.in_arena());
    let b = game_over_if(s.hits_body());
    lemma_contains_concat(a, b, Event::GameOver);
    lemma_contains_concat(a, b, Event::Growth);
    lemma_contains_concat(
        s.events,
        game_over_if(!s.moved_head().position.in_arena()),
        Event::GameOver,
    );
    lemma_contains_concat(
        s.events,
        game_over_if(!s.moved_head().position.in_arena()),
        Event::Growth,
    );
    lemma_contains_game_over_if(!s.moved_head().position.in_arena(), Event::GameOver);
    lemma_contains_game_over_if(!s.moved_head().position.in_arena(), Event::Growth);
    lemma_contains_game_over_if(s.hits_body(), Event::GameOver);
    lemma_contains_game_over_if(s.hits_body(), Event::Growth);
}

/// A head that stood on the cell of one segment or of several, and stays
/// inside the arena, brings exactly one terminal event.
pub proof fn lemma_self_collision(s: GameView, k: int)
    requires
        s.wf(),
        0 <= k < s.segments.len(),
        s.segment_position(k) == s.head_position(),
        s.moved_head().position.in_arena(),
    ensures
        s.moved().events =~= s.events.push(Event::GameOver),
{
    assert(s.hits_body());
}

/// A head that would step over an edge of the arena brings a terminal event:
/// to the left from column 0, to the right from the last column, down from
/// row 0, up from the last row.
pub proof fn lemma_boundary_collision(s: GameView)
    requires
        s.wf(),
        s.head_position().in_arena(),
        ({
            let d = committed_direction(s.head_data());
            let p = s.head_position();
            ||| d == Direction::Left && p.x == 0
            ||| d == Direction::Right && p.x == ARENA_WIDTH - 1
            ||| d == Direction::Down && p.y == 0
            ||| d == Direction::Up && p.y == ARENA_HEIGHT - 1
        }),
    ensures
        s.moved().events.contains(Event::GameOver),
        !s.moved().head_position().in_arena(),
{
    lemma_moved_wf(s);
    lemma_move_events(s);
}

/// The number of live entities among the first `n` slots of a restarted
/// store: the segment and the head, as far as `n` reaches.
proof fn lemma_count_restarted(slots: Slots, n: nat)
    requires
        slots.len() >= 2,
        n <= slots.len(),
        slots[0] is Some,
        slots[1] is Some,
        forall|i: int| 2 <= i < slots.len() ==> (#[trigger] slots[i]) is None,
    ensures
        live_count_upto(slots, n) == if n < 2 {
            n
        } else {
            2
        },
    decreases n,
{
    if n > 0 {
        lemma_count_restarted(slots, (n - 1) as nat);
    }
}

/// After a terminal event the handler leaves exactly two entities, whatever
/// the store held before: one segment on its starting cell and the head on
/// its, going up with the intent to go up. No food is left, and the list
/// names the one segment.
pub proof fn lemma_reset_leaves_start(s: GameView)
    requires
        s.slots.len() >= 2,
        s.events.contains(Event::GameOver),
    ensures
        live_count(s.after_reset().slots) == 2,
        s.after_reset().segments.len() == 1,
        s.after_reset().segment_position(0) == initial_segment_position(),
        s.after_reset().head_position() == initial_head_position(),
        s.after_reset().head_data().current_direction == Direction::Up,
        s.after_reset().head_data().intended_direction == Direction::Up,
        forall|i: int|
            0 <= i < s.after_reset().slots.len() && i != s.after_reset().head.0 && i
                != s.after_reset().segments[0].0 ==> (#[trigger] s.after_reset().slots[i]) is None,
{
    lemma_restarted_shape(s);
    lemma_count_restarted(s.after_reset().slots, s.after_reset().slots.len());
}

/// Handling a terminal event twice is the same as handling it once.
pub proof fn lemma_reset_idempotent(s: GameView)
    requires
        s.wf(),
    ensures
        s.after_reset().after_reset() == s.after_reset(),
{
    if s.events.contains(Event::GameOver) {
        lemma_restarted(s);
        lemma_restarted(s.after_reset());
        assert(s.after_reset().after_reset().slots =~= s.after_reset().slots);
        assert(s.after_reset().after_reset().segments =~= s.after_reset().segments);
    }
}

/// The input in which `d` alone is pressed.
pub open spec fn press(d: Direction) -> DirectionInput {
    DirectionInput {
        left: d == Direction::Left,
        down: d == Direction::Down,
        up: d == Direction::Up,
        right: d == Direction::Right,
    }
}

/// What the parts of a cycle after the move leave of the head: eating, growth
/// and the food spawner never touch it, and they add no terminal event.
pub proof fn lemma_cycle_head(
    s: GameView,
    delta: u64,
    input: DirectionInput,
    timer_cell: Position,
    growth_cell: Position,
)
    requires
        s.has_head(),
    ensures
        ({
            let m = s.time_advanced(delta).latched(input);
            let f = s.before_reset(delta, input, timer_cell, growth_cell);
            &&& f.head == s.head
            &&& f.has_head()
            &&& f.head_entity() == if m.move_timer.finished {
                m.moved_head()
            } else {
                m.head_entity()
            }
            &&& f.events.contains(Event::GameOver) <==> m.movement().events.contains(
                Event::GameOver,
            )
            &&& f.move_timer == s.move_timer.ticked(delta)
            &&& m.head_data().current_direction == s.head_data().current_direction
            &&& m.head_data().intended_direction == selected_direction(
                s.head_data().current_direction,
                s.head_data().intended_direction,
                input,
            )
            &&& m.head_position() == s.head_position()
            &&& m.events == s.events
        }),
{
    let m = s.time_advanced(delta).latched(input);
    let mv = m.movement();
    let e = mv.eating();
    let g = e.grown();
    assert(mv.has_head());
    assert(e.has_head() && e.head_entity() == mv.head_entity());
    if mv.move_timer.finished {
        let k = food_count_upto(mv.slots, mv.head_position(), mv.slots.len());
        lemma_contains_concat(mv.events, repeated(Event::Growth, k), Event::GameOver);
        lemma_contains_repeated(Event::Growth, k, Event::GameOver);
    }
    lemma_spawn_keeps_live(
        e.slots,
        Entity { role: Role::Segment, position: e.last_tail.unwrap() },
        e.head,
    );
    assert(g.has_head() && g.head_entity() == mv.head_entity());
    let timer = g.food_timer.ticked(delta);
    let s0 = GameView { food_timer: timer, ..g };
    lemma_spawn_keeps_live(
        s0.slots,
        Entity { role: Role::Food, position: timer_cell },
        s0.head,
    );
    let s1 = if timer.finished {
        s0.with_food(timer_cell)
    } else {
        s0
    };
    lemma_spawn_keeps_live(
        s1.slots,
        Entity { role: Role::Food, position: growth_cell },
        s1.head,
    );
}

/// A spawn leaves every live entity where and as it was.
pub proof fn lemma_spawn_keeps_live(slots: Slots, entity: Entity, id: EntityId)
    requires
        live(slots, id),
    ensures
        live(spawned(slots, entity), id),
        spawned(slots, entity)[id.0 as int] == slots[id.0 as int],
        first_free(slots) != id.0,
{
    lemma_first_free(slots);
    lemma_spawned(slots, entity);
}

/// One cycle of a played game: the direction pressed during it, the time it
/// took, and the cells that the food spawner would use.
pub struct Tick {
    pub direction: Direction,
    pub delta: u64,
    pub timer_cell: Position,
    pub growth_cell: Position,
}

/// The state after the one cycle `t`, with its events cleared.
#[verifier::opaque]
pub open spec fn after_tick(s: GameView, t: Tick) -> GameView {
    s.cycle(t.delta, press(t.direction), t.timer_cell, t.growth_cell).events_cleared()
}

/// The one cycle `t`, played from `s`, brings a terminal event.
#[verifier::opaque]
pub open spec fn brings_game_over(s: GameView, t: Tick) -> bool {
    s.cycle(t.delta, press(t.direction), t.timer_cell, t.growth_cell).events.contains(
        Event::GameOver,
    )
}

/// The state after the cycles `ticks`, played one after the other from `s`.
pub open spec fn after_ticks(s: GameView, ticks: Seq<Tick>) -> GameView
    decreases ticks.len(),
{
    if ticks.len() == 0 {
        s
    } else {
        after_tick(after_ticks(s, ticks.drop_last()), ticks.last())
    }
}

/// None of the cycles `ticks`, played from `s`, brings a terminal event.
pub open spec fn uneventful(s: GameView, ticks: Seq<Tick>) -> bool
    decreases ticks.len(),
{
    ticks.len() == 0 || (uneventful(s, ticks.drop_last()) && !brings_game_over(
        after_ticks(s, ticks.drop_last()),
        ticks.last(),
    ))
}

/// The direction of travel when cycle `i` begins, if no turn was refused:
/// `start` for the first cycle, the direction pressed before for the others.
pub open spec fn direction_before(start: Direction, ticks: Seq<Tick>, i: int) -> Direction {
    if i == 0 {
        start
    } else {
        ticks[i - 1].direction
    }
}

/// No pressed direction is the opposite of the direction of travel at that
/// time.
pub open spec fn non_reversing(start: Direction, ticks: Seq<Tick>) -> bool {
    forall|i: int|
        0 <= i < ticks.len() ==> ticks[i].direction != (#[trigger] direction_before(
            start,
            ticks,
            i,
        )).spec_opposite()
}

/// The sum of the horizontal parts of one step in each pressed direction.
pub open spec fn sum_dx(ticks: Seq<Tick>) -> int
    decreases ticks.len(),
{
    if ticks.len() == 0 {
        0
    } else {
        sum_dx(ticks.drop_last()) + ticks.last().direction.dx()
    }
}

/// The sum of the vertical parts of one step in each pressed direction.
pub open spec fn sum_dy(ticks: Seq<Tick>) -> int
    decreases ticks.len(),
{
    if ticks.len() == 0 {
        0
    } else {
        sum_dy(ticks.drop_last()) + ticks.last().direction.dy()
    }
}

/// The head is live and inside the arena, and its intent is settled.
pub open spec fn on_course(s: GameView) -> bool {
    s.has_head() && s.head_position().in_arena() && s.intent_settled()
}

/// One cycle of a game on course, long enough for the move timer to finish,
/// with a direction pressed that does not reverse the direction of travel
/// and without a terminal event: the head goes one cell in the pressed
/// direction and travels in it, and the game stays on course.
pub proof fn lemma_head_follows_input(s: GameView, t: Tick)
    requires
        on_course(s),
        t.direction != s.head_data().current_direction.spec_opposite(),
        t.delta >= s.move_timer.interval,
        !brings_game_over(s, t),
    ensures
        on_course(after_tick(s, t)),
        after_tick(s, t).move_timer.interval == s.move_timer.interval,
        after_tick(s, t).head_position().x == s.head_position().x + t.direction.dx(),
        after_tick(s, t).head_position().y == s.head_position().y + t.direction.dy(),
        after_tick(s, t).head_data().current_direction == t.direction,
{
    reveal(after_tick);
    reveal(brings_game_over);
    lemma_cycle_head(s, t.delta, press(t.direction), t.timer_cell, t.growth_cell);
    let m = s.time_advanced(t.delta).latched(press(t.direction));
    assert(m.move_timer.finished);
    assert(committed_direction(m.head_data()) == t.direction);
    let a = m.events + game_over_if(!m.moved_head().position.in_arena());
    let b = game_over_if(m.hits_body());
    lemma_contains_concat(a, b, Event::GameOver);
    lemma_contains_concat(
        m.events,
        game_over_if(!m.moved_head().position.in_arena()),
        Event::GameOver,
    );
    lemma_contains_game_over_if(!m.moved_head().position.in_arena(), Event::GameOver);
}

/// The head follows the input. Let a game on course be played for any
/// number of cycles, each long enough for the move timer to finish, with one
/// direction pressed in each that does not reverse the direction of travel,
/// and let no cycle bring a terminal event. Then the head ends where it
/// started plus the sum of one step in each pressed direction, and it
/// travels in the direction pressed last.
pub proof fn lemma_head_follows_inputs(s: GameView, ticks: Seq<Tick>)
    requires
        on_course(s),
        non_reversing(s.head_data().current_direction, ticks),
        forall|i: int| 0 <= i < ticks.len() ==> (#[trigger] ticks[i]).delta >= s.move_timer.interval,
        uneventful(s, ticks),
    ensures
        on_course(after_ticks(s, ticks)),
        after_ticks(s, ticks).move_timer.interval == s.move_timer.interval,
        after_ticks(s, ticks).head_position().x == s.head_position().x + sum_dx(ticks),
        after_ticks(s, ticks).head_position().y == s.head_position().y + sum_dy(ticks),
        after_ticks(s, ticks).head_data().current_direction == if ticks.len() == 0 {
            s.head_data().current_direction
        } else {
            ticks.last().direction
        },
    decreases ticks.len(),
{
    if ticks.len() > 0 {
        let init = ticks.drop_last();
        let t = ticks.last();
        let last = ticks.len() - 1;
        let start = s.head_data().current_direction;
        assert forall|i: int| 0 <= i < init.len() implies init[i].direction
            != (#[trigger] direction_before(start, init, i)).spec_opposite() by {
            assert(direction_before(start, init, i) == direction_before(start, ticks, i));
        }
        assert forall|i: int| 0 <= i < init.len() implies (#[trigger] init[i]).delta
            >= s.move_timer.interval by {
            assert(init[i] == ticks[i]);
        }
        lemma_head_follows_inputs(s, init);
        assert(t.direction != direction_before(start, ticks, last).spec_opposite());
        assert(ticks[last].delta >= s.move_timer.interval);
        lemma_head_follows_input(after_ticks(s, init), t);
    }
}

/// Played from the start of a game, the head is at column 3 plus the
/// horizontal steps and row 3 plus the vertical ones.
pub proof fn lemma_head_follows_inputs_from_start(food_cell: Position, ticks: Seq<Tick>)
    requires
        non_reversing(Direction::Up, ticks),
        forall|i: int|
            0 <= i < ticks.len() ==> (#[trigger] ticks[i]).delta >= MOVE_INTERVAL,
        uneventful(initial(food_cell), ticks),
    ensures
        after_ticks(initial(food_cell), ticks).head_position().x == 3 + sum_dx(
            ticks,
        ),
        after_ticks(initial(food_cell), ticks).head_position().y == 3 + sum_dy(
            ticks,
        ),
{
    let s = initial(food_cell);
    assert(on_course(s));
    assert(s.head_data().current_direction == Direction::Up);
    lemma_head_follows_inputs(s, ticks);
}

/// Growth puts one segment at the end of the list, on the cell that the
/// tail left, and leaves the others as they are.
pub proof fn lemma_grown_adds_tail(s: GameView)
    requires
        s.wf(),
        s.slots.len() <= usize::MAX,
        s.events.contains(Event::Growth),
    ensures
        s.grown().segments.len() == s.segments.len() + 1,
        s.grown().segments.drop_last() =~= s.segments,
        s.grown().segment_position(s.segments.len() as int) == s.last_tail.unwrap(),
        live(s.grown().slots, s.grown().segments.last()),
        !live(s.slots, s.grown().segments.last()),
        forall|id: EntityId| live(s.slots, id) ==> live(s.grown().slots, id) && #[trigger] s.grown().slots[id.0 as int] == s.slots[id.0 as int],
{
    let seg = Entity { role: Role::Segment, position: s.last_tail.unwrap() };
    lemma_first_free(s.slots);
    lemma_spawned(s.slots, seg);
    assert forall|id: EntityId| live(s.slots, id) implies live(s.grown().slots, id)
        && #[trigger] s.grown().slots[id.0 as int] == s.slots[id.0 as int] by {
        lemma_spawn_keeps_live(s.slots, seg, id);
    }
}

/// The food spawner touches nothing but its timer and free slots.
pub proof fn lemma_food_spawned_keeps(
    s: GameView,
    delta: u64,
    timer_cell: Position,
    growth_cell: Position,
)
    ensures
        ({
            let f = s.food_spawned(delta, timer_cell, growth_cell);
            &&& f.segments == s.segments
            &&& f.head == s.head
            &&& f.events == s.events
            &&& f.last_tail == s.last_tail
            &&& f.move_timer == s.move_timer
            &&& forall|id: EntityId|
                live(s.slots, id) ==> live(f.slots, id) && #[trigger] f.slots[id.0 as int]
                    == s.slots[id.0 as int]
        }),
{
    let f = s.food_spawned(delta, timer_cell, growth_cell);
    let timer = s.food_timer.ticked(delta);
    let s0 = GameView { food_timer: timer, ..s };
    let s1 = if timer.finished {
        s0.with_food(timer_cell)
    } else {
        s0
    };
    assert forall|id: EntityId| live(s.slots, id) implies live(f.slots, id)
        && #[trigger] f.slots[id.0 as int] == s.slots[id.0 as int] by {
        lemma_spawn_keeps_live(
            s0.slots,
            Entity { role: Role::Food, position: timer_cell },
            id,
        );
        lemma_spawn_keeps_live(
            s1.slots,
            Entity { role: Role::Food, position: growth_cell },
            id,
        );
    }
}

/// The head reaches food in the cycle: the move timer finishes, and at
/// least one food item lies on the cell to which the head moves.
pub open spec fn eats(s: GameView, delta: u64, input: DirectionInput) -> bool {
    let m = s.time_advanced(delta).latched(input);
    m.move_timer.finished && food_count_upto(
        m.moved().slots,
        m.moved().head_position(),
        m.moved().slots.len(),
    ) > 0
}

/// What a cycle does to the body, seen just before the game-over handler.
///
/// Growth: the snake gains exactly one segment if the head reached food in
/// this cycle, however many items lay there, and none otherwise. The new
/// segment lies on the cell that the tail held before the move.
/// Movement: if the move timer finished, every older segment lies where the
/// one ahead of it was, the first where the head was; otherwise none moved.
/// Collision: a terminal event is pending exactly if the timer finished and
/// the head left the arena or stood on a segment's cell.
pub proof fn lemma_cycle_body(
    s: GameView,
    delta: u64,
    input: DirectionInput,
    timer_cell: Position,
    growth_cell: Position,
)
    requires
        s.wf(),
        s.slots.len() <= usize::MAX,
        s.events.len() == 0,
    ensures
        ({
            let m = s.time_advanced(delta).latched(input);
            let f = s.before_reset(delta, input, timer_cell, growth_cell);
            let n = s.segments.len() as int;
            &&& f.events.contains(Event::Growth) <==> eats(s, delta, input)
            &&& f.segments.len() == n + if eats(s, delta, input) {
                1int
            } else {
                0int
            }
            &&& forall|k: int| 0 <= k < n ==> #[trigger] f.segments[k] == s.segments[k]
            &&& forall|k: int|
                0 <= k < n ==> #[trigger] f.segment_position(k) == if m.move_timer.finished {
                    s.chain_position(k)
                } else {
                    s.segment_position(k)
                }
            &&& eats(s, delta, input) ==> f.segment_position(n) == s.segment_position(n - 1)
            &&& f.events.contains(Event::GameOver) <==> m.move_timer.finished && (
            !m.moved_head().position.in_arena() || s.hits_body())
        }),
{
    let t = s.time_advanced(delta);
    let m = t.latched(input);
    let n = s.segments.len() as int;
    assert(t.wf());
    lemma_latched_wf(t, input);
    assert forall|k: int| 0 <= k < n implies #[trigger] m.segment_position(k)
        == s.segment_position(k) by {
        lemma_rank_of_segment(t, k);
    }
    assert(m.hits_body() == s.hits_body()) by {
        if s.hits_body() {
            let k = choose|k: int|
                0 <= k < s.segments.len() && #[trigger] s.segment_position(k) == s.head_position();
            assert(m.segment_position(k) == m.head_position());
        }
        if m.hits_body() {
            let k = choose|k: int|
                0 <= k < m.segments.len() && #[trigger] m.segment_position(k) == m.head_position();
            assert(s.segment_position(k) == s.head_position());
        }
    }
    let mv = m.movement();
    let e = mv.eating();
    if m.move_timer.finished {
        lemma_moved_wf(m);
        lemma_move_events(m);
        lemma_eaten_wf(mv);
        let count = food_count_upto(mv.slots, mv.head_position(), mv.slots.len());
        lemma_contains_concat(mv.events, repeated(Event::Growth, count), Event::Growth);
        lemma_contains_concat(
            mv.events,
            repeated(Event::Growth, count),
            Event::GameOver,
        );
        lemma_contains_repeated(Event::Growth, count, Event::Growth);
        lemma_contains_repeated(Event::Growth, count, Event::GameOver);
        assert forall|k: int| 0 <= k < n implies #[trigger] e.segment_position(k)
            == s.chain_position(k) by {
            lemma_rank_of_segment(m, k);
            if k > 0 {
                lemma_rank_of_segment(m, k - 1);
            }
        }
    }
    assert(e.wf());
    assert(e.slots.len() == s.slots.len());
    let g = e.grown();
    lemma_grown_wf(e);
    if e.events.contains(Event::Growth) {
        lemma_grown_adds_tail(e);
        assert(g.segments.drop_last() == e.segments);
    }
    assert forall|k: int| 0 <= k < n implies #[trigger] g.segments[k] == s.segments[k]
        && g.segment_position(k) == e.segment_position(k) by {
        lemma_rank_of_segment(e, k);
        if e.events.contains(Event::Growth) {
            assert(g.segments.drop_last()[k] == g.segments[k]);
        }
    }
    lemma_food_spawned_keeps(g, delta, timer_cell, growth_cell);
    let f = g.food_spawned(delta, timer_cell, growth_cell);
    assert forall|k: int| 0 <= k < f.segments.len() implies #[trigger] f.segment_position(k)
        == g.segment_position(k) by {
        lemma_rank_of_segment(g, k);
    }
}

/// No two segments lie on one cell.
pub open spec fn body_apart(s: GameView) -> bool {
    forall|k: int, l: int|
        0 <= k < l < s.segments.len() ==> #[trigger] s.segment_position(k)
            != #[trigger] s.segment_position(l)
}

/// A body whose segments lie on cells of their own keeps them so through
/// every cycle: a snake that moves as a chain never folds onto itself,
/// and where the head ran into the body the game starts anew.
pub proof fn lemma_cycle_keeps_body_apart(
    s: GameView,
    delta: u64,
    input: DirectionInput,
    timer_cell: Position,
    growth_cell: Position,
)
    requires
        s.wf(),
        s.slots.len() <= usize::MAX,
        s.events.len() == 0,
        body_apart(s),
    ensures
        body_apart(s.cycle(delta, input, timer_cell, growth_cell)),
        body_apart(s.cycle(delta, input, timer_cell, growth_cell).events_cleared()),
{
    let m = s.time_advanced(delta).latched(input);
    let f = s.before_reset(delta, input, timer_cell, growth_cell);
    let c = s.cycle(delta, input, timer_cell, growth_cell);
    let n = s.segments.len() as int;
    lemma_cycle_body(s, delta, input, timer_cell, growth_cell);
    if f.events.contains(Event::GameOver) {
        lemma_rank_of_segment(s, 0);
        lemma_cycle_slots(s, delta, input, timer_cell, growth_cell);
        lemma_restarted_shape(f);
    } else if m.move_timer.finished {
        assert(!s.hits_body());
        assert forall|k: int, l: int| 0 <= k < l < c.segments.len() implies #[trigger] c.segment_position(k)
            != #[trigger] c.segment_position(l) by {
            assert(c.segment_position(k) == s.chain_position(k));
            if k > 0 {
                assert(s.segment_position(k - 1) != s.segment_position(l - 1));
            } else {
                assert(s.segment_position(l - 1) != s.head_position());
            }
        }
    } else {
        assert forall|k: int, l: int| 0 <= k < l < c.segments.len() implies #[trigger] c.segment_position(k)
            != #[trigger] c.segment_position(l) by {
            assert(s.segment_position(k) != s.segment_position(l));
        }
    }
    assert forall|k: int| 0 <= k < c.segments.len() implies #[trigger] c.events_cleared().segment_position(k)
        == c.segment_position(k) by {}
}

/// No part of a cycle before the game-over handler takes a slot away.
pub proof fn lemma_cycle_slots(
    s: GameView,
    delta: u64,
    input: DirectionInput,
    timer_cell: Position,
    growth_cell: Position,
)
    requires
        s.has_head(),
    ensures
        s.before_reset(delta, input, timer_cell, growth_cell).slots.len() >= s.slots.len(),
{
    let e = s.time_advanced(delta).latched(input).movement().eating();
    let g = e.grown();
    lemma_spawned(
        e.slots,
        Entity { role: Role::Segment, position: e.last_tail.unwrap() },
    );
    let timer = g.food_timer.ticked(delta);
    let s0 = GameView { food_timer: timer, ..g };
    lemma_spawned(
        s0.slots,
        Entity { role: Role::Food, position: timer_cell },
    );
    let s1 = if timer.finished {
        s0.with_food(timer_cell)
    } else {
        s0
    };
    lemma_spawned(
        s1.slots,
        Entity { role: Role::Food, position: growth_cell },
    );
}

/// A cycle cannot turn the snake right round: with the opposite of the
/// direction of travel pressed, a cycle in which the move timer finishes and
/// no terminal event comes up leaves the direction of travel as it was.
pub proof fn lemma_cycle_rejects_reversal(
    s: GameView,
    delta: u64,
    timer_cell: Position,
    growth_cell: Position,
)
    requires
        s.has_head(),
        !s.cycle(
            delta,
            press(s.head_data().current_direction.spec_opposite()),
            timer_cell,
            growth_cell,
        ).events.contains(Event::GameOver),
    ensures
        s.cycle(
            delta,
            press(s.head_data().current_direction.spec_opposite()),
            timer_cell,
            growth_cell,
        ).head_data().current_direction == s.head_data().current_direction,
{
    let input = press(s.head_data().current_direction.spec_opposite());
    lemma_cycle_head(s, delta, input, timer_cell, growth_cell);
}

/// A cycle in which the move timer does not finish moves nothing and brings
/// no event: head and segments stay on their cells, the direction of travel
/// stays, and only the intent follows the input.
pub proof fn lemma_cycle_without_tick(
    s: GameView,
    delta: u64,
    input: DirectionInput,
    timer_cell: Position,
    growth_cell: Position,
)
    requires
        s.wf(),
        s.slots.len() <= usize::MAX,
        s.events.len() == 0,
        !s.move_timer.ticked(delta).finished,
    ensures
        ({
            let c = s.cycle(delta, input, timer_cell, growth_cell);
            &&& c.events.len() == 0
            &&& c.head == s.head
            &&& c.head_position() == s.head_position()
            &&& c.head_data().current_direction == s.head_data().current_direction
            &&& c.head_data().intended_direction == selected_direction(
                s.head_data().current_direction,
                s.head_data().intended_direction,
                input,
            )
            &&& c.segments =~= s.segments
            &&& c.body() =~= s.body()
            &&& c.last_tail == s.last_tail
        }),
{
    lemma_cycle_head(s, delta, input, timer_cell, growth_cell);
    lemma_cycle_body(s, delta, input, timer_cell, growth_cell);
    let g = s.time_advanced(delta).latched(input);
    lemma_food_spawned_keeps(g, delta, timer_cell, growth_cell);
    let c = s.cycle(delta, input, timer_cell, growth_cell);
    assert(c.events =~= s.events);
    assert forall|k: int| 0 <= k < s.segments.len() implies c.body()[k] == s.body()[k] by {
        assert(c.segment_position(k) == s.segment_position(k));
    }
}

/// A cycle ends the game exactly if the move timer finishes in it and the
/// head leaves the arena or stood on a segment's cell. The cycle then leaves
/// the starting snake and nothing else: two live entities, the segment at
/// its starting cell, the head at its, going up.
pub proof fn lemma_cycle_game_over(
    s: GameView,
    delta: u64,
    input: DirectionInput,
    timer_cell: Position,
    growth_cell: Position,
)
    requires
        s.wf(),
        s.slots.len() <= usize::MAX,
        s.events.len() == 0,
    ensures
        ({
            let m = s.time_advanced(delta).latched(input);
            let c = s.cycle(delta, input, timer_cell, growth_cell);
            &&& c.events.contains(Event::GameOver) <==> m.move_timer.finished && (
            !m.moved_head().position.in_arena() || s.hits_body())
            &&& c.events.contains(Event::GameOver) ==> {
                &&& live_count(c.slots) == 2
                &&& c.segments.len() == 1
                &&& c.segment_position(0) == initial_segment_position()
                &&& c.head_position() == initial_head_position()
                &&& c.head_data().current_direction == Direction::Up
                &&& c.head_data().intended_direction == Direction::Up
            }
        }),
{
    let f = s.before_reset(delta, input, timer_cell, growth_cell);
    lemma_cycle_body(s, delta, input, timer_cell, growth_cell);
    lemma_rank_of_segment(s, 0);
    lemma_cycle_slots(s, delta, input, timer_cell, growth_cell);
    if f.events.contains(Event::GameOver) {
        lemma_reset_leaves_start(f);
        lemma_restarted_shape(f);
    }
}

} // verus!
