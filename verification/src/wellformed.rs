//! Every part of a cycle keeps the state well formed.

use vstd::prelude::*;
use crate::grid::Position;
use crate::model::{
    food_count_upto,
    game_over_if, holds_head, holds_segment, initial, initial_head, initial_segment,
    repeated, DirectionInput, Event, GameView,
};
use crate::store::{
    cleared, first_free, first_free_from, lemma_first_free, lemma_spawned, live, spawned, Entity,
    EntityId, Role,
};

verus! {

/// An event is in a joined list exactly if it is in one of the two parts.
pub proof fn lemma_contains_concat(a: Seq<Event>, b: Seq<Event>, e: Event)
    ensures
        (a + b).contains(e) <==> a.contains(e) || b.contains(e),
{
    if a.contains(e) {
        let i = choose|i: int| 0 <= i < a.len() && a[i] == e;
        assert((a + b)[i] == e);
    }
    if b.contains(e) {
        let i = choose|i: int| 0 <= i < b.len() && b[i] == e;
        assert((a + b)[a.len() + i] == e);
    }
    if (a + b).contains(e) {
        let i = choose|i: int| 0 <= i < (a + b).len() && (a + b)[i] == e;
        if i < a.len() {
            assert(a[i] == e);
        } else {
            assert(b[i - a.len()] == e);
        }
    }
}

/// A list of repeated events holds that event if it is not empty, and no other.
pub proof fn lemma_contains_repeated(event: Event, n: nat, e: Event)
    ensures
        repeated(event, n).contains(e) <==> n > 0 && e == event,
{
    if n > 0 {
        assert(repeated(event, n)[0] == event);
    }
}

/// The list made for a condition holds a terminal event exactly if the
/// condition holds, and never a growth event.
pub proof fn lemma_contains_game_over_if(cond: bool, e: Event)
    ensures
        game_over_if(cond).contains(e) <==> cond && e == Event::GameOver,
{
    if cond {
        assert(game_over_if(cond)[0] == Event::GameOver);
    }
}

/// Segment `k` of the list sits in a slot of its own, which is not the head's
/// and whose place in the list is `k`.
pub proof fn lemma_rank_of_segment(s: GameView, k: int)
    requires
        s.wf(),
        0 <= k < s.segments.len(),
    ensures
        0 <= s.segments[k].0 < s.slots.len(),
        holds_segment(s.slots[s.segments[k].0 as int]),
        s.segments[k].0 != s.head.0,
        s.rank(s.segments[k].0 as int) == k,
{
    let i = s.segments[k].0 as int;
    let r = s.rank(i);
    assert(0 <= r < s.segments.len() && s.segments[r].0 == i);
    if r != k {
        assert(s.segments[r] == s.segments[k]);
    }
}

/// A slot that holds a segment is named in the list, at the slot's rank.
pub proof fn lemma_rank_of_slot(s: GameView, i: int)
    requires
        s.wf(),
        0 <= i < s.slots.len(),
        holds_segment(s.slots[i]),
    ensures
        0 <= s.rank(i) < s.segments.len(),
        s.segments[s.rank(i)].0 == i,
        i != s.head.0,
{
    assert(s.is_listed(i));
}

/// A game starts well formed, with the head inside the arena.
pub proof fn lemma_initial_wf(food_cell: Position)
    ensures
        initial(food_cell).wf(),
        initial(food_cell).head_position().in_arena(),
{
    let t = initial(food_cell);
    assert(t.segments[0].0 == 1);
}

/// Latching the input keeps the state well formed.
pub proof fn lemma_latched_wf(s: GameView, input: DirectionInput)
    requires
        s.wf(),
    ensures
        s.latched(input).wf(),
        s.latched(input).head_position() == s.head_position(),
{
    let t = s.latched(input);
    assert forall|k: int| 0 <= k < t.segments.len() implies live(t.slots, #[trigger] t.segments[k])
        && holds_segment(t.slots[t.segments[k].0 as int]) by {
        lemma_rank_of_segment(s, k);
    }
    assert forall|i: int|
        0 <= i < t.slots.len() && holds_segment(#[trigger] t.slots[i]) implies t.is_listed(i) by {
        assert(holds_segment(s.slots[i]));
        lemma_rank_of_slot(s, i);
        assert(t.segments[s.rank(i)].0 == i);
    }
}

/// A move keeps the state well formed.
pub proof fn lemma_moved_wf(s: GameView)
    requires
        s.wf(),
    ensures
        s.moved().wf(),
        s.moved().head_entity() == s.moved_head(),
        s.moved().slots.len() == s.slots.len(),
{
    let t = s.moved();
    let n = s.segments.len() as int;
    assert forall|i: int| 0 <= i < t.slots.len() && holds_head(#[trigger] t.slots[i]) implies i
        == t.head.0 by {
        if i != s.head.0 {
            assert(holds_head(s.slots[i]));
        }
    }
    assert forall|k: int| 0 <= k < t.segments.len() implies live(t.slots, #[trigger] t.segments[k])
        && holds_segment(t.slots[t.segments[k].0 as int]) by {
        lemma_rank_of_segment(s, k);
    }
    assert forall|i: int|
        0 <= i < t.slots.len() && holds_segment(#[trigger] t.slots[i]) implies t.is_listed(i) by {
        assert(holds_segment(s.slots[i]));
        lemma_rank_of_slot(s, i);
        assert(t.segments[s.rank(i)].0 == i);
    }
    let a = s.events + game_over_if(!s.moved_head().position.in_arena());
    let b = game_over_if(s.hits_body());
    lemma_contains_concat(a, b, Event::GameOver);
    lemma_contains_concat(a, b, Event::Growth);
    lemma_contains_concat(
        s.events,
        game_over_if(!s.moved_head().position.in_arena()),
        Event::GameOver,
    );
    lemma_contains_concat(
        s.events,
        game_over_if(!s.moved_head().position.in_arena()),
        Event::Growth,
    );
    lemma_contains_game_over_if(!s.moved_head().position.in_arena(), Event::GameOver);
    lemma_contains_game_over_if(!s.moved_head().position.in_arena(), Event::Growth);
    lemma_contains_game_over_if(s.hits_body(), Event::Growth);
}

/// Eating keeps the state well formed, provided the tail's last cell is known.
pub proof fn lemma_eaten_wf(s: GameView)
    requires
        s.wf(),
        s.last_tail is Some,
    ensures
        s.eaten().wf(),
        s.eaten().head_entity() == s.head_entity(),
{
    let t = s.eaten();
    let p = s.head_position();
    assert forall|k: int| 0 <= k < t.segments.len() implies live(t.slots, #[trigger] t.segments[k])
        && holds_segment(t.slots[t.segments[k].0 as int]) by {
        lemma_rank_of_segment(s, k);
    }
    assert forall|i: int|
        0 <= i < t.slots.len() && holds_segment(#[trigger] t.slots[i]) implies t.is_listed(i) by {
        assert(holds_segment(s.slots[i]));
        lemma_rank_of_slot(s, i);
        assert(t.segments[s.rank(i)].0 == i);
    }
    assert forall|i: int| 0 <= i < t.slots.len() && holds_head(#[trigger] t.slots[i]) implies i
        == t.head.0 by {
        assert(holds_head(s.slots[i]));
    }
    lemma_contains_concat(
        s.events,
        repeated(Event::Growth, food_count_upto(s.slots, p, s.slots.len())),
        Event::GameOver,
    );
}

/// Spawning an entity that is no head and no segment keeps the state well
/// formed; spawning a segment does so if it is also put at the end of the list.
proof fn lemma_spawn_keeps(s: GameView, entity: Entity)
    requires
        s.wf(),
        s.slots.len() <= usize::MAX,
        !(entity.role is Head),
    ensures
        ({
            let id = EntityId(first_free(s.slots) as usize);
            let t = GameView {
                slots: spawned(s.slots, entity),
                segments: if entity.role is Segment {
                    s.segments.push(id)
                } else {
                    s.segments
                },
                ..s
            };
            t.wf() && t.head_entity() == s.head_entity()
        }),
{
    let id = EntityId(first_free(s.slots) as usize);
    let t = GameView {
        slots: spawned(s.slots, entity),
        segments: if entity.role is Segment {
            s.segments.push(id)
        } else {
            s.segments
        },
        ..s
    };
    lemma_first_free(s.slots);
    lemma_spawned(s.slots, entity);
    assert(id.0 == first_free(s.slots));
    assert(!live(s.slots, id));
    assert forall|i: int| 0 <= i < t.slots.len() && holds_head(#[trigger] t.slots[i]) implies i
        == t.head.0 by {
        if i != id.0 {
            assert(holds_head(s.slots[i]));
        }
    }
    assert forall|k: int| 0 <= k < t.segments.len() implies live(t.slots, #[trigger] t.segments[k])
        && holds_segment(t.slots[t.segments[k].0 as int]) by {
        if k < s.segments.len() {
            lemma_rank_of_segment(s, k);
        }
    }
    assert forall|k: int, l: int| 0 <= k < l < t.segments.len() implies #[trigger] t.segments[k]
        != #[trigger] t.segments[l] by {
        lemma_rank_of_segment(s, k);
    }
    assert forall|i: int|
        0 <= i < t.slots.len() && holds_segment(#[trigger] t.slots[i]) implies t.is_listed(i) by {
        if i == id.0 {
            assert(t.segments[s.segments.len() as int].0 == i);
        } else {
            assert(holds_segment(s.slots[i]));
            lemma_rank_of_slot(s, i);
            assert(t.segments[s.rank(i)].0 == i);
        }
    }
}

/// Growth keeps the state well formed.
pub proof fn lemma_grown_wf(s: GameView)
    requires
        s.wf(),
        s.slots.len() <= usize::MAX,
    ensures
        s.grown().wf(),
        s.grown().head_entity() == s.head_entity(),
{
    if s.events.contains(Event::Growth) {
        lemma_spawn_keeps(s, Entity { role: Role::Segment, position: s.last_tail.unwrap() });
    }
}

/// One more food item keeps the state well formed.
pub proof fn lemma_with_food_wf(s: GameView, cell: Position)
    requires
        s.wf(),
        s.slots.len() <= usize::MAX,
    ensures
        s.with_food(cell).wf(),
        s.with_food(cell).head_entity() == s.head_entity(),
        s.with_food(cell).slots.len() <= s.slots.len() + 1,
{
    lemma_spawn_keeps(s, Entity { role: Role::Food, position: cell });
    lemma_spawned(s.slots, Entity { role: Role::Food, position: cell });
}

/// What a restart leaves: the first segment in slot 0, the head in slot 1,
/// every other slot free, and a list that names the one segment.
pub proof fn lemma_restarted_shape(s: GameView)
    requires
        s.slots.len() >= 2,
    ensures
        s.restarted().slots =~= Seq::new(
            s.slots.len(),
            |i: int|
                if i == 0 {
                    Some(initial_segment())
                } else if i == 1 {
                    Some(initial_head())
                } else {
                    None
                },
        ),
        s.restarted().head == EntityId(1),
        s.restarted().segments =~= seq![EntityId(0)],
{
    let s0 = cleared(s.slots);
    let s1 = spawned(s0, initial_segment());
    assert(first_free_from(s0, 0) == 0);
    assert(s1 =~= s0.update(0, Some(initial_segment())));
    assert(first_free_from(s1, 1) == 1);
    assert(first_free_from(s1, 0) == 1);
}

/// A restart gives a well-formed state of the shape above.
pub proof fn lemma_restarted(s: GameView)
    requires
        s.wf(),
    ensures
        s.restarted().wf(),
        s.restarted().slots =~= Seq::new(
            s.slots.len(),
            |i: int|
                if i == 0 {
                    Some(initial_segment())
                } else if i == 1 {
                    Some(initial_head())
                } else {
                    None
                },
        ),
        s.restarted().head == EntityId(1),
        s.restarted().segments =~= seq![EntityId(0)],
{
    lemma_rank_of_segment(s, 0);
    lemma_restarted_shape(s);
    let t = s.restarted();
    assert(t.segments[0] == EntityId(0));
    assert forall|i: int|
        0 <= i < t.slots.len() && holds_segment(#[trigger] t.slots[i]) implies t.is_listed(i) by {
        assert(t.segments[0].0 == i);
    }
}

/// The game-over handler keeps the state well formed and leaves the head
/// inside the arena.
pub proof fn lemma_after_reset_wf(s: GameView)
    requires
        s.wf(),
    ensures
        s.after_reset().wf(),
        s.after_reset().head_position().in_arena(),
{
    if s.events.contains(Event::GameOver) {
        lemma_restarted(s);
    }
}

/// Once the game-over handler has run, the events can be cleared: the state
/// stays well formed, with the head inside the arena.
pub proof fn lemma_cycle_end_wf(s: GameView)
    requires
        s.wf(),
    ensures
        s.after_reset().events_cleared().wf(),
        s.after_reset().events_cleared().head_position().in_arena(),
{
    lemma_after_reset_wf(s);
    let r = s.after_reset();
    let t = r.events_cleared();
    assert forall|k: int| 0 <= k < t.segments.len() implies live(t.slots, #[trigger] t.segments[k])
        && holds_segment(t.slots[t.segments[k].0 as int]) by {
        lemma_rank_of_segment(r, k);
    }
    assert forall|i: int|
        0 <= i < t.slots.len() && holds_segment(#[trigger] t.slots[i]) implies t.is_listed(i) by {
        lemma_rank_of_slot(r, i);
        assert(t.segments[r.rank(i)].0 == i);
    }
}

} // verus!
