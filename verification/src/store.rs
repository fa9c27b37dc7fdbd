//! The entity store: an arena of slots, each free or holding one live entity.
//!
//! An entity is known by the index of its slot. The store's model is the
//! sequence of its slots, so a contract can say of every slot what it holds.

use vstd::prelude::*;
use crate::grid::{Direction, Position};

verus! {

/// Handle of an entity: the index of the slot that holds it.
#[derive(Clone, Copy, Debug, PartialEq, Eq, Hash, Structural)]
pub struct EntityId(pub usize);

/// What a snake head carries besides its position.
#[derive(Clone, Copy, Debug, PartialEq, Eq, Structural)]
pub struct SnakeHead {
    /// The direction of the latest move.
    pub current_direction: Direction,
    /// The direction asked for by the latest input.
    pub intended_direction: Direction,
}

/// The part an entity plays, with the data that belongs to the part.
#[derive(Clone, Copy, Debug, PartialEq, Eq, Structural)]
pub enum Role {
    Head(SnakeHead),
    Segment,
    Food,
}

/// A live entity: its role and the cell it occupies.
#[derive(Clone, Copy, Debug, PartialEq, Eq, Structural)]
pub struct Entity {
    pub role: Role,
    pub position: Position,
}

/// The slots of a store, as contracts see them.
pub type Slots = Seq<Option<Entity>>;

/// `id` names a live entity of `slots`.
pub open spec fn live(slots: Slots, id: EntityId) -> bool {
    id.0 < slots.len() && slots[id.0 as int] is Some
}

/// What `id` names in `slots`: the entity, or nothing.
pub open spec fn entity_at(slots: Slots, id: EntityId) -> Option<Entity> {
    if id.0 < slots.len() {
        slots[id.0 as int]
    } else {
        None
    }
}

/// The first free slot at or after `from`; the number of slots if there is none.
pub open spec fn first_free_from(slots: Slots, from: nat) -> nat
    decreases slots.len() - from,
{
    if from >= slots.len() {
        slots.len()
    } else if slots[from as int] is None {
        from
    } else {
        first_free_from(slots, from + 1)
    }
}

/// The slot that the next spawn fills: the first free one, or a new one at
/// the end where every slot is taken.
pub open spec fn first_free(slots: Slots) -> nat {
    first_free_from(slots, 0)
}

/// `slots` after `entity` was spawned.
pub open spec fn spawned(slots: Slots, entity: Entity) -> Slots {
    let id = first_free(slots);
    if id < slots.len() {
        slots.update(id as int, Some(entity))
    } else {
        slots.push(Some(entity))
    }
}

/// `slots` after the entity `id` was despawned; unchanged where `id` is not live.
pub open spec fn despawned(slots: Slots, id: EntityId) -> Slots {
    if live(slots, id) {
        slots.update(id.0 as int, None)
    } else {
        slots
    }
}

/// As many slots as `slots`, all free.
pub open spec fn cleared(slots: Slots) -> Slots {
    Seq::new(slots.len(), |i: int| None::<Entity>)
}

/// The number of live entities among the first `n` slots.
pub open spec fn live_count_upto(slots: Slots, n: nat) -> nat
    decreases n,
{
    if n == 0 || n > slots.len() {
        0
    } else {
        live_count_upto(slots, (n - 1) as nat) + if slots[n - 1] is Some {
            1nat
        } else {
            0nat
        }
    }
}

/// The number of live entities.
pub open spec fn live_count(slots: Slots) -> nat {
    live_count_upto(slots, slots.len())
}

/// What `first_free_from` finds: every slot from `from` up to the result is
/// taken, and the result is a free slot or the end.
pub proof fn lemma_first_free_from(slots: Slots, from: nat)
    requires
        from <= slots.len(),
    ensures
        from <= first_free_from(slots, from) <= slots.len(),
        forall|j: int| from <= j < first_free_from(slots, from) ==> (#[trigger] slots[j]) is Some,
        first_free_from(slots, from) < slots.len() ==> slots[first_free_from(slots, from) as int] is None,
    decreases slots.len() - from,
{
    if from < slots.len() && slots[from as int] is Some {
        lemma_first_free_from(slots, from + 1);
    }
}

/// The slot a spawn fills is free before it, and is the least such slot.
pub proof fn lemma_first_free(slots: Slots)
    ensures
        first_free(slots) <= slots.len(),
        !live(slots, EntityId(first_free(slots) as usize)) || first_free(slots) > usize::MAX,
        forall|j: int| 0 <= j < first_free(slots) ==> (#[trigger] slots[j]) is Some,
        first_free(slots) < slots.len() ==> slots[first_free(slots) as int] is None,
{
    lemma_first_free_from(slots, 0);
}

/// A spawn changes one slot only: the first free one, which then holds the
/// new entity. No other entity moves or changes.
pub proof fn lemma_spawned(slots: Slots, entity: Entity)
    ensures
        spawned(slots, entity).len() == if first_free(slots) < slots.len() {
            slots.len()
        } else {
            slots.len() + 1
        },
        spawned(slots, entity)[first_free(slots) as int] == Some(entity),
        forall|j: int|
            0 <= j < slots.len() && j != first_free(slots) ==> (#[trigger] spawned(
                slots,
                entity,
            )[j]) == slots[j],
{
    lemma_first_free(slots);
}

/// The arena of entities.
pub struct EntityStore {
    slots: Vec<Option<Entity>>,
}

impl Role {
    /// The side of the square that stands for an entity of this role, in
    /// hundredths of a grid cell: 65 for the head and for a segment, 80 for
    /// food.
    pub open spec fn spec_size_hint(self) -> u32 {
        match self {
            Role::Food => 80,
            _ => 65,
        }
    }

    /// The side of the square that stands for an entity of this role, in
    /// hundredths of a grid cell.
    #[verifier::when_used_as_spec(spec_size_hint)]
    pub fn size_hint(self) -> (side: u32)
        ensures
            side == self.spec_size_hint(),
    {
        match self {
            Role::Food => 80,
            _ => 65,
        }
    }
}

impl View for EntityStore {
    type V = Slots;

    closed spec fn view(&self) -> Slots {
        self.slots@
    }
}

impl EntityStore {
    /// A store without slots.
    pub fn new() -> (s: EntityStore)
        ensures
            s@ == Seq::<Option<Entity>>::empty(),
    {
        EntityStore { slots: Vec::new() }
    }

    /// A store never has more slots than a machine word counts.
    pub proof fn lemma_bounded(&self)
        ensures
            self@.len() <= usize::MAX,
    {
        assert(self.slots.len() == self.slots@.len());
    }

    /// The number of slots, free ones included: every handle is below it.
    pub fn slot_count(&self) -> (n: usize)
        ensures
            n == self@.len(),
    {
        self.slots.len()
    }

    /// The entity that `id` names, if it is live.
    pub fn get(&self, id: EntityId) -> (e: Option<Entity>)
        ensures
            e == entity_at(self@, id),
    {
        if id.0 < self.slots.len() {
            self.slots[id.0]
        } else {
            None
        }
    }

    /// Tells whether `id` names a live entity.
    pub fn contains(&self, id: EntityId) -> (b: bool)
        ensures
            b == live(self@, id),
    {
        id.0 < self.slots.len() && self.slots[id.0].is_some()
    }

    /// The live entity that `id` names. A handle that names nothing is a
    /// fault of the caller, which the precondition rules out.
    pub fn entity(&self, id: EntityId) -> (e: Entity)
        requires
            live(self@, id),
        ensures
            Some(e) == self@[id.0 as int],
    {
        self.slots[id.0].unwrap()
    }

    /// Puts `entity` into the first free slot, or into a new slot at the end
    /// where none is free, and returns its handle.
    pub fn spawn(&mut self, entity: Entity) -> (id: EntityId)
        ensures
            id.0 == first_free(old(self)@),
            final(self)@ == spawned(old(self)@, entity),
            !live(old(self)@, id),
            live(final(self)@, id),
    {
        let ghost pre = self.slots@;
        let n: usize = self.slots.len();
        let mut i: usize = 0;
        while i < n
            invariant
                i <= n,
                n == pre.len(),
                self.slots@ == pre,
                pre == old(self)@,
                first_free(pre) == first_free_from(pre, i as nat),
            decreases n - i,
        {
            if self.slots[i].is_none() {
                self.slots[i] = Some(entity);
                return EntityId(i);
            }
            i += 1;
        }
        self.slots.push(Some(entity));
        EntityId(i)
    }

    /// Removes the entity that `id` names and tells whether there was one.
    pub fn despawn(&mut self, id: EntityId) -> (was_live: bool)
        ensures
            was_live == live(old(self)@, id),
            final(self)@ == despawned(old(self)@, id),
    {
        if id.0 < self.slots.len() && self.slots[id.0].is_some() {
            self.slots[id.0] = None;
            true
        } else {
            false
        }
    }

    /// Overwrites the live entity that `id` names.
    pub fn replace(&mut self, id: EntityId, entity: Entity)
        requires
            live(old(self)@, id),
        ensures
            final(self)@ == old(self)@.update(id.0 as int, Some(entity)),
    {
        self.slots[id.0] = Some(entity);
    }

    /// Removes every entity. The slots stay, so handles given out later
    /// start again at the first slot.
    pub fn clear(&mut self)
        ensures
            final(self)@ == cleared(old(self)@),
    {
        let ghost pre = self.slots@;
        let n: usize = self.slots.len();
        let mut i: usize = 0;
        while i < n
            invariant
                i <= n,
                n == pre.len(),
                self.slots@.len() == n,
                forall|j: int| 0 <= j < i ==> (#[trigger] self.slots@[j]) is None,
            decreases n - i,
        {
            self.slots[i] = None;
            i += 1;
        }
        assert(self.slots@ =~= cleared(pre));
    }

    /// The number of live entities.
    pub fn count(&self) -> (n: usize)
        ensures
            n == live_count(self@),
    {
        let len: usize = self.slots.len();
        let mut n: usize = 0;
        let mut i: usize = 0;
        while i < len
            invariant
                i <= len,
                len == self.slots@.len(),
                n == live_count_upto(self.slots@, i as nat),
                n <= i,
            decreases len - i,
        {
            if self.slots[i].is_some() {
                n += 1;
            }
            i += 1;
        }
        n
    }

    /// The handles of all live entities, in rising order.
    pub fn ids(&self) -> (ids: Vec<EntityId>)
        ensures
            forall|id: EntityId| ids@.contains(id) <==> live(self@, id),
            forall|a: int, b: int| 0 <= a < b < ids@.len() ==> ids@[a].0 < ids@[b].0,
    {
        let len: usize = self.slots.len();
        let mut ids: Vec<EntityId> = Vec::new();
        let mut i: usize = 0;
        while i < len
            invariant
                i <= len,
                len == self.slots@.len(),
                forall|k: int|
                    0 <= k < ids@.len() ==> (#[trigger] ids@[k]).0 < i && live(self.slots@, ids@[k]),
                forall|j: int|
                    0 <= j < i && (#[trigger] self.slots@[j]) is Some ==> ids@.contains(
                        EntityId(j as usize),
                    ),
                forall|a: int, b: int| 0 <= a < b < ids@.len() ==> ids@[a].0 < ids@[b].0,
            decreases len - i,
        {
            if self.slots[i].is_some() {
                let ghost before = ids@;
                ids.push(EntityId(i));
                proof {
                    assert forall|j: int|
                        0 <= j < i + 1 && (#[trigger] self.slots@[j]) is Some implies ids@.contains(
                        EntityId(j as usize),
                    ) by {
                        if j < i {
                            let k = choose|k: int|
                                0 <= k < before.len() && before[k] == EntityId(j as usize);
                            assert(ids@[k] == EntityId(j as usize));
                        } else {
                            assert(ids@[before.len() as int] == EntityId(j as usize));
                        }
                    }
                }
            }
            i += 1;
        }
        proof {
            assert forall|id: EntityId| live(self@, id) implies ids@.contains(id) by {
                assert(self.slots@[id.0 as int] is Some);
                assert(EntityId(id.0 as int as usize) == id);
            }
        }
        ids
    }
}

} // verus!
