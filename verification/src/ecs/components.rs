use vstd::prelude::*;

use crate::ecs::entity::Entity;

verus! {

/// The marker for an entity id that has no slot in the packed arrays.
pub const SENTINEL: usize = usize::MAX;

/// The abstract state of a [`ComponentStore`]: the packed arrays of entities and their
/// components, and the sparse array that maps an entity id to a packed slot.
pub struct ComponentStoreModel<ComponentType> {
    pub entities: Seq<Entity>,
    pub components: Seq<ComponentType>,
    pub sparse: Seq<usize>,
}

impl<ComponentType> ComponentStoreModel<ComponentType> {
    /// The state of a new store sized for `max_entity_count` entity ids.
    pub open spec fn initial(max_entity_count: nat) -> Self {
        ComponentStoreModel {
            entities: Seq::empty(),
            components: Seq::empty(),
            sparse: Seq::new(max_entity_count, |i: int| SENTINEL),
        }
    }

    /// The sparse array and the packed arrays agree, so that the store is a map from entity
    /// id to (entity, component): one component per packed entity, every recorded slot holds
    /// an entity of the recording id, and every packed entity is recorded at its own slot.
    pub open spec fn consistent(self) -> bool {
        &&& self.entities.len() == self.components.len()
        &&& self.sparse.len() < SENTINEL
        &&& self.entities.len() < SENTINEL
        &&& forall|id: int|
            0 <= id < self.sparse.len() && #[trigger] self.sparse[id] != SENTINEL ==> {
                &&& (self.sparse[id] as int) < self.entities.len()
                &&& self.entities[self.sparse[id] as int].id == id
            }
        &&& forall|slot: int|
            0 <= slot < self.entities.len() ==> {
                &&& (#[trigger] self.entities[slot].id as int) < self.sparse.len()
                &&& self.sparse[self.entities[slot].id as int] == slot
            }
    }

    /// The packed slot that the sparse array records for `entity`'s id.
    pub open spec fn slot_of(self, entity: Entity) -> usize {
        self.sparse[entity.id as int]
    }

    /// What the store holds for entity id `id`: the stored entity and its component.
    pub open spec fn lookup(self, id: int) -> Option<(Entity, ComponentType)> {
        if 0 <= id < self.sparse.len() && self.sparse[id] != SENTINEL {
            Some((self.entities[self.sparse[id] as int], self.components[self.sparse[id] as int]))
        } else {
            None
        }
    }

    /// The state after `emplace(entity, component)`: an unknown id is appended to the packed
    /// arrays and recorded in the sparse array; a known id has its component replaced.
    pub open spec fn after_emplace(self, entity: Entity, component: ComponentType) -> Self {
        let slot = self.slot_of(entity);
        if slot == SENTINEL {
            ComponentStoreModel {
                entities: self.entities.push(entity),
                components: self.components.push(component),
                sparse: self.sparse.update(entity.id as int, self.entities.len() as usize),
            }
        } else {
            ComponentStoreModel {
                entities: self.entities,
                components: self.components.update(slot as int, component),
                sparse: self.sparse,
            }
        }
    }

    /// The state after `remove(entity)`. With no recorded slot nothing changes. Otherwise the
    /// slot is swap-removed from the packed arrays, the entity's id is cleared in the sparse
    /// array, and the entity moved from the last slot into the freed one is recorded there.
    pub open spec fn after_remove(self, entity: Entity) -> Self {
        let slot = self.slot_of(entity);
        if slot == SENTINEL {
            self
        } else {
            let last = self.entities.len() - 1;
            let cleared = self.sparse.update(entity.id as int, SENTINEL);
            ComponentStoreModel {
                entities: self.entities.update(slot as int, self.entities.last()).drop_last(),
                components: self.components.update(slot as int, self.components.last()).drop_last(),
                sparse: if (slot as int) < last {
                    cleared.update(self.entities.last().id as int, slot)
                } else {
                    cleared
                },
            }
        }
    }
}

/// In a consistent store the packed entities have distinct ids, and with some id of the
/// sparse range unrecorded, there are fewer packed entities than ids.
pub proof fn lemma_packed_ids<ComponentType>(s: ComponentStoreModel<ComponentType>, free_id: int)
    requires
        s.consistent(),
    ensures
        forall|i: int, j: int|
            0 <= i < s.entities.len() && 0 <= j < s.entities.len() && i != j
                ==> #[trigger] s.entities[i].id != #[trigger] s.entities[j].id,
        0 <= free_id < s.sparse.len() && s.sparse[free_id] == SENTINEL ==> s.entities.len()
            < s.sparse.len(),
{
    let n = s.sparse.len() as int;
    assert forall|i: int, j: int|
        0 <= i < s.entities.len() && 0 <= j < s.entities.len() && i != j
            implies #[trigger] s.entities[i].id != #[trigger] s.entities[j].id by {
        assert(s.sparse[s.entities[i].id as int] == i);
        assert(s.sparse[s.entities[j].id as int] == j);
    }
    if 0 <= free_id < n && s.sparse[free_id] == SENTINEL {
        let ids = Seq::new(s.entities.len(), |k: int| s.entities[k].id as int);
        assert(ids.no_duplicates()) by {
            assert forall|i: int, j: int| 0 <= i < ids.len() && 0 <= j < ids.len() && i != j implies ids[i]
                != ids[j] by {
                assert(s.entities[i].id != s.entities[j].id);
            }
        }
        ids.unique_seq_to_set();
        let range = vstd::set_lib::set_int_range(0, n).remove(free_id);
        vstd::set_lib::lemma_int_range(0, n);
        assert(ids.to_set().subset_of(range)) by {
            assert forall|x: int| ids.to_set().contains(x) implies range.contains(x) by {
                let k = choose|k: int| 0 <= k < ids.len() && ids[k] == x;
                assert(s.sparse[s.entities[k].id as int] == k);
            }
        }
        vstd::set_lib::lemma_len_subset(ids.to_set(), range);
    }
}

/// ComponentStore stores components of a single type for entities. It is implemented as a
/// sparse map: `sparse[id]` holds the slot of entity `id` in the packed arrays.
pub struct ComponentStore<ComponentType> {
    entities: Vec<Entity>,
    components: Vec<ComponentType>,
    sparse: Vec<usize>,
}

impl<ComponentType> View for ComponentStore<ComponentType> {
    type V = ComponentStoreModel<ComponentType>;

    closed spec fn view(&self) -> ComponentStoreModel<ComponentType> {
        ComponentStoreModel {
            entities: self.entities@,
            components: self.components@,
            sparse: self.sparse@,
        }
    }
}

impl<ComponentType> ComponentStore<ComponentType> {
    /// A store for entity ids below `max_entity_count`; the count must be below the
    /// sentinel value.
    pub fn new(max_entity_count: usize) -> (s: Self)
        requires
            max_entity_count < SENTINEL,
        ensures
            s@ == ComponentStoreModel::<ComponentType>::initial(max_entity_count as nat),
            s@.consistent(),
    {
        let mut sparse: Vec<usize> = Vec::with_capacity(max_entity_count);
        let mut i: usize = 0;
        while i < max_entity_count
            invariant
                i <= max_entity_count,
                sparse@ == Seq::new(i as nat, |j: int| SENTINEL),
            decreases max_entity_count - i,
        {
            sparse.push(SENTINEL);
            i = i + 1;
        }
        Self {
            entities: Vec::with_capacity(max_entity_count),
            components: Vec::with_capacity(max_entity_count),
            sparse,
        }
    }

    /// Whether the store is sized for `entity`'s id, so that `emplace` and `remove` accept it.
    pub fn accepts(&self, entity: Entity) -> (b: bool)
        ensures
            b == ((entity.id as int) < self@.sparse.len()),
    {
        (entity.id as usize) < self.sparse.len()
    }

    pub fn emplace(&mut self, entity: Entity, component: ComponentType)
        requires
            old(self)@.consistent(),
            (entity.id as int) < old(self)@.sparse.len(),
        ensures
            final(self)@ == old(self)@.after_emplace(entity, component),
            final(self)@.consistent(),
    {
        let ghost s = self@;
        proof {
            lemma_packed_ids(s, entity.id as int);
        }
        let ent_index = self.sparse[entity.id as usize];
        if ent_index == SENTINEL {
            // not currently aware of this entity, let's add it to the end of the packed arrays
            let len = self.entities.len();
            self.sparse.set(entity.id as usize, len);
            self.entities.push(entity);
            self.components.push(component);
            let ghost t = self@;
            assert forall|slot: int| 0 <= slot < t.entities.len() implies {
                &&& (#[trigger] t.entities[slot].id as int) < t.sparse.len()
                &&& t.sparse[t.entities[slot].id as int] == slot
            } by {
                if slot < s.entities.len() {
                    assert(t.entities[slot] == s.entities[slot]);
                    assert(s.sparse[s.entities[slot].id as int] == slot);
                }
            }
            assert forall|id: int|
                0 <= id < t.sparse.len() && #[trigger] t.sparse[id] != SENTINEL implies {
                    &&& (t.sparse[id] as int) < t.entities.len()
                    &&& t.entities[t.sparse[id] as int].id == id
                } by {
                if id != entity.id {
                    assert(t.sparse[id] == s.sparse[id]);
                }
            }
        } else {
            // update existing value
            self.components.set(ent_index, component);
        }
    }

    /// Removes `entity`'s component; returns whether the store held one for its id.
    pub fn remove(&mut self, entity: Entity) -> (removed: bool)
        requires
            old(self)@.consistent(),
            (entity.id as int) < old(self)@.sparse.len(),
        ensures
            removed == (old(self)@.slot_of(entity) != SENTINEL),
            final(self)@ == old(self)@.after_remove(entity),
            final(self)@.consistent(),
    {
        let ghost s = self@;
        proof {
            lemma_packed_ids(s, entity.id as int);
        }
        let ent_index = self.sparse[entity.id as usize];
        if ent_index == SENTINEL {
            return false;
        }
        let ghost last = s.entities.len() - 1;
        let ghost moved = s.entities.last();
        assert(s.sparse[moved.id as int] == last);
        self.sparse.set(entity.id as usize, SENTINEL);
        self.entities.swap_remove(ent_index);
        self.components.swap_remove(ent_index);
        if ent_index < self.entities.len() {
            let moved_id = self.entities[ent_index].id;
            self.sparse.set(moved_id as usize, ent_index);
        }
        let ghost t = self@;
        assert(t == s.after_remove(entity));
        assert forall|slot: int| 0 <= slot < t.entities.len() implies {
            &&& (#[trigger] t.entities[slot].id as int) < t.sparse.len()
            &&& t.sparse[t.entities[slot].id as int] == slot
        } by {
            if slot == ent_index {
                assert(t.entities[slot] == moved);
            } else {
                assert(t.entities[slot] == s.entities[slot]);
                assert(s.sparse[s.entities[slot].id as int] == slot);
                assert(s.entities[slot].id != entity.id);
                assert(s.entities[slot].id != moved.id);
            }
        }
        assert forall|id: int|
            0 <= id < t.sparse.len() && #[trigger] t.sparse[id] != SENTINEL implies {
                &&& (t.sparse[id] as int) < t.entities.len()
                &&& t.entities[t.sparse[id] as int].id == id
            } by {
            if id != entity.id && id != moved.id {
                assert(t.sparse[id] == s.sparse[id]);
                let k = s.sparse[id] as int;
                assert(s.entities[k].id == id);
                assert(k != ent_index);
                assert(k != last);
                assert(t.entities[k] == s.entities[k]);
            }
        }
        true
    }

    /// The packed components, in slot order.
    pub fn iter(&self) -> (comps: &[ComponentType])
        ensures
            comps@ == self@.components,
    {
        self.components.as_slice()
    }

    /// The packed (entity, component) pairs, in slot order.
    pub fn iter_ent(&self) -> (pairs: Vec<(Entity, &ComponentType)>)
        requires
            self@.consistent(),
        ensures
            pairs@.len() == self@.entities.len(),
            forall|i: int|
                0 <= i < pairs@.len() ==> #[trigger] pairs@[i] == (
                self@.entities[i],
                &self@.components[i],
            ),
    {
        let mut pairs: Vec<(Entity, &ComponentType)> = Vec::new();
        let n = self.entities.len();
        let mut i: usize = 0;
        while i < n
            invariant
                n == self.entities@.len(),
                self.entities@.len() == self.components@.len(),
                i <= n,
                pairs@.len() == i,
                forall|j: int|
                    0 <= j < i ==> #[trigger] pairs@[j] == (
                    self.entities@[j],
                    &self.components@[j],
                ),
            decreases n - i,
        {
            pairs.push((self.entities[i], &self.components[i]));
            i = i + 1;
        }
        pairs
    }
}

/// A new store is consistent and holds nothing.
pub proof fn law_new_store_is_empty<ComponentType>(max_entity_count: nat, id: int)
    requires
        max_entity_count < SENTINEL,
    ensures
        ComponentStoreModel::<ComponentType>::initial(max_entity_count).consistent(),
        ComponentStoreModel::<ComponentType>::initial(max_entity_count).lookup(id) is None,
{
}

/// The store is a map from entity id to (entity, component): `emplace` sets the entry of
/// the entity's id (keeping the stored entity value when the id was present), `remove`
/// clears it, and every other id keeps its entry.
pub proof fn law_store_is_a_map<ComponentType>(
    s: ComponentStoreModel<ComponentType>,
    entity: Entity,
    component: ComponentType,
    other: int,
)
    requires
        s.consistent(),
        (entity.id as int) < s.sparse.len(),
        other != entity.id,
    ensures
        s.after_emplace(entity, component).lookup(entity.id as int) == Some(
            (
                match s.lookup(entity.id as int) {
                    Some(p) => p.0,
                    None => entity,
                },
                component,
            ),
        ),
        s.after_emplace(entity, component).lookup(other) == s.lookup(other),
        s.after_remove(entity).lookup(entity.id as int) is None,
        s.after_remove(entity).lookup(other) == s.lookup(other),
{
    lemma_packed_ids(s, entity.id as int);
    let slot = s.slot_of(entity);
    if 0 <= other < s.sparse.len() && s.sparse[other] != SENTINEL {
        let k = s.sparse[other] as int;
        assert(s.entities[k].id == other);
    }
    if slot != SENTINEL {
        let t = s.after_remove(entity);
        let last = s.entities.len() - 1;
        let moved = s.entities.last();
        assert(s.sparse[moved.id as int] == last);
        if 0 <= other < s.sparse.len() && s.sparse[other] != SENTINEL {
            let k = s.sparse[other] as int;
            if other == moved.id {
                assert(k == last);
                assert(t.entities[slot as int] == s.entities[last]);
                assert(t.components[slot as int] == s.components[last]);
            } else {
                assert(k != slot);
                assert(k != last);
                assert(t.entities[k] == s.entities[k]);
                assert(t.components[k] == s.components[k]);
            }
        }
    }
}

/// In a consistent store the listed pairs have distinct entity ids.
pub proof fn law_listed_ids_are_distinct<ComponentType>(s: ComponentStoreModel<ComponentType>)
    requires
        s.consistent(),
    ensures
        forall|i: int, j: int|
            0 <= i < s.entities.len() && 0 <= j < s.entities.len() && i != j
                ==> #[trigger] s.entities[i].id != #[trigger] s.entities[j].id,
{
    lemma_packed_ids(s, -1);
}

/// Removing an entity leaves no packed entity with its id, and keeps every other packed
/// (entity, component) pair.
pub proof fn law_remove_drops_only_that_entity<ComponentType>(
    s: ComponentStoreModel<ComponentType>,
    entity: Entity,
)
    requires
        s.consistent(),
        (entity.id as int) < s.sparse.len(),
    ensures
        ({
            let t = s.after_remove(entity);
            &&& forall|k: int| 0 <= k < t.entities.len() ==> #[trigger] t.entities[k].id != entity.id
            &&& forall|k: int|
                0 <= k < s.entities.len() && s.entities[k].id != entity.id ==> exists|j: int|
                    0 <= j < t.entities.len() && #[trigger] t.entities[j] == s.entities[k]
                        && t.components[j] == s.components[k]
        }),
{
    let t = s.after_remove(entity);
    let slot = s.slot_of(entity);
    lemma_packed_ids(s, -1);
    if slot != SENTINEL {
        let last = s.entities.len() - 1;
        assert forall|k: int| 0 <= k < t.entities.len() implies #[trigger] t.entities[k].id != entity.id by {
            if k == slot {
                assert(t.entities[k] == s.entities[last]);
                assert(s.sparse[s.entities[last].id as int] == last);
            } else {
                assert(t.entities[k] == s.entities[k]);
                assert(s.sparse[s.entities[k].id as int] == k);
            }
        }
        assert forall|k: int|
            0 <= k < s.entities.len() && s.entities[k].id != entity.id implies exists|j: int|
                0 <= j < t.entities.len() && #[trigger] t.entities[j] == s.entities[k]
                    && t.components[j] == s.components[k] by {
            assert(k != slot);
            if k == last {
                assert(t.entities[slot as int] == s.entities[k]);
            } else {
                assert(t.entities[k] == s.entities[k]);
            }
        }
    } else {
        assert forall|k: int| 0 <= k < t.entities.len() implies #[trigger] t.entities[k].id != entity.id by {
            assert(s.sparse[s.entities[k].id as int] == k);
        }
        assert forall|k: int|
            0 <= k < s.entities.len() && s.entities[k].id != entity.id implies exists|j: int|
                0 <= j < t.entities.len() && #[trigger] t.entities[j] == s.entities[k]
                    && t.components[j] == s.components[k] by {
            assert(t.entities[k] == s.entities[k]);
        }
    }
}

} // verus!
