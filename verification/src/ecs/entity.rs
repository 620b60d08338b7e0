use vstd::prelude::*;

verus! {

/// An entity handle: an id and the generation under which that id was handed out.
/// The id 0 with generation 0 is reserved as the "no entity" value.
#[derive(Debug, Clone, Copy, PartialEq, Eq, Hash, Structural)]
pub struct Entity {
    pub id: u32,
    pub generation: u32,
}

impl Entity {
    /// The reserved "no entity" value.
    pub open spec fn spec_none() -> Entity {
        Entity { id: 0, generation: 0 }
    }

    pub fn none() -> (e: Self)
        ensures
            e == Self::spec_none(),
    {
        Self { id: 0, generation: 0 }
    }

    pub fn is_none(&self) -> (b: bool)
        ensures
            b == (*self == Self::spec_none()),
    {
        self.id == 0 && self.generation == 0
    }
}

/// The abstract state of an [`EntityManager`]: the id that the next fresh entity gets,
/// and the stack of entities handed back for reuse (the last one is reused first).
pub struct EntityManagerModel {
    pub next_id: u32,
    pub returned: Seq<Entity>,
}

impl EntityManagerModel {
    /// The state of a new manager.
    pub open spec fn initial() -> Self {
        EntityManagerModel { next_id: 1, returned: Seq::empty() }
    }

    /// The state after `entity` was handed back.
    pub open spec fn after_return(self, entity: Entity) -> Self {
        EntityManagerModel { next_id: self.next_id, returned: self.returned.push(entity) }
    }

    /// Whether `get_entity` can run without overflowing the id counter.
    pub open spec fn can_get(self) -> bool {
        self.returned.len() > 0 || self.next_id < u32::MAX
    }

    /// The entity that `get_entity` hands out.
    pub open spec fn next_entity(self) -> Entity {
        if self.returned.len() > 0 {
            self.returned.last()
        } else {
            Entity { id: self.next_id, generation: 1 }
        }
    }

    /// The state after `get_entity`.
    pub open spec fn after_get(self) -> Self {
        if self.returned.len() > 0 {
            EntityManagerModel { next_id: self.next_id, returned: self.returned.drop_last() }
        } else {
            EntityManagerModel { next_id: (self.next_id + 1) as u32, returned: self.returned }
        }
    }
}

/// Hands out entities: reused ones first (last returned, first reused), then fresh ids
/// counting up from 1 with generation 1.
pub struct EntityManager {
    next_id: u32,
    returned_entities: Vec<Entity>,
}

impl View for EntityManager {
    type V = EntityManagerModel;

    closed spec fn view(&self) -> EntityManagerModel {
        EntityManagerModel { next_id: self.next_id, returned: self.returned_entities@ }
    }
}

impl EntityManager {
    pub fn new() -> (m: Self)
        ensures
            m@ == EntityManagerModel::initial(),
    {
        Self { next_id: 1, returned_entities: Vec::new() }
    }

    pub fn return_entity(&mut self, entity: Entity)
        ensures
            final(self)@ == old(self)@.after_return(entity),
    {
        self.returned_entities.push(entity);
    }

    /// Whether `get_entity` runs without overflowing the id counter.
    pub fn can_get_entity(&self) -> (b: bool)
        ensures
            b == self@.can_get(),
    {
        self.returned_entities.len() > 0 || self.next_id < u32::MAX
    }

    pub fn get_entity(&mut self) -> (e: Entity)
        requires
            old(self)@.can_get(),
        ensures
            e == old(self)@.next_entity(),
            final(self)@ == old(self)@.after_get(),
    {
        match self.returned_entities.pop() {
            Some(entity) => entity,
            None => {
                let id = self.next_id;
                self.next_id = self.next_id + 1;
                Entity { id, generation: 1 }
            },
        }
    }
}

/// An entity handed back is the next one handed out, and handing it out again restores
/// the manager's state.
pub proof fn law_returned_entity_is_reused_first(m: EntityManagerModel, entity: Entity)
    ensures
        m.after_return(entity).can_get(),
        m.after_return(entity).next_entity() == entity,
        m.after_return(entity).after_get() == m,
{
    assert(m.after_return(entity).returned.drop_last() =~= m.returned);
}

/// With nothing to reuse, each entity handed out has a fresh id one above the previous
/// one, generation 1, and is never the "no entity" value.
pub proof fn law_fresh_entities_count_up(m: EntityManagerModel)
    requires
        m.returned.len() == 0,
        1 <= m.next_id < u32::MAX,
    ensures
        m.next_entity() == (Entity { id: m.next_id, generation: 1 }),
        m.after_get().next_id == m.next_id + 1,
        m.after_get().returned.len() == 0,
        m.next_entity() != Entity::spec_none(),
{
}

/// Every state that the manager's operations reach from a new manager keeps the next id
/// at 1 or above, so fresh entities are never the "no entity" value.
pub proof fn law_next_id_stays_positive(m: EntityManagerModel, entity: Entity)
    requires
        m.next_id >= 1,
    ensures
        EntityManagerModel::initial().next_id >= 1,
        m.after_return(entity).next_id >= 1,
        m.can_get() ==> m.after_get().next_id >= 1,
{
}

} // verus!
