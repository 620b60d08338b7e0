use vstd::prelude::*;

use std::any::TypeId;

use crate::ecs::components::{ComponentStore, ComponentStoreModel};
use crate::ecs::entity::{Entity, EntityManager, EntityManagerModel};
use crate::ecs::type_map::TypeMap;

verus! {

/// The number of entity ids that each component store is sized for.
pub const MAX_ENTITY_COUNT: usize = 10000;

/// The store that registering a component type sets up: empty, and sized for
/// `MAX_ENTITY_COUNT` entity ids.
pub fn new_component_store<T>() -> (store: ComponentStore<T>)
    ensures
        store@ == ComponentStoreModel::<T>::initial(MAX_ENTITY_COUNT as nat),
        store@.consistent(),
{
    ComponentStore::new(MAX_ENTITY_COUNT)
}

/// The abstract state of a [`World`]: its entity manager, and the component store
/// registered for each component type.
pub struct WorldModel<S> {
    pub entities: EntityManagerModel,
    pub stores: Map<TypeId, S>,
}

/// An entity world: hands out entities and keeps one component store per registered
/// component type. The stores are held type-erased as `S`; each is registered under the
/// `TypeId` of its component type.
pub struct World<S> {
    entity_manager: EntityManager,
    component_stores: TypeMap<S>,
}

impl<S> View for World<S> {
    type V = WorldModel<S>;

    closed spec fn view(&self) -> WorldModel<S> {
        WorldModel { entities: self.entity_manager@, stores: self.component_stores@ }
    }
}

/// A freshly spawned entity together with the world it lives in, for attaching components.
pub struct EntityEditor<'a, S> {
    pub entity: Entity,
    pub world: &'a mut World<S>,
}

impl<'a, S> EntityEditor<'a, S> {
    pub fn entity(&self) -> (e: Entity)
        ensures
            e == self.entity,
    {
        self.entity
    }
}

impl<S> World<S> {
    /// The registered stores are keyed by distinct types.
    pub closed spec fn wf(&self) -> bool {
        self.component_stores.wf()
    }

    pub fn new() -> (w: Self)
        ensures
            w.wf(),
            w@ == (WorldModel::<S> {
                entities: EntityManagerModel::initial(),
                stores: Map::empty(),
            }),
    {
        Self { entity_manager: EntityManager::new(), component_stores: TypeMap::new() }
    }

    /// Whether `spawn_entity` runs without overflowing the entity id counter.
    pub fn can_spawn(&self) -> (b: bool)
        ensures
            b == self@.entities.can_get(),
    {
        self.entity_manager.can_get_entity()
    }

    /// Hands out an entity and returns an editor for it.
    pub fn spawn_entity(&mut self) -> (editor: EntityEditor<'_, S>)
        requires
            old(self)@.entities.can_get(),
        ensures
            editor.entity == old(self)@.entities.next_entity(),
            (*editor.world)@ == (WorldModel::<S> {
                entities: old(self)@.entities.after_get(),
                stores: old(self)@.stores,
            }),
            (*editor.world).wf() == old(self).wf(),
            *final(self) == *final(editor.world),
    {
        let entity = self.entity_manager.get_entity();
        EntityEditor { entity, world: self }
    }

    /// Whether a component store is registered under `type_id`.
    pub fn is_registered(&self, type_id: &TypeId) -> (b: bool)
        requires
            self.wf(),
        ensures
            b == self@.stores.dom().contains(*type_id),
    {
        self.component_stores.contains_key(type_id)
    }

    /// The component store registered under `type_id`, which must be registered.
    pub fn component_store(&self, type_id: &TypeId) -> (store: &S)
        requires
            self.wf(),
            self@.stores.dom().contains(*type_id),
        ensures
            *store == self@.stores[*type_id],
    {
        self.component_stores.get(type_id)
    }

    /// Registers `store` under `type_id`, which must not be registered yet.
    pub fn register_component(&mut self, type_id: TypeId, store: S) -> (w: &mut Self)
        requires
            old(self).wf(),
            !old(self)@.stores.dom().contains(type_id),
        ensures
            w.wf(),
            w@ == (WorldModel::<S> {
                entities: old(self)@.entities,
                stores: old(self)@.stores.insert(type_id, store),
            }),
            *final(self) == *final(w),
    {
        self.component_stores.insert(type_id, store);
        self
    }
}

} // verus!
