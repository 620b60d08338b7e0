use vstd::prelude::*;

use std::any::TypeId;

use crate::ecs::type_map::TypeMap;

verus! {

/// Game-wide resources, at most one per type. The values are held type-erased as `S`, each
/// registered under the `TypeId` of its type.
pub struct Resources<S> {
    data: TypeMap<S>,
}

impl<S> View for Resources<S> {
    type V = Map<TypeId, S>;

    closed spec fn view(&self) -> Map<TypeId, S> {
        self.data@
    }
}

impl<S> Resources<S> {
    /// The resources are keyed by distinct types.
    pub closed spec fn wf(&self) -> bool {
        self.data.wf()
    }

    pub fn new() -> (r: Self)
        ensures
            r.wf(),
            r@ == Map::<TypeId, S>::empty(),
    {
        Self { data: TypeMap::new() }
    }

    /// Whether a resource is registered under `type_id`.
    pub fn contains(&self, type_id: &TypeId) -> (b: bool)
        requires
            self.wf(),
        ensures
            b == self@.dom().contains(*type_id),
    {
        self.data.contains_key(type_id)
    }

    /// Registers `value` under `type_id`, which must not be registered yet.
    pub fn register(&mut self, type_id: TypeId, value: S) -> (r: &mut Self)
        requires
            old(self).wf(),
            !old(self)@.dom().contains(type_id),
        ensures
            r.wf(),
            r@ == old(self)@.insert(type_id, value),
            *final(self) == *final(r),
    {
        self.data.insert(type_id, value);
        self
    }

    /// The resource registered under `type_id`, which must be registered.
    pub fn get(&self, type_id: &TypeId) -> (value: &S)
        requires
            self.wf(),
            self@.dom().contains(*type_id),
        ensures
            *value == self@[*type_id],
    {
        self.data.get(type_id)
    }
}

} // verus!
