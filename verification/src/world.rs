//! The part of a world that a system's parameters are checked against: which
//! resources exist, and which components each entity holds.

use vstd::prelude::*;
use crate::ids::{id_set, contains_id, copy_ids, push_unique};

verus! {

/// A world of entities (each a set of component ids) and resources (ids).
pub struct World {
    resources: Vec<u64>,
    entities: Vec<Vec<u64>>,
}

/// Model of a [`World`].
pub struct WorldView {
    pub resources: Set<u64>,
    pub entities: Seq<Set<u64>>,
}

impl View for World {
    type V = WorldView;

    closed spec fn view(&self) -> WorldView {
        WorldView {
            resources: id_set(self.resources@),
            entities: self.entities@.map_values(|e: Vec<u64>| id_set(e@)),
        }
    }
}

impl World {
    /// The model of an empty world.
    pub open spec fn spec_empty() -> WorldView {
        WorldView { resources: Set::empty(), entities: Seq::empty() }
    }

    /// An empty world: no entity, no resource.
    pub fn new() -> (w: World)
        ensures
            w@ == World::spec_empty(),
    {
        let w = World { resources: Vec::new(), entities: Vec::new() };
        assert(w@.resources =~= Set::<u64>::empty());
        assert(w@.entities =~= Seq::<Set<u64>>::empty());
        w
    }

    /// Adds resource `id` (kept if already present).
    pub fn insert_resource(&mut self, id: u64)
        ensures
            final(self)@ == (WorldView { resources: old(self)@.resources.insert(id), ..old(self)@ }),
    {
        push_unique(&mut self.resources, id);
    }

    /// Whether resource `id` exists.
    pub fn contains_resource(&self, id: u64) -> (r: bool)
        ensures
            r == self@.resources.contains(id),
    {
        contains_id(&self.resources, id)
    }

    /// Spawns an entity holding `components`; returns its index.
    pub fn spawn(&mut self, components: &Vec<u64>) -> (e: usize)
        ensures
            e == old(self)@.entities.len(),
            final(self)@ == (WorldView {
                entities: old(self)@.entities.push(id_set(components@)),
                ..old(self)@
            }),
    {
        let e = self.entities.len();
        let c = copy_ids(components);
        self.entities.push(c);
        assert(self@.entities =~= old(self)@.entities.push(id_set(components@)));
        e
    }

    /// The number of entities.
    pub fn entity_count(&self) -> (n: usize)
        ensures
            n == self@.entities.len(),
    {
        self.entities.len()
    }
}

} // verus!
