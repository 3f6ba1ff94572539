use std::collections::HashSet;

use vstd::prelude::*;
use vstd::std_specs::iter::IteratorSpec;

use crate::event_executable::ids::EntityId;

verus! {

broadcast use vstd::std_specs::hash::group_hash_axioms;

/// The entities that a system has been handed as pipeline resources.
pub struct PipelineResources {
    entities: HashSet<EntityId>,
}

impl View for PipelineResources {
    type V = Set<EntityId>;

    closed spec fn view(&self) -> Set<EntityId> {
        self.entities@
    }
}

impl Default for PipelineResources {
    fn default() -> (resources: Self)
        ensures
            resources@ == Set::<EntityId>::empty(),
    {
        PipelineResources { entities: HashSet::new() }
    }
}

impl Clone for PipelineResources {
    fn clone(&self) -> (copy: Self)
        ensures
            copy@ == self@,
    {
        let mut entities: HashSet<EntityId> = HashSet::new();
        let entity_iter = self.entities.iter();
        let ghost keys = entity_iter.remaining();
        for entity in it: entity_iter
            invariant
                keys == it.seq(),
                keys.unref().to_set() == self.entities@,
                entities@ == keys.unref().take(it.index() as int).to_set(),
        {
            entities.insert(*entity);
            proof {
                let before = keys.unref().take(it.index() as int);
                assert(keys.unref().take(it.index() + 1) =~= before.push(*entity));
                before.lemma_push_to_set_commute(*entity);
            }
        }
        assert(keys.unref().take(keys.len() as int) =~= keys.unref());
        PipelineResources { entities }
    }
}

impl PipelineResources {
    pub fn insert(&mut self, entity: EntityId)
        ensures
            final(self)@ == old(self)@.insert(entity),
    {
        self.entities.insert(entity);
    }

    pub fn clear(&mut self)
        ensures
            final(self)@ == Set::<EntityId>::empty(),
    {
        self.entities.clear()
    }

    /// Whether `entity` has been handed to the system.
    pub fn contains(&self, entity: EntityId) -> (held: bool)
        ensures
            held == self@.contains(entity),
    {
        self.entities.contains(&entity)
    }

    /// How many entities the system holds.
    pub fn len(&self) -> (count: usize)
        ensures
            count == self@.len(),
    {
        self.entities.len()
    }
}

} // verus!
