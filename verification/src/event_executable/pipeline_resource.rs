use vstd::prelude::*;

use crate::event_executable::ids::EntityId;
use crate::event_executable::pipeline_id::PipelineId;

verus! {

/// Marks an entity as a resource of the pipeline `pipeline_id`: the systems
/// that react to the event that pipeline raises are handed the entity.
pub struct PipelineResource {
    pipeline_id: PipelineId,
    entity: EntityId,
}

/// What a `PipelineResource` holds.
pub ghost struct PipelineResourceView {
    pub pipeline_id: PipelineId,
    pub entity: EntityId,
}

impl View for PipelineResource {
    type V = PipelineResourceView;

    closed spec fn view(&self) -> PipelineResourceView {
        PipelineResourceView { pipeline_id: self.pipeline_id, entity: self.entity }
    }
}

impl PipelineResource {
    pub fn new(pipeline_id: PipelineId, entity: EntityId) -> (resource: Self)
        ensures
            resource@.pipeline_id == pipeline_id,
            resource@.entity == entity,
    {
        PipelineResource { pipeline_id, entity }
    }

    pub fn pipeline_id(&self) -> (pipeline_id: &PipelineId)
        ensures
            *pipeline_id == self@.pipeline_id,
    {
        &self.pipeline_id
    }

    pub fn entity(&self) -> (entity: &EntityId)
        ensures
            *entity == self@.entity,
    {
        &self.entity
    }
}

} // verus!
