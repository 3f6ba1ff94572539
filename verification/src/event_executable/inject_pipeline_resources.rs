use vstd::prelude::*;

use crate::event_executable::pipeline_resources::PipelineResources;

verus! {

/// The pipeline resources that a system is handed when it runs: a copy of
/// the `PipelineResources` component that its entity carries.
pub struct InjectPipelineResources {
    pipeline_resources: PipelineResources,
}

impl View for InjectPipelineResources {
    type V = Set<crate::event_executable::ids::EntityId>;

    closed spec fn view(&self) -> Set<crate::event_executable::ids::EntityId> {
        self.pipeline_resources@
    }
}

impl InjectPipelineResources {
    /// The injection for a system whose component holds `shared`.
    pub fn from_shared(shared: &PipelineResources) -> (injected: Self)
        ensures
            injected@ == shared@,
    {
        InjectPipelineResources { pipeline_resources: shared.clone() }
    }

    pub fn pipeline_resources(&self) -> (resources: &PipelineResources)
        ensures
            resources@ == self@,
    {
        &self.pipeline_resources
    }

    pub fn pipeline_resources_mut(&mut self) -> (resources: &mut PipelineResources)
        ensures
            resources@ == old(self)@,
            final(self)@ == final(resources)@,
    {
        &mut self.pipeline_resources
    }
}

} // verus!
