pub use crate::event_executable::event_reactor::EventReactor;
pub use crate::event_executable::executable_event::ExecutableEvent;
pub use crate::event_executable::executable_pipeline_buffer::executable_pipeline::ExecutablePipeline;
pub use crate::event_executable::executable_pipeline_buffer::ExecutablePipelineBuffer;
pub use crate::event_executable::execution_round::{reset_action, ExecutionRound, ResetAction};
pub use crate::event_executable::ids::{entity_id, entity_of, EntityId, EventKey, ProgramKey, SystemKey};
pub use crate::event_executable::inject_pipeline_resources::InjectPipelineResources;
pub use crate::event_executable::pipeline_id::PipelineId;
pub use crate::event_executable::pipeline_resource::PipelineResource;
pub use crate::event_executable::pipeline_resources::PipelineResources;
pub use crate::event_executable::EventExecutable;
