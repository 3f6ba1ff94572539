use vstd::prelude::*;

pub mod event_reactor;
pub mod executable;
pub mod executable_event;
pub mod executable_filter;
pub mod executable_pipeline_buffer;
pub mod execution_round;
pub mod ids;
pub mod inject_pipeline_resources;
pub mod keyed;
pub mod pipeline_id;
pub mod pipeline_resource;
pub mod pipeline_resources;

verus! {

/// The event system that steps executable pipelines: each round it reads the
/// next executable of every pipeline, raises the events those executables
/// stand for, and hands the pipelines' resources to the systems that react
/// to those events. What a round decides is worked out by
/// `execution_round::ExecutionRound`.
pub struct EventExecutable;

} // verus!
