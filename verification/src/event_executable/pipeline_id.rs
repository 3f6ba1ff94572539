use vstd::prelude::*;

verus! {

/// Identifies a pipeline held in an `ExecutablePipelineBuffer`, or that an
/// entity's pipeline belongs to.
#[derive(Clone, Copy, Debug, PartialEq, Eq, Hash, Structural)]
pub enum PipelineId {
    Number(u64),
}

impl PipelineId {
    /// The number that the identifier carries.
    pub open spec fn number(self) -> u64 {
        match self {
            PipelineId::Number(n) => n,
        }
    }
}

} // verus!
