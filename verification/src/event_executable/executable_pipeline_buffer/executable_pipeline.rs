use std::collections::VecDeque;

use vstd::prelude::*;

verus! {

/// A queue of executable names (or empty steps) that is read front to back,
/// one step per call of `pop_front`. The steps themselves are kept; only the
/// read position moves.
pub struct ExecutablePipeline {
    executables: VecDeque<Option<String>>,
    current_index: usize,
}

impl ExecutablePipeline {
    /// The steps of the pipeline, first to last.
    pub closed spec fn steps(&self) -> Seq<Option<String>> {
        self.executables@
    }

    /// How many steps have been read so far.
    pub closed spec fn position(&self) -> nat {
        self.current_index as nat
    }

    /// The step that the next `pop_front` hands out: `None` once the read
    /// position has passed the last step.
    pub open spec fn front(&self) -> Option<Option<String>> {
        if self.position() < self.steps().len() {
            Some(self.steps()[self.position() as int])
        } else {
            None
        }
    }

    /// A pipeline whose read position stands at its first step.
    pub fn new(executables: Vec<Option<String>>) -> (pipeline: Self)
        ensures
            pipeline.steps() == executables@,
            pipeline.position() == 0,
    {
        let mut queue: VecDeque<Option<String>> = VecDeque::new();
        let mut source = executables;
        while source.len() > 0
            invariant
                queue@ + source@ == executables@,
            decreases source.len(),
        {
            let ghost before = source@;
            let step = source.remove(0);
            queue.push_back(step);
            assert(queue@ + source@ =~= executables@) by {
                assert(before =~= seq![step] + source@);
            }
        }
        assert(queue@ =~= executables@);
        ExecutablePipeline { executables: queue, current_index: 0 }
    }

    /// Hands out the step at the read position and moves the position one
    /// step on. Past the last step it hands out `None`, and the position
    /// still moves.
    pub fn pop_front(&mut self) -> (next: Option<&Option<String>>)
        requires
            old(self).position() < usize::MAX,
        ensures
            final(self).steps() == old(self).steps(),
            final(self).position() == old(self).position() + 1,
            match next {
                Some(step) => old(self).front() == Some(*step),
                None => old(self).front() is None,
            },
    {
        let index = self.current_index;
        self.current_index = index + 1;
        if index < self.executables.len() {
            Some(&self.executables[index])
        } else {
            None
        }
    }
    /// How many steps have been read so far.
    pub fn current_index(&self) -> (index: usize)
        ensures
            index == self.position(),
    {
        self.current_index
    }

    /// The step at the read position, without moving the position.
    pub(crate) fn peek(&self) -> (next: Option<&Option<String>>)
        ensures
            match next {
                Some(step) => self.front() == Some(*step),
                None => self.front() is None,
            },
    {
        if self.current_index < self.executables.len() {
            Some(&self.executables[self.current_index])
        } else {
            None
        }
    }
}

/// The step a pipeline hands out next: the step at its read position while
/// that position is within the steps, and nothing after.
pub proof fn law_front(pipeline: ExecutablePipeline)
    ensures
        pipeline.front() is Some <==> pipeline.position() < pipeline.steps().len(),
        pipeline.position() < pipeline.steps().len() ==> pipeline.front() == Some(
            pipeline.steps()[pipeline.position() as int],
        ),
{
}

} // verus!
