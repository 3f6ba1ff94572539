use vstd::prelude::*;

use crate::event_executable::ids::EventKey;

verus! {

/// An event that is raised whenever a pipeline's next step names the
/// executable `id`.
pub struct ExecutableEvent {
    id: String,
    event: EventKey,
}

/// What an `ExecutableEvent` holds.
pub ghost struct ExecutableEventView {
    pub id: Seq<char>,
    pub event: EventKey,
}

impl View for ExecutableEvent {
    type V = ExecutableEventView;

    closed spec fn view(&self) -> ExecutableEventView {
        ExecutableEventView { id: self.id@, event: self.event }
    }
}

impl ExecutableEvent {
    pub fn new(id: String, event: EventKey) -> (executable_event: Self)
        ensures
            executable_event@.id == id@,
            executable_event@.event == event,
    {
        ExecutableEvent { id, event }
    }

    /// The executable that raises the event.
    pub fn id(&self) -> (id: &String)
        ensures
            id@ == self@.id,
    {
        &self.id
    }

    /// The event raised.
    pub fn event(&self) -> (event: &EventKey)
        ensures
            *event == self@.event,
    {
        &self.event
    }
}

} // verus!
