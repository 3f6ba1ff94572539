use std::collections::HashSet;

use vstd::prelude::*;
use vstd::std_specs::iter::IteratorSpec;

use crate::event_executable::ids::EventKey;

verus! {

broadcast use vstd::std_specs::hash::group_hash_axioms;

/// The events that a system reacts to.
pub struct EventReactor {
    events: HashSet<EventKey>,
}

impl View for EventReactor {
    type V = Set<EventKey>;

    closed spec fn view(&self) -> Set<EventKey> {
        self.events@
    }
}

impl EventReactor {
    pub fn new(events: Vec<EventKey>) -> (reactor: Self)
        ensures
            reactor@ == events@.to_set(),
    {
        let mut set: HashSet<EventKey> = HashSet::new();
        let mut i: usize = 0;
        while i < events.len()
            invariant
                i <= events@.len(),
                set@ == events@.take(i as int).to_set(),
            decreases events@.len() - i,
        {
            set.insert(events[i]);
            assert(events@.take(i + 1) =~= events@.take(i as int).push(events@[i as int]));
            proof {
                events@.take(i as int).lemma_push_to_set_commute(events@[i as int]);
            }
            i = i + 1;
        }
        assert(events@.take(events@.len() as int) =~= events@);
        EventReactor { events: set }
    }

    /// Each event the system reacts to, once; in no stated order.
    pub fn events(&self) -> (events: Vec<EventKey>)
        ensures
            events@.to_set() == self@,
            events@.no_duplicates(),
    {
        let mut out: Vec<EventKey> = Vec::new();
        let event_iter = self.events.iter();
        let ghost keys = event_iter.remaining();
        for event in it: event_iter
            invariant
                keys == it.seq(),
                keys.unref().to_set() == self.events@,
                keys.no_duplicates(),
                out@ == keys.unref().take(it.index() as int),
        {
            out.push(*event);
            assert(keys.unref().take(it.index() + 1) =~= keys.unref().take(it.index() as int).push(*event));
        }
        assert(keys.unref().take(keys.len() as int) =~= keys.unref());
        out
    }
}

} // verus!
