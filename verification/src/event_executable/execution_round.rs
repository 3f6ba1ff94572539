use std::collections::HashSet;

use vstd::prelude::*;

use crate::event_executable::event_reactor::EventReactor;
use crate::event_executable::executable_event::ExecutableEvent;
use crate::event_executable::executable_pipeline_buffer::executable_pipeline::ExecutablePipeline;
use crate::event_executable::ids::{EntityId, EventKey, ProgramKey, SystemKey};
use crate::event_executable::keyed::{
    count_value, has_key, keys_with_value, lemma_count_is_keys_with_value, lemma_prefix_step, lemma_upsert, lemma_value_at, pairs_map, unique_keys, upsert,
};
use crate::event_executable::pipeline_id::PipelineId;
use crate::event_executable::pipeline_resource::{PipelineResource, PipelineResourceView};

verus! {

broadcast use vstd::std_specs::hash::group_hash_axioms;

/// What one round of the event executable has decided so far. A round steps
/// every executable pipeline once, raises the events that the executables
/// named by the pipelines stand for, collects which systems react to which
/// event, and from that decides which systems are handed which pipeline
/// resources. The caller reads the world and reports to the round; the round
/// says what to do to the world.
pub struct ExecutionRound {
    next_executables: Vec<(Option<PipelineId>, String)>,
    exhausted: HashSet<EntityId>,
    pipeline_events: Vec<(Option<PipelineId>, EventKey)>,
    emitted: Vec<EventKey>,
    reactions: Vec<(EventKey, SystemKey)>,
}

/// How a reacting system's pipeline resources are emptied at the start of a
/// round.
#[derive(Clone, Copy, Debug, PartialEq, Eq, Structural)]
pub enum ResetAction {
    /// The entity already carries a `PipelineResources` component: clear it.
    ClearExisting,
    /// The entity carries none: give it an empty one.
    InsertDefault,
}

/// The way to empty a reacting system's pipeline resources, by whether its
/// entity was found to carry the component.
pub fn reset_action(carries_component: bool) -> (action: ResetAction)
    ensures
        action == if carries_component {
            ResetAction::ClearExisting
        } else {
            ResetAction::InsertDefault
        },
{
    if carries_component {
        ResetAction::ClearExisting
    } else {
        ResetAction::InsertDefault
    }
}

/// The pipelines whose next executable is `id`, each mapped to `event`.
pub open spec fn triggered(
    next: Map<Option<PipelineId>, Seq<char>>,
    id: Seq<char>,
    event: EventKey,
) -> Map<Option<PipelineId>, EventKey> {
    Map::new(|key: Option<PipelineId>| next.contains_key(key) && next[key] == id, |key: Option<PipelineId>| event)
}

impl ExecutionRound {
    /// For each pipeline identifier (or none), the executable that its
    /// pipeline names next; the last report for an identifier wins. Kept in
    /// the order in which the identifiers were first reported.
    pub closed spec fn next_executables(&self) -> Seq<(Option<PipelineId>, Seq<char>)> {
        self.next_executables@.map_values(|entry: (Option<PipelineId>, String)| (entry.0, entry.1@))
    }

    /// The entities whose pipelines have been read to the end.
    pub closed spec fn exhausted(&self) -> Set<EntityId> {
        self.exhausted@
    }

    /// For each pipeline identifier (or none), the event that its next
    /// executable raised.
    pub closed spec fn pipeline_events(&self) -> Seq<(Option<PipelineId>, EventKey)> {
        self.pipeline_events@
    }

    /// The events raised, in the order they were raised, once per pipeline
    /// that raised them.
    pub closed spec fn emitted(&self) -> Seq<EventKey> {
        self.emitted@
    }

    /// Which system reacts to which event.
    pub closed spec fn reactions(&self) -> Seq<(EventKey, SystemKey)> {
        self.reactions@
    }

    /// The round's own bookkeeping: identifiers are recorded once, and so is
    /// each reaction.
    pub open spec fn wf(&self) -> bool {
        &&& unique_keys(self.next_executables())
        &&& unique_keys(self.pipeline_events())
        &&& self.reactions().no_duplicates()
    }

    pub open spec fn next_executable_map(&self) -> Map<Option<PipelineId>, Seq<char>> {
        pairs_map(self.next_executables())
    }

    pub open spec fn pipeline_event_map(&self) -> Map<Option<PipelineId>, EventKey> {
        pairs_map(self.pipeline_events())
    }

    /// Whether `system` reacts to `event`.
    pub open spec fn reacts(&self, event: EventKey, system: SystemKey) -> bool {
        self.reactions().contains((event, system))
    }

    /// Whether `system` reacts to some event.
    pub open spec fn reacting(&self, system: SystemKey) -> bool {
        exists|event: EventKey| #[trigger] self.reacts(event, system)
    }

    /// The systems that are handed `resource`: those that react to the event
    /// that the resource's pipeline raised.
    pub open spec fn targets(&self, resource: PipelineResourceView) -> Set<SystemKey> {
        let key = Some(resource.pipeline_id);
        if self.pipeline_event_map().contains_key(key) {
            Set::new(|system: SystemKey| self.reacts(self.pipeline_event_map()[key], system))
        } else {
            Set::empty()
        }
    }

    /// A round that has decided nothing yet.
    pub fn new() -> (round: Self)
        ensures
            round.wf(),
            round.next_executables() == Seq::<(Option<PipelineId>, Seq<char>)>::empty(),
            round.exhausted() == Set::<EntityId>::empty(),
            round.pipeline_events() == Seq::<(Option<PipelineId>, EventKey)>::empty(),
            round.emitted() == Seq::<EventKey>::empty(),
            round.reactions() == Seq::<(EventKey, SystemKey)>::empty(),
    {
        let round = ExecutionRound {
            next_executables: Vec::new(),
            exhausted: HashSet::new(),
            pipeline_events: Vec::new(),
            emitted: Vec::new(),
            reactions: Vec::new(),
        };
        assert(round.next_executables() =~= Seq::<(Option<PipelineId>, Seq<char>)>::empty());
        round
    }

    fn same_pipeline(a: &Option<PipelineId>, b: &Option<PipelineId>) -> (same: bool)
        ensures
            same == (*a == *b),
    {
        match (a, b) {
            (None, None) => true,
            (Some(PipelineId::Number(x)), Some(PipelineId::Number(y))) => *x == *y,
            _ => false,
        }
    }

    fn find_next_executable(&self, key: &Option<PipelineId>) -> (found: Option<usize>)
        ensures
            match found {
                Some(j) => j < self.next_executables().len() && self.next_executables()[j as int].0 == *key,
                None => !has_key(self.next_executables(), *key),
            },
    {
        let mut i: usize = 0;
        while i < self.next_executables.len()
            invariant
                i <= self.next_executables().len(),
                self.next_executables().len() == self.next_executables@.len(),
                forall|j: int| 0 <= j < i ==> self.next_executables()[j].0 != *key,
            decreases self.next_executables@.len() - i,
        {
            if Self::same_pipeline(&self.next_executables[i].0, key) {
                return Some(i);
            }
            i = i + 1;
        }
        None
    }

    fn set_next_executable(&mut self, key: Option<PipelineId>, name: String)
        requires
            unique_keys(old(self).next_executables()),
        ensures
            final(self).next_executables() == upsert(old(self).next_executables(), key, name@),
            unique_keys(final(self).next_executables()),
            final(self).exhausted() == old(self).exhausted(),
            final(self).pipeline_events() == old(self).pipeline_events(),
            final(self).emitted() == old(self).emitted(),
            final(self).reactions() == old(self).reactions(),
    {
        let ghost before = self.next_executables();
        proof {
            lemma_upsert(before, key, name@);
        }
        match self.find_next_executable(&key) {
            Some(j) => {
                proof {
                    let c = choose|c: int| 0 <= c < before.len() && before[c].0 == key;
                    assert(c == j);
                }
                self.next_executables.set(j, (key, name));
                assert(self.next_executables() =~= before.update(j as int, (key, name@)));
            },
            None => {
                self.next_executables.push((key, name));
                assert(self.next_executables() =~= before.push((key, name@)));
            },
        }
    }

    /// Steps `pipeline`, the executable pipeline of `entity`, once, and
    /// records what it handed out: a named executable becomes the next
    /// executable of `pipeline_id` (replacing an earlier one), an empty step
    /// records nothing, and a pipeline read past its end marks `entity` as
    /// exhausted.
    pub fn advance_pipeline(
        &mut self,
        entity: EntityId,
        pipeline: &mut ExecutablePipeline,
        pipeline_id: Option<PipelineId>,
    )
        requires
            old(self).wf(),
            old(pipeline).position() < usize::MAX,
        ensures
            final(self).wf(),
            final(pipeline).steps() == old(pipeline).steps(),
            final(pipeline).position() == old(pipeline).position() + 1,
            final(self).next_executables() == match old(pipeline).front() {
                Some(Some(executable)) => upsert(old(self).next_executables(), pipeline_id, executable@),
                _ => old(self).next_executables(),
            },
            final(self).exhausted() == if old(pipeline).front() is None {
                old(self).exhausted().insert(entity)
            } else {
                old(self).exhausted()
            },
            final(self).pipeline_events() == old(self).pipeline_events(),
            final(self).emitted() == old(self).emitted(),
            final(self).reactions() == old(self).reactions(),
    {
        let step = pipeline.pop_front();
        match step {
            Some(Some(executable)) => {
                let name = executable.clone();
                self.set_next_executable(pipeline_id, name);
            },
            Some(None) => {},
            None => {
                self.exhausted.insert(entity);
            },
        }
    }
    fn find_pipeline_event(&self, key: &Option<PipelineId>) -> (found: Option<usize>)
        ensures
            match found {
                Some(j) => j < self.pipeline_events().len() && self.pipeline_events()[j as int].0 == *key,
                None => !has_key(self.pipeline_events(), *key),
            },
    {
        let mut i: usize = 0;
        while i < self.pipeline_events.len()
            invariant
                i <= self.pipeline_events().len(),
                forall|j: int| 0 <= j < i ==> self.pipeline_events()[j].0 != *key,
            decreases self.pipeline_events@.len() - i,
        {
            if Self::same_pipeline(&self.pipeline_events[i].0, key) {
                return Some(i);
            }
            i = i + 1;
        }
        None
    }

    fn set_pipeline_event(&mut self, key: Option<PipelineId>, event: EventKey)
        requires
            unique_keys(old(self).pipeline_events()),
        ensures
            final(self).pipeline_events() == upsert(old(self).pipeline_events(), key, event),
            unique_keys(final(self).pipeline_events()),
            pairs_map(final(self).pipeline_events()) == pairs_map(old(self).pipeline_events()).insert(key, event),
            final(self).next_executables() == old(self).next_executables(),
            final(self).exhausted() == old(self).exhausted(),
            final(self).emitted() == old(self).emitted(),
            final(self).reactions() == old(self).reactions(),
    {
        let ghost before = self.pipeline_events();
        proof {
            lemma_upsert(before, key, event);
        }
        match self.find_pipeline_event(&key) {
            Some(j) => {
                proof {
                    let c = choose|c: int| 0 <= c < before.len() && before[c].0 == key;
                    assert(c == j);
                }
                self.pipeline_events.set(j, (key, event));
                assert(self.pipeline_events() =~= before.update(j as int, (key, event)));
            },
            None => {
                self.pipeline_events.push((key, event));
            },
        }
    }

    /// Raises `executable_event` once for each pipeline whose next executable
    /// is the event's executable, and records the event as the one that each
    /// such pipeline raised (replacing an earlier one).
    pub fn record_executable_event(&mut self, executable_event: &ExecutableEvent)
        requires
            old(self).wf(),
        ensures
            final(self).wf(),
            final(self).pipeline_event_map() == old(self).pipeline_event_map().union_prefer_right(
                triggered(old(self).next_executable_map(), executable_event@.id, executable_event@.event),
            ),
            final(self).emitted() == old(self).emitted() + Seq::new(
                count_value(old(self).next_executables(), executable_event@.id),
                |i: int| executable_event@.event,
            ),
            forall|key: Option<PipelineId>|
                #[trigger] final(self).pipeline_event_map().contains_key(key) <==> old(self).pipeline_event_map().contains_key(key) || (old(self).next_executable_map().contains_key(key)
                    && old(self).next_executable_map()[key] == executable_event@.id),
            forall|key: Option<PipelineId>|
                old(self).next_executable_map().contains_key(key) && old(self).next_executable_map()[key]
                    == executable_event@.id ==> #[trigger] final(self).pipeline_event_map()[key]
                    == executable_event@.event,
            forall|key: Option<PipelineId>|
                old(self).pipeline_event_map().contains_key(key) && !(old(self).next_executable_map().contains_key(
                    key,
                ) && old(self).next_executable_map()[key] == executable_event@.id) ==> #[trigger] final(self).pipeline_event_map()[key] == old(self).pipeline_event_map()[key],
            final(self).next_executables() == old(self).next_executables(),
            final(self).exhausted() == old(self).exhausted(),
            final(self).reactions() == old(self).reactions(),
    {
        let id = executable_event.id();
        let event = *executable_event.event();
        let ghost next = self.next_executables();
        let ghost start_map = self.pipeline_event_map();
        let ghost start_emitted = self.emitted();
        let mut i: usize = 0;
        while i < self.next_executables.len()
            invariant
                self.wf(),
                next == self.next_executables(),
                id@ == executable_event@.id,
                event == executable_event@.event,
                i <= next.len(),
                next.len() == self.next_executables@.len(),
                self.exhausted() == old(self).exhausted(),
                self.reactions() == old(self).reactions(),
                self.pipeline_event_map() == start_map.union_prefer_right(
                    triggered(pairs_map(next.take(i as int)), id@, event),
                ),
                self.emitted() == start_emitted + Seq::new(
                    count_value(next.take(i as int), id@),
                    |k: int| event,
                ),
            decreases next.len() - i,
        {
            proof {
                lemma_prefix_step(next, i as int, id@);
            }
            let key = self.next_executables[i].0;
            let matches = self.next_executables[i].1 == *id;
            let ghost map_before = self.pipeline_event_map();
            let ghost emitted_before = self.emitted();
            if matches {
                self.emitted.push(event);
                self.set_pipeline_event(key, event);
                assert(self.emitted() =~= start_emitted + Seq::new(
                    count_value(next.take(i + 1), id@),
                    |k: int| event,
                ));
            }
            assert(self.pipeline_event_map() =~= start_map.union_prefer_right(
                triggered(pairs_map(next.take(i + 1)), id@, event),
            ));
            i = i + 1;
        }
        assert(next.take(next.len() as int) =~= next);
    }
    fn has_reaction(&self, event: EventKey, system: SystemKey) -> (found: bool)
        ensures
            found == self.reacts(event, system),
    {
        let mut i: usize = 0;
        while i < self.reactions.len()
            invariant
                i <= self.reactions().len(),
                forall|j: int| 0 <= j < i ==> self.reactions()[j] != (event, system),
            decreases self.reactions@.len() - i,
        {
            let (e, s) = self.reactions[i];
            if e == event && s.0 == system.0 && s.1 == system.1 {
                assert(self.reactions()[i as int] == (event, system));
                return true;
            }
            i = i + 1;
        }
        false
    }

    /// Records that the system of `program` carried by `entity` reacts to
    /// each event of `reactor`.
    pub fn record_event_reactor(&mut self, program: ProgramKey, entity: EntityId, reactor: &EventReactor)
        requires
            old(self).wf(),
        ensures
            final(self).wf(),
            forall|event: EventKey, system: SystemKey|
                #[trigger] final(self).reacts(event, system) <==> old(self).reacts(event, system) || (
                reactor@.contains(event) && system == (program, entity)),
            final(self).next_executables() == old(self).next_executables(),
            final(self).exhausted() == old(self).exhausted(),
            final(self).pipeline_events() == old(self).pipeline_events(),
            final(self).emitted() == old(self).emitted(),
    {
        let system: SystemKey = (program, entity);
        let events = reactor.events();
        let mut i: usize = 0;
        while i < events.len()
            invariant
                self.wf(),
                i <= events@.len(),
                events@.to_set() == reactor@,
                system == (program, entity),
                forall|event: EventKey, s: SystemKey|
                    #[trigger] self.reacts(event, s) <==> old(self).reacts(event, s) || (
                    events@.take(i as int).contains(event) && s == system),
                self.next_executables() == old(self).next_executables(),
                self.exhausted() == old(self).exhausted(),
                self.pipeline_events() == old(self).pipeline_events(),
                self.emitted() == old(self).emitted(),
            decreases events@.len() - i,
        {
            let event = events[i];
            let ghost before = self.reactions();
            let ghost pre = events@.take(i as int);
            assert forall|e: EventKey, s: SystemKey|
                #[trigger] before.contains((e, s)) <==> old(self).reacts(e, s) || (pre.contains(e) && s
                    == system) by {
                assert(self.reacts(e, s) == before.contains((e, s)));
            }
            if !self.has_reaction(event, system) {
                self.reactions.push((event, system));
                assert(self.reactions() == before.push((event, system)));
            }
            let ghost post = events@.take(i + 1);
            assert(post =~= pre.push(event));
            assert forall|e: EventKey, s: SystemKey|
                #[trigger] self.reacts(e, s) <==> old(self).reacts(e, s) || (
                post.contains(e) && s == system) by {
                assert(before.contains((e, s)) <==> old(self).reacts(e, s) || (pre.contains(e) && s
                    == system));
                if self.reacts(e, s) && !before.contains((e, s)) {
                    let k = choose|k: int| 0 <= k < self.reactions().len() && self.reactions()[k] == (e, s);
                    assert(k == before.len());
                }
                if before.contains((e, s)) {
                    let k = choose|k: int| 0 <= k < before.len() && before[k] == (e, s);
                    assert(self.reactions()[k] == (e, s));
                }
                if e == event && s == system {
                    if !before.contains((e, s)) {
                        assert(self.reactions()[before.len() as int] == (e, s));
                    }
                    assert(post[pre.len() as int] == e);
                }
                if pre.contains(e) {
                    let k = choose|k: int| 0 <= k < pre.len() && pre[k] == e;
                    assert(post[k] == e);
                }
                if post.contains(e) && e != event {
                    let k = choose|k: int| 0 <= k < post.len() && post[k] == e;
                    assert(pre[k] == e);
                }
            }
            i = i + 1;
        }
        assert(events@.take(events@.len() as int) =~= events@);
        assert forall|e: EventKey| events@.contains(e) <==> reactor@.contains(e) by {
            if events@.contains(e) {
                assert(events@.to_set().contains(e));
            }
        }
    }

    fn push_unique(systems: &mut Vec<SystemKey>, system: SystemKey)
        requires
            old(systems)@.no_duplicates(),
        ensures
            final(systems)@.no_duplicates(),
            forall|s: SystemKey| #[trigger] final(systems)@.contains(s) <==> old(systems)@.contains(s) || s == system,
    {
        let mut found = false;
        let mut i: usize = 0;
        while i < systems.len()
            invariant
                i <= systems@.len(),
                found ==> systems@.contains(system),
                !found ==> forall|j: int| 0 <= j < i ==> systems@[j] != system,
            decreases systems@.len() - i,
        {
            let s = systems[i];
            if s.0 == system.0 && s.1 == system.1 {
                assert(systems@[i as int] == system);
                found = true;
            }
            i = i + 1;
        }
        if !found {
            let ghost before = systems@;
            systems.push(system);
            assert forall|s: SystemKey| #[trigger] systems@.contains(s) <==> before.contains(s) || s == system by {
                if systems@.contains(s) && s != system {
                    let k = choose|k: int| 0 <= k < systems@.len() && systems@[k] == s;
                    assert(before[k] == s);
                }
                if before.contains(s) {
                    let k = choose|k: int| 0 <= k < before.len() && before[k] == s;
                    assert(systems@[k] == s);
                }
                if s == system {
                    assert(systems@[before.len() as int] == s);
                }
            }
        }
    }

    /// Each system that reacts to some event, once. Each of them has its
    /// pipeline resources emptied before the resources of this round are
    /// handed out.
    pub fn systems_to_reset(&self) -> (systems: Vec<SystemKey>)
        ensures
            systems@.no_duplicates(),
            forall|system: SystemKey| #[trigger] systems@.contains(system) <==> self.reacting(system),
    {
        let mut systems: Vec<SystemKey> = Vec::new();
        let mut i: usize = 0;
        while i < self.reactions.len()
            invariant
                i <= self.reactions().len(),
                systems@.no_duplicates(),
                forall|system: SystemKey| #[trigger] systems@.contains(system) <==> exists|j: int|
                    0 <= j < i && #[trigger] self.reactions()[j].1 == system,
            decreases self.reactions@.len() - i,
        {
            let (_, system) = self.reactions[i];
            Self::push_unique(&mut systems, system);
            i = i + 1;
        }
        assert forall|system: SystemKey| #[trigger] systems@.contains(system) <==> self.reacting(system) by {
            if systems@.contains(system) {
                let j = choose|j: int| 0 <= j < self.reactions().len() && #[trigger] self.reactions()[j].1 == system;
                assert(self.reacts(self.reactions()[j].0, system));
            }
            if self.reacting(system) {
                let e = choose|e: EventKey| #[trigger] self.reacts(e, system);
                let j = choose|j: int| 0 <= j < self.reactions().len() && self.reactions()[j] == (e, system);
                assert(self.reactions()[j].1 == system);
            }
        }
        systems
    }

    /// The systems that `resource` is handed to, each once: those that react
    /// to the event raised by the resource's pipeline.
    pub fn resource_targets(&self, resource: &PipelineResource) -> (systems: Vec<SystemKey>)
        requires
            self.wf(),
        ensures
            systems@.no_duplicates(),
            forall|system: SystemKey| #[trigger] systems@.contains(system) <==> self.targets(resource@).contains(system),
            forall|system: SystemKey|
                #[trigger] systems@.contains(system) <==> self.pipeline_event_map().contains_key(
                    Some(resource@.pipeline_id),
                ) && self.reacts(self.pipeline_event_map()[Some(resource@.pipeline_id)], system),
    {
        proof {
            assert forall|system: SystemKey| #[trigger] self.targets(resource@).contains(system) == (
            self.pipeline_event_map().contains_key(Some(resource@.pipeline_id)) && self.reacts(
                self.pipeline_event_map()[Some(resource@.pipeline_id)],
                system,
            )) by {
                law_targets(*self, resource@, system);
            }
        }
        let key = Some(*resource.pipeline_id());
        let mut systems: Vec<SystemKey> = Vec::new();
        match self.find_pipeline_event(&key) {
            None => {
                assert(!self.pipeline_event_map().contains_key(key));
                assert forall|system: SystemKey| #[trigger] systems@.contains(system) <==> self.targets(resource@).contains(system) by {}
                systems
            },
            Some(j) => {
                let event = self.pipeline_events[j].1;
                proof {
                    lemma_value_at(self.pipeline_events(), j as int);
                    assert(self.pipeline_event_map()[key] == event);
                }
                let mut i: usize = 0;
                while i < self.reactions.len()
                    invariant
                        i <= self.reactions().len(),
                        systems@.no_duplicates(),
                        forall|system: SystemKey| #[trigger] systems@.contains(system) <==> exists|k: int|
                            0 <= k < i && #[trigger] self.reactions()[k] == (event, system),
                    decreases self.reactions@.len() - i,
                {
                    let (e, system) = self.reactions[i];
                    if e == event {
                        Self::push_unique(&mut systems, system);
                        assert(self.reactions()[i as int] == (event, system));
                    }
                    i = i + 1;
                }
                assert forall|system: SystemKey| #[trigger] systems@.contains(system) <==> self.targets(resource@).contains(system) by {
                    if self.reacts(event, system) {
                        let k = choose|k: int| 0 <= k < self.reactions().len() && self.reactions()[k] == (event, system);
                        assert(self.reactions()[k] == (event, system));
                    }
                }
                systems
            },
        }
    }

    /// The events raised so far: what goes into the event buffer, in order.
    pub fn emitted_events(&self) -> (events: &Vec<EventKey>)
        ensures
            events@ == self.emitted(),
    {
        &self.emitted
    }

    /// The entities whose pipelines have been read to the end; their
    /// pipeline components are to be removed.
    pub fn exhausted_entities(&self) -> (entities: &HashSet<EntityId>)
        ensures
            entities@ == self.exhausted(),
    {
        &self.exhausted
    }
}

/// The pipeline resources that `system` holds in `world` (none where it holds
/// no component).
pub open spec fn held(world: Map<SystemKey, Set<EntityId>>, system: SystemKey) -> Set<EntityId> {
    if world.contains_key(system) {
        world[system]
    } else {
        Set::empty()
    }
}

/// `world` once every system that reacts to some event has had its pipeline
/// resources emptied (given a component where it had none).
pub open spec fn after_reset(round: ExecutionRound, world: Map<SystemKey, Set<EntityId>>) -> Map<
    SystemKey,
    Set<EntityId>,
> {
    Map::new(
        |system: SystemKey| world.contains_key(system) || round.reacting(system),
        |system: SystemKey|
            if round.reacting(system) {
                Set::empty()
            } else {
                world[system]
            },
    )
}

/// `world` once each resource of `resources`, in order, has been handed to
/// the systems that `resource_targets` names for it.
pub open spec fn after_hand_out(
    round: ExecutionRound,
    world: Map<SystemKey, Set<EntityId>>,
    resources: Seq<PipelineResourceView>,
) -> Map<SystemKey, Set<EntityId>>
    decreases resources.len(),
{
    if resources.len() == 0 {
        world
    } else {
        let earlier = after_hand_out(round, world, resources.drop_last());
        let resource = resources.last();
        Map::new(
            |system: SystemKey| earlier.contains_key(system) || round.targets(resource).contains(system),
            |system: SystemKey|
                if round.targets(resource).contains(system) {
                    held(earlier, system).insert(resource.entity)
                } else {
                    earlier[system]
                },
        )
    }
}

/// The entities of those resources of `resources` that go to `system`.
pub open spec fn handed(round: ExecutionRound, resources: Seq<PipelineResourceView>, system: SystemKey) -> Set<
    EntityId,
> {
    Set::new(
        |entity: EntityId|
            exists|i: int|
                0 <= i < resources.len() && #[trigger] resources[i].entity == entity && round.targets(
                    resources[i],
                ).contains(system),
    )
}

/// A resource only goes to systems that react to some event.
pub proof fn lemma_targets_react(round: ExecutionRound, resource: PipelineResourceView, system: SystemKey)
    requires
        round.targets(resource).contains(system),
    ensures
        round.reacting(system),
{
    let key = Some(resource.pipeline_id);
    assert(round.reacts(round.pipeline_event_map()[key], system));
}

proof fn lemma_hand_out(
    round: ExecutionRound,
    start: Map<SystemKey, Set<EntityId>>,
    resources: Seq<PipelineResourceView>,
)
    requires
        forall|system: SystemKey|
            #[trigger] round.reacting(system) ==> start.contains_key(system) && start[system] == Set::<
                EntityId,
            >::empty(),
    ensures
        after_hand_out(round, start, resources).dom() == start.dom(),
        forall|system: SystemKey|
            #[trigger] round.reacting(system) ==> after_hand_out(round, start, resources)[system] == handed(
                round,
                resources,
                system,
            ),
        forall|system: SystemKey|
            start.contains_key(system) && !round.reacting(system) ==> #[trigger] after_hand_out(
                round,
                start,
                resources,
            )[system] == start[system],
    decreases resources.len(),
{
    if resources.len() == 0 {
        assert forall|system: SystemKey| #[trigger] round.reacting(system) implies after_hand_out(
            round,
            start,
            resources,
        )[system] == handed(round, resources, system) by {
            assert(handed(round, resources, system) =~= Set::<EntityId>::empty());
        }
    } else {
        let earlier_resources = resources.drop_last();
        lemma_hand_out(round, start, earlier_resources);
        let earlier = after_hand_out(round, start, earlier_resources);
        let resource = resources.last();
        let result = after_hand_out(round, start, resources);
        assert forall|system: SystemKey| #[trigger] round.targets(resource).contains(system) implies earlier.contains_key(system) by {
            lemma_targets_react(round, resource, system);
        }
        assert(result.dom() =~= start.dom());
        assert forall|system: SystemKey| #[trigger] round.reacting(system) implies result[system] == handed(
            round,
            resources,
            system,
        ) by {
            let before = handed(round, earlier_resources, system);
            assert(earlier[system] == before);
            if round.targets(resource).contains(system) {
                assert forall|entity: EntityId| handed(round, resources, system).contains(entity) <==> before.insert(resource.entity).contains(entity) by {
                    if before.contains(entity) {
                        let i = choose|i: int|
                            0 <= i < earlier_resources.len() && #[trigger] earlier_resources[i].entity == entity
                                && round.targets(earlier_resources[i]).contains(system);
                        assert(resources[i] == earlier_resources[i]);
                    }
                    if entity == resource.entity {
                        assert(resources[resources.len() - 1].entity == entity);
                    }
                    if handed(round, resources, system).contains(entity) && entity != resource.entity {
                        let i = choose|i: int|
                            0 <= i < resources.len() && #[trigger] resources[i].entity == entity && round.targets(
                                resources[i],
                            ).contains(system);
                        assert(i < resources.len() - 1);
                        assert(earlier_resources[i] == resources[i]);
                    }
                }
                assert(handed(round, resources, system) =~= before.insert(resource.entity));
            } else {
                assert forall|entity: EntityId| handed(round, resources, system).contains(entity) <==> before.contains(entity) by {
                    if before.contains(entity) {
                        let i = choose|i: int|
                            0 <= i < earlier_resources.len() && #[trigger] earlier_resources[i].entity == entity
                                && round.targets(earlier_resources[i]).contains(system);
                        assert(resources[i] == earlier_resources[i]);
                    }
                    if handed(round, resources, system).contains(entity) {
                        let i = choose|i: int|
                            0 <= i < resources.len() && #[trigger] resources[i].entity == entity && round.targets(
                                resources[i],
                            ).contains(system);
                        assert(i != resources.len() - 1);
                        assert(earlier_resources[i] == resources[i]);
                    }
                }
                assert(handed(round, resources, system) =~= before);
            }
        }
        assert forall|system: SystemKey| start.contains_key(system) && !round.reacting(system) implies #[trigger] result[system] == start[system] by {
            if round.targets(resource).contains(system) {
                lemma_targets_react(round, resource, system);
            }
        }
    }
}

/// The pipeline resources that a round leaves behind: once the reacting
/// systems have been emptied and every resource handed to the systems named
/// for it, a system that reacts to some event holds exactly the entities of
/// the resources whose pipeline raised an event it reacts to, and every other
/// system holds what it held before.
pub proof fn law_resources_after_round(
    round: ExecutionRound,
    world: Map<SystemKey, Set<EntityId>>,
    resources: Seq<PipelineResourceView>,
)
    ensures
        after_hand_out(round, after_reset(round, world), resources).dom() == world.dom().union(
            Set::new(|system: SystemKey| round.reacting(system)),
        ),
        forall|system: SystemKey|
            #[trigger] round.reacting(system) ==> after_hand_out(round, after_reset(round, world), resources)[system]
                == handed(round, resources, system),
        forall|system: SystemKey|
            world.contains_key(system) && !round.reacting(system) ==> #[trigger] after_hand_out(
                round,
                after_reset(round, world),
                resources,
            )[system] == world[system],
{
    let start = after_reset(round, world);
    lemma_hand_out(round, start, resources);
    assert(start.dom() =~= world.dom().union(Set::new(|system: SystemKey| round.reacting(system))));
}

/// What a round does to the systems' pipeline resources is fixed by what was
/// reported to it: two rounds that agree on which system reacts to which event
/// and on the event each pipeline raised (whatever the order the reports came
/// in) leave any world in the same state. No step of a round reads anything
/// else, such as the events of the current frame or the event history.
pub proof fn law_round_fixed_by_reports(
    first: ExecutionRound,
    second: ExecutionRound,
    world: Map<SystemKey, Set<EntityId>>,
    resources: Seq<PipelineResourceView>,
)
    requires
        forall|event: EventKey, system: SystemKey| #[trigger] first.reacts(event, system) == second.reacts(event, system),
        first.pipeline_event_map() == second.pipeline_event_map(),
    ensures
        after_hand_out(first, after_reset(first, world), resources) == after_hand_out(
            second,
            after_reset(second, world),
            resources,
        ),
{
    law_resources_after_round(first, world, resources);
    law_resources_after_round(second, world, resources);
    let a = after_hand_out(first, after_reset(first, world), resources);
    let b = after_hand_out(second, after_reset(second, world), resources);
    assert forall|system: SystemKey| first.reacting(system) == second.reacting(system) by {
        if first.reacting(system) {
            let e = choose|e: EventKey| #[trigger] first.reacts(e, system);
            assert(second.reacts(e, system));
        }
        if second.reacting(system) {
            let e = choose|e: EventKey| #[trigger] second.reacts(e, system);
            assert(first.reacts(e, system));
        }
    }
    assert forall|resource: PipelineResourceView| #[trigger] first.targets(resource) == second.targets(resource) by {
        assert(first.targets(resource) =~= second.targets(resource));
    }
    assert forall|system: SystemKey| #[trigger] handed(first, resources, system) == handed(second, resources, system) by {
        assert forall|i: int| 0 <= i < resources.len() implies first.targets(resources[i]) == second.targets(resources[i]) by {
            assert(first.targets(resources[i]) == second.targets(resources[i]));
        }
        assert(handed(first, resources, system) =~= handed(second, resources, system));
    }
    assert(a.dom() =~= b.dom());
    assert forall|system: SystemKey| a.contains_key(system) implies a[system] == b[system] by {
        if first.reacting(system) {
            assert(handed(first, resources, system) == handed(second, resources, system));
        }
    }
    assert(a =~= b);
}

/// The pipelines that an executable event marks: exactly those whose next
/// executable is the event's executable, each mapped to the event; and there
/// are as many of them as the times the event is raised.
pub proof fn law_triggered(next: Seq<(Option<PipelineId>, Seq<char>)>, id: Seq<char>, event: EventKey)
    requires
        unique_keys(next),
    ensures
        forall|key: Option<PipelineId>|
            #[trigger] triggered(pairs_map(next), id, event).contains_key(key) <==> (exists|i: int|
                0 <= i < next.len() && next[i] == (key, id)),
        forall|key: Option<PipelineId>|
            #[trigger] triggered(pairs_map(next), id, event).contains_key(key) ==> triggered(
                pairs_map(next),
                id,
                event,
            )[key] == event,
        triggered(pairs_map(next), id, event).dom().finite(),
        triggered(pairs_map(next), id, event).len() == count_value(next, id),
{
    let map = pairs_map(next);
    let marked = triggered(map, id, event);
    assert forall|key: Option<PipelineId>| #[trigger] marked.contains_key(key) <==> (exists|i: int|
        0 <= i < next.len() && next[i] == (key, id)) by {
        if marked.contains_key(key) {
            let i = choose|i: int| 0 <= i < next.len() && next[i].0 == key;
            lemma_value_at(next, i);
            assert(next[i] == (key, id));
        }
        if exists|i: int| 0 <= i < next.len() && next[i] == (key, id) {
            let i = choose|i: int| 0 <= i < next.len() && next[i] == (key, id);
            lemma_value_at(next, i);
        }
    }
    lemma_count_is_keys_with_value(next, id);
    assert(marked.dom() =~= keys_with_value(map, id));
}

/// The systems a resource goes to: exactly those that react to the event
/// recorded for the resource's own pipeline; none where that pipeline raised
/// no event.
pub proof fn law_targets(round: ExecutionRound, resource: PipelineResourceView, system: SystemKey)
    ensures
        round.targets(resource).contains(system) <==> round.pipeline_event_map().contains_key(
            Some(resource.pipeline_id),
        ) && round.reacts(round.pipeline_event_map()[Some(resource.pipeline_id)], system),
        !round.pipeline_event_map().contains_key(Some(resource.pipeline_id)) ==> round.targets(resource)
            == Set::<SystemKey>::empty(),
{
    if !round.pipeline_event_map().contains_key(Some(resource.pipeline_id)) {
        assert(round.targets(resource) =~= Set::<SystemKey>::empty());
    }
}

/// A system reacts to some event exactly when some recorded reaction names it.
pub proof fn law_reacting(round: ExecutionRound, system: SystemKey)
    ensures
        round.reacting(system) <==> exists|i: int|
            0 <= i < round.reactions().len() && (#[trigger] round.reactions()[i]).1 == system,
{
    if round.reacting(system) {
        let event = choose|event: EventKey| #[trigger] round.reacts(event, system);
        let i = choose|i: int| 0 <= i < round.reactions().len() && round.reactions()[i] == (event, system);
        assert(round.reactions()[i].1 == system);
    }
    if exists|i: int| 0 <= i < round.reactions().len() && (#[trigger] round.reactions()[i]).1 == system {
        let i = choose|i: int| 0 <= i < round.reactions().len() && (#[trigger] round.reactions()[i]).1 == system;
        assert(round.reacts(round.reactions()[i].0, system));
    }
}

} // verus!
