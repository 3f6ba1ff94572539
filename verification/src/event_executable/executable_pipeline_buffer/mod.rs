use std::collections::HashMap;

use vstd::prelude::*;
use vstd::std_specs::iter::IteratorSpec;

use crate::event_executable::executable_pipeline_buffer::executable_pipeline::ExecutablePipeline;
use crate::event_executable::pipeline_id::PipelineId;

pub mod executable_pipeline;

verus! {

broadcast use vstd::std_specs::hash::group_hash_axioms;

/// Pipelines waiting to be stepped, each under its identifier.
pub struct ExecutablePipelineBuffer {
    buffer: HashMap<u64, ExecutablePipeline>,
    current_id: Option<PipelineId>,
}

/// The identifier that the next inserted pipeline is stored under: one past
/// the current identifier, or `Number(0)` where there is none.
pub open spec fn next_pipeline_id(current: Option<PipelineId>) -> PipelineId {
    match current {
        Some(PipelineId::Number(n)) => PipelineId::Number((n + 1) as u64),
        None => PipelineId::Number(0),
    }
}

impl Default for ExecutablePipelineBuffer {
    fn default() -> (buffer: Self)
        ensures
            buffer.pipelines() == Map::<PipelineId, ExecutablePipeline>::empty(),
            buffer.current_id() == None::<PipelineId>,
            buffer.pipelines().dom().finite(),
    {
        let buffer = ExecutablePipelineBuffer { buffer: HashMap::new(), current_id: None };
        assert(buffer.pipelines() =~= Map::<PipelineId, ExecutablePipeline>::empty());
        proof {
            law_buffer_is_finite(buffer);
        }
        buffer
    }
}

impl ExecutablePipelineBuffer {
    /// The pipelines held, by identifier.
    pub closed spec fn pipelines(&self) -> Map<PipelineId, ExecutablePipeline> {
        Map::new(
            |id: PipelineId| self.buffer@.contains_key(id.number()),
            |id: PipelineId| self.buffer@[id.number()],
        )
    }

    /// The identifier that insertions count from.
    pub closed spec fn current_id(&self) -> Option<PipelineId> {
        self.current_id
    }

    /// The pipelines whose next step names an executable, mapped to that name.
    pub open spec fn ready(&self) -> Map<PipelineId, String> {
        Map::new(
            |id: PipelineId| self.pipelines().contains_key(id) && self.pipelines()[id].front() matches Some(Some(_)),
            |id: PipelineId| self.pipelines()[id].front()->Some_0->Some_0,
        )
    }

    /// Stores `pipeline` under the identifier after the current one (or
    /// `Number(0)`), replacing what was stored there. The current identifier
    /// itself is left as it was.
    pub fn insert(&mut self, pipeline: ExecutablePipeline)
        requires
            old(self).current_id() matches Some(PipelineId::Number(n)) ==> n < u64::MAX,
        ensures
            final(self).pipelines() == old(self).pipelines().insert(
                next_pipeline_id(old(self).current_id()),
                pipeline,
            ),
            final(self).current_id() == old(self).current_id(),
            final(self).pipelines().dom().finite(),
    {
        let next_id = if let Some(current_id) = &self.current_id {
            match current_id {
                PipelineId::Number(id_number) => PipelineId::Number(*id_number + 1),
            }
        } else {
            PipelineId::Number(0)
        };
        let key = match next_id {
            PipelineId::Number(n) => n,
        };
        self.buffer.insert(key, pipeline);
        assert(self.pipelines() =~= old(self).pipelines().insert(next_id, pipeline));
        proof {
            law_buffer_is_finite(*self);
        }
    }
    /// Empties the buffer and hands out, for each pipeline whose next step
    /// names an executable, its identifier with that name, each identifier
    /// once. The order of the pairs is the buffer's own.
    pub fn next(&mut self) -> (next_buffer: Vec<(PipelineId, String)>)
        ensures
            final(self).pipelines() == Map::<PipelineId, ExecutablePipeline>::empty(),
            final(self).current_id() == old(self).current_id(),
            next_buffer@.map_values(|entry: (PipelineId, String)| entry.0).no_duplicates(),
            forall|i: int|
                0 <= i < next_buffer@.len() ==> {
                    &&& old(self).ready().contains_key(#[trigger] next_buffer@[i].0)
                    &&& old(self).ready()[next_buffer@[i].0] == next_buffer@[i].1
                },
            forall|id: PipelineId|
                #[trigger] old(self).ready().contains_key(id) ==> exists|i: int|
                    0 <= i < next_buffer@.len() && next_buffer@[i].0 == id,
            next_buffer@.len() == old(self).ready().len(),
    {
        let mut next_buffer: Vec<(PipelineId, String)> = Vec::new();
        let ghost mut sources: Seq<int> = Seq::empty();
        let entry_iter = self.buffer.iter();
        let ghost entries = entry_iter.remaining();
        for entry in it: entry_iter
            invariant
                entries == it.seq(),
                entries.no_duplicates(),
                entries.len() == self.buffer@.dom().len(),
                forall|j: int|
                    #![trigger entries[j]]
                    0 <= j < entries.len() ==> self.buffer@.contains_key(*entries[j].0)
                        && self.buffer@[*entries[j].0] == *entries[j].1,
                forall|k: u64|
                    #[trigger] self.buffer@.contains_key(k) ==> entries.contains((&k, &self.buffer@[k])),
                sources.len() == next_buffer@.len(),
                forall|i: int, l: int| 0 <= i < l < sources.len() ==> sources[i] < sources[l],
                forall|i: int|
                    #![trigger sources[i]]
                    0 <= i < sources.len() ==> {
                        &&& 0 <= sources[i] < it.index()
                        &&& next_buffer@[i].0 == PipelineId::Number(*entries[sources[i]].0)
                        &&& self.ready().contains_key(next_buffer@[i].0)
                        &&& self.ready()[next_buffer@[i].0] == next_buffer@[i].1
                    },
                forall|j: int|
                    #![trigger entries[j]]
                    0 <= j < it.index() && self.ready().contains_key(PipelineId::Number(*entries[j].0))
                        ==> sources.contains(j),
        {
            let (key, pipeline) = entry;
            let ghost j = it.index();
            assert(entries[j] == entry);
            assert(self.pipelines()[PipelineId::Number(*key)] == *pipeline);
            if let Some(step) = pipeline.peek() {
                if let Some(executable_reference) = step {
                    next_buffer.push((PipelineId::Number(*key), executable_reference.clone()));
                    proof {
                        let id = PipelineId::Number(*key);
                        assert(self.pipelines().contains_key(id));
                        assert(self.pipelines()[id].front() == Some(Some(*executable_reference)));
                        assert(self.ready().contains_key(id));
                        assert(self.ready()[id] == *executable_reference);
                        let old_sources = sources;
                        sources = sources.push(j);
                        assert forall|j2: int| old_sources.contains(j2) implies sources.contains(j2) by {
                            let w = choose|w: int| 0 <= w < old_sources.len() && old_sources[w] == j2;
                            assert(sources[w] == j2);
                        }
                        assert(sources[sources.len() - 1] == j);
                    }
                }
            }
        }
        proof {
            assert forall|i: int| 0 <= i < next_buffer@.len() implies {
                &&& old(self).ready().contains_key(#[trigger] next_buffer@[i].0)
                &&& old(self).ready()[next_buffer@[i].0] == next_buffer@[i].1
            } by {
                let _ = sources[i];
            }
            let ids = next_buffer@.map_values(|entry: (PipelineId, String)| entry.0);
            assert forall|a: int, b: int|
                0 <= a < ids.len() && 0 <= b < ids.len() && a != b implies #[trigger] ids[a]
                != #[trigger] ids[b] by {
                let ja = sources[a];
                let jb = sources[b];
                assert(ja != jb);
                if *entries[ja].0 == *entries[jb].0 {
                    assert(entries[ja] == entries[jb]);
                }
            }
            assert forall|id: PipelineId| #[trigger] self.ready().contains_key(id) implies exists|i: int|
                0 <= i < next_buffer@.len() && next_buffer@[i].0 == id by {
                let k = id.number();
                assert(self.buffer@.contains_key(k));
                let j = entries.index_of((&k, &self.buffer@[k]));
                assert(entries[j].0 == k);
                assert(PipelineId::Number(k) == id);
                assert(sources.contains(j));
                let w = choose|w: int| 0 <= w < sources.len() && sources[w] == j;
                assert(next_buffer@[w].0 == id);
            }
        }
        proof {
            let ids = next_buffer@.map_values(|entry: (PipelineId, String)| entry.0);
            assert forall|id: PipelineId| ids.to_set().contains(id) <==> self.ready().dom().contains(id) by {
                if ids.to_set().contains(id) {
                    let i = choose|i: int| 0 <= i < ids.len() && ids[i] == id;
                    assert(self.ready().contains_key(next_buffer@[i].0));
                }
                if self.ready().contains_key(id) {
                    let i = choose|i: int| 0 <= i < next_buffer@.len() && next_buffer@[i].0 == id;
                    assert(ids[i] == id);
                }
            }
            assert(ids.to_set() =~= self.ready().dom());
            ids.unique_seq_to_set();
        }
        self.buffer.clear();
        assert(self.pipelines() =~= Map::<PipelineId, ExecutablePipeline>::empty());
        next_buffer
    }
}

/// What `insert` and `next` do together: a pipeline just inserted is handed
/// out by the following `next`, under the identifier it was stored under,
/// exactly when its next step names an executable, and with that name.
pub proof fn law_inserted_pipeline_is_next(
    before: ExecutablePipelineBuffer,
    after: ExecutablePipelineBuffer,
    pipeline: ExecutablePipeline,
)
    requires
        after.pipelines() == before.pipelines().insert(next_pipeline_id(before.current_id()), pipeline),
    ensures
        after.ready().contains_key(next_pipeline_id(before.current_id())) <==> pipeline.front() matches Some(
            Some(_),
        ),
        pipeline.front() matches Some(Some(name)) ==> after.ready()[next_pipeline_id(before.current_id())]
            == name,
{
    let id = next_pipeline_id(before.current_id());
    assert(after.pipelines().contains_key(id));
    assert(after.pipelines()[id] == pipeline);
}

/// A buffer that `next` has emptied hands out nothing more.
pub proof fn law_emptied_buffer_is_ready_for_nothing(buffer: ExecutablePipelineBuffer)
    requires
        buffer.pipelines() == Map::<PipelineId, ExecutablePipeline>::empty(),
    ensures
        buffer.ready() == Map::<PipelineId, String>::empty(),
{
    assert(buffer.ready() =~= Map::<PipelineId, String>::empty());
}

/// A buffer holds finitely many pipelines, and
/// only those of them can be ready.
pub proof fn law_buffer_is_finite(buffer: ExecutablePipelineBuffer)
    ensures
        buffer.pipelines().dom().finite(),
        buffer.ready().dom().subset_of(buffer.pipelines().dom()),
        buffer.ready().dom().finite(),
        buffer.ready().len() <= buffer.pipelines().len(),
{
    let number = |n: u64| PipelineId::Number(n);
    let keys = buffer.buffer@.dom();
    assert(keys.finite());
    assert(buffer.pipelines().dom() =~= keys.map(number)) by {
        assert forall|id: PipelineId| keys.map(number).contains(id) <==> buffer.pipelines().dom().contains(id) by {
            if buffer.pipelines().dom().contains(id) {
                assert(number(id.number()) == id);
            }
        }
    }
    assert(vstd::relations::injective_on(number, keys));
    vstd::set_lib::lemma_map_size(keys, keys.map(number), number);
    vstd::set_lib::lemma_len_subset(buffer.ready().dom(), buffer.pipelines().dom());
}

/// The ready pipelines: those held whose next step names an executable, each
/// with that name.
pub proof fn law_ready(buffer: ExecutablePipelineBuffer, id: PipelineId)
    ensures
        buffer.ready().contains_key(id) <==> buffer.pipelines().contains_key(id) && buffer.pipelines()[id].front() is Some
            && buffer.pipelines()[id].front()->Some_0 is Some,
        buffer.ready().contains_key(id) ==> buffer.pipelines()[id].front() == Some(Some(buffer.ready()[id])),
{
}

/// Where an inserted pipeline goes: one past the current identifier, or
/// `Number(0)` while there is none.
pub proof fn law_next_pipeline_id(n: u64)
    requires
        n < u64::MAX,
    ensures
        next_pipeline_id(None) == PipelineId::Number(0),
        next_pipeline_id(Some(PipelineId::Number(n))) == PipelineId::Number((n + 1) as u64),
        next_pipeline_id(Some(PipelineId::Number(n))).number() == n + 1,
{
}

} // verus!
