use event_executable::prelude::{ExecutablePipeline, ExecutablePipelineBuffer, PipelineId};

fn steps(names: &[Option<&str>]) -> Vec<Option<String>> {
    names.iter().map(|n| n.map(|s| s.to_string())).collect()
}

#[test]
fn pop_front_hands_out_steps_in_order() {
    let mut pipeline = ExecutablePipeline::new(steps(&[Some("a"), None, Some("b")]));
    assert_eq!(pipeline.pop_front(), Some(&Some("a".to_string())));
    assert_eq!(pipeline.pop_front(), Some(&None));
    assert_eq!(pipeline.pop_front(), Some(&Some("b".to_string())));
    assert_eq!(pipeline.pop_front(), None);
    assert_eq!(pipeline.pop_front(), None);
}

#[test]
fn pop_front_on_empty_pipeline_is_none() {
    let mut pipeline = ExecutablePipeline::new(Vec::new());
    assert_eq!(pipeline.pop_front(), None);
}

#[test]
fn inserted_pipeline_is_handed_out_by_next() {
    let mut buffer = ExecutablePipelineBuffer::default();
    buffer.insert(ExecutablePipeline::new(steps(&[Some("x"), Some("y")])));
    let next = buffer.next();
    assert_eq!(next, vec![(PipelineId::Number(0), "x".to_string())]);
}

#[test]
fn next_empties_the_buffer() {
    let mut buffer = ExecutablePipelineBuffer::default();
    buffer.insert(ExecutablePipeline::new(steps(&[Some("x"), Some("y")])));
    assert_eq!(buffer.next().len(), 1);
    assert_eq!(buffer.next(), Vec::new());
}

#[test]
fn second_insert_replaces_the_first() {
    let mut buffer = ExecutablePipelineBuffer::default();
    buffer.insert(ExecutablePipeline::new(steps(&[Some("first")])));
    buffer.insert(ExecutablePipeline::new(steps(&[Some("second")])));
    assert_eq!(buffer.next(), vec![(PipelineId::Number(0), "second".to_string())]);
}

#[test]
fn next_skips_empty_steps_and_finished_pipelines() {
    let mut buffer = ExecutablePipelineBuffer::default();
    buffer.insert(ExecutablePipeline::new(steps(&[None, Some("later")])));
    assert_eq!(buffer.next(), Vec::new());
    buffer.insert(ExecutablePipeline::new(Vec::new()));
    assert_eq!(buffer.next(), Vec::new());
}

#[test]
fn next_on_a_new_buffer_is_empty() {
    let mut buffer = ExecutablePipelineBuffer::default();
    assert!(buffer.next().is_empty());
}

#[test]
fn next_hands_out_one_pair_per_ready_pipeline() {
    let mut buffer = ExecutablePipelineBuffer::default();
    buffer.insert(ExecutablePipeline::new(steps(&[Some("a")])));
    let first = buffer.next();
    assert_eq!(first.len(), 1);
    buffer.insert(ExecutablePipeline::new(steps(&[None])));
    assert_eq!(buffer.next().len(), 0);
}
