use std::collections::HashMap;

use event_executable::prelude::{
    reset_action, EntityId, EventReactor, ExecutableEvent, ExecutablePipeline, ExecutionRound,
    PipelineId, PipelineResource, PipelineResources, ResetAction, SystemKey,
};

const E1: EntityId = (1u64 << 32) | 1;
const E2: EntityId = (1u64 << 32) | 2;
const E3: EntityId = (1u64 << 32) | 3;
const R1: EntityId = (2u64 << 32) | 10;
const R2: EntityId = (2u64 << 32) | 11;

fn pipeline(names: &[Option<&str>]) -> ExecutablePipeline {
    ExecutablePipeline::new(names.iter().map(|n| n.map(|s| s.to_string())).collect())
}

#[test]
fn advance_records_next_executable() {
    let mut round = ExecutionRound::new();
    let mut p = pipeline(&[Some("spawn"), Some("move")]);
    round.advance_pipeline(E1, &mut p, Some(PipelineId::Number(3)));
    assert!(round.exhausted_entities().is_empty());
    // the pipeline moved on by one step
    assert_eq!(p.pop_front(), Some(&Some("move".to_string())));
    round.record_executable_event(&ExecutableEvent::new("spawn".to_string(), 5));
    assert_eq!(round.emitted_events(), &vec![5]);
}

#[test]
fn advance_marks_finished_pipeline_exhausted() {
    let mut round = ExecutionRound::new();
    let mut p = pipeline(&[]);
    round.advance_pipeline(E1, &mut p, Some(PipelineId::Number(0)));
    let mut q = pipeline(&[None]);
    round.advance_pipeline(E2, &mut q, Some(PipelineId::Number(1)));
    assert!(round.exhausted_entities().contains(&E1));
    assert!(!round.exhausted_entities().contains(&E2));
    assert_eq!(round.exhausted_entities().len(), 1);
}

#[test]
fn empty_step_raises_nothing() {
    let mut round = ExecutionRound::new();
    let mut p = pipeline(&[None, Some("a")]);
    round.advance_pipeline(E1, &mut p, Some(PipelineId::Number(0)));
    round.record_executable_event(&ExecutableEvent::new("a".to_string(), 1));
    assert!(round.emitted_events().is_empty());
}

#[test]
fn event_is_raised_once_per_matching_pipeline() {
    let mut round = ExecutionRound::new();
    let mut p1 = pipeline(&[Some("a")]);
    let mut p2 = pipeline(&[Some("a")]);
    let mut p3 = pipeline(&[Some("b")]);
    round.advance_pipeline(E1, &mut p1, Some(PipelineId::Number(0)));
    round.advance_pipeline(E2, &mut p2, Some(PipelineId::Number(1)));
    round.advance_pipeline(E3, &mut p3, None);
    round.record_executable_event(&ExecutableEvent::new("a".to_string(), 7));
    round.record_executable_event(&ExecutableEvent::new("b".to_string(), 8));
    round.record_executable_event(&ExecutableEvent::new("c".to_string(), 9));
    assert_eq!(round.emitted_events(), &vec![7, 7, 8]);
}

#[test]
fn later_report_for_same_pipeline_wins() {
    let mut round = ExecutionRound::new();
    let mut p1 = pipeline(&[Some("a")]);
    let mut p2 = pipeline(&[Some("b")]);
    round.advance_pipeline(E1, &mut p1, Some(PipelineId::Number(4)));
    round.advance_pipeline(E2, &mut p2, Some(PipelineId::Number(4)));
    round.record_executable_event(&ExecutableEvent::new("a".to_string(), 1));
    round.record_executable_event(&ExecutableEvent::new("b".to_string(), 2));
    assert_eq!(round.emitted_events(), &vec![2]);
}

#[test]
fn reacting_systems_are_reset_once_each() {
    let mut round = ExecutionRound::new();
    round.record_event_reactor(1, E1, &EventReactor::new(vec![7, 8]));
    round.record_event_reactor(2, E2, &EventReactor::new(vec![8]));
    let mut reset = round.systems_to_reset();
    reset.sort();
    assert_eq!(reset, vec![(1, E1), (2, E2)]);
}

#[test]
fn resource_goes_to_systems_reacting_to_its_pipeline_event() {
    let mut round = ExecutionRound::new();
    let mut p = pipeline(&[Some("a")]);
    round.advance_pipeline(E3, &mut p, Some(PipelineId::Number(0)));
    round.record_executable_event(&ExecutableEvent::new("a".to_string(), 7));
    round.record_event_reactor(1, E1, &EventReactor::new(vec![7]));
    round.record_event_reactor(2, E2, &EventReactor::new(vec![8]));
    assert_eq!(round.resource_targets(&PipelineResource::new(PipelineId::Number(0), R1)), vec![(1, E1)]);
    assert!(round.resource_targets(&PipelineResource::new(PipelineId::Number(5), R1)).is_empty());
}

#[test]
fn resources_after_round() {
    // a world in which system (2, E2) already holds a stale resource and
    // (3, E3) holds one but reacts to nothing
    let mut world: HashMap<SystemKey, PipelineResources> = HashMap::new();
    let mut stale = PipelineResources::default();
    stale.insert(R2);
    world.insert((2, E2), stale.clone());
    world.insert((3, E3), stale.clone());

    let mut round = ExecutionRound::new();
    let mut p0 = pipeline(&[Some("a")]);
    let mut p1 = pipeline(&[Some("b")]);
    round.advance_pipeline(E1, &mut p0, Some(PipelineId::Number(0)));
    round.advance_pipeline(E2, &mut p1, Some(PipelineId::Number(1)));
    round.record_executable_event(&ExecutableEvent::new("a".to_string(), 7));
    round.record_executable_event(&ExecutableEvent::new("b".to_string(), 8));
    round.record_event_reactor(1, E1, &EventReactor::new(vec![7]));
    round.record_event_reactor(2, E2, &EventReactor::new(vec![7, 8]));

    for system in round.systems_to_reset() {
        match reset_action(world.contains_key(&system)) {
            ResetAction::ClearExisting => world.get_mut(&system).unwrap().clear(),
            ResetAction::InsertDefault => {
                world.insert(system, PipelineResources::default());
            }
        }
    }
    for resource in [PipelineResource::new(PipelineId::Number(0), R1), PipelineResource::new(PipelineId::Number(1), R2)] {
        for system in round.resource_targets(&resource) {
            world.get_mut(&system).unwrap().insert(*resource.entity());
        }
    }

    let first = &world[&(1, E1)];
    assert!(first.contains(R1) && !first.contains(R2));
    assert_eq!(first.len(), 1);
    let second = &world[&(2, E2)];
    assert!(second.contains(R1) && second.contains(R2));
    assert_eq!(second.len(), 2);
    let untouched = &world[&(3, E3)];
    assert!(untouched.contains(R2));
    assert_eq!(untouched.len(), 1);
}

#[test]
fn reset_action_follows_component_presence() {
    assert_eq!(reset_action(true), ResetAction::ClearExisting);
    assert_eq!(reset_action(false), ResetAction::InsertDefault);
}

fn hand_out(round: &ExecutionRound, resources: &[PipelineResource]) -> Vec<(SystemKey, Vec<EntityId>)> {
    let mut world: HashMap<SystemKey, PipelineResources> = HashMap::new();
    for system in round.systems_to_reset() {
        world.insert(system, PipelineResources::default());
    }
    for resource in resources {
        for system in round.resource_targets(resource) {
            world.get_mut(&system).unwrap().insert(*resource.entity());
        }
    }
    let mut out: Vec<(SystemKey, Vec<EntityId>)> = world
        .into_iter()
        .map(|(system, held)| {
            let mut entities: Vec<EntityId> = [R1, R2].into_iter().filter(|e| held.contains(*e)).collect();
            entities.sort();
            (system, entities)
        })
        .collect();
    out.sort();
    out
}

#[test]
fn round_is_fixed_by_reports_not_their_order() {
    let resources = [PipelineResource::new(PipelineId::Number(0), R1), PipelineResource::new(PipelineId::Number(1), R2)];

    let mut first = ExecutionRound::new();
    let mut a0 = pipeline(&[Some("a")]);
    let mut a1 = pipeline(&[Some("b")]);
    first.advance_pipeline(E1, &mut a0, Some(PipelineId::Number(0)));
    first.advance_pipeline(E2, &mut a1, Some(PipelineId::Number(1)));
    first.record_executable_event(&ExecutableEvent::new("a".to_string(), 7));
    first.record_executable_event(&ExecutableEvent::new("b".to_string(), 8));
    first.record_event_reactor(1, E1, &EventReactor::new(vec![7, 8]));
    first.record_event_reactor(2, E2, &EventReactor::new(vec![8]));

    let mut second = ExecutionRound::new();
    let mut b1 = pipeline(&[Some("b")]);
    let mut b0 = pipeline(&[Some("a")]);
    second.advance_pipeline(E2, &mut b1, Some(PipelineId::Number(1)));
    second.advance_pipeline(E1, &mut b0, Some(PipelineId::Number(0)));
    second.record_executable_event(&ExecutableEvent::new("b".to_string(), 8));
    second.record_executable_event(&ExecutableEvent::new("a".to_string(), 7));
    second.record_event_reactor(2, E2, &EventReactor::new(vec![8]));
    second.record_event_reactor(1, E1, &EventReactor::new(vec![8, 7]));

    let expected = vec![((1, E1), vec![R1, R2]), ((2, E2), vec![R2])];
    assert_eq!(hand_out(&first, &resources), expected);
    assert_eq!(hand_out(&second, &resources), expected);
}
