use event_executable::prelude::{
    entity_id, entity_of, EventReactor, ExecutableEvent, InjectPipelineResources, PipelineId,
    PipelineResource, PipelineResources,
};

#[test]
fn pipeline_resources_insert_and_clear() {
    let mut resources = PipelineResources::default();
    assert_eq!(resources.len(), 0);
    resources.insert(5);
    resources.insert(5);
    resources.insert(6);
    assert_eq!(resources.len(), 2);
    assert!(resources.contains(5) && resources.contains(6));
    let copy = resources.clone();
    resources.clear();
    assert_eq!(resources.len(), 0);
    assert!(!resources.contains(5));
    assert_eq!(copy.len(), 2);
}

#[test]
fn injection_copies_the_shared_resources() {
    let mut shared = PipelineResources::default();
    shared.insert(9);
    let mut injected = InjectPipelineResources::from_shared(&shared);
    injected.pipeline_resources_mut().insert(10);
    assert!(injected.pipeline_resources().contains(9));
    assert!(injected.pipeline_resources().contains(10));
    assert!(!shared.contains(10));
}

#[test]
fn event_reactor_lists_each_event_once() {
    let reactor = EventReactor::new(vec![3, 1, 3, 2]);
    let mut events = reactor.events();
    events.sort();
    assert_eq!(events, vec![1, 2, 3]);
}

#[test]
fn executable_event_getters() {
    let event = ExecutableEvent::new("run".to_string(), 4);
    assert_eq!(event.id(), "run");
    assert_eq!(*event.event(), 4);
}

#[test]
fn pipeline_resource_getters() {
    let resource = PipelineResource::new(PipelineId::Number(2), 77);
    assert_eq!(*resource.pipeline_id(), PipelineId::Number(2));
    assert_eq!(*resource.entity(), 77);
}

#[test]
fn entity_ids_round_trip_through_hecs() {
    let mut world = hecs::World::new();
    let entity = world.spawn((1u8,));
    let id = entity_id(entity);
    assert!(id >= 1u64 << 32);
    assert_eq!(id, entity.to_bits().get());
    assert_eq!(entity_of(id), Some(entity));
    let other = world.spawn((2u8,));
    assert_ne!(entity_id(other), id);
    assert_eq!(entity_of(entity_id(other)), Some(other));
}

#[test]
fn bits_without_generation_name_no_entity() {
    assert_eq!(entity_of(0), None);
    assert_eq!(entity_of(7), None);
    assert!(entity_of(1u64 << 32).is_some());
}
