use cinnog::datalayer::{CommandBuffer, Component, Datalayer, EntityCommands};
use cinnog::loaders::mark_with;
use cinnog::systems::{GetResourceOperation, IncrementCounter, InsertResourceOperation};
use cinnog::world::{ComponentKind, ResourceKind};
use cinnog::{expect_resource, run_system, use_resource};
use cinnog::datalayer::Resource;

#[test]
fn spawn_assigns_stable_sequential_identifiers() {
    let mut data = Datalayer::new();
    let a = data.spawn(EntityCommands::new());
    let b = data.spawn(EntityCommands::new());
    let c = data.spawn(EntityCommands::new());
    assert_eq!(a.0, 0);
    assert_eq!(b.0, 1);
    assert_eq!(c.0, 2);
    assert_eq!(data.entity_count(), 3);
}

#[test]
fn spawned_components_are_attached() {
    let mut data = Datalayer::new();
    let mut bundle = EntityCommands::new();
    bundle.insert(Component::Label("valentin".to_string()));
    bundle.insert(Component::Marker(1));
    let e = data.spawn(bundle);
    match data.get_component(e, ComponentKind::Label) {
        Some(Component::Label(l)) => assert_eq!(l, "valentin"),
        _ => panic!("label missing"),
    }
    assert!(data.get_component(e, ComponentKind::Marker(1)).is_some());
    assert!(data.get_component(e, ComponentKind::Marker(2)).is_none());
    assert!(data.get_component(e, ComponentKind::Html).is_none());
}

#[test]
fn later_component_of_same_type_replaces_earlier() {
    let mut data = Datalayer::new();
    let mut bundle = EntityCommands::new();
    bundle.insert(Component::Label("first".to_string()));
    bundle.insert(Component::Label("second".to_string()));
    let e = data.spawn(bundle);
    match data.get_component(e, ComponentKind::Label) {
        Some(Component::Label(l)) => assert_eq!(l, "second"),
        _ => panic!("label missing"),
    }
}

#[test]
fn missing_resource_reads_none() {
    let data = Datalayer::new();
    assert!(use_resource(&data, ResourceKind::SiteName).is_none());
}

#[test]
fn insert_resource_read_back() {
    let mut data = Datalayer::new();
    data.insert_resource(Resource::SiteName("Bevy ECS + Leptos".to_string()));
    match expect_resource(&data, ResourceKind::SiteName) {
        Resource::SiteName(v) => assert_eq!(v, "Bevy ECS + Leptos"),
        _ => panic!("wrong resource kind"),
    }
}

#[test]
fn second_singleton_insert_wins() {
    let mut data = Datalayer::new();
    run_system(
        &mut data,
        &InsertResourceOperation { value: Resource::SiteName("first".to_string()) },
    );
    run_system(
        &mut data,
        &InsertResourceOperation { value: Resource::SiteName("second".to_string()) },
    );
    let read = run_system(&mut data, &GetResourceOperation { kind: ResourceKind::SiteName });
    match read {
        Some(Resource::SiteName(v)) => assert_eq!(v, "second"),
        _ => panic!("resource missing"),
    }
}

#[test]
fn deferred_insert_visible_to_later_operations() {
    let mut data = Datalayer::new();
    run_system(
        &mut data,
        &InsertResourceOperation { value: Resource::Counter(41) },
    );
    match use_resource(&data, ResourceKind::Counter) {
        Some(Resource::Counter(v)) => assert_eq!(v, 41),
        _ => panic!("counter missing"),
    }
}

#[test]
fn n_serialized_increments_advance_counter_by_n() {
    let mut data = Datalayer::new();
    let n: u64 = 25;
    for _ in 0..n {
        run_system(&mut data, &IncrementCounter);
    }
    match use_resource(&data, ResourceKind::Counter) {
        Some(Resource::Counter(v)) => assert_eq!(v, n),
        _ => panic!("counter missing"),
    }
}

#[test]
fn increment_returns_new_value() {
    let mut data = Datalayer::new();
    data.insert_resource(Resource::Counter(7));
    let out = run_system(&mut data, &IncrementCounter);
    assert_eq!(out, 8);
}

#[test]
fn mark_with_marks_all_listed_entities() {
    let mut data = Datalayer::new();
    let a = data.spawn(EntityCommands::new());
    let b = data.spawn(EntityCommands::new());
    let c = data.spawn(EntityCommands::new());
    let mut buffer = CommandBuffer::new();
    mark_with(&vec![a, c], 9, &mut buffer);
    data.apply(buffer);
    assert!(data.get_component(a, ComponentKind::Marker(9)).is_some());
    assert!(data.get_component(b, ComponentKind::Marker(9)).is_none());
    assert!(data.get_component(c, ComponentKind::Marker(9)).is_some());
}

#[test]
fn buffered_edits_commit_in_order() {
    let mut data = Datalayer::new();
    let e = data.spawn(EntityCommands::new());
    let mut buffer = CommandBuffer::new();
    buffer.insert(e, Component::Label("early".to_string()));
    buffer.insert(e, Component::Label("late".to_string()));
    buffer.insert_resource(Resource::Counter(1));
    buffer.insert_resource(Resource::Counter(2));
    data.apply(buffer);
    match data.get_component(e, ComponentKind::Label) {
        Some(Component::Label(l)) => assert_eq!(l, "late"),
        _ => panic!("label missing"),
    }
    match use_resource(&data, ResourceKind::Counter) {
        Some(Resource::Counter(v)) => assert_eq!(v, 2),
        _ => panic!("counter missing"),
    }
}

#[test]
fn insert_on_unknown_entity_is_ignored() {
    let mut data = Datalayer::new();
    let mut buffer = CommandBuffer::new();
    buffer.insert(
        cinnog::datalayer::Entity(5),
        Component::Label("nobody".to_string()),
    );
    data.apply(buffer);
    assert_eq!(data.entity_count(), 0);
}

#[test]
fn missing_singleton_is_an_explicit_fault() {
    let data = Datalayer::new();
    match cinnog::try_expect_resource(&data, ResourceKind::SiteName) {
        Err(cinnog::BuildError::MissingSingletonFault(kind)) => {
            assert_eq!(kind, ResourceKind::SiteName);
        }
        _ => panic!("expected a missing-singleton fault"),
    }
}

#[test]
fn present_singleton_is_returned() {
    let mut data = Datalayer::new();
    data.insert_resource(Resource::Counter(3));
    match cinnog::try_expect_resource(&data, ResourceKind::Counter) {
        Ok(Resource::Counter(v)) => assert_eq!(v, 3),
        _ => panic!("expected the counter"),
    }
}
