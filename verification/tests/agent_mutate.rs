use kyoso::agent::demo::spawn_demo_scene;
use kyoso::agent::handle::{NodeTarget, SessionId};
use kyoso::agent::mutate::{
    create, delete, move_node, update, CreateSpec, MoveSpec, MutateError, NewNode, UpdatePatch,
};
use kyoso::agent::path::OrderKey;
use kyoso::agent::scene::{Frame, FrameData, Node, NodeKind};
use kyoso::agent::watch::WatchPlugin;
use kyoso::agent::world::SceneWorld;

fn agent_world() -> (SceneWorld, SessionId) {
    let session = SessionId::new();
    let mut sw = SceneWorld::new();
    WatchPlugin::new(session).build(&mut sw);
    sw.update();
    (sw, session)
}

#[test]
fn create_under_parent_places_node_at_path() {
    let (mut sw, session) = agent_world();
    let parent = create(
        &mut sw,
        session,
        CreateSpec {
            data: NewNode::Frame(FrameData { frame: Frame { name: "P".into() } }),
            parent: None,
            position: None,
        },
    )
    .expect("create parent");
    assert_eq!(parent.node.path.to_string(), "/P");

    let child = create(
        &mut sw,
        session,
        CreateSpec {
            data: NewNode::Frame(FrameData { frame: Frame { name: "C".into() } }),
            parent: Some(NodeTarget::Ref(parent.node.clone())),
            position: None,
        },
    )
    .expect("create child");
    assert_eq!(child.node.path.to_string(), "/P/C");
}

#[test]
fn update_changes_frame_name() {
    let (mut sw, session) = agent_world();
    let ents = spawn_demo_scene(&mut sw);
    sw.update();
    let result = update(
        &mut sw,
        session,
        NodeTarget::Entity(ents.header),
        UpdatePatch::default().with_frame_name("Renamed".into()),
    )
    .expect("update");
    // Path now reflects the new name.
    assert_eq!(result.node.path.to_string(), "/Root/Renamed");
    // And the actual component changed.
    match sw.tree.materialize_at(ents.header) {
        Some(Node::Frame(data)) => assert_eq!(data.frame.name, "Renamed"),
        other => panic!("read frame: {other:?}"),
    }
}

#[test]
fn empty_patch_is_rejected() {
    let (mut sw, session) = agent_world();
    let ents = spawn_demo_scene(&mut sw);
    sw.update();
    let err = update(
        &mut sw,
        session,
        NodeTarget::Entity(ents.header),
        UpdatePatch::default(),
    )
    .unwrap_err();
    assert_eq!(err, MutateError::EmptyPatch);
}

#[test]
fn delete_returns_pre_mutation_ref() {
    let (mut sw, session) = agent_world();
    let ents = spawn_demo_scene(&mut sw);
    sw.update();
    let result = delete(&mut sw, session, NodeTarget::Entity(ents.header)).expect("delete");
    // The returned NodeRef labels the dead entity.
    assert_eq!(result.node.path.to_string(), "/Root/Header");
    // Header is gone.
    assert!(!sw.tree.is_alive(ents.header));
    // Cascading: label was a child of header, so it's gone too.
    assert!(!sw.tree.is_alive(ents.label));
}

#[test]
fn move_relocates_subtree() {
    let (mut sw, session) = agent_world();
    let ents = spawn_demo_scene(&mut sw);
    sw.update();
    // Move `label` from under `header` to under `body`.
    let result = move_node(
        &mut sw,
        session,
        MoveSpec {
            target: NodeTarget::Entity(ents.label),
            new_parent: Some(NodeTarget::Entity(ents.body)),
            position: OrderKey("z".into()),
        },
    )
    .expect("move");
    assert_eq!(result.node.path.to_string(), "/Root/[b]/Title");
}

#[test]
fn missing_target_returns_error() {
    let (mut sw, session) = agent_world();
    let bogus: u64 = 99_999;
    let err = delete(&mut sw, session, NodeTarget::Entity(bogus)).unwrap_err();
    assert_eq!(err, MutateError::TargetNotFound);
}

#[test]
fn missing_parent_returns_error() {
    let (mut sw, session) = agent_world();
    let err = create(
        &mut sw,
        session,
        CreateSpec {
            data: NewNode::Frame(FrameData::default()),
            parent: Some(NodeTarget::Entity(99_999)),
            position: None,
        },
    )
    .unwrap_err();
    assert_eq!(err, MutateError::ParentNotFound);
    assert_eq!(err.to_string(), "parent node not found");
}

#[test]
fn patch_of_another_variant_changes_nothing() {
    let (mut sw, session) = agent_world();
    let ents = spawn_demo_scene(&mut sw);
    sw.update();
    let result = update(
        &mut sw,
        session,
        NodeTarget::Entity(ents.body),
        UpdatePatch::default().with_frame_name("x".into()),
    )
    .expect("update");
    assert_eq!(result.node.path.to_string(), "/Root/[b]");
    match sw.tree.materialize_at(ents.body) {
        Some(Node::Rectangle(_)) => {}
        other => panic!("expected a rectangle, got {other:?}"),
    }
}

#[test]
fn mutate_errors_have_messages() {
    assert_eq!(MutateError::TargetNotFound.to_string(), "target node not found");
    assert_eq!(MutateError::EmptyPatch.to_string(), "update patch had no fields set");
    assert_eq!(
        MutateError::VariantMismatch { expected: NodeKind::Text, patched: "frame_name" }
            .to_string(),
        "update patch field 'frame_name' doesn't apply to variant Text"
    );
}
