use kyoso::agent::demo::spawn_demo_scene;
use kyoso::agent::handle::{node_ref_for, NodeRef, SessionId};
use kyoso::agent::path::OrderKey;
use kyoso::agent::query::{run_query, QuerySpec};
use kyoso::agent::scene::{Frame, SceneNode, Text};
use kyoso::agent::watch::WatchPlugin;
use kyoso::agent::world::SceneWorld;

fn agent_world() -> (SceneWorld, SessionId) {
    let session = SessionId::new();
    let mut sw = SceneWorld::new();
    WatchPlugin::new(session).build(&mut sw);
    sw.update();
    (sw, session)
}

#[test]
fn query_with_scene_node_matches_all_scene_entities() {
    let (mut sw, session) = agent_world();
    let _ents = spawn_demo_scene(&mut sw);
    sw.update();
    let spec = QuerySpec::new().with_type::<SceneNode>();
    let result = run_query(&sw, session, &spec);
    assert!(result.unknown_components.is_empty(), "{:?}", result.unknown_components);
    // 5 scene nodes in the demo.
    assert_eq!(result.rows.len(), 5);
}

#[test]
fn query_with_frame_matches_only_frames() {
    let (mut sw, session) = agent_world();
    let _ents = spawn_demo_scene(&mut sw);
    sw.update();
    let spec = QuerySpec::new().with_type::<Frame>();
    let result = run_query(&sw, session, &spec);
    // 2 frames (Root, Header).
    assert_eq!(result.rows.len(), 2);
}

#[test]
fn query_without_excludes_matching_entities() {
    let (mut sw, session) = agent_world();
    let _ents = spawn_demo_scene(&mut sw);
    sw.update();
    // SceneNodes that don't have OrderKey = root-level (no sibling-ordering).
    // In the demo, exactly the Root.
    let spec = QuerySpec::new().with_type::<SceneNode>().without_type::<OrderKey>();
    let result = run_query(&sw, session, &spec);
    assert_eq!(result.rows.len(), 1);
    assert_eq!(result.rows[0].path.to_string(), "/Root");
}

#[test]
fn query_under_restricts_to_subtree() {
    let (mut sw, session) = agent_world();
    let ents = spawn_demo_scene(&mut sw);
    sw.update();
    let header_ref = node_ref_for(&sw, ents.header, session).unwrap();
    let spec = QuerySpec::new().with_type::<Text>().under(header_ref);
    let result = run_query(&sw, session, &spec);
    // Only `label` (a Text) lives under header.
    assert_eq!(result.rows.len(), 1);
    assert_eq!(result.rows[0].path.to_string(), "/Root/Header/Title");
}

#[test]
fn unknown_component_name_surfaces_in_result() {
    let (mut sw, session) = agent_world();
    let _ents = spawn_demo_scene(&mut sw);
    sw.update();
    let spec = QuerySpec { with: vec!["MadeUpComponent".into()], ..Default::default() };
    let result = run_query(&sw, session, &spec);
    assert_eq!(result.unknown_components, vec!["MadeUpComponent".to_string()]);
    // No registered name in `with` → no entity can match.
    assert!(result.rows.is_empty());
}

#[test]
fn query_max_items_truncates_and_flags() {
    let (mut sw, session) = agent_world();
    let _ents = spawn_demo_scene(&mut sw);
    sw.update();
    let spec = QuerySpec::new().with_type::<SceneNode>().max_items(2);
    let result = run_query(&sw, session, &spec);
    assert_eq!(result.rows.len(), 2);
    assert!(result.truncated);
}

#[test]
fn kind_query_round_trips_through_short_name() {
    let (mut sw, session) = agent_world();
    let _ents = spawn_demo_scene(&mut sw);
    sw.update();
    // Use the short name "NodeKind" — the lookup falls back to it.
    let spec = QuerySpec { with: vec!["NodeKind".to_string()], ..Default::default() };
    let result = run_query(&sw, session, &spec);
    assert!(
        result.unknown_components.is_empty(),
        "short-name lookup failed: {:?}",
        result.unknown_components
    );
    // 5 entities carry NodeKind (one per SceneNode).
    assert_eq!(result.rows.len(), 5);
}

#[test]
fn query_under_a_missing_node_is_empty() {
    let (mut sw, session) = agent_world();
    let _ents = spawn_demo_scene(&mut sw);
    sw.update();
    let nowhere = NodeRef::from_path("/Nope".parse().unwrap());
    let spec = QuerySpec::new().with_type::<SceneNode>().under(nowhere);
    assert!(run_query(&sw, session, &spec).rows.is_empty());
}

#[test]
fn query_names_each_entity_once() {
    let (mut sw, session) = agent_world();
    let ents = spawn_demo_scene(&mut sw);
    sw.update();
    let root = node_ref_for(&sw, ents.root, session).unwrap();
    let spec = QuerySpec::new().with_type::<SceneNode>().under(root);
    let mut found: Vec<_> =
        run_query(&sw, session, &spec).rows.iter().map(|r| r.entity).collect();
    found.sort();
    let before = found.len();
    found.dedup();
    assert_eq!(found.len(), before);
}
