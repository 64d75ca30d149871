use kyoso::agent::demo::spawn_demo_scene;
use kyoso::agent::handle::{node_ref_for, SessionId};
use kyoso::agent::navigate::{run_navigate, NavDir, NavEdgeFilter, NavOpts};
use kyoso::agent::scan::{build_catalog, build_scene_index, OutlineNode, ScanOpts};
use kyoso::agent::scene::{CrdtId, Node, NodeKind};
use kyoso::agent::walk::{run_walk, NodeProjection, WalkOpts};
use kyoso::agent::world::SceneWorld;

#[test]
fn catalog_counts_match_demo_scene() {
    let mut sw = SceneWorld::new();
    let _ents = spawn_demo_scene(&mut sw);
    let catalog = build_catalog(&sw);
    assert_eq!(catalog.total_nodes, 5);
    assert_eq!(catalog.kind_counts.get(NodeKind::Frame), Some(&2));
    assert_eq!(catalog.kind_counts.get(NodeKind::Rectangle), Some(&1));
    assert_eq!(catalog.kind_counts.get(NodeKind::Text), Some(&2));
    assert_eq!(catalog.max_depth, 2);
}

#[test]
fn outline_respects_depth_cap() {
    let mut sw = SceneWorld::new();
    let _ents = spawn_demo_scene(&mut sw);
    let session = SessionId::new();
    let index =
        build_scene_index(&sw, session, &ScanOpts { depth: 1, ..Default::default() });
    // Single root (Frame "Root"). Its children should not have grandchildren listed.
    assert_eq!(index.roots.len(), 1);
    for child in &index.roots[0].children {
        assert!(child.children.is_empty(), "depth=1 must not include grandchildren");
        // Children beyond the depth boundary should be flagged as elided if they exist.
        if child.child_count > 0 {
            assert_eq!(child.elided_children, child.child_count);
        }
    }
    assert_eq!(index.roots[0].children.len(), 2);
}

#[test]
fn outline_includes_cost_hints() {
    let mut sw = SceneWorld::new();
    let _ents = spawn_demo_scene(&mut sw);
    let index = build_scene_index(&sw, SessionId::new(), &ScanOpts::default());
    // Root subtree should contain 5 nodes (whole scene).
    assert_eq!(index.roots[0].subtree_cost.estimated_items, 5);
}

#[test]
fn outline_of_depth_zero_is_the_catalog_alone() {
    let mut sw = SceneWorld::new();
    let _ents = spawn_demo_scene(&mut sw);
    let index =
        build_scene_index(&sw, SessionId::new(), &ScanOpts { depth: 0, ..Default::default() });
    assert!(index.roots.is_empty());
    assert_eq!(index.catalog.total_nodes, 5);
}

#[test]
fn outline_cap_counts_what_it_leaves_out() {
    let mut sw = SceneWorld::new();
    let _ents = spawn_demo_scene(&mut sw);
    let index = build_scene_index(
        &sw,
        SessionId::new(),
        &ScanOpts { max_outline_rows: 2, ..Default::default() },
    );
    let root = &index.roots[0];
    assert_eq!(root.child_count, 2);
    assert_eq!(root.children.len() as u32 + root.elided_children, root.child_count);
    assert_eq!(root.children.len(), 1);
}

#[test]
fn unbounded_walk_covers_demo_scene() {
    let mut sw = SceneWorld::new();
    let ents = spawn_demo_scene(&mut sw);
    let walk = run_walk(&sw, SessionId::new(), ents.root, &WalkOpts::default());
    assert_eq!(walk.rows.len(), 5);
}

#[test]
fn depth_limit_caps_descent() {
    let mut sw = SceneWorld::new();
    let ents = spawn_demo_scene(&mut sw);
    let walk = run_walk(
        &sw,
        SessionId::new(),
        ents.root,
        &WalkOpts { depth_limit: Some(1), ..Default::default() },
    );
    // Root + 2 children at depth 1, nothing deeper.
    let depths: Vec<u32> = walk.rows.iter().map(|r| r.depth).collect();
    assert!(depths.iter().all(|d| *d <= 1));
    assert_eq!(depths.len(), 3);
}

#[test]
fn kind_filter_restricts_rows() {
    let mut sw = SceneWorld::new();
    let ents = spawn_demo_scene(&mut sw);
    let walk = run_walk(
        &sw,
        SessionId::new(),
        ents.root,
        &WalkOpts { kinds: vec![NodeKind::Text], ..Default::default() },
    );
    for row in &walk.rows {
        assert_eq!(row.kind, Some(NodeKind::Text));
    }
    assert_eq!(walk.rows.len(), 2);
}

#[test]
fn walk_max_items_truncates_and_flags() {
    let mut sw = SceneWorld::new();
    let ents = spawn_demo_scene(&mut sw);
    let walk = run_walk(
        &sw,
        SessionId::new(),
        ents.root,
        &WalkOpts { max_items: 2, ..Default::default() },
    );
    assert_eq!(walk.rows.len(), 2);
    assert!(walk.truncated);
}

#[test]
fn projection_ref_omits_variant_and_components() {
    let mut sw = SceneWorld::new();
    let ents = spawn_demo_scene(&mut sw);
    let walk = run_walk(&sw, SessionId::new(), ents.root, &WalkOpts::default());
    assert!(!walk.rows.is_empty());
    for row in &walk.rows {
        assert!(
            row.variant.is_none(),
            "default projection (Ref) must not embed Node variants"
        );
        assert!(
            row.component_names.is_none(),
            "default projection (Ref) must not embed component names"
        );
    }
}

#[test]
fn projection_variant_embeds_typed_node() {
    let mut sw = SceneWorld::new();
    let ents = spawn_demo_scene(&mut sw);
    let walk = run_walk(
        &sw,
        SessionId::new(),
        ents.root,
        &WalkOpts { projection: NodeProjection::Variant, ..Default::default() },
    );
    for row in &walk.rows {
        assert!(
            row.variant.is_some(),
            "Variant projection should materialise every demo-scene row"
        );
        assert!(
            row.component_names.is_none(),
            "Variant projection should not list component names"
        );
    }
    // Spot-check: root is the Frame "Root".
    let root_row =
        walk.rows.iter().find(|r| r.depth == 0).expect("walk must yield the root row");
    match root_row.variant.as_ref().unwrap() {
        Node::Frame(f) => assert_eq!(f.frame.name, "Root"),
        other => panic!("expected Frame variant at root, got {:?}", other),
    }
}

#[test]
fn projection_full_includes_component_names() {
    let mut sw = SceneWorld::new();
    let ents = spawn_demo_scene(&mut sw);
    let walk = run_walk(
        &sw,
        SessionId::new(),
        ents.root,
        &WalkOpts { projection: NodeProjection::Full, ..Default::default() },
    );
    for row in &walk.rows {
        assert!(row.variant.is_some());
        let names = row
            .component_names
            .as_ref()
            .expect("Full projection should populate component_names");
        assert!(!names.is_empty(), "every demo-scene entity carries components");
    }
}

#[test]
fn out_navigation_finds_children() {
    let mut sw = SceneWorld::new();
    let ents = spawn_demo_scene(&mut sw);
    let session = SessionId::new();
    let rows = run_navigate(
        &sw,
        session,
        ents.root,
        &NavOpts {
            direction: NavDir::Out,
            edges: NavEdgeFilter::TreeOnly,
            ..Default::default()
        },
    );
    assert_eq!(rows.len(), 2, "Root has 2 children (header, body)");
}

#[test]
fn in_navigation_finds_parent() {
    let mut sw = SceneWorld::new();
    let ents = spawn_demo_scene(&mut sw);
    let session = SessionId::new();
    let rows = run_navigate(
        &sw,
        session,
        ents.label,
        &NavOpts {
            direction: NavDir::In,
            edges: NavEdgeFilter::TreeOnly,
            ..Default::default()
        },
    );
    assert_eq!(rows.len(), 1, "label has one parent (header)");
}

#[test]
fn entity_edge_out_finds_target() {
    // Demo scene has a label→body_caption SceneEdge.
    let mut sw = SceneWorld::new();
    let ents = spawn_demo_scene(&mut sw);
    let session = SessionId::new();
    let rows = run_navigate(
        &sw,
        session,
        ents.label,
        &NavOpts {
            direction: NavDir::Out,
            edges: NavEdgeFilter::EntityEdgesOnly,
            ..Default::default()
        },
    );
    assert_eq!(rows.len(), 1, "label has 1 entity-edge → body_caption");
}

#[test]
fn upstream_walks_all_ancestors() {
    let mut sw = SceneWorld::new();
    let ents = spawn_demo_scene(&mut sw);
    let session = SessionId::new();
    let rows = run_navigate(
        &sw,
        session,
        ents.label,
        &NavOpts {
            direction: NavDir::Upstream,
            edges: NavEdgeFilter::TreeOnly,
            ..Default::default()
        },
    );
    // label → header → root
    assert_eq!(rows.len(), 2);
}

#[test]
fn kind_filter_restricts_results() {
    let mut sw = SceneWorld::new();
    let ents = spawn_demo_scene(&mut sw);
    let session = SessionId::new();
    let rows = run_navigate(
        &sw,
        session,
        ents.root,
        &NavOpts {
            direction: NavDir::Downstream,
            edges: NavEdgeFilter::TreeOnly,
            kinds: vec![NodeKind::Text],
            ..Default::default()
        },
    );
    assert_eq!(rows.len(), 2, "two Text nodes under root");
}

#[test]
fn hops_reach_no_further_than_asked() {
    let mut sw = SceneWorld::new();
    let ents = spawn_demo_scene(&mut sw);
    let session = SessionId::new();
    let rows = run_navigate(
        &sw,
        session,
        ents.root,
        &NavOpts {
            direction: NavDir::Out,
            edges: NavEdgeFilter::TreeOnly,
            depth_limit: Some(2),
            ..Default::default()
        },
    );
    assert_eq!(rows.len(), 4);
}

fn outline_kinds(rows: &[OutlineNode], kinds: &mut Vec<Option<NodeKind>>) {
    for row in rows {
        kinds.push(row.kind);
        outline_kinds(&row.children, kinds);
    }
}

#[test]
fn outline_kinds_hold_of_the_roots_too() {
    let mut sw = SceneWorld::new();
    let _ents = spawn_demo_scene(&mut sw);
    let texts = ScanOpts { kinds: vec![NodeKind::Text], ..Default::default() };
    assert!(build_scene_index(&sw, SessionId::new(), &texts).roots.is_empty());
    let frames = ScanOpts { kinds: vec![NodeKind::Frame], ..Default::default() };
    let mut kinds = Vec::new();
    outline_kinds(&build_scene_index(&sw, SessionId::new(), &frames).roots, &mut kinds);
    assert_eq!(kinds, vec![Some(NodeKind::Frame), Some(NodeKind::Frame)]);
}

#[test]
fn demo_nodes_have_their_paths() {
    let mut sw = SceneWorld::new();
    let ents = spawn_demo_scene(&mut sw);
    let session = SessionId::new();
    let path = |e| node_ref_for(&sw, e, session).map(|r| r.path.to_string());
    assert_eq!(path(ents.root).as_deref(), Some("/Root"));
    assert_eq!(path(ents.header).as_deref(), Some("/Root/Header"));
    assert_eq!(path(ents.label).as_deref(), Some("/Root/Header/Title"));
    assert_eq!(path(ents.body).as_deref(), Some("/Root/[b]"));
    assert_eq!(path(ents.body_caption).as_deref(), Some("/Root/[b]/Caption"));
    assert_eq!(path(ents.label_to_caption), None);
    let index = sw.crdt.as_ref().unwrap();
    assert_eq!(index.node_of_entity.get(&ents.body), Some(&CrdtId::new(1, 3)));
    assert_eq!(index.edge_of_entity.get(&ents.label_to_caption), None);
}
