use kyoso::agent::demo::spawn_demo_scene;
use kyoso::agent::handle::{NodeRef, NodeTarget};
use kyoso::agent::mutate::{CreateSpec, MoveSpec, NewNode, UpdatePatch};
use kyoso::agent::path::OrderKey;
use kyoso::agent::pattern::{NodePattern, PatternDirection, PatternSpec};
use kyoso::agent::scan::ScanOpts;
use kyoso::agent::scene::{Frame, FrameData, Node, NodeKind};
use kyoso::agent::sdk::SceneAgent;
use kyoso::agent::tools::{SceneMutate, SceneRead};
use kyoso::agent::walk::{NodeIdentity, Order, TraversalQuery, WalkOpts};
use kyoso::agent::watch::WatchOpts;
use kyoso::agent::world::SceneWorld;

#[test]
fn describe_returns_a_single_tree_root_with_nested_children() {
    let mut agent = SceneAgent::new();
    let _ = spawn_demo_scene(agent.scene_world());

    let desc = agent.describe();

    // Demo scene: a single tree root (`Root`) carrying two children.
    assert_eq!(desc.metadata.root_count, 1);
    assert_eq!(desc.roots.len(), 1);

    let root = &desc.roots[0];
    assert_eq!(root.node_type, "frame");
    assert!(root.data.is_some(), "root carries typed data");

    // Root's two children: header (Frame) + body (Rectangle).
    let kinds: Vec<&str> = root.children.iter().map(|c| c.node_type.as_str()).collect();
    assert_eq!(root.children.len(), 2);
    assert!(kinds.contains(&"frame"));
    assert!(kinds.contains(&"rectangle"));
}

#[test]
fn describe_walks_all_depth_levels() {
    let mut agent = SceneAgent::new();
    let _ = spawn_demo_scene(agent.scene_world());

    let desc = agent.describe();

    // Demo tree depth: root(0) → header(1) → label(2). Max depth = 2.
    assert_eq!(desc.metadata.max_depth, 2);
}

#[test]
fn pattern_spec_finds_any_to_any_edges() {
    let mut agent = SceneAgent::new();
    let _ents = spawn_demo_scene(agent.scene_world());

    let mut spec = PatternSpec::new();
    let a = spec.add_node(NodePattern::any());
    let b = spec.add_node(NodePattern::any());
    spec.add_edge(a, b);

    let matches = agent.match_spec(&spec);
    assert_eq!(matches.len(), 1);
    let edge = &matches[0].edges[0];
    assert_eq!(edge.from.path.to_string(), "/Root/Header/Title");
    assert_eq!(edge.to.path.to_string(), "/Root/[b]/Caption");
}

#[test]
fn pattern_spec_kind_filter_post_filters_matches() {
    let mut agent = SceneAgent::new();
    let _ents = spawn_demo_scene(agent.scene_world());

    // Only Frame→Text — the demo's single edge is Text→Text, so this must
    // return zero.
    let mut spec = PatternSpec::new();
    let a = spec.add_node(NodePattern::of_kind(NodeKind::Frame));
    let b = spec.add_node(NodePattern::of_kind(NodeKind::Text));
    spec.add_edge(a, b);
    assert_eq!(agent.match_spec(&spec).len(), 0);

    // Text→Text must match the demo's one edge.
    let mut spec = PatternSpec::new();
    let a = spec.add_node(NodePattern::of_kind(NodeKind::Text));
    let b = spec.add_node(NodePattern::of_kind(NodeKind::Text));
    spec.add_edge(a, b);
    assert_eq!(agent.match_spec(&spec).len(), 1);
}

#[test]
fn pattern_spec_name_filter_matches_frame_name() {
    let mut agent = SceneAgent::new();
    let _ents = spawn_demo_scene(agent.scene_world());

    // Title is the Text node feeding the edge — exact-name filter matches it.
    let mut spec = PatternSpec::new();
    let a = spec.add_node(NodePattern::any().with_name("Title".into()));
    let b = spec.add_node(NodePattern::any());
    spec.add_edge(a, b);
    assert_eq!(agent.match_spec(&spec).len(), 1);
}

#[test]
fn pattern_spec_anchor_restricts_search_to_a_specific_entity() {
    let mut agent = SceneAgent::new();
    let ents = spawn_demo_scene(agent.scene_world());

    // Anchor a at root — root has no outgoing entity-edges, expect 0.
    let mut spec = PatternSpec::new();
    let a = spec.add_node(NodePattern::any());
    let b = spec.add_node(NodePattern::any());
    spec.add_edge(a, b);
    spec.add_anchor(a, NodeTarget::Entity(ents.root));
    assert_eq!(agent.match_spec(&spec).len(), 0);

    // Anchor a at label — label has the one outgoing SceneEdge.
    let mut spec = PatternSpec::new();
    let a = spec.add_node(NodePattern::any());
    let b = spec.add_node(NodePattern::any());
    spec.add_edge(a, b);
    spec.add_anchor(a, NodeTarget::Entity(ents.label));
    assert_eq!(agent.match_spec(&spec).len(), 1);
}

#[test]
fn match_refs_projects_entity_bindings_into_noderef_space() {
    let mut agent = SceneAgent::new();
    let _ents = spawn_demo_scene(agent.scene_world());

    let mut builder = SceneAgent::pattern_builder();
    let a = builder.node();
    let b = builder.node();
    let e = builder.edge(a, b);
    let pattern = builder.build();

    let matches = agent.find_matches(&pattern);
    assert_eq!(matches.len(), 1);

    let refs = agent.match_refs(&matches[0]);
    // Two pattern nodes → two NodeRefs.
    assert_eq!(refs.nodes.len(), 2);
    assert_eq!(refs.edges.len(), 1);

    // The pattern's edge maps the label → body_caption SceneEdge.
    let edge_ref = refs.edge(e);
    assert_eq!(edge_ref.from.path.to_string(), "/Root/Header/Title");
    assert_eq!(edge_ref.to.path.to_string(), "/Root/[b]/Caption");
    // a and b match the edge endpoints.
    assert!(refs.node(a).path.same(&edge_ref.from.path));
    assert!(refs.node(b).path.same(&edge_ref.to.path));
}

#[test]
fn one_edge_pattern_yields_the_single_label_to_caption_edge() {
    let mut agent = SceneAgent::new();
    let ents = spawn_demo_scene(agent.scene_world());

    let mut builder = SceneAgent::pattern_builder();
    let a = builder.node();
    let b = builder.node();
    let _e = builder.edge(a, b);
    let pattern = builder.build();

    let matches = agent.find_matches(&pattern);

    // Exactly one entity-edge in the fixture.
    assert_eq!(matches.len(), 1);
    let m = &matches[0];
    assert_eq!(m.node(a), ents.label);
    assert_eq!(m.node(b), ents.body_caption);
}

#[test]
fn anchored_pattern_to_unmatched_source_yields_nothing() {
    let mut agent = SceneAgent::new();
    let ents = spawn_demo_scene(agent.scene_world());

    // Anchor the source at `root` — root has no outgoing entity-edges, so this
    // should produce zero matches.
    let mut builder = SceneAgent::pattern_builder();
    let a = builder.node();
    let b = builder.node();
    builder.anchor(a, ents.root);
    let _e = builder.edge(a, b);
    let pattern = builder.build();

    let matches = agent.find_matches(&pattern);
    assert!(matches.is_empty(), "root has no outgoing edges; got {matches:?}");
}

#[test]
fn anchored_at_label_finds_the_caption() {
    let mut agent = SceneAgent::new();
    let ents = spawn_demo_scene(agent.scene_world());

    let mut builder = SceneAgent::pattern_builder();
    let a = builder.node();
    let b = builder.node();
    builder.anchor(a, ents.label);
    let _e = builder.edge(a, b);
    let pattern = builder.build();

    let matches = agent.find_matches(&pattern);
    assert_eq!(matches.len(), 1);
    assert_eq!(matches[0].node(b), ents.body_caption);
}

#[test]
fn scene_read_is_object_safe_and_routes_through_agent() {
    let mut agent = SceneAgent::new();
    let ents = spawn_demo_scene(agent.scene_world());
    agent.scene_world().update();

    // Coerce to `&mut dyn SceneRead` — this requires object-safety.
    let reader: &mut dyn SceneRead = &mut agent;

    let index = reader.scan(ScanOpts::default());
    assert!(index.catalog.total_nodes >= 5);

    let report = reader.inspect(NodeTarget::Entity(ents.header));
    assert!(report.variant.is_some());

    let walk = reader.walk(NodeTarget::Entity(ents.root), WalkOpts::default());
    assert!(!walk.rows.is_empty());

    // Watch must work too.
    let _page = reader.watch(None, WatchOpts::default());
}

#[test]
fn scene_mutate_is_object_safe_and_routes_through_agent() {
    let mut agent = SceneAgent::new();
    let _ents = spawn_demo_scene(agent.scene_world());
    agent.scene_world().update();

    let mutator: &mut dyn SceneMutate = &mut agent;

    // Create a fresh root.
    let created = mutator
        .create(CreateSpec {
            data: NewNode::Frame(FrameData { frame: Frame { name: "ViaTrait".into() } }),
            parent: None,
            position: None,
        })
        .expect("create");
    assert_eq!(created.node.path.to_string(), "/ViaTrait");

    // Update — same NodeRef.
    let updated = mutator
        .update(
            NodeTarget::Ref(created.node.clone()),
            UpdatePatch::default().with_frame_name("RenamedViaTrait".into()),
        )
        .expect("update");
    assert_eq!(updated.node.path.to_string(), "/RenamedViaTrait");

    // Delete.
    let deleted = mutator.delete(NodeTarget::Ref(updated.node.clone())).expect("delete");
    assert_eq!(deleted.node.path.to_string(), "/RenamedViaTrait");
}

#[test]
fn agent_satisfies_both_traits_simultaneously() {
    // The function signature is the test: it enforces that
    // `SceneAgent: SceneRead + SceneMutate` is a real bound the compiler
    // accepts.
    fn use_both<T: SceneRead + SceneMutate>(t: &mut T) {
        let _idx = t.scan(ScanOpts::default());
        let _ = t.create(CreateSpec {
            data: NewNode::Frame(FrameData::default()),
            parent: None,
            position: None,
        });
    }

    let mut agent = SceneAgent::new();
    use_both(&mut agent);
}

#[test]
fn scene_view_closure_runs_with_both_tree_and_graph() {
    let mut agent = SceneAgent::new();
    let ents = spawn_demo_scene(agent.scene_world());
    agent.scene_world().update();

    let view = agent.scene_view();
    // Tree: count all nodes reachable from root via children.
    let root_traversal = view.traverse_tree(ents.root, TraversalQuery::new());
    // Graph: count entity-edges.
    let (tree_node_count, graph_edge_count) = (root_traversal.len(), view.edge_count());

    assert_eq!(tree_node_count, 5);
    assert_eq!(graph_edge_count, 1);
}

#[test]
fn move_via_trait_relocates_subtree() {
    let mut agent = SceneAgent::new();
    let ents = spawn_demo_scene(agent.scene_world());
    agent.scene_world().update();

    let mutator: &mut dyn SceneMutate = &mut agent;
    let moved = mutator
        .move_node(MoveSpec {
            target: NodeTarget::Entity(ents.label),
            new_parent: Some(NodeTarget::Entity(ents.body)),
            position: OrderKey("z".into()),
        })
        .expect("move");
    assert_eq!(moved.node.path.to_string(), "/Root/[b]/Title");
}

#[test]
fn agent_subtree_yields_full_descendant_set_with_depth_metadata() {
    let mut agent = SceneAgent::new();
    let ents = spawn_demo_scene(agent.scene_world());

    let rows = agent
        .subtree(NodeTarget::Entity(ents.root), TraversalQuery::new().order(Order::Bfs));

    // root + header + body + label + body_caption = 5 nodes.
    assert_eq!(rows.len(), 5, "expected 5 rows, got {rows:?}");

    // First row is always the root at depth 0.
    assert_eq!(rows[0].entity, ents.root);
    assert_eq!(rows[0].depth, 0);

    // Every other row has a parent within the tree we walked.
    for row in rows.iter().skip(1) {
        assert!(row.parent.is_some(), "child {row:?} should have a parent");
    }
}

#[test]
fn agent_subtree_resolves_replicated_and_local_node_refs() {
    let mut agent = SceneAgent::new();
    let ents = spawn_demo_scene(agent.scene_world());

    let rows = agent.subtree(NodeTarget::Entity(ents.root), TraversalQuery::new());

    // Fixture binds root + header + body in EntityCrdtIndex; label and
    // body_caption are deliberately unbound.
    let by_entity: std::collections::HashMap<_, _> =
        rows.iter().map(|r| (r.entity, r.id)).collect();

    assert!(matches!(by_entity.get(&ents.root), Some(NodeIdentity::Replicated(_))));
    assert!(matches!(by_entity.get(&ents.header), Some(NodeIdentity::Replicated(_))));
    assert!(matches!(by_entity.get(&ents.body), Some(NodeIdentity::Replicated(_))));
    assert!(matches!(by_entity.get(&ents.label), Some(NodeIdentity::Local(_))));
    assert!(matches!(by_entity.get(&ents.body_caption), Some(NodeIdentity::Local(_))));
}

#[test]
fn agent_subtree_max_depth_caps_descent() {
    let mut agent = SceneAgent::new();
    let ents = spawn_demo_scene(agent.scene_world());

    let rows = agent.subtree(
        NodeTarget::Entity(ents.root),
        TraversalQuery::new().order(Order::Bfs).max_depth(1),
    );

    // depth-1 cap: root (depth 0) + header + body (depth 1) = 3 rows.
    assert_eq!(rows.len(), 3);
    assert!(rows.iter().all(|r| r.depth <= 1));
}

#[test]
fn list_per_variant_returns_correct_counts_and_data() {
    let mut agent = SceneAgent::new();
    let _ = spawn_demo_scene(agent.scene_world());

    let frames = agent.list_frames();
    let rects = agent.list_rectangles();
    let texts = agent.list_texts();

    // Demo scene: 2 Frames (root + header), 1 Rectangle (body), 2 Texts
    // (label + body_caption).
    assert_eq!(frames.len(), 2);
    assert_eq!(rects.len(), 1);
    assert_eq!(texts.len(), 2);

    // Frame names should include "Root" and "Header".
    let names: Vec<&str> = frames.iter().map(|(_, d)| d.frame.name.as_str()).collect();
    assert!(names.contains(&"Root"));
    assert!(names.contains(&"Header"));

    // Text contents.
    let contents: Vec<&str> = texts.iter().map(|(_, d)| d.text.content.as_str()).collect();
    assert!(contents.contains(&"Title"));
    assert!(contents.contains(&"Caption"));
}

#[test]
fn subtree_typed_dispatches_closed_sum_correctly() {
    let mut agent = SceneAgent::new();
    let ents = spawn_demo_scene(agent.scene_world());

    let rows = agent.subtree_typed(NodeTarget::Entity(ents.root), TraversalQuery::new());

    // 5 nodes total in the demo scene.
    assert_eq!(rows.len(), 5);

    // Map entity → kind for an exhaustive check.
    let by_entity: std::collections::HashMap<_, _> =
        rows.iter().map(|(r, n)| (r.entity, n.kind())).collect();

    assert_eq!(by_entity.get(&ents.root).copied(), Some(NodeKind::Frame));
    assert_eq!(by_entity.get(&ents.header).copied(), Some(NodeKind::Frame));
    assert_eq!(by_entity.get(&ents.body).copied(), Some(NodeKind::Rectangle));
    assert_eq!(by_entity.get(&ents.label).copied(), Some(NodeKind::Text));
    assert_eq!(by_entity.get(&ents.body_caption).copied(), Some(NodeKind::Text));

    // Materialised data still flows through.
    for (_, node) in &rows {
        match node {
            Node::Frame(d) => assert!(d.frame.name == "Root" || d.frame.name == "Header"),
            Node::Rectangle(_) => {}
            Node::Text(d) => assert!(d.text.content == "Title" || d.text.content == "Caption"),
        }
    }
}

#[test]
fn inspect_reports_components_and_typed_node_for_known_entity() {
    let mut agent = SceneAgent::new();
    let ents = spawn_demo_scene(agent.scene_world());

    let report = agent.inspect(NodeTarget::Entity(ents.header));

    // The component-name dump is non-empty.
    assert!(
        !report.component_names.is_empty(),
        "inspect should always return at least one component for a live entity",
    );

    // The typed node materialised as a Frame — this is the real
    // agent-relevant assertion.
    match report.variant {
        Some(Node::Frame(data)) => assert_eq!(data.frame.name, "Header"),
        other => panic!("expected Frame, got {other:?}"),
    }
}

#[test]
fn inspect_returns_empty_for_unknown_entity() {
    let mut agent = SceneAgent::new();
    let _ = spawn_demo_scene(agent.scene_world());

    let bogus: u64 = 99_999;
    let report = agent.inspect(NodeTarget::Entity(bogus));

    assert!(report.variant.is_none());
    assert!(report.entity_bits.is_none());
    assert!(report.component_names.is_empty());
}

#[test]
fn match_pattern_gives_references() {
    let mut agent = SceneAgent::new();
    let _ents = spawn_demo_scene(agent.scene_world());
    let mut builder = SceneAgent::pattern_builder();
    let a = builder.node();
    let b = builder.node();
    builder.edge(a, b);
    let found = agent.match_pattern(&builder.build());
    assert_eq!(found.len(), 1);
    assert_eq!(found[0].node(b).path.to_string(), "/Root/[b]/Caption");
}

#[test]
fn an_agent_takes_over_a_world() {
    let mut sw = kyoso::agent::world::SceneWorld::new();
    let ents = spawn_demo_scene(&mut sw);
    let mut agent = SceneAgent::from_scene_world(sw);
    let patch = UpdatePatch::default().with_text_content("New title".into());
    agent.update(NodeTarget::Entity(ents.label), patch).expect("update");
    match agent.inspect(NodeTarget::from(ents.label)).variant {
        Some(Node::Text(data)) => assert_eq!(data.text.content, "New title"),
        other => panic!("expected Text, got {other:?}"),
    }
    let node = agent.node_ref(ents.label).expect("reference");
    assert_eq!(node.path.to_string(), "/Root/Header/New title");
    assert!(agent.inspect(NodeTarget::from(&node)).entity().is_some());
}

#[test]
fn a_session_is_a_fresh_uuid() {
    let a = kyoso::agent::handle::SessionId::new();
    let b = kyoso::agent::handle::SessionId::new();
    assert_ne!(a, b);
    let text = a.to_string();
    assert_eq!(text.len(), 36);
    assert_eq!(text.as_bytes()[14], b'4');
    assert_eq!(
        kyoso::agent::handle::SessionId::from_uuid(0x0123_4567_89ab_4cde_8f01_2345_6789_abcd)
            .to_string(),
        "01234567-89ab-4cde-8f01-23456789abcd"
    );
}

#[test]
fn an_anchor_that_leads_nowhere_matches_nothing() {
    let mut agent = SceneAgent::new();
    let _ = spawn_demo_scene(agent.scene_world());
    let mut spec = PatternSpec::new();
    let a = spec.add_node(NodePattern::any());
    let b = spec.add_node(NodePattern::any());
    spec.add_edge(a, b);
    assert_eq!(agent.match_spec(&spec).len(), 1);
    spec.add_anchor(a, NodeTarget::Ref(NodeRef::from_path("/Nope".parse().unwrap())));
    assert!(agent.match_spec(&spec).is_empty());
}

#[test]
fn every_agent_has_a_random_session() {
    let a = SceneAgent::from_scene_world(SceneWorld::new());
    let b = SceneAgent::new();
    for session in [a.session(), b.session()] {
        // Version 4 and the RFC variant.
        assert_eq!((session.0 >> 76) & 0xf, 4);
        assert_eq!((session.0 >> 62) & 0x3, 2);
    }
}

#[test]
fn slots_admit_what_a_predicate_holds_of() {
    let mut agent = SceneAgent::new();
    let ents = spawn_demo_scene(agent.scene_world());
    let second = agent.scene_world().spawn_edge(ents.root, ents.header);
    let kind_is = |agent: &mut SceneAgent, kind| -> Vec<u64> {
        (0..ents.label_to_caption)
            .filter(|e| agent.scene_world().tree.kind_of(*e) == Some(kind))
            .collect()
    };
    let texts = kind_is(&mut agent, NodeKind::Text);
    let frames = kind_is(&mut agent, NodeKind::Frame);

    // Without a predicate both edges match.
    let mut builder = SceneAgent::pattern_builder();
    let a = builder.node();
    let b = builder.node();
    builder.edge(a, b);
    assert_eq!(agent.find_matches(&builder.build()).len(), 2);

    // From a text: the edge of the demo scene alone.
    let mut builder = SceneAgent::pattern_builder();
    let a = builder.node_among(texts);
    let b = builder.node();
    builder.edge(a, b);
    let found = agent.find_matches(&builder.build());
    assert_eq!(found.len(), 1);
    assert_eq!(found[0].edges, vec![ents.label_to_caption]);

    // From a frame: the other.
    let mut builder = SceneAgent::pattern_builder();
    let a = builder.node_among(frames);
    let b = builder.node();
    builder.edge(a, b);
    let found = agent.match_pattern(&builder.build());
    assert_eq!(found.len(), 1);
    assert_eq!(found[0].edges[0].entity, Some(second));
    assert_eq!(found[0].node(b).path.to_string(), "/Root/Header");

    // A predicate that holds of nothing.
    let mut builder = SceneAgent::pattern_builder();
    let a = builder.node_among(vec![]);
    let b = builder.node();
    builder.edge(a, b);
    assert!(agent.find_matches(&builder.build()).is_empty());
}

#[test]
fn edge_slots_admit_what_a_predicate_holds_of() {
    let mut agent = SceneAgent::new();
    let ents = spawn_demo_scene(agent.scene_world());
    let second = agent.scene_world().spawn_edge(ents.label, ents.body_caption);
    let matched = |agent: &mut SceneAgent, admitted| -> Vec<u64> {
        let mut builder = SceneAgent::pattern_builder();
        let a = builder.node();
        let b = builder.node();
        builder.edge_among(a, b, PatternDirection::Forward, admitted);
        agent.find_matches(&builder.build()).into_iter().flat_map(|m| m.edges).collect()
    };
    assert_eq!(matched(&mut agent, vec![second]), vec![second]);
    assert_eq!(
        matched(&mut agent, vec![second, ents.label_to_caption]),
        vec![ents.label_to_caption]
    );
    assert!(matched(&mut agent, vec![ents.label]).is_empty());
}

#[test]
fn deleting_and_reading_keep_the_rest_of_the_stream() {
    let mut agent = SceneAgent::default();
    let ents = spawn_demo_scene(agent.scene_world());
    agent.scene_world().update();
    let state = agent.scene_world().watch.as_mut().unwrap();
    assert_eq!(state.replicated_op.0, None);
    state.replicated_op.0 = Some(9);
    let capacity = state.buffer.capacity;
    let gone = agent.delete(NodeTarget::Entity(ents.body)).expect("delete");
    assert_eq!(gone.cursor.last_replicated_op, Some(9));

    // An overflow stays until the next scan, however often the stream is read.
    agent.scene_world().watch.as_mut().unwrap().buffer.overflowed = true;
    for _ in 0..2 {
        let page = agent.watch(None, WatchOpts::default());
        assert!(page.buffer_overflow);
        assert_eq!(page.next_cursor.last_replicated_op, Some(9));
    }
    let state = agent.scene_world().watch.as_ref().unwrap();
    assert_eq!(state.buffer.capacity, capacity);
    let session = state.buffer.session;
    assert!(session == agent.session());
    agent.scan(ScanOpts::default());
    assert!(!agent.watch(None, WatchOpts::default()).buffer_overflow);
}
