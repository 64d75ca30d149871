use kyoso::agent::handle::{Cursor, NodeRef, SessionId};
use kyoso::agent::mutate::NewNode;
use kyoso::agent::scene::{Frame, FrameData, NodeKind, TextData};
use kyoso::agent::watch::{coalesce, read_page, ChangeKind, WatchOpts, WatchPlugin};
use kyoso::agent::world::SceneWorld;

fn world_with_plugin(session: SessionId) -> SceneWorld {
    let mut sw = SceneWorld::new();
    WatchPlugin::new(session).build(&mut sw);
    sw
}

#[test]
fn fresh_buffer_returns_empty_page() {
    let session = SessionId::new();
    let mut sw = world_with_plugin(session);
    sw.update();

    let page = read_page(&mut sw, session, None, &WatchOpts::default());
    assert!(page.changes.is_empty());
    assert!(!page.buffer_overflow);
    assert_eq!(page.next_cursor.session, session);
}

#[test]
fn spawning_a_node_shows_up_as_added() {
    let session = SessionId::new();
    let mut sw = world_with_plugin(session);
    sw.update(); // baseline

    let cursor_before = read_page(&mut sw, session, None, &WatchOpts::default()).next_cursor;

    sw.spawn_node(NewNode::Frame(FrameData { frame: Frame { name: "X".into() } }), None, None);
    sw.update();

    let page = read_page(&mut sw, session, Some(cursor_before), &WatchOpts::default());
    assert_eq!(page.changes.len(), 1);
    assert_eq!(page.changes[0].kind, ChangeKind::Added);
    assert_eq!(page.changes[0].node_kind, Some(NodeKind::Frame));
}

#[test]
fn cross_session_cursor_signals_overflow() {
    let session_a = SessionId::new();
    let session_b = SessionId::new();
    let mut sw = world_with_plugin(session_a);
    sw.update();

    // Cursor from a foreign session.
    let foreign = Cursor::baseline(session_b);
    let page = read_page(&mut sw, session_a, Some(foreign), &WatchOpts::default());
    assert!(page.buffer_overflow);
}

#[test]
fn removal_captures_pre_removal_path() {
    let session = SessionId::new();
    let mut sw = world_with_plugin(session);
    sw.update();

    // Spawn a named Frame and pump.
    let entity = sw.spawn_node(
        NewNode::Frame(FrameData { frame: Frame { name: "Doomed".into() } }),
        None,
        None,
    );
    sw.update();

    // Drain the Added events to advance the cursor past the spawn.
    let cursor_after_spawn =
        read_page(&mut sw, session, None, &WatchOpts::default()).next_cursor;

    // Despawn and pump.
    sw.despawn(entity);
    sw.update();

    let page = read_page(&mut sw, session, Some(cursor_after_spawn), &WatchOpts::default());
    assert_eq!(page.changes.len(), 1);
    let change = &page.changes[0];
    assert_eq!(change.kind, ChangeKind::Removed);
    // The path was captured *before* the despawn — so the row carries the
    // meaningful label, not a root stub.
    assert_eq!(change.node.path.to_string(), "/Doomed");
}

#[test]
fn coalesce_added_then_removed_is_removed() {
    assert_eq!(coalesce(ChangeKind::Added, ChangeKind::Removed), ChangeKind::Removed);
    assert_eq!(coalesce(ChangeKind::Removed, ChangeKind::Added), ChangeKind::Added);
    assert_eq!(coalesce(ChangeKind::Modified, ChangeKind::Moved), ChangeKind::Modified);
    assert_eq!(coalesce(ChangeKind::Added, ChangeKind::Modified), ChangeKind::Added);
}

#[test]
fn reading_on_from_the_cursor_gives_nothing_new() {
    let session = SessionId::new();
    let mut sw = world_with_plugin(session);
    sw.spawn_node(NewNode::Frame(FrameData::default()), None, None);
    sw.update();
    let first = read_page(&mut sw, session, None, &WatchOpts::default());
    assert_eq!(first.changes.len(), 1);
    let again = read_page(&mut sw, session, Some(first.next_cursor), &WatchOpts::default());
    assert!(again.changes.is_empty());
}

#[test]
fn a_full_buffer_is_flagged() {
    let session = SessionId::new();
    let mut sw = SceneWorld::new();
    WatchPlugin::new(session).with_capacity(1).build(&mut sw);
    sw.update();
    sw.spawn_node(NewNode::Frame(FrameData::default()), None, None);
    sw.spawn_node(NewNode::Frame(FrameData::default()), None, None);
    sw.update();
    let page = read_page(&mut sw, session, None, &WatchOpts::default());
    assert!(page.buffer_overflow);
}

fn named(name: &str) -> NewNode {
    NewNode::Frame(FrameData { frame: Frame { name: name.into() } })
}

#[test]
fn rows_that_were_not_returned_stay() {
    let session = SessionId::new();
    let mut sw = world_with_plugin(session);
    sw.spawn_node(named("A"), None, None);
    sw.spawn_node(NewNode::Text(TextData::default()), None, None);
    sw.update();
    let texts = WatchOpts { kinds: vec![NodeKind::Text], ..Default::default() };
    let page = read_page(&mut sw, session, None, &texts);
    assert_eq!(page.changes.len(), 1);
    assert_eq!(page.changes[0].node_kind, Some(NodeKind::Text));
    // The frame's row passed no filter, so it is still there; the text's is not.
    let page = read_page(&mut sw, session, None, &WatchOpts::default());
    assert_eq!(page.changes.len(), 1);
    assert_eq!(page.changes[0].node.path.to_string(), "/A");
    let page = read_page(&mut sw, session, None, &WatchOpts::default());
    assert!(page.changes.is_empty());
}

#[test]
fn a_capped_page_leaves_the_rest() {
    let session = SessionId::new();
    let mut sw = world_with_plugin(session);
    for name in ["A", "B", "C"] {
        sw.spawn_node(named(name), None, None);
    }
    sw.update();
    let two = WatchOpts { max_items: 2, ..Default::default() };
    let mut seen = Vec::new();
    for expected in [2, 1, 0] {
        let page = read_page(&mut sw, session, None, &two);
        assert_eq!(page.changes.len(), expected);
        seen.extend(page.changes.iter().map(|c| c.node.path.to_string()));
    }
    seen.sort();
    assert_eq!(seen, vec!["/A", "/B", "/C"]);
}

#[test]
fn a_row_without_a_path_names_its_entity() {
    let session = SessionId::new();
    let mut sw = world_with_plugin(session);
    let nameless = sw.spawn_node(NewNode::Frame(FrameData::default()), None, None);
    sw.update();
    let page = read_page(&mut sw, session, None, &WatchOpts::default());
    assert_eq!(page.changes.len(), 1);
    let node = &page.changes[0].node;
    assert!(node.path.is_root());
    assert_eq!(node.entity, Some(nameless));
    assert_eq!(node.session, Some(session));
}

#[test]
fn nothing_is_under_what_cannot_be_found() {
    let session = SessionId::new();
    let mut sw = world_with_plugin(session);
    sw.spawn_node(named("A"), None, None);
    sw.update();
    let nowhere = NodeRef::from_path("/Nope".parse().unwrap());
    let opts = WatchOpts { under: Some(nowhere), ..Default::default() };
    assert!(read_page(&mut sw, session, None, &opts).changes.is_empty());
    assert_eq!(read_page(&mut sw, session, None, &WatchOpts::default()).changes.len(), 1);
}
