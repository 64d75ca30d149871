use kyoso::agent::demo::spawn_demo_scene;
use kyoso::agent::handle::{node_ref_for, NodeRef, SessionId};
use kyoso::agent::path::{OrderKey, ParsePathError, PathPart, ScenePath};
use kyoso::agent::world::SceneWorld;

#[test]
fn path_display_round_trips_shape() {
    let path = ScenePath::from_parts(vec![
        PathPart::Named { name: "Header".into(), index: 0 },
        PathPart::Named { name: "Title".into(), index: 2 },
        PathPart::Ordered { key: OrderKey("a".into()) },
    ]);
    assert_eq!(path.to_string(), "/Header/Title#2/[a]");
}

#[test]
fn path_display_escapes_special_chars() {
    let part = PathPart::Named { name: "foo/bar#baz".into(), index: 0 };
    assert_eq!(part.to_string(), r"foo\/bar\#baz");
}

#[test]
fn root_path_displays_as_slash() {
    assert_eq!(ScenePath::root().to_string(), "/");
    assert!(ScenePath::root().is_root());
}

fn rt(input: &str) {
    let p: ScenePath = input.parse().expect("parse");
    assert_eq!(p.to_string(), input, "round-trip mismatch");
}

#[test]
fn round_trip_via_from_str() {
    rt("/");
    rt("/Header");
    rt("/Header/Title");
    rt("/Header/Title#2");
    rt("/[a]");
    rt("/Root/[b]/Caption");
    rt(r"/foo\/bar");
    rt(r"/foo\#with-hash");
    rt(r"/[esc\]bracket]");
}

#[test]
fn parser_rejects_missing_leading_slash() {
    assert_eq!(
        "Header".parse::<ScenePath>().unwrap_err(),
        ParsePathError::MissingLeadingSlash,
    );
}

#[test]
fn parser_rejects_empty_segment() {
    assert_eq!("//foo".parse::<ScenePath>().unwrap_err(), ParsePathError::EmptySegment);
    assert_eq!("/foo/".parse::<ScenePath>().unwrap_err(), ParsePathError::EmptySegment);
}

#[test]
fn parser_rejects_bad_index() {
    assert_eq!("/foo#bar".parse::<ScenePath>().unwrap_err(), ParsePathError::BadIndex);
}

#[test]
fn round_trip_via_demo_scene() {
    let mut sw = SceneWorld::new();
    let ents = spawn_demo_scene(&mut sw);
    let session = SessionId::new();

    // Build a NodeRef for the label entity and confirm it resolves back.
    let label_ref = node_ref_for(&sw, ents.label, session).expect("label noderef");
    assert!(matches!(label_ref.path.last(), Some(PathPart::Named { .. })));

    let resolved = label_ref.resolve(&sw, session);
    assert_eq!(resolved, Some(ents.label));

    // Without the cached entity it must still resolve by path.
    let path_only = NodeRef::from_path(label_ref.path.clone());
    assert_eq!(path_only.resolve(&sw, session), Some(ents.label));

    // Another session: the cached entity is ignored; the path still works.
    let stale_session = SessionId::new();
    assert_eq!(label_ref.resolve(&sw, stale_session), Some(ents.label));
}

#[test]
fn crdt_bound_root_resolves_via_crdt_id() {
    let mut sw = SceneWorld::new();
    let ents = spawn_demo_scene(&mut sw);
    let session = SessionId::new();

    let root_ref = node_ref_for(&sw, ents.root, session).expect("root noderef");
    assert!(root_ref.crdt_id.is_some(), "root should be CRDT-bound in demo");

    // The path is wrong (root); the replicated identity must carry the resolve.
    let crdt_only =
        NodeRef::from_path(ScenePath::root()).with_crdt_id(root_ref.crdt_id.unwrap());
    assert_eq!(crdt_only.resolve(&sw, session), Some(ents.root));
}

#[test]
fn keys_with_slashes_round_trip() {
    rt("/[a/b]");
    rt("/Root/[a/b/]/Caption#1");
    let path = ScenePath::from_parts(vec![
        PathPart::Ordered { key: OrderKey("a/b".into()) },
        PathPart::Named { name: "c".into(), index: 0 },
    ]);
    assert_eq!(path.to_string(), "/[a/b]/c");
    assert_eq!("/[a/b]/c".parse::<ScenePath>().unwrap(), path);
}

#[test]
fn parser_rejects_unclosed_keys() {
    for input in [r"/[a\]", "/[a", "/[a]b", "/["] {
        assert_eq!(
            input.parse::<ScenePath>().unwrap_err(),
            ParsePathError::MalformedOrdered,
            "{input}"
        );
    }
    assert_eq!(r"[a\]".parse::<PathPart>().unwrap_err(), ParsePathError::MalformedOrdered);
    assert_eq!(
        r"[a\\]".parse::<PathPart>().unwrap(),
        PathPart::Ordered { key: OrderKey(r"a\".into()) }
    );
}
