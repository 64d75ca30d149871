//! A small scene for demonstrations and tests.
use vstd::prelude::*;

use crate::agent::edit::same_components;
use crate::agent::mutate::{is_new_edge, is_new_node, NewNode};
use crate::agent::path::{OrderKey, PathPartView};
use crate::agent::scene::{
    CrdtId, Entity, Frame, FrameData, Rectangle, RectangleData, SceneTree, Text,
    TextData,
};
use crate::agent::watch::GraphMessage;
use crate::agent::world::{EntityCrdtIndex, SceneWorld};
use crate::seqs::{lemma_filter_agrees, lemma_filter_contains, lemma_filter_no_duplicates};

verus! {

#[derive(Clone, Copy, Debug, PartialEq, Eq, Structural)]
pub struct DemoSceneEntities {
    pub root: Entity,
    pub header: Entity,
    pub label: Entity,
    pub body: Entity,
    pub body_caption: Entity,
    /// The edge from `label` to `body_caption`.
    pub label_to_caption: Entity,
}

fn frame_named(name: &str) -> (r: NewNode)
    ensures
        demo_data(r) == DemoData::Frame(name@),
{
    NewNode::Frame(FrameData { frame: Frame { name: name.to_owned() } })
}

fn text_with(content: &str) -> (r: NewNode)
    ensures
        demo_data(r) == DemoData::Text(content@),
{
    NewNode::Text(TextData { text: Text { content: content.to_owned() } })
}

fn key(text: &str) -> (r: Option<OrderKey>)
    ensures
        r is Some,
        r->0@ == text@,
{
    Some(OrderKey(text.to_owned()))
}

/// Whether `e` is a fresh node at the identity transform, with the given data,
/// order key, parent and children, and no further component.
pub open spec fn stands(
    tree: SceneTree,
    e: Entity,
    data: DemoData,
    key: Option<Seq<char>>,
    parent: Option<Entity>,
    kids: Seq<Entity>,
) -> bool {
    &&& tree.alive(e)
    &&& exists|new: NewNode|
        #![trigger demo_data(new)]
        demo_data(new) == data && is_new_node(tree.rec(e), new, key)
    &&& tree.parent(e) == parent
    &&& tree.kids(e) == kids
}

/// What a demo node shows.
#[verifier::ext_equal]
pub ghost enum DemoData {
    /// A frame with its name.
    Frame(Seq<char>),
    Rectangle,
    /// A text with its content.
    Text(Seq<char>),
}

pub open spec fn demo_data(new: NewNode) -> DemoData {
    match new {
        NewNode::Frame(d) => DemoData::Frame(d.frame.name@),
        NewNode::Rectangle(_) => DemoData::Rectangle,
        NewNode::Text(d) => DemoData::Text(d.text.content@),
    }
}

/// Whether the tree holds the demo scene at the given entities.
pub open spec fn holds_demo(tree: SceneTree, d: DemoSceneEntities) -> bool {
    &&& stands(
        tree,
        d.root,
        DemoData::Frame("Root"@),
        None,
        None,
        seq![d.header, d.body],
    )
    &&& stands(
        tree,
        d.header,
        DemoData::Frame("Header"@),
        Some("a"@),
        Some(d.root),
        seq![d.label],
    )
    &&& stands(tree, d.label, DemoData::Text("Title"@), Some("a"@), Some(d.header), seq![])
    &&& stands(
        tree,
        d.body,
        DemoData::Rectangle,
        Some("b"@),
        Some(d.root),
        seq![d.body_caption],
    )
    &&& stands(tree, d.body_caption, DemoData::Text("Caption"@), Some("a"@), Some(d.body), seq![])
    &&& tree.alive(d.label_to_caption)
    &&& is_new_edge(tree.rec(d.label_to_caption), d.label, d.body_caption)
    &&& tree.parent(d.label_to_caption) is None
    &&& tree.kids(d.label_to_caption) == Seq::<Entity>::empty()
}

proof fn lemma_one_named(tree: SceneTree, list: Seq<Entity>, e: Entity, name: Seq<char>)
    requires
        tree.named(list, name) == seq![e],
    ensures
        tree.named(list, name).contains(e),
        tree.place(tree.named(list, name), e) == 0,
{
    let same = tree.named(list, name);
    let before = |s: Entity| tree.sib_less(s, e);
    assert(same[0] == e);
    tree.lemma_sib_irreflexive(e);
    reveal(Seq::filter);
    assert(same.drop_last() =~= seq![]);
    assert(same.drop_last().filter(before) =~= seq![]);
    assert(same.filter(before) =~= seq![]);
}

/// A node of the demo scene that alone of its siblings has its name.
proof fn lemma_demo_part(tree: SceneTree, parent: Option<Entity>, e: Entity)
    requires
        tree.scene(e),
        tree.title(e) is Some,
        parent is Some,
        forall|i: int|
            0 <= i < tree.kids(parent->0).len() ==> tree.kids(parent->0)[i] == e || tree.title(
                #[trigger] tree.kids(parent->0)[i],
            ) != tree.title(e),
        tree.kids(parent->0).no_duplicates(),
        tree.kids(parent->0).contains(e),
    ensures
        tree.part(parent, e) == Some(PathPartView::Named { name: tree.title(e)->0, index: 0 }),
{
    let kids = tree.kids(parent->0);
    let name = tree.title(e)->0;
    let is_scene = |c: Entity| tree.scene(c);
    let is_named = |s: Entity| tree.title(s) == Some(name);
    let siblings = kids.filter(is_scene);
    let same = siblings.filter(is_named);
    lemma_filter_contains(kids, is_scene, e);
    lemma_filter_contains(siblings, is_named, e);
    lemma_filter_no_duplicates(kids, is_scene);
    lemma_filter_no_duplicates(siblings, is_named);
    assert forall|i: int| 0 <= i < same.len() implies same[i] == e by {
        assert(same.contains(same[i]));
        lemma_filter_contains(siblings, is_named, same[i]);
        lemma_filter_contains(kids, is_scene, same[i]);
    }
    if same.len() > 1 {
        assert(same[0] != same[1]);
    }
    assert(same =~= seq![e]);
    assert(tree.named(tree.siblings(parent), name) == same);
    lemma_one_named(tree, tree.siblings(parent), e, name);
}

/// Where no other root is named "Root", the nodes of the demo scene have the
/// paths `/Root`, `/Root/Header`, `/Root/Header/Title`, `/Root/[b]` and
/// `/Root/[b]/Caption`.
pub proof fn demo_paths(tree: SceneTree, d: DemoSceneEntities)
    requires
        tree.wf(),
        holds_demo(tree, d),
        tree.named(tree.roots(), "Root"@) == seq![d.root],
    ensures
        tree.path(d.root) == Some(seq![PathPartView::Named { name: "Root"@, index: 0 }]),
        tree.path(d.header) == Some(
            seq![
                PathPartView::Named { name: "Root"@, index: 0 },
                PathPartView::Named { name: "Header"@, index: 0 },
            ],
        ),
        tree.path(d.label) == Some(
            seq![
                PathPartView::Named { name: "Root"@, index: 0 },
                PathPartView::Named { name: "Header"@, index: 0 },
                PathPartView::Named { name: "Title"@, index: 0 },
            ],
        ),
        tree.path(d.body) == Some(
            seq![
                PathPartView::Named { name: "Root"@, index: 0 },
                PathPartView::Ordered { key: "b"@ },
            ],
        ),
        tree.path(d.body_caption) == Some(
            seq![
                PathPartView::Named { name: "Root"@, index: 0 },
                PathPartView::Ordered { key: "b"@ },
                PathPartView::Named { name: "Caption"@, index: 0 },
            ],
        ),
{
    reveal_strlit("Root");
    reveal_strlit("Header");
    reveal_strlit("Title");
    reveal_strlit("Caption");
    lemma_one_named(tree, tree.roots(), d.root, "Root"@);
    assert(tree.title(d.root) == Some("Root"@));
    assert(tree.title(d.header) == Some("Header"@));
    assert(tree.title(d.label) == Some("Title"@));
    assert(tree.title(d.body) is None);
    assert(tree.title(d.body_caption) == Some("Caption"@));
    assert(tree.kids(d.root)[0] == d.header);
    assert(tree.kids(d.header)[0] == d.label);
    assert(tree.kids(d.body)[0] == d.body_caption);
    lemma_demo_part(tree, Some(d.root), d.header);
    lemma_demo_part(tree, Some(d.header), d.label);
    lemma_demo_part(tree, Some(d.body), d.body_caption);
    assert(tree.chain(d.root) =~= seq![d.root]);
    assert(tree.chain(d.header) =~= seq![d.root, d.header]);
    assert(tree.chain(d.label) =~= seq![d.root, d.header, d.label]);
    assert(tree.chain(d.body) =~= seq![d.root, d.body]);
    assert(tree.chain(d.body_caption) =~= seq![d.root, d.body, d.body_caption]);
    assert(tree.chain(d.root).drop_last() =~= seq![]);
    assert(tree.chain_parts(seq![]) =~= Some(seq![]));
    assert(tree.chain(d.header).drop_last() =~= tree.chain(d.root));
    assert(tree.chain(d.body).drop_last() =~= tree.chain(d.root));
    assert(tree.chain(d.label).drop_last() =~= tree.chain(d.header));
    assert(tree.chain(d.body_caption).drop_last() =~= tree.chain(d.body));
    let root = PathPartView::Named { name: "Root"@, index: 0 };
    let header = PathPartView::Named { name: "Header"@, index: 0 };
    let body = PathPartView::Ordered { key: "b"@ };
    assert(seq![].push(root) =~= seq![root]);
    assert(seq![root].push(header) =~= seq![root, header]);
    assert(seq![root].push(body) =~= seq![root, body]);
    assert(tree.path(d.label)->0 =~= seq![
        root,
        header,
        PathPartView::Named { name: "Title"@, index: 0 },
    ]);
    assert(tree.path(d.body_caption)->0 =~= seq![
        root,
        body,
        PathPartView::Named { name: "Caption"@, index: 0 },
    ]);
}

proof fn lemma_grown_scene_ids(after: SceneTree, before: SceneTree, parent: Option<Entity>)
    requires
        after.wf(),
        after.grown(before, parent),
    ensures
        after.scene_ids() == (if after.scene(before.slots@.len() as Entity) {
            before.scene_ids().push(before.slots@.len() as Entity)
        } else {
            before.scene_ids()
        }),
{
    let n = before.slots@.len();
    let was = |e: Entity| before.scene(e);
    let is = |e: Entity| after.scene(e);
    assert forall|i: int| 0 <= i < before.ids().len() implies is(#[trigger] before.ids()[i])
        == was(before.ids()[i]) by {
        let e = before.ids()[i];
        assert(e == i && e != n as Entity);
        assert(after.alive(e) <==> before.alive(e));
    }
    lemma_filter_agrees(before.ids(), is, was);
    assert(after.ids().drop_last() =~= before.ids());
    assert(after.ids().last() == n as Entity);
    reveal(Seq::filter);
}

/// Adds a small scene:
///
/// ```text
/// root (Frame "Root")
/// +-- header (Frame "Header")
/// |   +-- label (Text "Title") ----------+
/// +-- body (Rectangle)                   | edge
///     +-- body_caption (Text "Caption") <+
/// ```
///
/// The root, the header and the body get replicated identities.
pub fn spawn_demo_scene(sw: &mut SceneWorld) -> (r: DemoSceneEntities)
    requires
        old(sw).wf(),
        old(sw).tree.slots@.len() + 6 <= u32::MAX,
    ensures
        final(sw).wf(),
        final(sw).watch == old(sw).watch,
        final(sw).registry == old(sw).registry,
        final(sw).pending@ == old(sw).after_sending(
            seq![
                GraphMessage::NodeAdded { entity: r.root },
                GraphMessage::NodeAdded { entity: r.header },
                GraphMessage::NodeAdded { entity: r.label },
                GraphMessage::NodeAdded { entity: r.body },
                GraphMessage::NodeAdded { entity: r.body_caption },
                GraphMessage::EdgeAdded { entity: r.label_to_caption },
            ],
        ),
        ({
            let n = old(sw).tree.slots@.len();
            &&& r.root == n
            &&& r.header == n + 1
            &&& r.label == n + 2
            &&& r.body == n + 3
            &&& r.body_caption == n + 4
            &&& r.label_to_caption == n + 5
            &&& final(sw).tree.slots@.len() == n + 6
        }),
        holds_demo(final(sw).tree, r),
        final(sw).tree.scene_ids() == old(sw).tree.scene_ids() + seq![
            r.root,
            r.header,
            r.label,
            r.body,
            r.body_caption,
        ],
        forall|x: Entity|
            x < old(sw).tree.slots@.len() ==> (#[trigger] final(sw).tree.alive(x)
                <==> old(sw).tree.alive(x)),
        forall|x: Entity| #[trigger]
            old(sw).tree.alive(x) ==> final(sw).tree.alive(x) && same_components(
                final(sw).tree.rec(x),
                old(sw).tree.rec(x),
            ) && final(sw).tree.parent(x) == old(sw).tree.parent(x) && final(sw).tree.kids(x)
                == old(sw).tree.kids(x),
        final(sw).crdt is Some,
        final(sw).crdt->0.entity_of_node@ == Map::<CrdtId, Entity>::empty().insert(
            CrdtId { peer: 1, counter: 1 },
            r.root,
        ).insert(CrdtId { peer: 1, counter: 2 }, r.header).insert(
            CrdtId { peer: 1, counter: 3 },
            r.body,
        ),
        final(sw).crdt->0.node_of_entity@ == Map::<Entity, CrdtId>::empty().insert(
            r.root,
            CrdtId { peer: 1, counter: 1 },
        ).insert(r.header, CrdtId { peer: 1, counter: 2 }).insert(
            r.body,
            CrdtId { peer: 1, counter: 3 },
        ),
        final(sw).crdt->0.entity_of_edge@ == Map::<CrdtId, Entity>::empty(),
        final(sw).crdt->0.edge_of_entity@ == Map::<Entity, CrdtId>::empty(),
{
    let ghost w0 = sw.tree;
    let data = frame_named("Root");
    let ghost d1 = data;
    let root = sw.spawn_node(data, None, None);
    let ghost w1 = sw.tree;
    proof {
        assert(w1.kids(root) =~= seq![]);
    }
    let data = frame_named("Header");
    let ghost d2 = data;
    let header = sw.spawn_node(data, Some(root), key("a"));
    let ghost w2 = sw.tree;
    proof {
        assert(w1.alive(root));
        assert(w2.kids(header) =~= seq![]);
        assert(w2.kids(root) =~= seq![header]);
    }
    let data = text_with("Title");
    let ghost d3 = data;
    let label = sw.spawn_node(data, Some(header), key("a"));
    let ghost w3 = sw.tree;
    proof {
        assert(w2.alive(root) && w2.alive(header));
        assert(w3.kids(label) =~= seq![]);
        assert(w3.kids(header) =~= seq![label]);
    }
    let data = NewNode::Rectangle(RectangleData { rectangle: Rectangle {  } });
    let ghost d4 = data;
    let body = sw.spawn_node(data, Some(root), key("b"));
    let ghost w4 = sw.tree;
    proof {
        assert(w3.alive(root) && w3.alive(header) && w3.alive(label));
        assert(w4.kids(body) =~= seq![]);
        assert(w4.kids(root) =~= seq![header, body]);
    }
    let data = text_with("Caption");
    let ghost d5 = data;
    let body_caption = sw.spawn_node(data, Some(body), key("a"));
    let ghost w5 = sw.tree;
    proof {
        assert(w4.alive(root) && w4.alive(header) && w4.alive(label) && w4.alive(body));
        assert(w5.kids(body_caption) =~= seq![]);
        assert(w5.kids(body) =~= seq![body_caption]);
    }
    let label_to_caption = sw.spawn_edge(label, body_caption);
    proof {
        assert(w5.alive(root) && w5.alive(header) && w5.alive(label) && w5.alive(body)
            && w5.alive(body_caption));
        assert(demo_data(d4) == DemoData::Rectangle);
        assert(is_new_node(sw.tree.rec(root), d1, None));
        assert(is_new_node(sw.tree.rec(header), d2, Some("a"@)));
        assert(is_new_node(sw.tree.rec(label), d3, Some("a"@)));
        assert(is_new_node(sw.tree.rec(body), d4, Some("b"@)));
        assert(is_new_node(sw.tree.rec(body_caption), d5, Some("a"@)));
        assert(sw.tree.kids(label_to_caption) =~= seq![]);
        lemma_grown_scene_ids(w1, w0, None);
        lemma_grown_scene_ids(w2, w1, Some(root));
        lemma_grown_scene_ids(w3, w2, Some(header));
        lemma_grown_scene_ids(w4, w3, Some(root));
        lemma_grown_scene_ids(w5, w4, Some(body));
        lemma_grown_scene_ids(sw.tree, w5, None);
        assert(sw.tree.scene_ids() =~= w0.scene_ids() + seq![
            root,
            header,
            label,
            body,
            body_caption,
        ]);
        assert forall|x: Entity| #[trigger] w0.alive(x) implies sw.tree.alive(x)
            && same_components(sw.tree.rec(x), w0.rec(x)) && sw.tree.parent(x) == w0.parent(x)
            && sw.tree.kids(x) == w0.kids(x) by {
            assert(w1.alive(x));
            assert(w2.alive(x));
            assert(w3.alive(x));
            assert(w4.alive(x));
            assert(w5.alive(x));
        }
    }
    assert(sw.pending@ =~= old(sw).after_sending(
        seq![
            GraphMessage::NodeAdded { entity: root },
            GraphMessage::NodeAdded { entity: header },
            GraphMessage::NodeAdded { entity: label },
            GraphMessage::NodeAdded { entity: body },
            GraphMessage::NodeAdded { entity: body_caption },
            GraphMessage::EdgeAdded { entity: label_to_caption },
        ],
    ));
    let mut index = EntityCrdtIndex::new();
    index.bind_node(root, CrdtId::new(1, 1));
    index.bind_node(header, CrdtId::new(1, 2));
    index.bind_node(body, CrdtId::new(1, 3));
    sw.crdt = Some(index);
    DemoSceneEntities { root, header, label, body, body_caption, label_to_caption }
}

} // verus!
