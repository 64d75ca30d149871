//! The scene: entities with their components, the parent-child forest they
//! stand in, and the edges between them.
use vstd::prelude::*;

use crate::agent::path::OrderKey;
use crate::seqs::{lemma_filter_contains, lemma_filter_no_duplicates, lemma_filter_step};
use crate::table::TableKey;
use crate::text::{
    lemma_lex_irreflexive, lemma_lex_total, lemma_lex_transitive, lex_less, same_text, text_less,
};

verus! {

/// A handle to an entity. Handles are given out in increasing order and never
/// used twice.
pub type Entity = u64;

/// Identifies a peer of the replicated document.
pub type PeerId = u64;

/// Identity of a replicated node or edge.
#[derive(Clone, Copy, Debug, PartialEq, Eq, Hash, Structural)]
pub struct CrdtId {
    pub peer: PeerId,
    pub counter: u64,
}

impl CrdtId {
    pub fn new(peer: PeerId, counter: u64) -> (r: Self)
        ensures
            r == (CrdtId { peer, counter }),
    {
        CrdtId { peer, counter }
    }
}

impl TableKey for CrdtId {
    fn same_key(&self, other: &Self) -> (r: bool) {
        *self == *other
    }
}

/// The variants of scene nodes.
#[derive(Clone, Copy, Debug, PartialEq, Eq, Hash, Structural)]
pub enum NodeKind {
    Frame,
    Rectangle,
    Text,
}

/// Marks an entity as a node of the scene.
#[derive(Clone, Copy, Debug, Default)]
pub struct SceneNode;

/// Marks an entity as an edge of the scene.
#[derive(Clone, Copy, Debug, Default)]
pub struct SceneEdge;

#[derive(Debug, Default, PartialEq, Eq)]
pub struct Frame {
    pub name: String,
}

impl Clone for Frame {
    fn clone(&self) -> (r: Self)
        ensures
            r == *self,
    {
        Frame { name: self.name.clone() }
    }
}

#[derive(Clone, Copy, Debug, Default, PartialEq, Eq)]
pub struct Rectangle {}

#[derive(Debug, Default, PartialEq, Eq)]
pub struct Text {
    pub content: String,
}

impl Clone for Text {
    fn clone(&self) -> (r: Self)
        ensures
            r == *self,
    {
        Text { content: self.content.clone() }
    }
}

#[derive(Debug, Default, PartialEq, Eq)]
pub struct FrameData {
    pub frame: Frame,
}

impl Clone for FrameData {
    fn clone(&self) -> (r: Self)
        ensures
            r == *self,
    {
        FrameData { frame: self.frame.clone() }
    }
}

#[derive(Clone, Copy, Debug, Default, PartialEq, Eq)]
pub struct RectangleData {
    pub rectangle: Rectangle,
}

#[derive(Debug, Default, PartialEq, Eq)]
pub struct TextData {
    pub text: Text,
}

impl Clone for TextData {
    fn clone(&self) -> (r: Self)
        ensures
            r == *self,
    {
        TextData { text: self.text.clone() }
    }
}

/// A scene node with the data of its variant.
#[derive(Debug, PartialEq, Eq)]
pub enum Node {
    Frame(FrameData),
    Rectangle(RectangleData),
    Text(TextData),
}

impl Node {
    pub open spec fn spec_kind(self) -> NodeKind {
        match self {
            Node::Frame(_) => NodeKind::Frame,
            Node::Rectangle(_) => NodeKind::Rectangle,
            Node::Text(_) => NodeKind::Text,
        }
    }

    pub fn kind(&self) -> (r: NodeKind)
        ensures
            r == self.spec_kind(),
    {
        match self {
            Node::Frame(_) => NodeKind::Frame,
            Node::Rectangle(_) => NodeKind::Rectangle,
            Node::Text(_) => NodeKind::Text,
        }
    }
}

/// A position, rotation and scale. Each number is the bit pattern of an IEEE
/// single-precision value.
#[derive(Clone, Copy, Debug, PartialEq, Eq)]
pub struct TransformPatch {
    pub translation: [u32; 3],
    pub rotation: [u32; 4],
    pub scale: [u32; 3],
}

/// The components of one entity.
#[derive(Debug)]
pub struct EntityRecord {
    pub scene_node: bool,
    pub scene_edge: bool,
    pub kind: Option<NodeKind>,
    pub frame: Option<Frame>,
    pub rectangle: Option<Rectangle>,
    pub text: Option<Text>,
    pub transform: Option<TransformPatch>,
    pub order_key: Option<OrderKey>,
    pub parent: Option<Entity>,
    pub children: Vec<Entity>,
    pub edge_from: Option<Entity>,
    pub edge_to: Option<Entity>,
    /// Further components, by number.
    pub others: Vec<u64>,
}

/// The components that an entity can carry.
#[derive(Clone, Copy, Debug, PartialEq, Eq, Hash, Structural)]
pub enum ComponentKind {
    SceneNode,
    SceneEdge,
    NodeKind,
    Frame,
    Rectangle,
    Text,
    Transform,
    OrderKey,
    ChildOf,
    Children,
    EdgeFrom,
    EdgeTo,
    Other(u64),
}

/// Whether a record carries a component. A list of children counts as one only
/// while it is not empty.
pub open spec fn record_has(r: EntityRecord, c: ComponentKind) -> bool {
    match c {
        ComponentKind::SceneNode => r.scene_node,
        ComponentKind::SceneEdge => r.scene_edge,
        ComponentKind::NodeKind => r.kind is Some,
        ComponentKind::Frame => r.frame is Some,
        ComponentKind::Rectangle => r.rectangle is Some,
        ComponentKind::Text => r.text is Some,
        ComponentKind::Transform => r.transform is Some,
        ComponentKind::OrderKey => r.order_key is Some,
        ComponentKind::ChildOf => r.parent is Some,
        ComponentKind::Children => r.children@.len() > 0,
        ComponentKind::EdgeFrom => r.edge_from is Some,
        ComponentKind::EdgeTo => r.edge_to is Some,
        ComponentKind::Other(id) => r.others@.contains(id),
    }
}

impl EntityRecord {
    /// An entity without components.
    pub fn empty() -> (r: Self)
        ensures
            !r.scene_node && !r.scene_edge,
            r.kind is None,
            r.frame is None && r.rectangle is None && r.text is None,
            r.transform is None,
            r.order_key is None,
            r.parent is None,
            r.children@.len() == 0,
            r.edge_from is None && r.edge_to is None,
            r.others@.len() == 0,
    {
        EntityRecord {
            scene_node: false,
            scene_edge: false,
            kind: None,
            frame: None,
            rectangle: None,
            text: None,
            transform: None,
            order_key: None,
            parent: None,
            children: Vec::new(),
            edge_from: None,
            edge_to: None,
            others: Vec::new(),
        }
    }

    /// Whether the record carries a component.
    pub fn has(&self, c: ComponentKind) -> (r: bool)
        ensures
            r == record_has(*self, c),
    {
        match c {
            ComponentKind::SceneNode => self.scene_node,
            ComponentKind::SceneEdge => self.scene_edge,
            ComponentKind::NodeKind => self.kind.is_some(),
            ComponentKind::Frame => self.frame.is_some(),
            ComponentKind::Rectangle => self.rectangle.is_some(),
            ComponentKind::Text => self.text.is_some(),
            ComponentKind::Transform => self.transform.is_some(),
            ComponentKind::OrderKey => self.order_key.is_some(),
            ComponentKind::ChildOf => self.parent.is_some(),
            ComponentKind::Children => self.children.len() > 0,
            ComponentKind::EdgeFrom => self.edge_from.is_some(),
            ComponentKind::EdgeTo => self.edge_to.is_some(),
            ComponentKind::Other(id) => holds(&self.others, id),
        }
    }
}

/// The human-facing name that a record's components give: a frame's name, else
/// a text's content, where it is not empty.
pub open spec fn record_title(r: EntityRecord) -> Option<Seq<char>> {
    if r.frame is Some && r.frame->0.name@.len() > 0 {
        Some(r.frame->0.name@)
    } else if r.text is Some && r.text->0.content@.len() > 0 {
        Some(r.text->0.content@)
    } else {
        None
    }
}

/// The node that a record's components make up.
pub open spec fn record_node(r: EntityRecord) -> Option<Node> {
    if r.frame is Some {
        Some(Node::Frame(FrameData { frame: r.frame->0 }))
    } else if r.rectangle is Some {
        Some(Node::Rectangle(RectangleData { rectangle: r.rectangle->0 }))
    } else if r.text is Some {
        Some(Node::Text(TextData { text: r.text->0 }))
    } else {
        None
    }
}

/// The content of an optional order key.
pub open spec fn key_view(k: Option<OrderKey>) -> Option<Seq<char>> {
    match k {
        Some(k) => Some(k@),
        None => None,
    }
}

/// The order on sibling-order keys: no key comes before every key.
pub open spec fn key_less(a: Option<Seq<char>>, b: Option<Seq<char>>) -> bool {
    match (a, b) {
        (None, Some(_)) => true,
        (Some(x), Some(y)) => lex_less(x, y),
        _ => false,
    }
}

/// The first element of `list` that meets `pred`.
pub open spec fn first_where(list: Seq<Entity>, pred: spec_fn(Entity) -> bool) -> Option<Entity>
    decreases list.len(),
{
    if list.len() == 0 {
        None
    } else if pred(list[0]) {
        Some(list[0])
    } else {
        first_where(list.skip(1), pred)
    }
}

/// Entities and their components.
#[derive(Debug)]
pub struct SceneTree {
    pub slots: Vec<Option<EntityRecord>>,
}

impl SceneTree {
    pub open spec fn alive(self, e: Entity) -> bool {
        e < self.slots@.len() && self.slots@[e as int] is Some
    }

    pub open spec fn rec(self, e: Entity) -> EntityRecord {
        self.slots@[e as int]->0
    }

    pub open spec fn parent(self, e: Entity) -> Option<Entity> {
        if self.alive(e) {
            self.rec(e).parent
        } else {
            None
        }
    }

    pub open spec fn kids(self, e: Entity) -> Seq<Entity> {
        if self.alive(e) {
            self.rec(e).children@
        } else {
            seq![]
        }
    }

    pub open spec fn scene(self, e: Entity) -> bool {
        self.alive(e) && self.rec(e).scene_node
    }

    pub open spec fn kind(self, e: Entity) -> Option<NodeKind> {
        if self.alive(e) {
            self.rec(e).kind
        } else {
            None
        }
    }

    /// The human-facing name of an entity.
    pub open spec fn title(self, e: Entity) -> Option<Seq<char>> {
        if self.alive(e) {
            record_title(self.rec(e))
        } else {
            None
        }
    }

    pub open spec fn key(self, e: Entity) -> Option<Seq<char>> {
        if self.alive(e) {
            key_view(self.rec(e).order_key)
        } else {
            None
        }
    }

    /// All handles given out so far, in order.
    pub open spec fn ids(self) -> Seq<Entity> {
        Seq::new(self.slots@.len(), |i: int| i as Entity)
    }

    /// The scene nodes among the children of `e`.
    pub open spec fn scene_kids(self, e: Entity) -> Seq<Entity> {
        self.kids(e).filter(|c: Entity| self.scene(c))
    }

    /// The scene nodes without a parent.
    pub open spec fn roots(self) -> Seq<Entity> {
        self.ids().filter(|e: Entity| self.scene(e) && self.parent(e) is None)
    }

    /// The scene nodes under `parent`, or the roots.
    pub open spec fn siblings(self, parent: Option<Entity>) -> Seq<Entity> {
        match parent {
            Some(p) => self.scene_kids(p),
            None => self.roots(),
        }
    }

    // -- Well-formedness ---------------------------------------------------

    /// `r` grows from parent to child.
    pub open spec fn ranked(self, r: spec_fn(Entity) -> nat) -> bool {
        forall|e: Entity| #[trigger]
            self.alive(e) && self.parent(e) is Some ==> r(self.parent(e)->0) < r(e)
    }

    /// No entity is its own ancestor.
    pub open spec fn acyclic(self) -> bool {
        exists|r: spec_fn(Entity) -> nat| self.ranked(r)
    }

    pub open spec fn rank(self, e: Entity) -> nat {
        (choose|r: spec_fn(Entity) -> nat| self.ranked(r))(e)
    }

    /// Parents are alive and list their children.
    pub open spec fn parents_linked(self) -> bool {
        forall|e: Entity| #[trigger]
            self.alive(e) && self.parent(e) is Some ==> self.alive(self.parent(e)->0) && self.kids(
                self.parent(e)->0,
            ).contains(e)
    }

    /// Children are alive and name their parent.
    pub open spec fn children_linked(self) -> bool {
        forall|e: Entity, i: int|
            self.alive(e) && 0 <= i < self.kids(e).len() ==> self.alive(
                #[trigger] self.kids(e)[i],
            ) && self.parent(self.kids(e)[i]) == Some(e)
    }

    /// No child is listed twice.
    pub open spec fn children_distinct(self) -> bool {
        forall|e: Entity| #[trigger] self.alive(e) ==> self.kids(e).no_duplicates()
    }

    /// The parent links form a forest, and every entity has its slot.
    pub open spec fn wf(self) -> bool {
        &&& self.slots@.len() <= u32::MAX
        &&& self.parents_linked()
        &&& self.children_linked()
        &&& self.children_distinct()
        &&& self.acyclic()
    }

    /// The way from the outermost ancestor of `e` down to `e` itself.
    pub open spec fn chain(self, e: Entity) -> Seq<Entity>
        decreases self.rank(e),
        when self.wf()
    {
        match self.parent(e) {
            None => seq![e],
            Some(p) => self.chain(p).push(e),
        }
    }

    /// Whether `e` is `root` or stands below it.
    pub open spec fn under(self, e: Entity, root: Entity) -> bool {
        self.chain(e).contains(root)
    }

    // -- Sibling order -----------------------------------------------------

    /// Sibling order: by order key, then by handle.
    pub open spec fn sib_less(self, a: Entity, b: Entity) -> bool {
        key_less(self.key(a), self.key(b)) || (self.key(a) == self.key(b) && a < b)
    }

    /// Those of `list` whose name is `name`.
    pub open spec fn named(self, list: Seq<Entity>, name: Seq<char>) -> Seq<Entity> {
        list.filter(|s: Entity| self.title(s) == Some(name))
    }

    /// How many of `list` come before `e` in sibling order.
    pub open spec fn place(self, list: Seq<Entity>, e: Entity) -> nat {
        list.filter(|s: Entity| self.sib_less(s, e)).len()
    }
}

// ---------------------------------------------------------------------------
// Lemmas
// ---------------------------------------------------------------------------

pub proof fn lemma_key_total(a: Option<Seq<char>>, b: Option<Seq<char>>)
    ensures
        key_less(a, b) || a == b || key_less(b, a),
{
    match (a, b) {
        (Some(x), Some(y)) => lemma_lex_total(x, y),
        _ => {},
    }
}

impl SceneTree {
    pub proof fn lemma_sib_irreflexive(self, a: Entity)
        ensures
            !self.sib_less(a, a),
    {
        match self.key(a) {
            Some(x) => lemma_lex_irreflexive(x),
            None => {},
        }
    }

    pub proof fn lemma_sib_transitive(self, a: Entity, b: Entity, c: Entity)
        requires
            self.sib_less(a, b),
            self.sib_less(b, c),
        ensures
            self.sib_less(a, c),
    {
        match (self.key(a), self.key(b), self.key(c)) {
            (Some(x), Some(y), Some(z)) => {
                if lex_less(x, y) && lex_less(y, z) {
                    lemma_lex_transitive(x, y, z);
                }
            },
            _ => {},
        }
    }

    pub proof fn lemma_sib_total(self, a: Entity, b: Entity)
        ensures
            self.sib_less(a, b) || a == b || self.sib_less(b, a),
    {
        lemma_key_total(self.key(a), self.key(b));
    }

    pub proof fn lemma_place_monotone(self, list: Seq<Entity>, a: Entity, b: Entity)
        requires
            self.sib_less(a, b),
        ensures
            self.place(list, a) <= self.place(list, b),
            list.contains(a) ==> self.place(list, a) < self.place(list, b),
        decreases list.len(),
    {
        reveal(Seq::filter);
        if list.len() > 0 {
            let init = list.drop_last();
            let last = list.last();
            self.lemma_place_monotone(init, a, b);
            self.lemma_sib_irreflexive(a);
            if self.sib_less(last, a) {
                self.lemma_sib_transitive(last, a, b);
            }
            if list.contains(a) && last != a {
                let i = choose|i: int| 0 <= i < list.len() && list[i] == a;
                assert(init[i] == a);
            }
        }
    }

    /// Two members of a list with the same place are the same.
    pub proof fn lemma_place_injective(self, list: Seq<Entity>, a: Entity, b: Entity)
        requires
            list.contains(a),
            list.contains(b),
            self.place(list, a) == self.place(list, b),
        ensures
            a == b,
    {
        self.lemma_sib_total(a, b);
        if self.sib_less(a, b) {
            self.lemma_place_monotone(list, a, b);
        } else if self.sib_less(b, a) {
            self.lemma_place_monotone(list, b, a);
        }
    }

    /// A parent's rank is smaller than its child's.
    pub proof fn lemma_rank(self, e: Entity)
        requires
            self.wf(),
            self.parent(e) is Some,
        ensures
            self.rank(self.parent(e)->0) < self.rank(e),
            self.alive(self.parent(e)->0),
    {
        let r = choose|r: spec_fn(Entity) -> nat| self.ranked(r);
        assert(self.ranked(r));
        assert(self.alive(e));
    }

    /// A chain ends in the entity it is for.
    pub proof fn lemma_chain_last(self, e: Entity)
        requires
            self.wf(),
        ensures
            self.chain(e).len() > 0,
            self.chain(e).last() == e,
    {
    }

    /// The chain of a live entity holds live entities, ends in it, and its ranks grow.
    pub proof fn lemma_chain(self, e: Entity)
        requires
            self.wf(),
            self.alive(e),
        ensures
            self.chain(e).len() > 0,
            self.chain(e).last() == e,
            self.parent(self.chain(e)[0]) is None,
            forall|i: int| 0 <= i < self.chain(e).len() ==> self.alive(#[trigger] self.chain(e)[i]),
            forall|i: int, j: int|
                0 <= i < j < self.chain(e).len() ==> self.rank(#[trigger] self.chain(e)[i])
                    < self.rank(#[trigger] self.chain(e)[j]),
            forall|i: int|
                0 <= i < self.chain(e).len() ==> self.chain(#[trigger] self.chain(e)[i])
                    == self.chain(e).take(i + 1),
            forall|i: int|
                0 < i < self.chain(e).len() ==> self.parent(#[trigger] self.chain(e)[i]) == Some(
                    self.chain(e)[i - 1],
                ),
        decreases self.rank(e),
    {
        let c = self.chain(e);
        match self.parent(e) {
            None => {
                assert(c =~= seq![e]);
                assert(c.take(1) =~= c);
            },
            Some(p) => {
                self.lemma_rank(e);
                self.lemma_chain(p);
                let d = self.chain(p);
                assert(c =~= d.push(e));
                assert(c.take(c.len() as int) =~= c);
                assert forall|i: int| 0 <= i < c.len() implies self.chain(#[trigger] c[i])
                    == c.take(i + 1) by {
                    if i < d.len() {
                        assert(c[i] == d[i]);
                        assert(d.take(i + 1) =~= c.take(i + 1));
                    }
                }
                assert forall|i: int, j: int| 0 <= i < j < c.len() implies self.rank(
                    #[trigger] c[i],
                ) < self.rank(#[trigger] c[j]) by {
                    assert(c[i] == d[i]);
                    if j < d.len() {
                        assert(c[j] == d[j]);
                    } else if i < d.len() - 1 {
                        assert(self.rank(d[i]) < self.rank(d[d.len() - 1]));
                    }
                }
                assert forall|i: int| 0 < i < c.len() implies self.parent(#[trigger] c[i]) == Some(
                    c[i - 1],
                ) by {
                    if i < d.len() {
                        assert(c[i] == d[i] && c[i - 1] == d[i - 1]);
                    }
                }
            },
        }
    }

    /// A chain is no longer than there are handles.
    pub proof fn lemma_chain_len(self, e: Entity)
        requires
            self.wf(),
            self.alive(e),
        ensures
            self.chain(e).len() <= self.slots@.len(),
    {
        self.lemma_chain(e);
        let c = self.chain(e);
        let n = self.slots@.len() as int;
        let m = c.map_values(|x: Entity| x as int);
        assert forall|i: int, j: int| 0 <= i < m.len() && 0 <= j < m.len() && i != j implies m[i]
            != m[j] by {
            if i < j {
                assert(self.rank(c[i]) < self.rank(c[j]));
            } else {
                assert(self.rank(c[j]) < self.rank(c[i]));
            }
        }
        m.unique_seq_to_set();
        vstd::set_lib::lemma_int_range(0, n);
        assert forall|x: int| m.to_set().contains(x) implies vstd::set_lib::set_int_range(
            0,
            n,
        ).contains(x) by {
            let i = choose|i: int| 0 <= i < m.len() && m[i] == x;
            assert(self.alive(c[i]));
        }
        vstd::set_lib::lemma_len_subset(m.to_set(), vstd::set_lib::set_int_range(0, n));
    }

    /// A child's chain is its parent's chain and the child.
    pub proof fn lemma_child_chain(self, e: Entity, i: int)
        requires
            self.wf(),
            self.alive(e),
            0 <= i < self.kids(e).len(),
        ensures
            self.alive(self.kids(e)[i]),
            self.parent(self.kids(e)[i]) == Some(e),
            self.chain(self.kids(e)[i]) == self.chain(e).push(self.kids(e)[i]),
    {
        assert(self.alive(self.kids(e)[i]));
    }

    /// The scene children of a live entity are among its children.
    pub proof fn lemma_scene_kids(self, e: Entity)
        requires
            self.wf(),
            self.alive(e),
        ensures
            self.scene_kids(e).len() <= self.kids(e).len(),
            self.scene_kids(e).no_duplicates(),
            forall|i: int|
                0 <= i < self.scene_kids(e).len() ==> self.scene(#[trigger] self.scene_kids(e)[i])
                    && self.parent(self.scene_kids(e)[i]) == Some(e) && self.chain(
                    self.scene_kids(e)[i],
                ) == self.chain(e).push(self.scene_kids(e)[i]),
    {
        let kids = self.kids(e);
        let pred = |c: Entity| self.scene(c);
        let s = self.scene_kids(e);
        kids.lemma_filter_len(pred);
        lemma_filter_no_duplicates(kids, pred);
        assert forall|i: int| 0 <= i < s.len() implies self.scene(#[trigger] s[i]) && self.parent(
            s[i],
        ) == Some(e) && self.chain(s[i]) == self.chain(e).push(s[i]) by {
            lemma_filter_contains(kids, pred, s[i]);
            assert(s.contains(s[i]));
            let j = choose|j: int| 0 <= j < kids.len() && kids[j] == s[i];
            self.lemma_child_chain(e, j);
        }
    }

    /// The roots are scene nodes without a parent.
    pub proof fn lemma_roots(self)
        ensures
            forall|i: int|
                0 <= i < self.roots().len() ==> self.scene(#[trigger] self.roots()[i])
                    && self.alive(self.roots()[i]) && self.parent(self.roots()[i]) is None,
    {
        let pred = |e: Entity| self.scene(e) && self.parent(e) is None;
        let s = self.roots();
        assert forall|i: int| 0 <= i < s.len() implies self.scene(#[trigger] s[i]) && self.alive(
            s[i],
        ) && self.parent(s[i]) is None by {
            lemma_filter_contains(self.ids(), pred, s[i]);
            assert(s.contains(s[i]));
        }
    }

    /// The children of an entity are no more than there are handles.
    pub proof fn lemma_kids_len(self, e: Entity)
        requires
            self.wf(),
            self.alive(e),
        ensures
            self.kids(e).len() <= self.slots@.len(),
    {
        let k = self.kids(e);
        let n = self.slots@.len() as int;
        let m = k.map_values(|x: Entity| x as int);
        assert(k.no_duplicates());
        assert(m.no_duplicates());
        m.unique_seq_to_set();
        vstd::set_lib::lemma_int_range(0, n);
        assert forall|x: int| m.to_set().contains(x) implies vstd::set_lib::set_int_range(
            0,
            n,
        ).contains(x) by {
            let i = choose|i: int| 0 <= i < m.len() && m[i] == x;
            assert(self.alive(k[i]));
        }
        vstd::set_lib::lemma_len_subset(m.to_set(), vstd::set_lib::set_int_range(0, n));
    }
}

// ---------------------------------------------------------------------------
// Reading the tree
// ---------------------------------------------------------------------------

impl SceneTree {
    pub fn new() -> (r: Self)
        ensures
            r.wf(),
            r.slots@.len() == 0,
    {
        let r = SceneTree { slots: Vec::new() };
        assert(r.ranked(|e: Entity| 0));
        r
    }

    /// The components of `e`, where it is alive.
    pub fn record(&self, e: Entity) -> (r: Option<&EntityRecord>)
        ensures
            r is Some <==> self.alive(e),
            r is Some ==> *r->0 == self.rec(e),
    {
        if e < self.slots.len() as u64 {
            match &self.slots[e as usize] {
                Some(rec) => Some(rec),
                None => None,
            }
        } else {
            None
        }
    }

    pub fn is_alive(&self, e: Entity) -> (r: bool)
        ensures
            r == self.alive(e),
    {
        self.record(e).is_some()
    }

    pub fn is_scene(&self, e: Entity) -> (r: bool)
        ensures
            r == self.scene(e),
    {
        match self.record(e) {
            Some(rec) => rec.scene_node,
            None => false,
        }
    }

    pub fn parent_of(&self, e: Entity) -> (r: Option<Entity>)
        ensures
            r == self.parent(e),
    {
        match self.record(e) {
            Some(rec) => rec.parent,
            None => None,
        }
    }

    pub fn kind_of(&self, e: Entity) -> (r: Option<NodeKind>)
        ensures
            r == self.kind(e),
    {
        match self.record(e) {
            Some(rec) => rec.kind,
            None => None,
        }
    }

    /// The children of `e`, scene nodes or not.
    pub fn kids_of(&self, e: Entity) -> (r: Vec<Entity>)
        ensures
            r@ == self.kids(e),
    {
        match self.record(e) {
            Some(rec) => {
                let mut r: Vec<Entity> = Vec::new();
                let mut i: usize = 0;
                while i < rec.children.len()
                    invariant
                        self.alive(e),
                        *rec == self.rec(e),
                        i <= rec.children@.len(),
                        r@ == rec.children@.take(i as int),
                    decreases rec.children@.len() - i,
                {
                    r.push(rec.children[i]);
                    i = i + 1;
                    assert(r@ =~= rec.children@.take(i as int));
                }
                assert(r@ =~= self.kids(e));
                r
            },
            None => Vec::new(),
        }
    }

    /// The scene nodes among the children of `e`.
    pub fn scene_kids_of(&self, e: Entity) -> (r: Vec<Entity>)
        ensures
            r@ == self.scene_kids(e),
    {
        let kids = self.kids_of(e);
        let mut r: Vec<Entity> = Vec::new();
        let mut i: usize = 0;
        let ghost pred = |c: Entity| self.scene(c);
        proof {
            assert(kids@.take(0) =~= seq![]);
            reveal(Seq::filter);
        }
        while i < kids.len()
            invariant
                kids@ == self.kids(e),
                i <= kids@.len(),
                pred == (|c: Entity| self.scene(c)),
                r@ == kids@.take(i as int).filter(pred),
            decreases kids@.len() - i,
        {
            proof {
                lemma_filter_step(kids@, i as int, pred);
            }
            if self.is_scene(kids[i]) {
                r.push(kids[i]);
            }
            i = i + 1;
        }
        assert(kids@.take(i as int) =~= kids@);
        r
    }

    /// The scene nodes without a parent.
    pub fn roots_of(&self) -> (r: Vec<Entity>)
        requires
            self.slots@.len() <= u32::MAX,
        ensures
            r@ == self.roots(),
    {
        let mut r: Vec<Entity> = Vec::new();
        let mut i: usize = 0;
        let ghost pred = |e: Entity| self.scene(e) && self.parent(e) is None;
        proof {
            assert(self.ids().take(0) =~= seq![]);
            reveal(Seq::filter);
        }
        while i < self.slots.len()
            invariant
                self.slots@.len() <= u32::MAX,
                i <= self.slots@.len(),
                pred == (|e: Entity| self.scene(e) && self.parent(e) is None),
                r@ == self.ids().take(i as int).filter(pred),
            decreases self.slots@.len() - i,
        {
            let e = i as u64;
            proof {
                lemma_filter_step(self.ids(), i as int, pred);
                assert(self.ids()[i as int] == e);
            }
            if self.is_scene(e) && self.parent_of(e).is_none() {
                r.push(e);
            }
            i = i + 1;
        }
        assert(self.ids().take(i as int) =~= self.ids());
        r
    }

    /// The scene nodes under `parent`, or the roots.
    pub fn children_of(&self, parent: Option<Entity>) -> (r: Vec<Entity>)
        requires
            self.slots@.len() <= u32::MAX,
        ensures
            r@ == self.siblings(parent),
    {
        match parent {
            Some(p) => self.scene_kids_of(p),
            None => self.roots_of(),
        }
    }

    /// The human-facing name of an entity: a frame's name, else a text's
    /// content, where it is not empty.
    pub fn display_name_of(&self, e: Entity) -> (r: Option<String>)
        ensures
            r is Some <==> self.title(e) is Some,
            r is Some ==> Some(r->0@) == self.title(e),
    {
        match self.record(e) {
            Some(rec) => {
                if let Some(frame) = &rec.frame {
                    if !frame.name.as_str().is_empty() {
                        return Some(frame.name.clone());
                    }
                }
                if let Some(text) = &rec.text {
                    if !text.content.as_str().is_empty() {
                        return Some(text.content.clone());
                    }
                }
                None
            },
            None => None,
        }
    }

    pub fn order_key_of(&self, e: Entity) -> (r: Option<OrderKey>)
        ensures
            key_view(r) == self.key(e),
    {
        match self.record(e) {
            Some(rec) => match &rec.order_key {
                Some(k) => Some(k.clone()),
                None => None,
            },
            None => None,
        }
    }

    /// The node that the components of `e` make up.
    pub fn materialize_at(&self, e: Entity) -> (r: Option<Node>)
        ensures
            r == (if self.alive(e) {
                record_node(self.rec(e))
            } else {
                None
            }),
    {
        match self.record(e) {
            Some(rec) => {
                if let Some(frame) = &rec.frame {
                    return Some(Node::Frame(FrameData { frame: frame.clone() }));
                }
                if let Some(rectangle) = &rec.rectangle {
                    return Some(Node::Rectangle(RectangleData { rectangle: *rectangle }));
                }
                if let Some(text) = &rec.text {
                    return Some(Node::Text(TextData { text: text.clone() }));
                }
                None
            },
            None => None,
        }
    }

    /// Whether `a` comes before `b` in sibling order.
    pub fn sibling_before(&self, a: Entity, b: Entity) -> (r: bool)
        ensures
            r == self.sib_less(a, b),
    {
        let x = self.order_key_of(a);
        let y = self.order_key_of(b);
        match (&x, &y) {
            (None, None) => a < b,
            (None, Some(_)) => true,
            (Some(_), None) => false,
            (Some(k), Some(l)) => {
                if same_text(&k.0, &l.0) {
                    proof {
                        lemma_lex_irreflexive(k@);
                    }
                    a < b
                } else {
                    text_less(&k.0, &l.0)
                }
            },
        }
    }

    fn has_title(&self, e: Entity, name: &String) -> (r: bool)
        ensures
            r == (self.title(e) == Some(name@)),
    {
        match self.display_name_of(e) {
            Some(n) => same_text(&n, name),
            None => false,
        }
    }

    /// Those of `list` whose name is `name`.
    pub fn with_title(&self, list: &Vec<Entity>, name: &String) -> (r: Vec<Entity>)
        ensures
            r@ == self.named(list@, name@),
    {
        let mut r: Vec<Entity> = Vec::new();
        let mut i: usize = 0;
        let ghost pred = |s: Entity| self.title(s) == Some(name@);
        proof {
            assert(list@.take(0) =~= seq![]);
            reveal(Seq::filter);
        }
        while i < list.len()
            invariant
                i <= list@.len(),
                pred == (|s: Entity| self.title(s) == Some(name@)),
                r@ == list@.take(i as int).filter(pred),
            decreases list@.len() - i,
        {
            proof {
                lemma_filter_step(list@, i as int, pred);
            }
            if self.has_title(list[i], name) {
                r.push(list[i]);
            }
            i = i + 1;
        }
        assert(list@.take(i as int) =~= list@);
        r
    }

    /// How many of `list` come before `e` in sibling order.
    pub fn place_of(&self, list: &Vec<Entity>, e: Entity) -> (r: usize)
        ensures
            r == self.place(list@, e),
            r <= list@.len(),
    {
        let mut n: usize = 0;
        let mut i: usize = 0;
        let ghost pred = |s: Entity| self.sib_less(s, e);
        proof {
            assert(list@.take(0) =~= seq![]);
            reveal(Seq::filter);
        }
        while i < list.len()
            invariant
                i <= list@.len(),
                n <= i,
                pred == (|s: Entity| self.sib_less(s, e)),
                n == list@.take(i as int).filter(pred).len(),
            decreases list@.len() - i,
        {
            proof {
                lemma_filter_step(list@, i as int, pred);
            }
            if self.sibling_before(list[i], e) {
                n = n + 1;
            }
            i = i + 1;
        }
        assert(list@.take(i as int) =~= list@);
        n
    }

    /// Walks up from `e` to its outermost ancestor; the result starts there.
    pub fn chain_of(&self, e: Entity) -> (r: Vec<Entity>)
        requires
            self.wf(),
        ensures
            r@ == self.chain(e),
    {
        let mut up: Vec<Entity> = Vec::new();
        up.push(e);
        let mut cursor = e;
        let mut next = self.parent_of(cursor);
        while next.is_some()
            invariant
                self.wf(),
                up@.len() > 0,
                next == self.parent(cursor),
                up@.last() == cursor,
                self.chain(e) == self.chain(cursor).drop_last() + up@.reverse(),
            decreases self.rank(cursor),
        {
            let p = next.unwrap();
            proof {
                self.lemma_rank(cursor);
                self.lemma_chain_last(p);
            }
            let ghost old_up = up@;
            let ghost old_cursor = cursor;
            cursor = p;
            up.push(cursor);
            next = self.parent_of(cursor);
            proof {
                assert(self.chain(old_cursor).drop_last() =~= self.chain(p));
                assert(up@.reverse() =~= seq![p] + old_up.reverse());
                assert(self.chain(p).drop_last() + up@.reverse() =~= self.chain(p)
                    + old_up.reverse());
            }
        }
        assert(self.chain(cursor) =~= seq![cursor]);
        assert(self.chain(e) =~= up@.reverse());
        reversed(&up)
    }
}

/// `list`, last element first.
pub fn reversed(list: &Vec<Entity>) -> (r: Vec<Entity>)
    ensures
        r@ == list@.reverse(),
{
    let mut r: Vec<Entity> = Vec::new();
    let mut i: usize = list.len();
    while i > 0
        invariant
            i <= list@.len(),
            r@ == list@.reverse().take(list@.len() - i),
        decreases i,
    {
        i = i - 1;
        r.push(list[i]);
        assert(r@ =~= list@.reverse().take(list@.len() - i));
    }
    assert(r@ =~= list@.reverse());
    r
}

/// Whether `e` is among `list`.
pub fn holds(list: &Vec<Entity>, e: Entity) -> (r: bool)
    ensures
        r == list@.contains(e),
{
    let mut i: usize = 0;
    while i < list.len()
        invariant
            i <= list@.len(),
            forall|k: int| 0 <= k < i ==> list@[k] != e,
        decreases list@.len() - i,
    {
        if list[i] == e {
            return true;
        }
        i = i + 1;
    }
    false
}

/// Whether `k` is among `list`.
pub fn holds_kind(list: &Vec<NodeKind>, k: NodeKind) -> (r: bool)
    ensures
        r == list@.contains(k),
{
    let mut i: usize = 0;
    while i < list.len()
        invariant
            i <= list@.len(),
            forall|j: int| 0 <= j < i ==> list@[j] != k,
        decreases list@.len() - i,
    {
        if list[i] == k {
            return true;
        }
        i = i + 1;
    }
    false
}

// ---------------------------------------------------------------------------
// Laws
// ---------------------------------------------------------------------------

/// A node goes by the name of its frame, where that is not empty, else by the
/// content of its text, where that is not empty; else it has no name.
pub proof fn name_is_frame_or_text(tree: SceneTree, e: Entity)
    requires
        tree.alive(e),
    ensures
        ({
            let r = tree.rec(e);
            let framed = r.frame is Some && r.frame->0.name@.len() > 0;
            let written = r.text is Some && r.text->0.content@.len() > 0;
            &&& framed ==> tree.title(e) == Some(r.frame->0.name@)
            &&& !framed && written ==> tree.title(e) == Some(r.text->0.content@)
            &&& !framed && !written ==> tree.title(e) is None
        }),
{
}

/// The data of a node: that of its frame, else of its rectangle, else of its
/// text; a record with one of them alone gives that one.
pub proof fn data_is_what_is_carried(r: EntityRecord)
    ensures
        r.frame is Some ==> record_node(r) == Some(Node::Frame(FrameData { frame: r.frame->0 })),
        r.frame is None && r.rectangle is Some ==> record_node(r) == Some(
            Node::Rectangle(RectangleData { rectangle: r.rectangle->0 }),
        ),
        r.frame is None && r.rectangle is None && r.text is Some ==> record_node(r) == Some(
            Node::Text(TextData { text: r.text->0 }),
        ),
        r.frame is None && r.rectangle is None && r.text is None ==> record_node(r) is None,
{
}

impl SceneTree {
    /// Siblings go by their order keys as texts, those without a key first, and
    /// by their handles where the keys are the same.
    pub proof fn siblings_go_by_key(self, a: Entity, b: Entity)
        requires
            self.alive(a),
            self.alive(b),
        ensures
            ({
                let x = self.rec(a).order_key;
                let y = self.rec(b).order_key;
                &&& x is None && y is Some ==> self.sib_less(a, b) && !self.sib_less(b, a)
                &&& x is Some && y is Some && lex_less(x->0@, y->0@) ==> self.sib_less(a, b)
                    && !self.sib_less(b, a)
                &&& x is None && y is None && a < b ==> self.sib_less(a, b) && !self.sib_less(b, a)
                &&& x is Some && y is Some && x->0@ == y->0@ && a < b ==> self.sib_less(a, b)
                    && !self.sib_less(b, a)
            }),
    {
        let x = self.key(a);
        let y = self.key(b);
        if x is Some && y is Some {
            if lex_less(x->0, y->0) && lex_less(y->0, x->0) {
                lemma_lex_transitive(x->0, y->0, x->0);
            }
            lemma_lex_irreflexive(x->0);
        }
    }

    /// What stands under a node: the node itself, and whatever has a parent that
    /// stands under it.
    pub proof fn under_goes_by_parents(self, x: Entity, root: Entity)
        requires
            self.wf(),
            self.alive(x),
        ensures
            self.under(x, root) <==> x == root || (self.rec(x).parent is Some && self.under(
                self.rec(x).parent->0,
                root,
            )),
    {
        self.lemma_chain_last(x);
        match self.parent(x) {
            None => {
                assert(self.chain(x) =~= seq![x]);
                assert(self.chain(x)[0] == x);
            },
            Some(p) => {
                crate::seqs::lemma_push_contains(self.chain(p), x, root);
            },
        }
    }

    /// The roots are exactly the scene nodes without a parent, and the scene
    /// children of an entity exactly the scene nodes whose parent it is.
    pub proof fn siblings_are_scene_nodes(self, parent: Option<Entity>, x: Entity)
        requires
            self.wf(),
        ensures
            self.siblings(parent).contains(x) <==> self.alive(x) && self.rec(x).scene_node
                && self.rec(x).parent == parent,
            self.siblings(parent).no_duplicates(),
    {
        match parent {
            None => {
                let pred = |e: Entity| self.scene(e) && self.parent(e) is None;
                lemma_filter_contains(self.ids(), pred, x);
                if self.alive(x) {
                    assert(self.ids()[x as int] == x);
                }
                assert(self.ids().no_duplicates());
                lemma_filter_no_duplicates(self.ids(), pred);
            },
            Some(p) => {
                let pred = |c: Entity| self.scene(c);
                lemma_filter_contains(self.kids(p), pred, x);
                if self.kids(p).contains(x) {
                    let i = choose|i: int| 0 <= i < self.kids(p).len() && self.kids(p)[i] == x;
                    assert(self.alive(self.kids(p)[i]));
                }
                if self.alive(x) && self.rec(x).parent == parent {
                    assert(self.parent(x) is Some);
                }
                if self.alive(p) {
                    assert(self.kids(p).no_duplicates());
                }
                lemma_filter_no_duplicates(self.kids(p), pred);
            },
        }
    }
}

} // verus!
