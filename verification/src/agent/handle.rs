//! Stable references to scene nodes: sessions, node references, targets and
//! cursors, and how they resolve to live entities.
use vstd::arithmetic::power::pow;
use vstd::prelude::*;

use crate::agent::path::{part_views, OrderKey, PathPart, PathPartView, ScenePath};
use crate::agent::scene::{first_where, CrdtId, Entity, SceneTree};
use crate::agent::world::SceneWorld;
use crate::text::same_text;
use crate::seqs::{lemma_filter_contains, lemma_filter_len};

verus! {

// ---------------------------------------------------------------------------
// SessionId
// ---------------------------------------------------------------------------

/// Whether a 128-bit value carries the version and variant of a random UUID.
pub open spec fn is_random_uuid(bits: u128) -> bool {
    &&& (bits / 0x1000_0000_0000_0000_0000) % 16 == 4
    &&& (bits / 0x4000_0000_0000_0000) % 4 == 2
}

/// The lowercase hexadecimal digit for `d`.
pub open spec fn hex_char(d: nat) -> char {
    if d < 10 {
        (d + 48) as char
    } else {
        (d + 87) as char
    }
}

/// The `k`-th of the 32 hexadecimal digits of `bits`, most significant first.
pub open spec fn hex_digit(bits: u128, k: int) -> nat {
    (bits as nat / pow(16, (31 - k) as nat) as nat) % 16
}

/// The hyphenated form of a UUID: digit groups of 8, 4, 4, 4 and 12.
pub open spec fn uuid_text(bits: u128) -> Seq<char> {
    Seq::new(
        36,
        |i: int|
            if i == 8 || i == 13 || i == 18 || i == 23 {
                '-'
            } else {
                let groups = if i < 8 {
                    0int
                } else if i < 13 {
                    1
                } else if i < 18 {
                    2
                } else if i < 23 {
                    3
                } else {
                    4
                };
                hex_char(hex_digit(bits, i - groups))
            },
    )
}

/// `uuid::Uuid::new_v4`, as its 128-bit value: a random UUID, which carries
/// version 4 and the RFC variant. Which one is left to chance.
#[verifier::external_body]
fn new_v4_bits() -> (r: u128)
    ensures
        is_random_uuid(r),
{
    uuid::Uuid::new_v4().as_u128()
}

/// `uuid::Uuid`'s `Display`, on the UUID with the given 128-bit value: 32
/// lowercase hexadecimal digits in five groups with hyphens between.
#[verifier::external_body]
fn uuid_display(bits: u128) -> (r: String)
    ensures
        r@ == uuid_text(bits),
{
    uuid::Uuid::from_u128(bits).to_string()
}

/// Identifies one run of the scene agent, by the 128 bits of a UUID.
#[derive(Clone, Copy, Debug, PartialEq, Eq, Hash, Structural)]
pub struct SessionId(pub u128);

impl SessionId {
    /// A fresh random session.
    pub fn new() -> (r: Self)
        ensures
            is_random_uuid(r.0),
    {
        SessionId(new_v4_bits())
    }

    /// The session with the given UUID bits.
    pub fn from_uuid(uuid: u128) -> (r: Self)
        ensures
            r.0 == uuid,
    {
        SessionId(uuid)
    }

    /// The bits of the session's UUID.
    pub fn as_uuid(&self) -> (r: u128)
        ensures
            r == self.0,
    {
        self.0
    }

    /// The session's UUID in its hyphenated form.
    pub fn to_string(&self) -> (r: String)
        ensures
            r@ == uuid_text(self.0),
    {
        uuid_display(self.0)
    }
}

impl Default for SessionId {
    fn default() -> (r: Self)
        ensures
            is_random_uuid(r.0),
    {
        SessionId::new()
    }
}

// ---------------------------------------------------------------------------
// NodeRef
// ---------------------------------------------------------------------------

/// A reference to a scene node. `path` is canonical; the other fields are
/// hints that [`NodeRef::resolve`] tries first.
#[derive(Debug, PartialEq, Eq)]
pub struct NodeRef {
    pub path: ScenePath,
    /// Set for replicated nodes.
    pub crdt_id: Option<CrdtId>,
    /// Entity cache, honoured only when `session` matches.
    pub entity: Option<u64>,
    /// The session that the entity cache belongs to.
    pub session: Option<SessionId>,
}

/// What a [`NodeRef`] holds.
#[verifier::ext_equal]
pub struct NodeRefView {
    pub path: Seq<PathPartView>,
    pub crdt_id: Option<CrdtId>,
    pub entity: Option<Entity>,
    pub session: Option<SessionId>,
}

impl View for NodeRef {
    type V = NodeRefView;

    open spec fn view(&self) -> NodeRefView {
        NodeRefView {
            path: self.path@,
            crdt_id: self.crdt_id,
            entity: self.entity,
            session: self.session,
        }
    }
}

impl Clone for NodeRef {
    fn clone(&self) -> (r: Self)
        ensures
            r@ == self@,
    {
        NodeRef {
            path: self.path.clone(),
            crdt_id: self.crdt_id,
            entity: self.entity,
            session: self.session,
        }
    }
}

/// A reference that carries nothing but a path.
pub open spec fn path_ref(path: Seq<PathPartView>) -> NodeRefView {
    NodeRefView { path, crdt_id: None, entity: None, session: None }
}

/// The entity that a reference caches for `session`.
pub open spec fn cached(r: NodeRefView, session: SessionId) -> Option<Entity> {
    if r.session == Some(session) {
        r.entity
    } else {
        None
    }
}

/// What a sequence of references holds.
pub open spec fn ref_views(refs: Seq<NodeRef>) -> Seq<NodeRefView> {
    refs.map_values(|r: NodeRef| r@)
}

impl NodeRef {
    /// A reference with no hints.
    pub fn from_path(path: ScenePath) -> (r: Self)
        ensures
            r@ == path_ref(path@),
    {
        NodeRef { path, crdt_id: None, entity: None, session: None }
    }

    pub fn with_crdt_id(self, id: CrdtId) -> (r: Self)
        ensures
            r@ == (NodeRefView { crdt_id: Some(id), ..self@ }),
    {
        NodeRef { path: self.path, crdt_id: Some(id), entity: self.entity, session: self.session }
    }

    pub fn with_cached(self, entity: Entity, session: SessionId) -> (r: Self)
        ensures
            r@ == (NodeRefView { entity: Some(entity), session: Some(session), ..self@ }),
    {
        NodeRef {
            path: self.path,
            crdt_id: self.crdt_id,
            entity: Some(entity),
            session: Some(session),
        }
    }

    /// The cached entity, where the session matches. It need not be alive.
    pub fn cached_entity(&self, current_session: SessionId) -> (r: Option<Entity>)
        ensures
            r == cached(self@, current_session),
    {
        match self.session {
            Some(s) => {
                if s == current_session {
                    self.entity
                } else {
                    None
                }
            },
            None => None,
        }
    }

    /// Resolves to a live entity: by the cached entity, else by the replicated
    /// identity, else by walking the path from the root.
    pub fn resolve(&self, sw: &SceneWorld, current_session: SessionId) -> (r: Option<Entity>)
        requires
            sw.wf(),
        ensures
            r == resolved_ref(*sw, self@, current_session),
    {
        if let Some(e) = self.cached_entity(current_session) {
            if sw.tree.is_alive(e) {
                return Some(e);
            }
        }
        if let Some(id) = self.crdt_id {
            if let Some(e) = sw.entity_for_node(id) {
                if sw.tree.is_alive(e) {
                    return Some(e);
                }
            }
        }
        resolve_path(sw, &self.path)
    }
}

// ---------------------------------------------------------------------------
// NodeTarget
// ---------------------------------------------------------------------------

/// What the agent's methods accept: an entity or a reference.
#[derive(Debug)]
pub enum NodeTarget {
    Ref(NodeRef),
    Entity(Entity),
}

impl Clone for NodeTarget {
    fn clone(&self) -> (r: Self)
        ensures
            target_view(r) == target_view(*self),
    {
        match self {
            NodeTarget::Ref(r) => NodeTarget::Ref(r.clone()),
            NodeTarget::Entity(e) => NodeTarget::Entity(*e),
        }
    }
}

/// What a [`NodeTarget`] holds.
pub enum NodeTargetView {
    Ref(NodeRefView),
    Entity(Entity),
}

pub open spec fn target_view(t: NodeTarget) -> NodeTargetView {
    match t {
        NodeTarget::Ref(r) => NodeTargetView::Ref(r@),
        NodeTarget::Entity(e) => NodeTargetView::Entity(e),
    }
}

/// The live entity that a target stands for.
pub open spec fn resolved_target(w: SceneWorld, t: NodeTargetView, session: SessionId) -> Option<
    Entity,
> {
    match t {
        NodeTargetView::Entity(e) => if w.tree.alive(e) {
            Some(e)
        } else {
            None
        },
        NodeTargetView::Ref(r) => resolved_ref(w, r, session),
    }
}

impl NodeTarget {
    pub fn resolve(&self, sw: &SceneWorld, current_session: SessionId) -> (r: Option<Entity>)
        requires
            sw.wf(),
        ensures
            r == resolved_target(*sw, target_view(*self), current_session),
    {
        match self {
            NodeTarget::Entity(e) => {
                if sw.tree.is_alive(*e) {
                    Some(*e)
                } else {
                    None
                }
            },
            NodeTarget::Ref(r) => r.resolve(sw, current_session),
        }
    }
}

impl From<Entity> for NodeTarget {
    fn from(e: Entity) -> (r: Self) {
        NodeTarget::Entity(e)
    }
}

impl vstd::std_specs::convert::FromSpecImpl<Entity> for NodeTarget {
    open spec fn obeys_from_spec() -> bool {
        true
    }

    open spec fn from_spec(e: Entity) -> Self {
        NodeTarget::Entity(e)
    }
}

impl From<NodeRef> for NodeTarget {
    fn from(n: NodeRef) -> (r: Self) {
        NodeTarget::Ref(n)
    }
}

impl vstd::std_specs::convert::FromSpecImpl<NodeRef> for NodeTarget {
    open spec fn obeys_from_spec() -> bool {
        true
    }

    open spec fn from_spec(n: NodeRef) -> Self {
        NodeTarget::Ref(n)
    }
}

impl<'a> From<&'a NodeRef> for NodeTarget {
    fn from(n: &'a NodeRef) -> (r: Self)
        ensures
            target_view(r) == NodeTargetView::Ref(n@),
    {
        NodeTarget::Ref(n.clone())
    }
}

impl<'a> vstd::std_specs::convert::FromSpecImpl<&'a NodeRef> for NodeTarget {
    open spec fn obeys_from_spec() -> bool {
        false
    }

    open spec fn from_spec(n: &'a NodeRef) -> Self {
        NodeTarget::Ref(*n)
    }
}

// ---------------------------------------------------------------------------
// Cursor
// ---------------------------------------------------------------------------

/// A position in the change stream.
#[derive(Clone, Copy, Debug, PartialEq, Eq, Structural)]
pub struct Cursor {
    pub session: SessionId,
    /// Session-local count of changes.
    pub generation: u64,
    /// Position in the stream of replicated operations, where there is one.
    pub last_replicated_op: Option<u64>,
}

impl Cursor {
    /// The position before any event of a session.
    pub fn baseline(session: SessionId) -> (r: Self)
        ensures
            r == (Cursor { session, generation: 0, last_replicated_op: None }),
    {
        Cursor { session, generation: 0, last_replicated_op: None }
    }

    /// Whether this cursor is from the current session.
    pub fn matches(&self, current_session: SessionId) -> (r: bool)
        ensures
            r == (self.session == current_session),
    {
        self.session == current_session
    }
}

// ---------------------------------------------------------------------------
// Paths and entities
// ---------------------------------------------------------------------------

impl SceneTree {
    /// The index that tells `child` apart from same-named siblings: its place
    /// among them in sibling order, in 16 bits; 0 where it is not among them.
    pub open spec fn same_name_index(
        self,
        parent: Option<Entity>,
        child: Entity,
        name: Seq<char>,
    ) -> u16 {
        let same = self.named(self.siblings(parent), name);
        if same.contains(child) {
            (self.place(same, child) % 0x1_0000) as u16
        } else {
            0
        }
    }

    /// The segment for `child` under `parent`: by its name, else by its order
    /// key. What is no scene node has none.
    pub open spec fn part(self, parent: Option<Entity>, child: Entity) -> Option<PathPartView> {
        if !self.scene(child) {
            None
        } else {
            match self.title(child) {
                Some(name) => Some(
                    PathPartView::Named { name, index: self.same_name_index(parent, child, name) },
                ),
                None => match self.key(child) {
                    Some(key) => Some(PathPartView::Ordered { key }),
                    None => None,
                },
            }
        }
    }

    /// The last but one of `chain`.
    pub open spec fn above(chain: Seq<Entity>) -> Option<Entity> {
        if chain.len() > 1 {
            Some(chain[chain.len() - 2])
        } else {
            None
        }
    }

    /// One segment for each entity of `chain`, where each has one.
    pub open spec fn chain_parts(self, chain: Seq<Entity>) -> Option<Seq<PathPartView>>
        decreases chain.len(),
    {
        if chain.len() == 0 {
            Some(seq![])
        } else {
            match (
                self.chain_parts(chain.drop_last()),
                self.part(Self::above(chain), chain.last()),
            ) {
                (Some(parts), Some(part)) => Some(parts.push(part)),
                _ => None,
            }
        }
    }

    /// The path of `e`.
    pub open spec fn path(self, e: Entity) -> Option<Seq<PathPartView>> {
        self.chain_parts(self.chain(e))
    }

    /// The scene node under `parent` that `part` picks.
    pub open spec fn pick(self, parent: Option<Entity>, part: PathPartView) -> Option<Entity> {
        let candidates = self.siblings(parent);
        match part {
            PathPartView::Named { name, index } => {
                let same = self.named(candidates, name);
                first_where(same, |e: Entity| self.place(same, e) == index)
            },
            PathPartView::Ordered { key } => first_where(
                candidates,
                |e: Entity| self.key(e) == Some(key),
            ),
        }
    }

    /// Where `path` leads from `parent`.
    pub open spec fn follow(self, parent: Option<Entity>, path: Seq<PathPartView>) -> Option<
        Entity,
    >
        decreases path.len(),
    {
        if path.len() == 0 {
            parent
        } else {
            match self.pick(parent, path[0]) {
                Some(e) => self.follow(Some(e), path.skip(1)),
                None => None,
            }
        }
    }

    proof fn lemma_chain_parts_prefix(self, chain: Seq<Entity>, n: int)
        requires
            0 <= n <= chain.len(),
            self.chain_parts(chain.take(n)) is None,
        ensures
            self.chain_parts(chain) is None,
        decreases chain.len() - n,
    {
        if n < chain.len() {
            assert(chain.take(n + 1).drop_last() =~= chain.take(n));
            self.lemma_chain_parts_prefix(chain, n + 1);
        } else {
            assert(chain.take(n) =~= chain);
        }
    }

    fn same_name_index_of(&self, parent: Option<Entity>, child: Entity, name: &String) -> (r: u16)
        requires
            self.slots@.len() <= u32::MAX,
        ensures
            r == self.same_name_index(parent, child, name@),
    {
        let siblings = self.children_of(parent);
        let same = self.with_title(&siblings, name);
        if crate::agent::scene::holds(&same, child) {
            (self.place_of(&same, child) % 0x1_0000) as u16
        } else {
            0
        }
    }

    fn part_for_child(&self, parent: Option<Entity>, child: Entity) -> (r: Option<PathPart>)
        requires
            self.slots@.len() <= u32::MAX,
        ensures
            r is Some <==> self.part(parent, child) is Some,
            r is Some ==> Some(r->0@) == self.part(parent, child),
    {
        if !self.is_scene(child) {
            return None;
        }
        if let Some(name) = self.display_name_of(child) {
            let index = self.same_name_index_of(parent, child, &name);
            return Some(PathPart::Named { name, index });
        }
        match self.order_key_of(child) {
            Some(key) => Some(PathPart::Ordered { key }),
            None => None,
        }
    }

    /// The path of `entity`: one segment for each entity from its outermost
    /// ancestor down to itself. `None` where one of them is no scene node, or
    /// has neither a name nor an order key.
    pub fn path_for(&self, entity: Entity) -> (r: Option<ScenePath>)
        requires
            self.wf(),
        ensures
            r is Some <==> self.path(entity) is Some,
            r is Some ==> Some(r->0@) == self.path(entity),
    {
        let chain = self.chain_of(entity);
        let mut parts: Vec<PathPart> = Vec::new();
        let mut parent: Option<Entity> = None;
        let mut i: usize = 0;
        proof {
            assert(chain@.take(0) =~= seq![]);
            assert(part_views(parts@) =~= seq![]);
        }
        while i < chain.len()
            invariant
                self.wf(),
                chain@ == self.chain(entity),
                i <= chain@.len(),
                parent == (if i > 0 {
                    Some(chain@[i - 1])
                } else {
                    None
                }),
                self.chain_parts(chain@.take(i as int)) == Some(part_views(parts@)),
            decreases chain@.len() - i,
        {
            proof {
                let t = chain@.take(i + 1);
                assert(t.drop_last() =~= chain@.take(i as int));
                assert(t.last() == chain@[i as int]);
                assert(Self::above(t) == parent);
            }
            match self.part_for_child(parent, chain[i]) {
                Some(part) => {
                    let ghost before = parts@;
                    parts.push(part);
                    assert(part_views(parts@) =~= part_views(before).push(part@));
                },
                None => {
                    proof {
                        self.lemma_chain_parts_prefix(chain@, i + 1);
                    }
                    return None;
                },
            }
            parent = Some(chain[i]);
            i = i + 1;
        }
        assert(chain@.take(i as int) =~= chain@);
        Some(ScenePath::from_parts(parts))
    }

    /// The `index`-th of the candidates named `name`, in sibling order.
    fn find_named_child(&self, candidates: &Vec<Entity>, name: &String, index: u16) -> (r: Option<
        Entity,
    >)
        ensures
            r == ({
                let same = self.named(candidates@, name@);
                first_where(same, |e: Entity| self.place(same, e) == index)
            }),
    {
        let same = self.with_title(candidates, name);
        let ghost pred = |e: Entity| self.place(same@, e) == index;
        let mut i: usize = 0;
        assert(same@.skip(0) =~= same@);
        while i < same.len()
            invariant
                same@ == self.named(candidates@, name@),
                i <= same@.len(),
                pred == (|e: Entity| self.place(same@, e) == index),
                first_where(same@, pred) == first_where(same@.skip(i as int), pred),
            decreases same@.len() - i,
        {
            assert(same@.skip(i as int).skip(1) =~= same@.skip(i + 1));
            if self.place_of(&same, same[i]) == index as usize {
                return Some(same[i]);
            }
            i = i + 1;
        }
        None
    }

    fn has_key(&self, e: Entity, target: &OrderKey) -> (r: bool)
        ensures
            r == (self.key(e) == Some(target@)),
    {
        match self.order_key_of(e) {
            Some(k) => same_text(&k.0, &target.0),
            None => false,
        }
    }

    /// The first of the candidates with order key `target`.
    fn find_ordered_child(&self, candidates: &Vec<Entity>, target: &OrderKey) -> (r: Option<
        Entity,
    >)
        ensures
            r == first_where(candidates@, |e: Entity| self.key(e) == Some(target@)),
    {
        let ghost pred = |e: Entity| self.key(e) == Some(target@);
        let mut i: usize = 0;
        assert(candidates@.skip(0) =~= candidates@);
        while i < candidates.len()
            invariant
                i <= candidates@.len(),
                pred == (|e: Entity| self.key(e) == Some(target@)),
                first_where(candidates@, pred) == first_where(candidates@.skip(i as int), pred),
            decreases candidates@.len() - i,
        {
            assert(candidates@.skip(i as int).skip(1) =~= candidates@.skip(i + 1));
            if self.has_key(candidates[i], target) {
                return Some(candidates[i]);
            }
            i = i + 1;
        }
        None
    }

    /// Walks `path` down from the roots.
    pub fn entity_at(&self, path: &ScenePath) -> (r: Option<Entity>)
        requires
            self.slots@.len() <= u32::MAX,
        ensures
            r == self.follow(None, path@),
    {
        let parts = path.parts();
        let mut current: Option<Entity> = None;
        let mut i: usize = 0;
        assert(path@.skip(0) =~= path@);
        while i < parts.len()
            invariant
                self.slots@.len() <= u32::MAX,
                part_views(parts@) == path@,
                i <= parts@.len(),
                self.follow(None, path@) == self.follow(current, path@.skip(i as int)),
            decreases parts@.len() - i,
        {
            let candidates = self.children_of(current);
            let ghost rest = path@.skip(i as int);
            assert(rest[0] == parts@[i as int]@);
            assert(rest.skip(1) =~= path@.skip(i + 1));
            let next = match &parts[i] {
                PathPart::Named { name, index } => self.find_named_child(
                    &candidates,
                    name,
                    *index,
                ),
                PathPart::Ordered { key } => self.find_ordered_child(&candidates, key),
            };
            if next.is_none() {
                return None;
            }
            current = next;
            i = i + 1;
        }
        current
    }
}

/// Where a path leads in a world.
pub open spec fn resolved_path(w: SceneWorld, path: Seq<PathPartView>) -> Option<Entity> {
    w.tree.follow(None, path)
}

/// The live entity that a reference stands for: its cached entity where that
/// is alive, else the one with its replicated identity where that is alive,
/// else the one at its path.
pub open spec fn resolved_ref(w: SceneWorld, r: NodeRefView, session: SessionId) -> Option<Entity> {
    if cached(r, session) is Some && w.tree.alive(cached(r, session)->0) {
        cached(r, session)
    } else if r.crdt_id is Some && w.node_entity(r.crdt_id->0) is Some && w.tree.alive(
        w.node_entity(r.crdt_id->0)->0,
    ) {
        w.node_entity(r.crdt_id->0)
    } else {
        resolved_path(w, r.path)
    }
}

/// The reference to a live entity.
pub open spec fn node_ref(w: SceneWorld, e: Entity, session: SessionId) -> Option<NodeRefView> {
    if w.tree.alive(e) && w.tree.path(e) is Some {
        Some(
            NodeRefView {
                path: w.tree.path(e)->0,
                crdt_id: w.entity_node(e),
                entity: Some(e),
                session: Some(session),
            },
        )
    } else {
        None
    }
}

/// The reference to an entity, or to the root where it has none.
pub open spec fn node_ref_or_root(w: SceneWorld, e: Entity, session: SessionId) -> NodeRefView {
    match node_ref(w, e, session) {
        Some(r) => r,
        None => path_ref(seq![]),
    }
}

/// Walks a path from the roots to an entity.
pub fn resolve_path(sw: &SceneWorld, path: &ScenePath) -> (r: Option<Entity>)
    requires
        sw.wf(),
    ensures
        r == resolved_path(*sw, path@),
{
    sw.tree.entity_at(path)
}

/// The path of an entity.
pub fn path_for(sw: &SceneWorld, entity: Entity) -> (r: Option<ScenePath>)
    requires
        sw.wf(),
    ensures
        r is Some <==> sw.tree.path(entity) is Some,
        r is Some ==> Some(r->0@) == sw.tree.path(entity),
{
    sw.tree.path_for(entity)
}

/// The reference to a live entity, with all its hints.
pub fn node_ref_for(sw: &SceneWorld, entity: Entity, session: SessionId) -> (r: Option<NodeRef>)
    requires
        sw.wf(),
    ensures
        r is Some <==> node_ref(*sw, entity, session) is Some,
        r is Some ==> Some(r->0@) == node_ref(*sw, entity, session),
{
    if !sw.tree.is_alive(entity) {
        return None;
    }
    match sw.tree.path_for(entity) {
        None => None,
        Some(path) => {
            let r = NodeRef::from_path(path).with_cached(entity, session);
            match sw.node_id(entity) {
                Some(id) => Some(r.with_crdt_id(id)),
                None => Some(r),
            }
        },
    }
}

/// The reference to an entity, or to the root where it has none.
pub fn node_ref_or_root_for(sw: &SceneWorld, entity: Entity, session: SessionId) -> (r: NodeRef)
    requires
        sw.wf(),
    ensures
        r@ == node_ref_or_root(*sw, entity, session),
{
    match node_ref_for(sw, entity, session) {
        Some(r) => r,
        None => NodeRef::from_path(ScenePath::root()),
    }
}

// ---------------------------------------------------------------------------
// Laws
// ---------------------------------------------------------------------------

impl SceneTree {
    /// Whether the segment of `child` under `parent` picks `child` again: it
    /// is a scene node; where it is named, its place among same-named siblings
    /// fits in 16 bits; where it goes by its order key, no earlier sibling has
    /// that key.
    pub open spec fn addressable_under(self, parent: Option<Entity>, child: Entity) -> bool {
        &&& self.siblings(parent).contains(child)
        &&& match self.title(child) {
            Some(name) => self.place(self.named(self.siblings(parent), name), child) < 0x1_0000,
            None => self.key(child) is Some && first_where(
                self.siblings(parent),
                |e: Entity| self.key(e) == self.key(child),
            ) == Some(child),
        }
    }

    /// Whether every entity from the outermost ancestor of `e` down to `e` is
    /// picked again by its own segment.
    pub open spec fn addressable(self, e: Entity) -> bool {
        forall|i: int|
            0 <= i < self.chain(e).len() ==> self.addressable_under(
                Self::above(self.chain(e).take(i + 1)),
                #[trigger] self.chain(e)[i],
            )
    }

    proof fn lemma_pick(self, parent: Option<Entity>, child: Entity)
        requires
            self.addressable_under(parent, child),
        ensures
            self.part(parent, child) is Some,
            self.pick(parent, self.part(parent, child)->0) == Some(child),
    {
        let candidates = self.siblings(parent);
        self.lemma_siblings_scene(parent, child);
        match self.title(child) {
            Some(name) => {
                let same = self.named(candidates, name);
                lemma_filter_contains(
                    candidates,
                    |s: Entity| self.title(s) == Some(name),
                    child,
                );
                let index = self.same_name_index(parent, child, name);
                let pred = |e: Entity| self.place(same, e) == index;
                lemma_first_where(same, pred, child);
                let found = first_where(same, pred)->0;
                self.lemma_place_injective(same, found, child);
            },
            None => {
                let k = self.key(child)->0;
                assert((|e: Entity| self.key(e) == self.key(child)) =~= (|e: Entity|
                    self.key(e) == Some(k)));
            },
        }
    }

    proof fn lemma_follow_push(
        self,
        parent: Option<Entity>,
        path: Seq<PathPartView>,
        part: PathPartView,
    )
        ensures
            self.follow(parent, path.push(part)) == (if path.len() == 0 {
                self.pick(parent, part)
            } else {
                match self.follow(parent, path) {
                    Some(e) => self.pick(Some(e), part),
                    None => None,
                }
            }),
        decreases path.len(),
    {
        let whole = path.push(part);
        if path.len() == 0 {
            assert(whole[0] == part);
            assert(whole.skip(1) =~= seq![]);
            match self.pick(parent, part) {
                Some(e) => {
                    assert(self.follow(Some(e), whole.skip(1)) == Some(e));
                },
                None => {},
            }
        } else {
            assert(whole[0] == path[0]);
            assert(whole.skip(1) =~= path.skip(1).push(part));
            match self.pick(parent, path[0]) {
                Some(e) => {
                    self.lemma_follow_push(Some(e), path.skip(1), part);
                    if path.len() == 1 {
                        assert(self.follow(Some(e), path.skip(1)) == Some(e));
                    }
                },
                None => {},
            }
        }
    }

    /// Siblings are scene nodes.
    proof fn lemma_siblings_scene(self, parent: Option<Entity>, e: Entity)
        requires
            self.siblings(parent).contains(e),
        ensures
            self.scene(e),
    {
        match parent {
            Some(p) => lemma_filter_contains(self.kids(p), |c: Entity| self.scene(c), e),
            None => lemma_filter_contains(
                self.ids(),
                |x: Entity| self.scene(x) && self.parent(x) is None,
                e,
            ),
        }
    }

    /// Picking gives a scene node.
    proof fn lemma_pick_scene(self, parent: Option<Entity>, part: PathPartView)
        requires
            self.pick(parent, part) is Some,
        ensures
            self.scene(self.pick(parent, part)->0),
    {
        let candidates = self.siblings(parent);
        let found = self.pick(parent, part)->0;
        match part {
            PathPartView::Named { name, index } => {
                let same = self.named(candidates, name);
                lemma_first_where_member(same, |e: Entity| self.place(same, e) == index);
                lemma_filter_contains(
                    candidates,
                    |s: Entity| self.title(s) == Some(name),
                    found,
                );
            },
            PathPartView::Ordered { key } => {
                lemma_first_where_member(candidates, |e: Entity| self.key(e) == Some(key));
            },
        }
        self.lemma_siblings_scene(parent, found);
    }

    /// A path of at least one segment leads to a scene node, where it leads anywhere.
    pub proof fn lemma_follow_alive(self, parent: Option<Entity>, path: Seq<PathPartView>)
        requires
            self.follow(parent, path) is Some,
        ensures
            path.len() > 0 ==> self.scene(self.follow(parent, path)->0),
            path.len() == 0 ==> self.follow(parent, path) == parent,
        decreases path.len(),
    {
        if path.len() > 0 {
            self.lemma_pick_scene(parent, path[0]);
            self.lemma_follow_alive(self.pick(parent, path[0]), path.skip(1));
        }
    }

    proof fn lemma_follow_chain(self, e: Entity, n: int)
        requires
            self.wf(),
            self.alive(e),
            self.addressable(e),
            0 < n <= self.chain(e).len(),
        ensures
            self.chain_parts(self.chain(e).take(n)) is Some,
            self.chain_parts(self.chain(e).take(n))->0.len() == n,
            self.follow(None, self.chain_parts(self.chain(e).take(n))->0) == Some(
                self.chain(e)[n - 1],
            ),
        decreases n,
    {
        let c = self.chain(e);
        let t = c.take(n);
        assert(t.drop_last() =~= c.take(n - 1));
        assert(t.last() == c[n - 1]);
        assert(self.addressable_under(Self::above(c.take(n - 1 + 1)), c[n - 1]));
        self.lemma_pick(Self::above(t), c[n - 1]);
        if n > 1 {
            self.lemma_follow_chain(e, n - 1);
            assert(Self::above(t) == Some(c[n - 2]));
        } else {
            assert(c.take(0) =~= seq![]);
        }
        self.lemma_follow_push(
            None,
            self.chain_parts(c.take(n - 1))->0,
            self.part(Self::above(t), c[n - 1])->0,
        );
    }

    /// An entity has a path, and its path leads back to it, wherever each
    /// entity on the way is picked again by its own segment.
    pub proof fn path_leads_back(self, e: Entity)
        requires
            self.wf(),
            self.alive(e),
            self.addressable(e),
        ensures
            self.path(e) is Some,
            self.follow(None, self.path(e)->0) == Some(e),
    {
        self.lemma_chain(e);
        let c = self.chain(e);
        self.lemma_follow_chain(e, c.len() as int);
        assert(c.take(c.len() as int) =~= c);
    }
}

proof fn lemma_first_where_member(list: Seq<Entity>, pred: spec_fn(Entity) -> bool)
    requires
        first_where(list, pred) is Some,
    ensures
        list.contains(first_where(list, pred)->0),
        pred(first_where(list, pred)->0),
    decreases list.len(),
{
    if pred(list[0]) {
        assert(list.contains(list[0]));
    } else {
        lemma_first_where_member(list.skip(1), pred);
        let f = first_where(list.skip(1), pred)->0;
        let j = choose|j: int| 0 <= j < list.skip(1).len() && list.skip(1)[j] == f;
        assert(list[j + 1] == f);
    }
}

proof fn lemma_first_where(list: Seq<Entity>, pred: spec_fn(Entity) -> bool, e: Entity)
    requires
        list.contains(e),
        pred(e),
    ensures
        first_where(list, pred) is Some,
        pred(first_where(list, pred)->0),
        list.contains(first_where(list, pred)->0),
    decreases list.len(),
{
    if !pred(list[0]) {
        let i = choose|i: int| 0 <= i < list.len() && list[i] == e;
        assert(list.skip(1)[i - 1] == e);
        lemma_first_where(list.skip(1), pred, e);
        let f = first_where(list.skip(1), pred)->0;
        let j = choose|j: int| 0 <= j < list.skip(1).len() && list.skip(1)[j] == f;
        assert(list[j + 1] == f);
    }
}

/// A reference made for a live entity resolves to that entity in the session
/// it was made for.
pub proof fn own_reference_resolves(w: SceneWorld, e: Entity, session: SessionId)
    requires
        node_ref(w, e, session) is Some,
    ensures
        resolved_ref(w, node_ref(w, e, session)->0, session) == Some(e),
{
}

/// A reference whose entity cache is of another session and whose replicated
/// identity is unknown resolves by its path alone.
pub proof fn foreign_reference_goes_by_path(
    w: SceneWorld,
    r: NodeRefView,
    session: SessionId,
)
    requires
        r.session != Some(session),
        r.crdt_id is None || w.node_entity(r.crdt_id->0) is None,
    ensures
        resolved_ref(w, r, session) == resolved_path(w, r.path),
{
}

/// A reference goes by its cached entity first, provided that it was made in
/// this session and the entity is alive; by its replicated identity next,
/// provided that a live entity has it; and by its path last.
pub proof fn reference_tries_hints_in_order(w: SceneWorld, r: NodeRefView, session: SessionId)
    ensures
        r.session == Some(session) && r.entity is Some && w.tree.alive(r.entity->0)
            ==> resolved_ref(w, r, session) == r.entity,
        r.session != Some(session) || r.entity is None || !w.tree.alive(r.entity->0) ==> {
            &&& r.crdt_id is Some && w.crdt is Some && w.crdt->0.entity_of_node@.dom().contains(
                r.crdt_id->0,
            ) && w.tree.alive(w.crdt->0.entity_of_node@[r.crdt_id->0]) ==> resolved_ref(
                w,
                r,
                session,
            ) == Some(w.crdt->0.entity_of_node@[r.crdt_id->0])
            &&& r.crdt_id is None || w.crdt is None || !w.crdt->0.entity_of_node@.dom().contains(
                r.crdt_id->0,
            ) || !w.tree.alive(w.crdt->0.entity_of_node@[r.crdt_id->0]) ==> resolved_ref(
                w,
                r,
                session,
            ) == w.tree.follow(None, r.path)
        },
{
}

/// A target that is an entity stands for it while it is alive; one that is a
/// reference stands for what the reference resolves to.
pub proof fn target_stands_for_the_living(w: SceneWorld, e: Entity, r: NodeRefView, session: SessionId)
    ensures
        resolved_target(w, NodeTargetView::Entity(e), session) == (if w.tree.alive(e) {
            Some(e)
        } else {
            None
        }),
        resolved_target(w, NodeTargetView::Ref(r), session) == resolved_ref(w, r, session),
{
}

/// The reference to an entity carries its path, its replicated identity, the
/// entity itself and the session; only what is alive and has a path has one.
pub proof fn reference_carries_all_hints(w: SceneWorld, e: Entity, session: SessionId)
    ensures
        node_ref(w, e, session) is Some <==> w.tree.alive(e) && w.tree.path(e) is Some,
        node_ref(w, e, session) matches Some(r) ==> {
            &&& Some(r.path) == w.tree.path(e)
            &&& r.entity == Some(e)
            &&& r.session == Some(session)
            &&& r.crdt_id is Some <==> w.crdt is Some && w.crdt->0.node_of_entity@.dom().contains(
                e,
            )
            &&& r.crdt_id is Some ==> r.crdt_id->0 == w.crdt->0.node_of_entity@[e]
            &&& node_ref_or_root(w, e, session) == r
        },
        node_ref(w, e, session) is None ==> {
            let r = node_ref_or_root(w, e, session);
            r.path.len() == 0 && r.entity is None && r.session is None && r.crdt_id is None
        },
{
}

impl SceneTree {
    /// The path of a node is its parent's path and one more segment: by its name
    /// where it has one, else by its order key. A node that has neither, or is no
    /// scene node, has no path, and neither has anything below it.
    pub proof fn path_goes_through_the_parent(self, e: Entity)
        requires
            self.wf(),
            self.alive(e),
        ensures
            ({
                let above = match self.rec(e).parent {
                    Some(p) => self.path(p),
                    None => Some(Seq::<PathPartView>::empty()),
                };
                let named = self.rec(e).scene_node && self.title(e) is Some;
                let keyed = self.rec(e).scene_node && self.title(e) is None && self.rec(
                    e,
                ).order_key is Some;
                &&& self.path(e) is Some <==> above is Some && (named || keyed)
                &&& self.path(e) is Some ==> {
                    &&& self.path(e)->0.len() == above->0.len() + 1
                    &&& self.path(e)->0.drop_last() == above->0
                    &&& named ==> (self.path(e)->0.last() matches PathPartView::Named {
                        name,
                        index,
                    } && name == self.title(e)->0 && index == self.same_name_index(
                        self.rec(e).parent,
                        e,
                        name,
                    ))
                    &&& keyed ==> (self.path(e)->0.last() matches PathPartView::Ordered {
                        key,
                    } && key == self.rec(e).order_key->0@)
                }
            }),
    {
        self.lemma_chain(e);
        let chain = self.chain(e);
        match self.parent(e) {
            None => {
                assert(chain =~= seq![e]);
                assert(chain.drop_last() =~= seq![]);
                assert(self.chain_parts(seq![]) == Some(Seq::<PathPartView>::empty()));
                assert(Self::above(chain) is None);
            },
            Some(p) => {
                assert(chain == self.chain(p).push(e));
                assert(chain.drop_last() =~= self.chain(p));
                self.lemma_chain_last(p);
                assert(Self::above(chain) == Some(p));
            },
        }
        if self.path(e) is Some {
            let above = self.chain_parts(chain.drop_last())->0;
            assert(self.path(e)->0 == above.push(self.part(Self::above(chain), e)->0));
            assert(self.path(e)->0.drop_last() =~= above);
        }
    }

    /// Of the scene nodes with one name under one parent, each has as its index
    /// how many of the others come before it in sibling order, so the first has
    /// index 0 and no two have the same.
    pub proof fn same_names_are_numbered(self, parent: Option<Entity>, a: Entity, b: Entity)
        requires
            self.wf(),
            self.alive(a) && self.rec(a).scene_node && self.rec(a).parent == parent,
            self.alive(b) && self.rec(b).scene_node && self.rec(b).parent == parent,
            self.title(a) is Some,
            self.title(a) == self.title(b),
            self.siblings(parent).len() <= 0x1_0000,
        ensures
            a != b ==> self.same_name_index(parent, a, self.title(a)->0) != self.same_name_index(
                parent,
                b,
                self.title(a)->0,
            ),
            self.sib_less(a, b) ==> self.same_name_index(parent, a, self.title(a)->0)
                < self.same_name_index(parent, b, self.title(a)->0),
            (forall|c: Entity|
                self.alive(c) && self.rec(c).scene_node && self.rec(c).parent == parent
                    && self.title(c) == self.title(a) && c != a ==> #[trigger] self.sib_less(a, c))
                ==> self.same_name_index(parent, a, self.title(a)->0) == 0,
    {
        let name = self.title(a)->0;
        let all = self.siblings(parent);
        let same = self.named(all, name);
        let pred = |s: Entity| self.title(s) == Some(name);
        self.siblings_are_scene_nodes(parent, a);
        self.siblings_are_scene_nodes(parent, b);
        lemma_filter_contains(all, pred, a);
        lemma_filter_contains(all, pred, b);
        lemma_filter_len(all, pred);
        self.lemma_place_below(same, a);
        self.lemma_place_below(same, b);
        if a != b {
            if self.place(same, a) == self.place(same, b) {
                self.lemma_place_injective(same, a, b);
            }
        }
        if self.sib_less(a, b) {
            self.lemma_place_monotone(same, a, b);
        }
        if forall|c: Entity|
            self.alive(c) && self.rec(c).scene_node && self.rec(c).parent == parent && self.title(c)
                == self.title(a) && c != a ==> #[trigger] self.sib_less(a, c) {
            let before = |s: Entity| self.sib_less(s, a);
            let earlier = same.filter(before);
            if earlier.len() > 0 {
                let c = earlier[0];
                assert(earlier.contains(c));
                lemma_filter_contains(same, before, c);
                lemma_filter_contains(all, pred, c);
                self.siblings_are_scene_nodes(parent, c);
                self.lemma_sib_irreflexive(a);
                if c != a {
                    self.lemma_sib_transitive(a, c, a);
                }
            }
        }
    }

    /// The place of a member of a list is less than the list is long.
    proof fn lemma_place_below(self, list: Seq<Entity>, e: Entity)
        requires
            list.contains(e),
        ensures
            self.place(list, e) < list.len(),
    {
        let before = |s: Entity| self.sib_less(s, e);
        let i = choose|i: int| 0 <= i < list.len() && list[i] == e;
        self.lemma_sib_irreflexive(e);
        lemma_filter_skips(list, before, i);
    }

    /// A segment picks a scene node of that name, the one with that many of the
    /// same name before it, or one with that order key; nothing else.
    pub proof fn segment_picks_what_it_says(self, parent: Option<Entity>, part: PathPartView)
        requires
            self.wf(),
            self.pick(parent, part) is Some,
        ensures
            ({
                let e = self.pick(parent, part)->0;
                &&& self.alive(e)
                &&& self.rec(e).scene_node
                &&& self.rec(e).parent == parent
                &&& part matches PathPartView::Named { name, index } ==> self.title(e) == Some(name)
                    && self.place(self.named(self.siblings(parent), name), e) == index
                &&& part matches PathPartView::Ordered { key } ==> self.rec(e).order_key is Some
                    && self.rec(e).order_key->0@ == key
            }),
    {
        let e = self.pick(parent, part)->0;
        let all = self.siblings(parent);
        match part {
            PathPartView::Named { name, index } => {
                let same = self.named(all, name);
                lemma_first_where_member(same, |x: Entity| self.place(same, x) == index);
                lemma_filter_contains(all, |s: Entity| self.title(s) == Some(name), e);
            },
            PathPartView::Ordered { key } => {
                lemma_first_where_member(all, |x: Entity| self.key(x) == Some(key));
            },
        }
        self.siblings_are_scene_nodes(parent, e);
    }

    /// A path is followed segment by segment from the roots down.
    pub proof fn path_is_followed_downwards(self, path: Seq<PathPartView>, part: PathPartView)
        ensures
            self.follow(None, seq![part]) == self.pick(None, part),
            path.len() > 0 ==> self.follow(None, path.push(part)) == (match self.follow(
                None,
                path,
            ) {
                Some(e) => self.pick(Some(e), part),
                None => None,
            }),
    {
        self.lemma_follow_push(None, path, part);
        self.lemma_follow_push(None, seq![], part);
        assert(Seq::<PathPartView>::empty().push(part) =~= seq![part]);
    }
}

proof fn lemma_filter_skips(list: Seq<Entity>, pred: spec_fn(Entity) -> bool, i: int)
    requires
        0 <= i < list.len(),
        !pred(list[i]),
    ensures
        list.filter(pred).len() < list.len(),
    decreases list.len(),
{
    reveal(Seq::filter);
    let init = list.drop_last();
    if i < init.len() {
        assert(init[i] == list[i]);
        lemma_filter_skips(init, pred, i);
    } else {
        lemma_filter_len(init, pred);
    }
}

} // verus!
