//! The world the agent works on: the scene tree, the index of replicated
//! identities and the change stream.
use std::collections::HashMap;

use vstd::prelude::*;

use crate::agent::handle::{Cursor, SessionId};
use crate::agent::path::OrderKey;
use crate::agent::scene::{
    record_has, ComponentKind, CrdtId, Entity, EntityRecord, Frame, NodeKind, SceneEdge, SceneNode,
    SceneTree, Text,
};
use crate::agent::watch::{GraphMessage, WatchState};
use crate::seqs::{lemma_filter_contains, lemma_filter_prefix, lemma_filter_step};
use crate::table::Table;
use crate::text::{same_text, text_views};

verus! {

/// Which entity stands for which replicated node or edge, both ways.
#[derive(Debug)]
pub struct EntityCrdtIndex {
    pub entity_of_node: Table<CrdtId, Entity>,
    pub node_of_entity: HashMap<Entity, CrdtId>,
    pub entity_of_edge: Table<CrdtId, Entity>,
    pub edge_of_entity: HashMap<Entity, CrdtId>,
}

/// The value of `key` in a map, where it has one.
pub open spec fn lookup<K, V>(m: Map<K, V>, key: K) -> Option<V> {
    if m.dom().contains(key) {
        Some(m[key])
    } else {
        None
    }
}

impl EntityCrdtIndex {
    pub open spec fn wf(self) -> bool {
        &&& self.entity_of_node.wf()
        &&& self.entity_of_edge.wf()
    }

    pub fn new() -> (r: Self)
        ensures
            r.wf(),
            r.entity_of_node@ == Map::<CrdtId, Entity>::empty(),
            r.node_of_entity@ == Map::<Entity, CrdtId>::empty(),
            r.entity_of_edge@ == Map::<CrdtId, Entity>::empty(),
            r.edge_of_entity@ == Map::<Entity, CrdtId>::empty(),
    {
        EntityCrdtIndex {
            entity_of_node: Table::new(),
            node_of_entity: HashMap::new(),
            entity_of_edge: Table::new(),
            edge_of_entity: HashMap::new(),
        }
    }

    /// Binds a node entity to its replicated identity.
    pub fn bind_node(&mut self, entity: Entity, id: CrdtId)
        requires
            old(self).wf(),
        ensures
            final(self).wf(),
            final(self).entity_of_node@ == old(self).entity_of_node@.insert(id, entity),
            final(self).node_of_entity@ == old(self).node_of_entity@.insert(entity, id),
            final(self).entity_of_edge == old(self).entity_of_edge,
            final(self).edge_of_entity == old(self).edge_of_entity,
    {
        self.entity_of_node.insert(id, entity);
        self.node_of_entity.insert(entity, id);
    }

    /// Binds an edge entity to its replicated identity.
    pub fn bind_edge(&mut self, entity: Entity, id: CrdtId)
        requires
            old(self).wf(),
        ensures
            final(self).wf(),
            final(self).entity_of_edge@ == old(self).entity_of_edge@.insert(id, entity),
            final(self).edge_of_entity@ == old(self).edge_of_entity@.insert(entity, id),
            final(self).entity_of_node == old(self).entity_of_node,
            final(self).node_of_entity == old(self).node_of_entity,
    {
        self.entity_of_edge.insert(id, entity);
        self.edge_of_entity.insert(entity, id);
    }

    pub fn entity_for_node(&self, id: CrdtId) -> (r: Option<Entity>)
        requires
            self.wf(),
        ensures
            r == lookup(self.entity_of_node@, id),
    {
        match self.entity_of_node.get(id) {
            Some(e) => Some(*e),
            None => None,
        }
    }

    pub fn node_id(&self, entity: Entity) -> (r: Option<CrdtId>)
        requires
            self.wf(),
        ensures
            r == lookup(self.node_of_entity@, entity),
    {
        match self.node_of_entity.get(&entity) {
            Some(id) => Some(*id),
            None => None,
        }
    }
}

/// A component type that can be asked for by name.
#[derive(Debug)]
pub struct TypeEntry {
    /// The full path of the type.
    pub path: String,
    /// The last segment of the path.
    pub short: String,
    /// The component, where the world knows the type as one.
    pub component: Option<ComponentKind>,
}

/// What a [`TypeEntry`] holds.
#[verifier::ext_equal]
pub struct TypeEntryView {
    pub path: Seq<char>,
    pub short: Seq<char>,
    pub component: Option<ComponentKind>,
}

impl View for TypeEntry {
    type V = TypeEntryView;

    open spec fn view(&self) -> TypeEntryView {
        TypeEntryView { path: self.path@, short: self.short@, component: self.component }
    }
}

pub open spec fn entry_views(registry: Seq<TypeEntry>) -> Seq<TypeEntryView> {
    registry.map_values(|t: TypeEntry| t@)
}

/// The first type with the given path.
pub open spec fn entry_by_path(registry: Seq<TypeEntryView>, name: Seq<char>) -> Option<
    TypeEntryView,
>
    decreases registry.len(),
{
    if registry.len() == 0 {
        None
    } else if registry[0].path == name {
        Some(registry[0])
    } else {
        entry_by_path(registry.skip(1), name)
    }
}

/// The types with the given short name.
pub open spec fn entries_by_short(registry: Seq<TypeEntryView>, name: Seq<char>) -> Seq<
    TypeEntryView,
> {
    registry.filter(|t: TypeEntryView| t.short == name)
}

/// The component that `name` stands for: by full path, else by a short name
/// that only one type has.
pub open spec fn component_named(registry: Seq<TypeEntryView>, name: Seq<char>) -> Option<
    ComponentKind,
> {
    match entry_by_path(registry, name) {
        Some(entry) => entry.component,
        None => if entries_by_short(registry, name).len() == 1 {
            entries_by_short(registry, name)[0].component
        } else {
            None
        },
    }
}

/// The component that `name` stands for.
pub fn lookup_component_id(registry: &Vec<TypeEntry>, name: &String) -> (r: Option<ComponentKind>)
    ensures
        r == component_named(entry_views(registry@), name@),
{
    let ghost all = entry_views(registry@);
    let mut i: usize = 0;
    assert(all.skip(0) =~= all);
    while i < registry.len()
        invariant
            all == entry_views(registry@),
            i <= registry@.len(),
            entry_by_path(all, name@) == entry_by_path(all.skip(i as int), name@),
        decreases registry@.len() - i,
    {
        assert(all.skip(i as int).skip(1) =~= all.skip(i + 1));
        assert(all[i as int] == registry@[i as int]@);
        if same_text(&registry[i].path, name) {
            return registry[i].component;
        }
        i = i + 1;
    }
    let ghost pred = |t: TypeEntryView| t.short == name@;
    let mut found: Option<ComponentKind> = None;
    let mut count: usize = 0;
    let mut j: usize = 0;
    proof {
        reveal(Seq::filter);
        assert(all.take(0) =~= seq![]);
    }
    while j < registry.len()
        invariant
            all == entry_views(registry@),
            j <= registry@.len(),
            count <= j,
            pred == (|t: TypeEntryView| t.short == name@),
            count == all.take(j as int).filter(pred).len(),
            count == 1 ==> all.take(j as int).filter(pred)[0].component == found,
        decreases registry@.len() - j,
    {
        proof {
            lemma_filter_step(all, j as int, pred);
            assert(all[j as int] == registry@[j as int]@);
        }
        if same_text(&registry[j].short, name) {
            found = registry[j].component;
            count = count + 1;
        }
        j = j + 1;
    }
    assert(all.take(j as int) =~= all);
    if count == 1 {
        found
    } else {
        None
    }
}

/// A component type of the scene, with the path it is known by.
pub trait SceneComponent {
    spec fn spec_path() -> Seq<char>;

    /// The full path of the type.
    fn type_path() -> (r: String)
        ensures
            r@ == Self::spec_path(),
    ;
}

impl SceneComponent for SceneNode {
    open spec fn spec_path() -> Seq<char> {
        "kyoso::agent::scene::SceneNode"@
    }

    fn type_path() -> (r: String) {
        "kyoso::agent::scene::SceneNode".to_owned()
    }
}

impl SceneComponent for SceneEdge {
    open spec fn spec_path() -> Seq<char> {
        "kyoso::agent::scene::SceneEdge"@
    }

    fn type_path() -> (r: String) {
        "kyoso::agent::scene::SceneEdge".to_owned()
    }
}

impl SceneComponent for NodeKind {
    open spec fn spec_path() -> Seq<char> {
        "kyoso::agent::scene::NodeKind"@
    }

    fn type_path() -> (r: String) {
        "kyoso::agent::scene::NodeKind".to_owned()
    }
}

impl SceneComponent for Frame {
    open spec fn spec_path() -> Seq<char> {
        "kyoso::agent::scene::Frame"@
    }

    fn type_path() -> (r: String) {
        "kyoso::agent::scene::Frame".to_owned()
    }
}

impl SceneComponent for Text {
    open spec fn spec_path() -> Seq<char> {
        "kyoso::agent::scene::Text"@
    }

    fn type_path() -> (r: String) {
        "kyoso::agent::scene::Text".to_owned()
    }
}

impl SceneComponent for OrderKey {
    open spec fn spec_path() -> Seq<char> {
        "kyoso::agent::path::OrderKey"@
    }

    fn type_path() -> (r: String) {
        "kyoso::agent::path::OrderKey".to_owned()
    }
}

/// The components with a name of their own, in a fixed order.
pub open spec fn typed_components() -> Seq<ComponentKind> {
    seq![
        ComponentKind::SceneNode,
        ComponentKind::SceneEdge,
        ComponentKind::NodeKind,
        ComponentKind::Frame,
        ComponentKind::Rectangle,
        ComponentKind::Text,
        ComponentKind::Transform,
        ComponentKind::OrderKey,
        ComponentKind::ChildOf,
        ComponentKind::Children,
        ComponentKind::EdgeFrom,
        ComponentKind::EdgeTo,
    ]
}

/// The components that a record carries.
pub open spec fn record_components(r: EntityRecord) -> Seq<ComponentKind> {
    typed_components().filter(|c: ComponentKind| record_has(r, c)) + r.others@.map_values(
        |id: u64| ComponentKind::Other(id),
    )
}

/// The path of the first type known for a component; `_` where there is none.
pub open spec fn component_title(registry: Seq<TypeEntryView>, c: ComponentKind) -> Seq<char>
    decreases registry.len(),
{
    if registry.len() == 0 {
        "_"@
    } else if registry[0].component == Some(c) {
        registry[0].path
    } else {
        component_title(registry.skip(1), c)
    }
}

fn title_of(registry: &Vec<TypeEntry>, c: ComponentKind) -> (r: String)
    ensures
        r@ == component_title(entry_views(registry@), c),
{
    let ghost all = entry_views(registry@);
    let mut i: usize = 0;
    assert(all.skip(0) =~= all);
    while i < registry.len()
        invariant
            all == entry_views(registry@),
            i <= registry@.len(),
            component_title(all, c) == component_title(all.skip(i as int), c),
        decreases registry@.len() - i,
    {
        assert(all.skip(i as int).skip(1) =~= all.skip(i + 1));
        assert(all[i as int] == registry@[i as int]@);
        if let Some(k) = registry[i].component {
            if k == c {
                return registry[i].path.clone();
            }
        }
        i = i + 1;
    }
    "_".to_owned()
}

/// The components that a record carries.
fn components_of(record: &EntityRecord) -> (r: Vec<ComponentKind>)
    ensures
        r@ == record_components(*record),
{
    let typed = vec![
        ComponentKind::SceneNode,
        ComponentKind::SceneEdge,
        ComponentKind::NodeKind,
        ComponentKind::Frame,
        ComponentKind::Rectangle,
        ComponentKind::Text,
        ComponentKind::Transform,
        ComponentKind::OrderKey,
        ComponentKind::ChildOf,
        ComponentKind::Children,
        ComponentKind::EdgeFrom,
        ComponentKind::EdgeTo,
    ];
    assert(typed@ =~= typed_components());
    let ghost pred = |c: ComponentKind| record_has(*record, c);
    let mut r: Vec<ComponentKind> = Vec::new();
    let mut i: usize = 0;
    proof {
        reveal(Seq::filter);
        assert(typed@.take(0) =~= seq![]);
    }
    while i < typed.len()
        invariant
            i <= typed@.len(),
            pred == (|c: ComponentKind| record_has(*record, c)),
            r@ == typed@.take(i as int).filter(pred),
        decreases typed@.len() - i,
    {
        proof {
            lemma_filter_step(typed@, i as int, pred);
        }
        if record.has(typed[i]) {
            r.push(typed[i]);
        }
        i = i + 1;
    }
    assert(typed@.take(i as int) =~= typed@);
    let ghost first = r@;
    let ghost rest = record.others@.map_values(|id: u64| ComponentKind::Other(id));
    let mut j: usize = 0;
    while j < record.others.len()
        invariant
            j <= record.others@.len(),
            rest == record.others@.map_values(|id: u64| ComponentKind::Other(id)),
            r@ == first + rest.take(j as int),
        decreases record.others@.len() - j,
    {
        r.push(ComponentKind::Other(record.others[j]));
        j = j + 1;
        assert(r@ =~= first + rest.take(j as int));
    }
    assert(rest.take(j as int) =~= rest);
    r
}

/// A registry with one more type, unless its path is already there.
pub open spec fn registered(
    registry: Seq<TypeEntryView>,
    path: Seq<char>,
    short: Seq<char>,
    component: ComponentKind,
) -> Seq<TypeEntryView> {
    if entry_by_path(registry, path) is Some {
        registry
    } else {
        registry.push(TypeEntryView { path, short, component: Some(component) })
    }
}

/// A registry with the component types of the scene.
pub open spec fn scene_types_registered(registry: Seq<TypeEntryView>) -> Seq<TypeEntryView> {
    let r1 = registered(
        registry,
        SceneNode::spec_path(),
        "SceneNode"@,
        ComponentKind::SceneNode,
    );
    let r2 = registered(r1, SceneEdge::spec_path(), "SceneEdge"@, ComponentKind::SceneEdge);
    let r3 = registered(r2, NodeKind::spec_path(), "NodeKind"@, ComponentKind::NodeKind);
    let r4 = registered(r3, Frame::spec_path(), "Frame"@, ComponentKind::Frame);
    let r5 = registered(r4, Text::spec_path(), "Text"@, ComponentKind::Text);
    registered(r5, OrderKey::spec_path(), "OrderKey"@, ComponentKind::OrderKey)
}

/// A scene with its change stream.
#[derive(Debug)]
pub struct SceneWorld {
    pub tree: SceneTree,
    /// The component types that can be asked for by name.
    pub registry: Vec<TypeEntry>,
    pub crdt: Option<EntityCrdtIndex>,
    /// The change stream, once it is switched on.
    pub watch: Option<WatchState>,
    /// Graph messages that the next update hands to the change stream.
    pub pending: Vec<GraphMessage>,
}

impl SceneWorld {
    pub open spec fn wf(self) -> bool {
        &&& self.tree.wf()
        &&& self.crdt is Some ==> self.crdt->0.wf()
        &&& self.watch is Some ==> self.watch->0.wf()
        &&& self.watch is None ==> self.pending@.len() == 0
    }

    /// Whether the two worlds agree on the scene itself.
    pub open spec fn same_scene(self, other: SceneWorld) -> bool {
        self.tree == other.tree && self.crdt == other.crdt && self.registry == other.registry
    }

    /// The entity bound to a replicated node.
    pub open spec fn node_entity(self, id: CrdtId) -> Option<Entity> {
        match self.crdt {
            Some(index) => lookup(index.entity_of_node@, id),
            None => None,
        }
    }

    /// The replicated identity of an entity.
    pub open spec fn entity_node(self, e: Entity) -> Option<CrdtId> {
        match self.crdt {
            Some(index) => lookup(index.node_of_entity@, e),
            None => None,
        }
    }

    /// The names of the components that `e` carries.
    pub open spec fn spec_component_names(self, e: Entity) -> Seq<Seq<char>> {
        if self.tree.alive(e) {
            record_components(self.tree.rec(e)).map_values(
                |c: ComponentKind| component_title(entry_views(self.registry@), c),
            )
        } else {
            seq![]
        }
    }

    /// The current generation; 0 while there is no change stream.
    pub open spec fn spec_generation(self) -> u64 {
        match self.watch {
            Some(state) => state.generation.0,
            None => 0,
        }
    }

    /// The current position in the stream of replicated operations.
    pub open spec fn spec_op(self) -> Option<u64> {
        match self.watch {
            Some(state) => state.replicated_op.0,
            None => None,
        }
    }

    /// The current position in the change stream.
    pub open spec fn spec_cursor(self, session: SessionId) -> Cursor {
        Cursor {
            session,
            generation: self.spec_generation(),
            last_replicated_op: self.spec_op(),
        }
    }

    /// The messages waiting once `more` were sent; none without a change stream.
    pub open spec fn after_sending(self, more: Seq<GraphMessage>) -> Seq<GraphMessage> {
        if self.watch is Some {
            self.pending@ + more
        } else {
            self.pending@
        }
    }

    /// A world without entities and without a change stream.
    pub fn new() -> (r: Self)
        ensures
            r.wf(),
            r.tree.slots@.len() == 0,
            r.registry@.len() == 0,
            r.crdt is None,
            r.watch is None,
    {
        SceneWorld {
            tree: SceneTree::new(),
            registry: Vec::new(),
            crdt: None,
            watch: None,
            pending: Vec::new(),
        }
    }

    /// Makes a component type known by its path and its short name. A path
    /// that is already known stays as it is.
    pub fn register(&mut self, path: String, short: &str, component: ComponentKind)
        requires
            old(self).wf(),
        ensures
            final(self).wf(),
            final(self).tree == old(self).tree,
            final(self).crdt == old(self).crdt,
            final(self).watch == old(self).watch,
            final(self).pending == old(self).pending,
            entry_views(final(self).registry@) == registered(
                entry_views(old(self).registry@),
                path@,
                short@,
                component,
            ),
    {
        let ghost all = entry_views(self.registry@);
        let mut i: usize = 0;
        assert(all.skip(0) =~= all);
        while i < self.registry.len()
            invariant
                *self == *old(self),
                old(self).wf(),
                all == entry_views(self.registry@),
                i <= self.registry@.len(),
                entry_by_path(all, path@) == entry_by_path(all.skip(i as int), path@),
            decreases self.registry@.len() - i,
        {
            assert(all.skip(i as int).skip(1) =~= all.skip(i + 1));
            assert(all[i as int] == self.registry@[i as int]@);
            if same_text(&self.registry[i].path, &path) {
                return;
            }
            i = i + 1;
        }
        let entry = TypeEntry { path, short: short.to_owned(), component: Some(component) };
        self.registry.push(entry);
        assert(entry_views(self.registry@) =~= all.push(entry@));
    }

    /// Makes the component types of the scene known.
    pub fn register_scene_types(&mut self)
        requires
            old(self).wf(),
        ensures
            final(self).wf(),
            final(self).tree == old(self).tree,
            final(self).crdt == old(self).crdt,
            final(self).watch == old(self).watch,
            final(self).pending == old(self).pending,
            entry_views(final(self).registry@) == scene_types_registered(
                entry_views(old(self).registry@),
            ),
    {
        self.register(SceneNode::type_path(), "SceneNode", ComponentKind::SceneNode);
        self.register(SceneEdge::type_path(), "SceneEdge", ComponentKind::SceneEdge);
        self.register(NodeKind::type_path(), "NodeKind", ComponentKind::NodeKind);
        self.register(Frame::type_path(), "Frame", ComponentKind::Frame);
        self.register(Text::type_path(), "Text", ComponentKind::Text);
        self.register(OrderKey::type_path(), "OrderKey", ComponentKind::OrderKey);
    }

    pub fn entity_for_node(&self, id: CrdtId) -> (r: Option<Entity>)
        requires
            self.wf(),
        ensures
            r == self.node_entity(id),
    {
        match &self.crdt {
            Some(index) => index.entity_for_node(id),
            None => None,
        }
    }

    pub fn node_id(&self, e: Entity) -> (r: Option<CrdtId>)
        requires
            self.wf(),
        ensures
            r == self.entity_node(e),
    {
        match &self.crdt {
            Some(index) => index.node_id(e),
            None => None,
        }
    }

    /// The names of the components that `e` carries.
    pub fn component_names(&self, e: Entity) -> (r: Vec<String>)
        ensures
            text_views(r@) == self.spec_component_names(e),
    {
        let mut names: Vec<String> = Vec::new();
        match self.tree.record(e) {
            Some(record) => {
                let components = components_of(record);
                let ghost title = |c: ComponentKind|
                    component_title(entry_views(self.registry@), c);
                let mut i: usize = 0;
                while i < components.len()
                    invariant
                        i <= components@.len(),
                        names@.len() == i,
                        title == (|c: ComponentKind|
                            component_title(entry_views(self.registry@), c)),
                        forall|k: int|
                            0 <= k < i ==> (#[trigger] names@[k])@ == title(components@[k]),
                    decreases components@.len() - i,
                {
                    names.push(title_of(&self.registry, components[i]));
                    i = i + 1;
                }
                assert(text_views(names@) =~= components@.map_values(title));
            },
            None => {
                assert(text_views(names@) =~= seq![]);
            },
        }
        names
    }

    /// The current generation.
    pub fn generation(&self) -> (r: u64)
        ensures
            r == self.spec_generation(),
    {
        match &self.watch {
            Some(state) => state.generation.0,
            None => 0,
        }
    }

    /// The current position in the change stream.
    pub fn current_cursor(&self, session: SessionId) -> (r: Cursor)
        ensures
            r == self.spec_cursor(session),
    {
        let last_replicated_op = match &self.watch {
            Some(state) => state.replicated_op.0,
            None => None,
        };
        Cursor { session, generation: self.generation(), last_replicated_op }
    }

    /// Queues a graph message for the change stream, where there is one.
    pub fn send(&mut self, message: GraphMessage)
        requires
            old(self).wf(),
        ensures
            final(self).wf(),
            final(self).same_scene(*old(self)),
            final(self).watch == old(self).watch,
            final(self).pending@ == old(self).after_sending(seq![message]),
    {
        if self.watch.is_some() {
            self.pending.push(message);
            assert(self.pending@ =~= old(self).pending@ + seq![message]);
        }
    }

    /// Runs one frame: the change stream takes in the messages that wait.
    pub fn update(&mut self)
        requires
            old(self).wf(),
        ensures
            final(self).wf(),
            final(self).same_scene(*old(self)),
            final(self).pending@.len() == 0,
            final(self).watch is Some <==> old(self).watch is Some,
            old(self).watch is Some ==> final(self).watch->0.after(
                old(self).watch->0,
                old(self).pending@,
            ),
    {
        if let Some(state) = &mut self.watch {
            state.drain_messages(&self.pending);
        }
        self.pending = Vec::new();
    }
}

// ---------------------------------------------------------------------------
// Laws
// ---------------------------------------------------------------------------

/// A component counts as carried exactly while the record has something in the
/// field that stands for it.
pub proof fn component_is_its_field(r: EntityRecord, id: u64)
    ensures
        record_has(r, ComponentKind::SceneNode) <==> r.scene_node,
        record_has(r, ComponentKind::SceneEdge) <==> r.scene_edge,
        record_has(r, ComponentKind::NodeKind) <==> r.kind is Some,
        record_has(r, ComponentKind::Frame) <==> r.frame is Some,
        record_has(r, ComponentKind::Rectangle) <==> r.rectangle is Some,
        record_has(r, ComponentKind::Text) <==> r.text is Some,
        record_has(r, ComponentKind::Transform) <==> r.transform is Some,
        record_has(r, ComponentKind::OrderKey) <==> r.order_key is Some,
        record_has(r, ComponentKind::ChildOf) <==> r.parent is Some,
        record_has(r, ComponentKind::Children) <==> r.children@.len() > 0,
        record_has(r, ComponentKind::EdgeFrom) <==> r.edge_from is Some,
        record_has(r, ComponentKind::EdgeTo) <==> r.edge_to is Some,
        record_has(r, ComponentKind::Other(id)) <==> r.others@.contains(id),
{
}

proof fn lemma_entry_by_path(registry: Seq<TypeEntryView>, name: Seq<char>)
    ensures
        match entry_by_path(registry, name) {
            Some(t) => registry.contains(t) && t.path == name,
            None => forall|i: int| 0 <= i < registry.len() ==> (#[trigger] registry[i]).path
                != name,
        },
    decreases registry.len(),
{
    if registry.len() > 0 && registry[0].path != name {
        let rest = registry.skip(1);
        lemma_entry_by_path(rest, name);
        match entry_by_path(rest, name) {
            Some(t) => {
                let i = choose|i: int| 0 <= i < rest.len() && rest[i] == t;
                assert(registry[i + 1] == t);
            },
            None => {
                assert forall|i: int| 0 <= i < registry.len() implies (#[trigger] registry[i]).path
                    != name by {
                    if i > 0 {
                        assert(rest[i - 1] == registry[i]);
                    }
                }
            },
        }
    } else if registry.len() > 0 {
        assert(registry[0] == entry_by_path(registry, name)->0);
    }
}

/// A type is found by its full path, where no other type has the same.
pub proof fn type_is_found_by_path(registry: Seq<TypeEntryView>, i: int)
    requires
        0 <= i < registry.len(),
        forall|j: int| 0 <= j < registry.len() && j != i ==> (#[trigger] registry[j]).path
            != registry[i].path,
    ensures
        component_named(registry, registry[i].path) == registry[i].component,
{
    lemma_entry_by_path(registry, registry[i].path);
    let t = entry_by_path(registry, registry[i].path)->0;
    let k = choose|k: int| 0 <= k < registry.len() && registry[k] == t;
    assert(registry[k].path == registry[i].path);
}

/// A type is found by its short name, where that is no type's path and no other
/// type has the same short name.
pub proof fn type_is_found_by_short_name(registry: Seq<TypeEntryView>, i: int)
    requires
        0 <= i < registry.len(),
        forall|j: int| 0 <= j < registry.len() ==> (#[trigger] registry[j]).path
            != registry[i].short,
        forall|j: int| 0 <= j < registry.len() && j != i ==> (#[trigger] registry[j]).short
            != registry[i].short,
    ensures
        component_named(registry, registry[i].short) == registry[i].component,
{
    let name = registry[i].short;
    let pred = |t: TypeEntryView| t.short == name;
    lemma_entry_by_path(registry, name);
    lemma_one_filtered(registry, pred, i);
    assert(entries_by_short(registry, name) == registry.filter(pred));
}

/// A filter that one place alone passes gives that one.
proof fn lemma_one_filtered(
    s: Seq<TypeEntryView>,
    pred: spec_fn(TypeEntryView) -> bool,
    i: int,
)
    requires
        0 <= i < s.len(),
        pred(s[i]),
        forall|j: int| 0 <= j < s.len() && j != i ==> !pred(#[trigger] s[j]),
    ensures
        s.filter(pred) == seq![s[i]],
    decreases s.len(),
{
    reveal(Seq::filter);
    let init = s.drop_last();
    if i < init.len() {
        assert(init[i] == s[i]);
        lemma_one_filtered(init, pred, i);
        assert(!pred(s[s.len() - 1]));
    } else {
        lemma_none_filtered(init, pred);
        assert(s.filter(pred) =~= seq![s[i]]);
    }
}

proof fn lemma_none_filtered(s: Seq<TypeEntryView>, pred: spec_fn(TypeEntryView) -> bool)
    requires
        forall|j: int| 0 <= j < s.len() ==> !pred(#[trigger] s[j]),
    ensures
        s.filter(pred) == Seq::<TypeEntryView>::empty(),
    decreases s.len(),
{
    reveal(Seq::filter);
    if s.len() > 0 {
        lemma_none_filtered(s.drop_last(), pred);
        assert(!pred(s[s.len() - 1]));
    }
}

/// A name that is no type's path stands for nothing where no type, or more than
/// one, has it as its short name.
pub proof fn ambiguous_name_stands_for_nothing(
    registry: Seq<TypeEntryView>,
    name: Seq<char>,
    i: int,
    j: int,
)
    requires
        forall|k: int| 0 <= k < registry.len() ==> (#[trigger] registry[k]).path != name,
        (forall|k: int| 0 <= k < registry.len() ==> (#[trigger] registry[k]).short != name) || (0
            <= i < j < registry.len() && registry[i].short == name && registry[j].short == name),
    ensures
        component_named(registry, name) is None,
{
    let pred = |t: TypeEntryView| t.short == name;
    lemma_entry_by_path(registry, name);
    assert(entries_by_short(registry, name) == registry.filter(pred));
    if forall|k: int| 0 <= k < registry.len() ==> (#[trigger] registry[k]).short != name {
        lemma_none_filtered(registry, pred);
    } else {
        lemma_filter_step(registry, i, pred);
        lemma_filter_step(registry, j, pred);
        lemma_filter_prefix(registry, j + 1, pred);
        lemma_filter_prefix(registry.take(j), i + 1, pred);
        assert(registry.take(j).take(i + 1) =~= registry.take(i + 1));
    }
}

/// Making a type known by a new path makes it found by that path, and changes
/// nothing for the paths known before.
pub proof fn registered_type_is_found(
    registry: Seq<TypeEntryView>,
    path: Seq<char>,
    short: Seq<char>,
    component: ComponentKind,
    name: Seq<char>,
)
    requires
        forall|k: int| 0 <= k < registry.len() ==> (#[trigger] registry[k]).path != path,
    ensures
        component_named(registered(registry, path, short, component), path) == Some(component),
        (exists|k: int| 0 <= k < registry.len() && (#[trigger] registry[k]).path == name)
            ==> component_named(registered(registry, path, short, component), name)
            == component_named(registry, name),
{
    lemma_entry_by_path(registry, path);
    let after = registered(registry, path, short, component);
    let n = registry.len() as int;
    assert(after == registry.push(TypeEntryView { path, short, component: Some(component) }));
    assert forall|j: int| 0 <= j < after.len() && j != n implies (#[trigger] after[j]).path
        != after[n].path by {
        assert(after[j] == registry[j]);
    }
    type_is_found_by_path(after, n);
    if exists|k: int| 0 <= k < registry.len() && (#[trigger] registry[k]).path == name {
        lemma_entry_by_path(registry, name);
        lemma_entry_kept(registry, after[n], name);
    }
}

proof fn lemma_entry_kept(registry: Seq<TypeEntryView>, t: TypeEntryView, name: Seq<char>)
    requires
        entry_by_path(registry, name) is Some,
    ensures
        entry_by_path(registry.push(t), name) == entry_by_path(registry, name),
    decreases registry.len(),
{
    if registry.len() > 0 && registry[0].path != name {
        lemma_entry_kept(registry.skip(1), t, name);
        assert(registry.push(t).skip(1) =~= registry.skip(1).push(t));
    }
}

/// The names of an entity's components: one for each component that it carries
/// and no others. A component that a known type stands for goes by that type's
/// path.
pub proof fn component_names_are_told(w: SceneWorld, e: Entity, c: ComponentKind, i: int)
    requires
        w.tree.alive(e),
    ensures
        record_components(w.tree.rec(e)).contains(c) <==> record_has(w.tree.rec(e), c),
        w.spec_component_names(e).len() == record_components(w.tree.rec(e)).len(),
        0 <= i < w.registry@.len() && w.registry@[i].component == Some(c) && (forall|j: int|
            0 <= j < i ==> (#[trigger] w.registry@[j]).component != Some(c)) && record_has(
            w.tree.rec(e),
            c,
        ) ==> w.spec_component_names(e).contains(w.registry@[i].path@),
{
    let r = w.tree.rec(e);
    let typed = typed_components();
    let carried = |k: ComponentKind| record_has(r, k);
    let a = typed.filter(carried);
    let b = r.others@.map_values(|id: u64| ComponentKind::Other(id));
    let all = record_components(r);
    assert(all == a + b);
    lemma_filter_contains(typed, carried, c);
    let others = match c {
        ComponentKind::Other(id) => r.others@.contains(id),
        _ => false,
    };
    assert(b.contains(c) <==> others) by {
        if b.contains(c) {
            let k = choose|k: int| 0 <= k < b.len() && b[k] == c;
            assert(r.others@[k] == r.others@[k]);
            assert(c == ComponentKind::Other(r.others@[k]));
        }
        match c {
            ComponentKind::Other(id) => {
                if r.others@.contains(id) {
                    let k = choose|k: int| 0 <= k < r.others@.len() && r.others@[k] == id;
                    assert(b[k] == c);
                }
            },
            _ => {},
        }
    }
    assert(typed.contains(c) <==> !(c matches ComponentKind::Other(_))) by {
        assert(typed[0] == ComponentKind::SceneNode && typed[1] == ComponentKind::SceneEdge
            && typed[2] == ComponentKind::NodeKind && typed[3] == ComponentKind::Frame && typed[4]
            == ComponentKind::Rectangle && typed[5] == ComponentKind::Text && typed[6]
            == ComponentKind::Transform && typed[7] == ComponentKind::OrderKey && typed[8]
            == ComponentKind::ChildOf && typed[9] == ComponentKind::Children && typed[10]
            == ComponentKind::EdgeFrom && typed[11] == ComponentKind::EdgeTo);
    }
    assert(all.contains(c) <==> a.contains(c) || b.contains(c)) by {
        if all.contains(c) {
            let k = choose|k: int| 0 <= k < all.len() && all[k] == c;
            if k < a.len() {
                assert(a[k] == c);
            } else {
                assert(b[k - a.len()] == c);
            }
        }
        if a.contains(c) {
            let k = choose|k: int| 0 <= k < a.len() && a[k] == c;
            assert(all[k] == c);
        }
        if b.contains(c) {
            let k = choose|k: int| 0 <= k < b.len() && b[k] == c;
            assert(all[a.len() + k] == c);
        }
    }
    let registry = entry_views(w.registry@);
    if 0 <= i < w.registry@.len() && w.registry@[i].component == Some(c) && (forall|j: int|
        0 <= j < i ==> (#[trigger] w.registry@[j]).component != Some(c)) && record_has(r, c) {
        assert forall|j: int| 0 <= j < i implies (#[trigger] registry[j]).component != Some(c) by {
            assert(registry[j] == w.registry@[j]@);
        }
        assert(registry[i] == w.registry@[i]@);
        lemma_component_title(registry, c, i);
        let k = choose|k: int| 0 <= k < all.len() && all[k] == c;
        assert(w.spec_component_names(e)[k] == registry[i].path);
    }
}

proof fn lemma_component_title(registry: Seq<TypeEntryView>, c: ComponentKind, i: int)
    requires
        0 <= i < registry.len(),
        registry[i].component == Some(c),
        forall|j: int| 0 <= j < i ==> (#[trigger] registry[j]).component != Some(c),
    ensures
        component_title(registry, c) == registry[i].path,
    decreases registry.len(),
{
    if i > 0 {
        let rest = registry.skip(1);
        assert(registry[0].component != Some(c));
        assert forall|j: int| 0 <= j < i - 1 implies (#[trigger] rest[j]).component != Some(c) by {
            assert(rest[j] == registry[j + 1]);
        }
        lemma_component_title(rest, c, i - 1);
    }
}

/// A replicated identity leads to its entity and back once the two were bound.
pub proof fn bound_identity_leads_both_ways(
    before: EntityCrdtIndex,
    after: EntityCrdtIndex,
    entity: Entity,
    id: CrdtId,
    w: SceneWorld,
)
    requires
        after.entity_of_node@ == before.entity_of_node@.insert(id, entity),
        after.node_of_entity@ == before.node_of_entity@.insert(entity, id),
        w.crdt == Some(after),
    ensures
        w.node_entity(id) == Some(entity),
        w.entity_node(entity) == Some(id),
{
}

/// The cursor tells the session that asks, how far the change stream is, and how
/// far replication is.
pub proof fn cursor_tells_position(w: SceneWorld, session: SessionId)
    ensures
        w.spec_cursor(session).session == session,
        w.watch matches Some(state) ==> w.spec_cursor(session).generation == state.generation.0
            && w.spec_cursor(session).last_replicated_op == state.replicated_op.0,
        w.watch is None ==> w.spec_cursor(session).generation == 0
            && w.spec_cursor(session).last_replicated_op is None,
{
}

/// Once the component types of the scene were made known to a world that knew
/// none, each is found by its path and by its short name.
#[verifier::rlimit(50)]
pub proof fn scene_types_are_known()
    ensures
        component_named(scene_types_registered(seq![]), SceneNode::spec_path()) == Some(
            ComponentKind::SceneNode,
        ),
        component_named(scene_types_registered(seq![]), "SceneNode"@) == Some(ComponentKind::SceneNode),
        component_named(scene_types_registered(seq![]), SceneEdge::spec_path()) == Some(
            ComponentKind::SceneEdge,
        ),
        component_named(scene_types_registered(seq![]), "SceneEdge"@) == Some(ComponentKind::SceneEdge),
        component_named(scene_types_registered(seq![]), NodeKind::spec_path()) == Some(
            ComponentKind::NodeKind,
        ),
        component_named(scene_types_registered(seq![]), "NodeKind"@) == Some(ComponentKind::NodeKind),
        component_named(scene_types_registered(seq![]), Frame::spec_path()) == Some(
            ComponentKind::Frame,
        ),
        component_named(scene_types_registered(seq![]), "Frame"@) == Some(ComponentKind::Frame),
        component_named(scene_types_registered(seq![]), Text::spec_path()) == Some(
            ComponentKind::Text,
        ),
        component_named(scene_types_registered(seq![]), "Text"@) == Some(ComponentKind::Text),
        component_named(scene_types_registered(seq![]), OrderKey::spec_path()) == Some(
            ComponentKind::OrderKey,
        ),
        component_named(scene_types_registered(seq![]), "OrderKey"@) == Some(ComponentKind::OrderKey),
{
    reveal_strlit("kyoso::agent::scene::SceneNode");
    reveal_strlit("SceneNode");
    reveal_strlit("kyoso::agent::scene::SceneEdge");
    reveal_strlit("SceneEdge");
    reveal_strlit("kyoso::agent::scene::NodeKind");
    reveal_strlit("NodeKind");
    reveal_strlit("kyoso::agent::scene::Frame");
    reveal_strlit("Frame");
    reveal_strlit("kyoso::agent::scene::Text");
    reveal_strlit("Text");
    reveal_strlit("kyoso::agent::path::OrderKey");
    reveal_strlit("OrderKey");
    assert(SceneNode::spec_path() != SceneEdge::spec_path()) by {
        assert(SceneNode::spec_path()[26] != SceneEdge::spec_path()[26]);
    }
    assert("SceneNode"@ != "SceneEdge"@) by {
        assert("SceneNode"@[5] != "SceneEdge"@[5]);
    }
    assert(SceneNode::spec_path() != NodeKind::spec_path()) by {
        assert(SceneNode::spec_path().len() != NodeKind::spec_path().len());
    }
    assert("SceneNode"@ != "NodeKind"@) by {
        assert("SceneNode"@.len() != "NodeKind"@.len());
    }
    assert(SceneNode::spec_path() != Frame::spec_path()) by {
        assert(SceneNode::spec_path().len() != Frame::spec_path().len());
    }
    assert("SceneNode"@ != "Frame"@) by {
        assert("SceneNode"@.len() != "Frame"@.len());
    }
    assert(SceneNode::spec_path() != Text::spec_path()) by {
        assert(SceneNode::spec_path().len() != Text::spec_path().len());
    }
    assert("SceneNode"@ != "Text"@) by {
        assert("SceneNode"@.len() != "Text"@.len());
    }
    assert(SceneNode::spec_path() != OrderKey::spec_path()) by {
        assert(SceneNode::spec_path().len() != OrderKey::spec_path().len());
    }
    assert("SceneNode"@ != "OrderKey"@) by {
        assert("SceneNode"@.len() != "OrderKey"@.len());
    }
    assert(SceneEdge::spec_path() != NodeKind::spec_path()) by {
        assert(SceneEdge::spec_path().len() != NodeKind::spec_path().len());
    }
    assert("SceneEdge"@ != "NodeKind"@) by {
        assert("SceneEdge"@.len() != "NodeKind"@.len());
    }
    assert(SceneEdge::spec_path() != Frame::spec_path()) by {
        assert(SceneEdge::spec_path().len() != Frame::spec_path().len());
    }
    assert("SceneEdge"@ != "Frame"@) by {
        assert("SceneEdge"@.len() != "Frame"@.len());
    }
    assert(SceneEdge::spec_path() != Text::spec_path()) by {
        assert(SceneEdge::spec_path().len() != Text::spec_path().len());
    }
    assert("SceneEdge"@ != "Text"@) by {
        assert("SceneEdge"@.len() != "Text"@.len());
    }
    assert(SceneEdge::spec_path() != OrderKey::spec_path()) by {
        assert(SceneEdge::spec_path().len() != OrderKey::spec_path().len());
    }
    assert("SceneEdge"@ != "OrderKey"@) by {
        assert("SceneEdge"@.len() != "OrderKey"@.len());
    }
    assert(NodeKind::spec_path() != Frame::spec_path()) by {
        assert(NodeKind::spec_path().len() != Frame::spec_path().len());
    }
    assert("NodeKind"@ != "Frame"@) by {
        assert("NodeKind"@.len() != "Frame"@.len());
    }
    assert(NodeKind::spec_path() != Text::spec_path()) by {
        assert(NodeKind::spec_path().len() != Text::spec_path().len());
    }
    assert("NodeKind"@ != "Text"@) by {
        assert("NodeKind"@.len() != "Text"@.len());
    }
    assert(NodeKind::spec_path() != OrderKey::spec_path()) by {
        assert(NodeKind::spec_path().len() != OrderKey::spec_path().len());
    }
    assert("NodeKind"@ != "OrderKey"@) by {
        assert("NodeKind"@[0] != "OrderKey"@[0]);
    }
    assert(Frame::spec_path() != Text::spec_path()) by {
        assert(Frame::spec_path().len() != Text::spec_path().len());
    }
    assert("Frame"@ != "Text"@) by {
        assert("Frame"@.len() != "Text"@.len());
    }
    assert(Frame::spec_path() != OrderKey::spec_path()) by {
        assert(Frame::spec_path().len() != OrderKey::spec_path().len());
    }
    assert("Frame"@ != "OrderKey"@) by {
        assert("Frame"@.len() != "OrderKey"@.len());
    }
    assert(Text::spec_path() != OrderKey::spec_path()) by {
        assert(Text::spec_path().len() != OrderKey::spec_path().len());
    }
    assert("Text"@ != "OrderKey"@) by {
        assert("Text"@.len() != "OrderKey"@.len());
    }
    assert("SceneNode"@.len() < SceneNode::spec_path().len());
    assert("SceneNode"@.len() < SceneEdge::spec_path().len());
    assert("SceneNode"@.len() < NodeKind::spec_path().len());
    assert("SceneNode"@.len() < Frame::spec_path().len());
    assert("SceneNode"@.len() < Text::spec_path().len());
    assert("SceneNode"@.len() < OrderKey::spec_path().len());
    assert("SceneEdge"@.len() < SceneNode::spec_path().len());
    assert("SceneEdge"@.len() < SceneEdge::spec_path().len());
    assert("SceneEdge"@.len() < NodeKind::spec_path().len());
    assert("SceneEdge"@.len() < Frame::spec_path().len());
    assert("SceneEdge"@.len() < Text::spec_path().len());
    assert("SceneEdge"@.len() < OrderKey::spec_path().len());
    assert("NodeKind"@.len() < SceneNode::spec_path().len());
    assert("NodeKind"@.len() < SceneEdge::spec_path().len());
    assert("NodeKind"@.len() < NodeKind::spec_path().len());
    assert("NodeKind"@.len() < Frame::spec_path().len());
    assert("NodeKind"@.len() < Text::spec_path().len());
    assert("NodeKind"@.len() < OrderKey::spec_path().len());
    assert("Frame"@.len() < SceneNode::spec_path().len());
    assert("Frame"@.len() < SceneEdge::spec_path().len());
    assert("Frame"@.len() < NodeKind::spec_path().len());
    assert("Frame"@.len() < Frame::spec_path().len());
    assert("Frame"@.len() < Text::spec_path().len());
    assert("Frame"@.len() < OrderKey::spec_path().len());
    assert("Text"@.len() < SceneNode::spec_path().len());
    assert("Text"@.len() < SceneEdge::spec_path().len());
    assert("Text"@.len() < NodeKind::spec_path().len());
    assert("Text"@.len() < Frame::spec_path().len());
    assert("Text"@.len() < Text::spec_path().len());
    assert("Text"@.len() < OrderKey::spec_path().len());
    assert("OrderKey"@.len() < SceneNode::spec_path().len());
    assert("OrderKey"@.len() < SceneEdge::spec_path().len());
    assert("OrderKey"@.len() < NodeKind::spec_path().len());
    assert("OrderKey"@.len() < Frame::spec_path().len());
    assert("OrderKey"@.len() < Text::spec_path().len());
    assert("OrderKey"@.len() < OrderKey::spec_path().len());
    let r0 = Seq::<TypeEntryView>::empty();
    let r1 = registered(r0, SceneNode::spec_path(), "SceneNode"@, ComponentKind::SceneNode);
    lemma_entry_by_path(r0, SceneNode::spec_path());
    if entry_by_path(r0, SceneNode::spec_path()) is Some {
        let k = choose|k: int| 0 <= k < r0.len() && r0[k] == entry_by_path(r0, SceneNode::spec_path())->0;
        assert(r0[k].path == SceneNode::spec_path());
    }
    let r2 = registered(r1, SceneEdge::spec_path(), "SceneEdge"@, ComponentKind::SceneEdge);
    lemma_entry_by_path(r1, SceneEdge::spec_path());
    if entry_by_path(r1, SceneEdge::spec_path()) is Some {
        let k = choose|k: int| 0 <= k < r1.len() && r1[k] == entry_by_path(r1, SceneEdge::spec_path())->0;
        assert(r1[k].path == SceneEdge::spec_path());
    }
    let r3 = registered(r2, NodeKind::spec_path(), "NodeKind"@, ComponentKind::NodeKind);
    lemma_entry_by_path(r2, NodeKind::spec_path());
    if entry_by_path(r2, NodeKind::spec_path()) is Some {
        let k = choose|k: int| 0 <= k < r2.len() && r2[k] == entry_by_path(r2, NodeKind::spec_path())->0;
        assert(r2[k].path == NodeKind::spec_path());
    }
    let r4 = registered(r3, Frame::spec_path(), "Frame"@, ComponentKind::Frame);
    lemma_entry_by_path(r3, Frame::spec_path());
    if entry_by_path(r3, Frame::spec_path()) is Some {
        let k = choose|k: int| 0 <= k < r3.len() && r3[k] == entry_by_path(r3, Frame::spec_path())->0;
        assert(r3[k].path == Frame::spec_path());
    }
    let r5 = registered(r4, Text::spec_path(), "Text"@, ComponentKind::Text);
    lemma_entry_by_path(r4, Text::spec_path());
    if entry_by_path(r4, Text::spec_path()) is Some {
        let k = choose|k: int| 0 <= k < r4.len() && r4[k] == entry_by_path(r4, Text::spec_path())->0;
        assert(r4[k].path == Text::spec_path());
    }
    let r6 = registered(r5, OrderKey::spec_path(), "OrderKey"@, ComponentKind::OrderKey);
    lemma_entry_by_path(r5, OrderKey::spec_path());
    if entry_by_path(r5, OrderKey::spec_path()) is Some {
        let k = choose|k: int| 0 <= k < r5.len() && r5[k] == entry_by_path(r5, OrderKey::spec_path())->0;
        assert(r5[k].path == OrderKey::spec_path());
    }
    let all = scene_types_registered(seq![]);
    assert(all =~= seq![
        TypeEntryView { path: SceneNode::spec_path(), short: "SceneNode"@, component: Some(ComponentKind::SceneNode) },
        TypeEntryView { path: SceneEdge::spec_path(), short: "SceneEdge"@, component: Some(ComponentKind::SceneEdge) },
        TypeEntryView { path: NodeKind::spec_path(), short: "NodeKind"@, component: Some(ComponentKind::NodeKind) },
        TypeEntryView { path: Frame::spec_path(), short: "Frame"@, component: Some(ComponentKind::Frame) },
        TypeEntryView { path: Text::spec_path(), short: "Text"@, component: Some(ComponentKind::Text) },
        TypeEntryView { path: OrderKey::spec_path(), short: "OrderKey"@, component: Some(ComponentKind::OrderKey) },
    ]);
    type_is_found_by_path(all, 0);
    type_is_found_by_short_name(all, 0);
    type_is_found_by_path(all, 1);
    type_is_found_by_short_name(all, 1);
    type_is_found_by_path(all, 2);
    type_is_found_by_short_name(all, 2);
    type_is_found_by_path(all, 3);
    type_is_found_by_short_name(all, 3);
    type_is_found_by_path(all, 4);
    type_is_found_by_short_name(all, 4);
    type_is_found_by_path(all, 5);
    type_is_found_by_short_name(all, 5);
}

} // verus!
