//! Filtering entities by the components they carry.
use vstd::prelude::*;

use crate::agent::handle::{
    node_ref_or_root, node_ref_or_root_for, ref_views, resolved_ref, NodeRef, NodeRefView,
    SessionId,
};
use crate::agent::scene::{record_has, ComponentKind, Entity, EntityRecord, SceneTree};
use crate::agent::world::{
    component_named, entry_views, lookup_component_id, SceneComponent, SceneWorld, TypeEntry,
    TypeEntryView,
};
use crate::seqs::{
    lemma_filter_agrees, lemma_filter_ascends, lemma_filter_contains,
    lemma_filter_no_duplicates, lemma_filter_prefix, lemma_filter_step,
    lemma_limited_contains, limited,
};
use crate::text::text_views;

verus! {

/// What to look for.
#[derive(Debug)]
pub struct QuerySpec {
    /// Names of components that an entity must all carry.
    pub with: Vec<String>,
    /// Names of components that an entity must not carry any of.
    pub without: Vec<String>,
    /// Confine to this node and what stands below it.
    pub under: Option<NodeRef>,
    /// The most rows to return. 0 is all of them.
    pub max_items: u32,
}

impl Default for QuerySpec {
    fn default() -> (r: Self)
        ensures
            r.with@.len() == 0,
            r.without@.len() == 0,
            r.under is None,
            r.max_items == 0,
    {
        QuerySpec { with: Vec::new(), without: Vec::new(), under: None, max_items: 0 }
    }
}

impl QuerySpec {
    /// A query that every entity meets.
    pub fn new() -> (r: Self)
        ensures
            r.with@.len() == 0,
            r.without@.len() == 0,
            r.under is None,
            r.max_items == 0,
    {
        QuerySpec::default()
    }

    /// Requires component `T`.
    pub fn with_type<T: SceneComponent>(self) -> (r: Self)
        ensures
            text_views(r.with@) == text_views(self.with@).push(T::spec_path()),
            r.without == self.without,
            r.under == self.under,
            r.max_items == self.max_items,
    {
        let mut with = self.with;
        with.push(T::type_path());
        assert(text_views(with@) =~= text_views(self.with@).push(T::spec_path()));
        QuerySpec { with, without: self.without, under: self.under, max_items: self.max_items }
    }

    /// Requires component `T` to be absent.
    pub fn without_type<T: SceneComponent>(self) -> (r: Self)
        ensures
            text_views(r.without@) == text_views(self.without@).push(T::spec_path()),
            r.with == self.with,
            r.under == self.under,
            r.max_items == self.max_items,
    {
        let mut without = self.without;
        without.push(T::type_path());
        assert(text_views(without@) =~= text_views(self.without@).push(T::spec_path()));
        QuerySpec { with: self.with, without, under: self.under, max_items: self.max_items }
    }

    /// Confines to `node` and what stands below it.
    pub fn under(self, node: NodeRef) -> (r: Self)
        ensures
            r.under == Some(node),
            r.with == self.with,
            r.without == self.without,
            r.max_items == self.max_items,
    {
        QuerySpec {
            with: self.with,
            without: self.without,
            under: Some(node),
            max_items: self.max_items,
        }
    }

    /// Caps the rows.
    pub fn max_items(self, n: u32) -> (r: Self)
        ensures
            r.max_items == n,
            r.with == self.with,
            r.without == self.without,
            r.under == self.under,
    {
        QuerySpec { with: self.with, without: self.without, under: self.under, max_items: n }
    }
}

/// What was found.
#[derive(Debug)]
pub struct QueryResult {
    pub rows: Vec<NodeRef>,
    /// There were more rows than `max_items`.
    pub truncated: bool,
    /// Names that stand for no component.
    pub unknown_components: Vec<String>,
}

/// The names that stand for no component.
pub open spec fn unknown_names(registry: Seq<TypeEntryView>, names: Seq<Seq<char>>) -> Seq<
    Seq<char>,
> {
    names.filter(|n: Seq<char>| component_named(registry, n) is None)
}

/// Whether `record` carries every component that one of `names` stands for.
pub open spec fn carries_all(
    registry: Seq<TypeEntryView>,
    names: Seq<Seq<char>>,
    record: EntityRecord,
) -> bool {
    forall|i: int|
        0 <= i < names.len() && component_named(registry, #[trigger] names[i]) is Some
            ==> record_has(record, component_named(registry, names[i])->0)
}

/// Whether `record` carries a component that one of `names` stands for.
pub open spec fn carries_any(
    registry: Seq<TypeEntryView>,
    names: Seq<Seq<char>>,
    record: EntityRecord,
) -> bool {
    exists|i: int|
        0 <= i < names.len() && component_named(registry, #[trigger] names[i]) is Some
            && record_has(record, component_named(registry, names[i])->0)
}

/// The entities that a query looks at, in order: all of them, or the node that
/// it is confined to and what stands below. Nothing stands below a node that
/// does not resolve.
pub open spec fn query_candidates(w: SceneWorld, session: SessionId, spec: QuerySpec) -> Seq<
    Entity,
> {
    match spec.under {
        Some(r) => match resolved_ref(w, r@, session) {
            Some(root) => w.tree.subtree(root),
            None => seq![],
        },
        None => w.tree.ids(),
    }
}

/// Whether a live entity meets the component filters.
pub open spec fn query_accepts(w: SceneWorld, spec: QuerySpec, e: Entity) -> bool {
    let registry = entry_views(w.registry@);
    &&& w.tree.alive(e)
    &&& carries_all(registry, text_views(spec.with@), w.tree.rec(e))
    &&& !carries_any(registry, text_views(spec.without@), w.tree.rec(e))
}

/// The entities that a query finds, before the cap. A required name that
/// stands for no component finds nothing.
pub open spec fn query_matches(w: SceneWorld, session: SessionId, spec: QuerySpec) -> Seq<Entity> {
    if unknown_names(entry_views(w.registry@), text_views(spec.with@)).len() > 0 {
        seq![]
    } else {
        query_candidates(w, session, spec).filter(|e: Entity| query_accepts(w, spec, e))
    }
}

/// Whether a record carries all of the components.
pub open spec fn has_each(ids: Seq<ComponentKind>, record: EntityRecord) -> bool {
    forall|k: int| 0 <= k < ids.len() ==> record_has(record, #[trigger] ids[k])
}

/// Whether a record carries one of the components.
pub open spec fn has_some(ids: Seq<ComponentKind>, record: EntityRecord) -> bool {
    exists|k: int| 0 <= k < ids.len() && record_has(record, #[trigger] ids[k])
}

/// The components that the names stand for, and the names that stand for none.
fn resolve_component_ids(registry: &Vec<TypeEntry>, names: &Vec<String>) -> (r: (
    Vec<ComponentKind>,
    Vec<String>,
))
    ensures
        text_views(r.1@) == unknown_names(entry_views(registry@), text_views(names@)),
        forall|record: EntityRecord|
            carries_all(entry_views(registry@), text_views(names@), record) <==> #[trigger] has_each(
                r.0@,
                record,
            ),
        forall|record: EntityRecord|
            carries_any(entry_views(registry@), text_views(names@), record) <==> #[trigger] has_some(
                r.0@,
                record,
            ),
{
    let ghost reg = entry_views(registry@);
    let ghost all = text_views(names@);
    let ghost pred = |n: Seq<char>| component_named(reg, n) is None;
    let mut ids: Vec<ComponentKind> = Vec::new();
    let mut unknown: Vec<String> = Vec::new();
    let mut i: usize = 0;
    proof {
        reveal(Seq::filter);
        assert(all.take(0) =~= seq![]);
        assert(text_views(unknown@) =~= all.take(0).filter(pred));
    }
    while i < names.len()
        invariant
            reg == entry_views(registry@),
            all == text_views(names@),
            pred == (|n: Seq<char>| component_named(reg, n) is None),
            i <= names@.len(),
            text_views(unknown@) == all.take(i as int).filter(pred),
            forall|j: int|
                0 <= j < i && component_named(reg, #[trigger] all[j]) is Some ==> ids@.contains(
                    component_named(reg, all[j])->0,
                ),
            forall|k: int|
                0 <= k < ids@.len() ==> exists|j: int|
                    0 <= j < i && component_named(reg, #[trigger] all[j]) == Some(
                        #[trigger] ids@[k],
                    ),
        decreases names@.len() - i,
    {
        proof {
            lemma_filter_step(all, i as int, pred);
            assert(all[i as int] == names@[i as int]@);
        }
        let ghost old_ids = ids@;
        match lookup_component_id(registry, &names[i]) {
            Some(id) => {
                ids.push(id);
                proof {
                    assert(ids@[old_ids.len() as int] == id);
                    assert forall|j: int|
                        0 <= j < i + 1 && component_named(
                            reg,
                            #[trigger] all[j],
                        ) is Some implies ids@.contains(component_named(reg, all[j])->0) by {
                        if j < i {
                            let c = component_named(reg, all[j])->0;
                            let k = choose|k: int| 0 <= k < old_ids.len() && old_ids[k] == c;
                            assert(ids@[k] == c);
                        }
                    }
                    assert forall|k: int| 0 <= k < ids@.len() implies exists|j: int|
                        0 <= j < i + 1 && component_named(reg, #[trigger] all[j]) == Some(
                            #[trigger] ids@[k],
                        ) by {
                        if k < old_ids.len() {
                            assert(ids@[k] == old_ids[k]);
                            let j = choose|j: int|
                                0 <= j < i && component_named(reg, #[trigger] all[j]) == Some(
                                    old_ids[k],
                                );
                            assert(component_named(reg, all[j]) == Some(ids@[k]));
                        } else {
                            assert(component_named(reg, all[i as int]) == Some(ids@[k]));
                        }
                    }
                }
            },
            None => {
                let ghost before = unknown@;
                unknown.push(names[i].clone());
                assert(text_views(unknown@) =~= text_views(before).push(names@[i as int]@));
            },
        }
        i = i + 1;
    }
    proof {
        assert(all.take(i as int) =~= all);
        assert forall|record: EntityRecord| carries_all(reg, all, record)
            <==> #[trigger] has_each(ids@, record) by {
            if carries_all(reg, all, record) {
                assert forall|k: int| 0 <= k < ids@.len() implies record_has(
                    record,
                    #[trigger] ids@[k],
                ) by {
                    let j = choose|j: int|
                        0 <= j < i && component_named(reg, #[trigger] all[j]) == Some(ids@[k]);
                    assert(component_named(reg, all[j]) is Some);
                }
            }
            if has_each(ids@, record) {
                assert forall|j: int|
                    0 <= j < all.len() && component_named(
                        reg,
                        #[trigger] all[j],
                    ) is Some implies record_has(record, component_named(reg, all[j])->0) by {
                    let c = component_named(reg, all[j])->0;
                    assert(ids@.contains(c));
                    let k = choose|k: int| 0 <= k < ids@.len() && ids@[k] == c;
                    assert(record_has(record, ids@[k]));
                }
            }
        }
        assert forall|record: EntityRecord| carries_any(reg, all, record)
            <==> #[trigger] has_some(ids@, record) by {
            if carries_any(reg, all, record) {
                let j = choose|j: int|
                    0 <= j < all.len() && component_named(reg, #[trigger] all[j]) is Some
                        && record_has(record, component_named(reg, all[j])->0);
                let c = component_named(reg, all[j])->0;
                assert(ids@.contains(c));
                let k = choose|k: int| 0 <= k < ids@.len() && ids@[k] == c;
                assert(record_has(record, ids@[k]));
            }
            if has_some(ids@, record) {
                let k = choose|k: int|
                    0 <= k < ids@.len() && record_has(record, #[trigger] ids@[k]);
                let j = choose|j: int|
                    0 <= j < i && component_named(reg, #[trigger] all[j]) == Some(ids@[k]);
                assert(component_named(reg, all[j]) is Some);
            }
        }
    }
    (ids, unknown)
}

/// Whether a record carries all of the components.
fn has_all(record: &EntityRecord, ids: &Vec<ComponentKind>) -> (r: bool)
    ensures
        r == has_each(ids@, *record),
{
    let mut i: usize = 0;
    while i < ids.len()
        invariant
            i <= ids@.len(),
            forall|k: int| 0 <= k < i ==> record_has(*record, #[trigger] ids@[k]),
        decreases ids@.len() - i,
    {
        if !record.has(ids[i]) {
            assert(!record_has(*record, ids@[i as int]));
            return false;
        }
        i = i + 1;
    }
    true
}

/// Whether a record carries one of the components.
fn has_any(record: &EntityRecord, ids: &Vec<ComponentKind>) -> (r: bool)
    ensures
        r == has_some(ids@, *record),
{
    let mut i: usize = 0;
    while i < ids.len()
        invariant
            i <= ids@.len(),
            forall|k: int| 0 <= k < i ==> !record_has(*record, #[trigger] ids@[k]),
        decreases ids@.len() - i,
    {
        if record.has(ids[i]) {
            assert(record_has(*record, ids@[i as int]));
            return true;
        }
        i = i + 1;
    }
    false
}

/// All handles given out so far, in order.
fn all_ids(tree: &SceneTree) -> (r: Vec<Entity>)
    requires
        tree.slots@.len() <= u32::MAX,
    ensures
        r@ == tree.ids(),
{
    let mut r: Vec<Entity> = Vec::new();
    let mut i: usize = 0;
    while i < tree.slots.len()
        invariant
            tree.slots@.len() <= u32::MAX,
            i <= tree.slots@.len(),
            r@ == tree.ids().take(i as int),
        decreases tree.slots@.len() - i,
    {
        r.push(i as u64);
        i = i + 1;
        assert(r@ =~= tree.ids().take(i as int));
    }
    assert(r@ =~= tree.ids());
    r
}

/// A resolved reference stands for a live entity.
pub proof fn lemma_resolved_alive(w: SceneWorld, r: NodeRefView, session: SessionId)
    requires
        w.wf(),
        resolved_ref(w, r, session) is Some,
    ensures
        w.tree.alive(resolved_ref(w, r, session)->0),
{
    if !(w.tree.alive(resolved_ref(w, r, session)->0)) {
        w.tree.lemma_follow_alive(None, r.path);
    }
}

/// Finds the entities that carry every component of `spec.with` and none of
/// `spec.without`, under `spec.under` where that is given.
pub fn run_query(sw: &SceneWorld, session: SessionId, spec: &QuerySpec) -> (r: QueryResult)
    requires
        sw.wf(),
    ensures
        ref_views(r.rows@) == limited(query_matches(*sw, session, *spec), spec.max_items)
            .map_values(|e: Entity| node_ref_or_root(*sw, e, session)),
        r.truncated == (spec.max_items != 0 && query_matches(*sw, session, *spec).len()
            > spec.max_items),
        text_views(r.unknown_components@) == unknown_names(
            entry_views(sw.registry@),
            text_views(spec.without@),
        ) + unknown_names(entry_views(sw.registry@), text_views(spec.with@)),
{
    let (with_ids, with_unknown) = resolve_component_ids(&sw.registry, &spec.with);
    let (without_ids, without_unknown) = resolve_component_ids(&sw.registry, &spec.without);
    let mut unknown_components = without_unknown;
    let impossible = with_unknown.len() > 0;
    let ghost unknown_before = unknown_components@;
    let mut u: usize = 0;
    while u < with_unknown.len()
        invariant
            u <= with_unknown@.len(),
            text_views(unknown_components@) == text_views(unknown_before) + text_views(
                with_unknown@,
            ).take(u as int),
        decreases with_unknown@.len() - u,
    {
        let ghost before = unknown_components@;
        unknown_components.push(with_unknown[u].clone());
        u = u + 1;
        assert(text_views(unknown_components@) =~= text_views(before).push(
            with_unknown@[u - 1]@,
        ));
        assert(text_views(unknown_components@) =~= text_views(unknown_before) + text_views(
            with_unknown@,
        ).take(u as int));
    }
    assert(text_views(with_unknown@).take(u as int) =~= text_views(with_unknown@));
    if impossible {
        let r = QueryResult { rows: Vec::new(), truncated: false, unknown_components };
        assert(text_views(with_unknown@).len() > 0);
        assert(ref_views(r.rows@) =~= limited(
            query_matches(*sw, session, *spec),
            spec.max_items,
        ).map_values(|e: Entity| node_ref_or_root(*sw, e, session)));
        return r;
    }
    let candidates = match &spec.under {
        Some(r) => match r.resolve(sw, session) {
            Some(e) => {
                proof {
                    lemma_resolved_alive(*sw, r@, session);
                }
                sw.tree.subtree_of(e)
            },
            None => Vec::new(),
        },
        None => all_ids(&sw.tree),
    };
    assert(candidates@ =~= query_candidates(*sw, session, *spec));
    let ghost all = candidates@;
    let ghost accept = |e: Entity| query_accepts(*sw, *spec, e);
    let ghost refer = |e: Entity| node_ref_or_root(*sw, e, session);
    let ghost whole = all.filter(accept);
    let mut rows: Vec<NodeRef> = Vec::new();
    let mut truncated = false;
    let mut i: usize = 0;
    proof {
        assert(text_views(with_unknown@).len() == 0);
        assert(whole == query_matches(*sw, session, *spec));
        reveal(Seq::filter);
        assert(all.take(0) =~= seq![]);
        assert(ref_views(rows@) =~= all.take(0).filter(accept).map_values(refer));
    }
    while i < candidates.len() && !truncated
        invariant
            sw.wf(),
            all == candidates@,
            accept == (|e: Entity| query_accepts(*sw, *spec, e)),
            refer == (|e: Entity| node_ref_or_root(*sw, e, session)),
            whole == all.filter(accept),
            forall|record: EntityRecord|
                carries_all(entry_views(sw.registry@), text_views(spec.with@), record)
                    <==> #[trigger] has_each(with_ids@, record),
            forall|record: EntityRecord|
                carries_any(entry_views(sw.registry@), text_views(spec.without@), record)
                    <==> #[trigger] has_some(without_ids@, record),
            i <= candidates@.len(),
            spec.max_items == 0 || rows@.len() <= spec.max_items,
            !truncated ==> ref_views(rows@) == all.take(i as int).filter(accept).map_values(
                refer,
            ),
            truncated ==> spec.max_items != 0 && whole.len() > spec.max_items && ref_views(rows@)
                == whole.take(spec.max_items as int).map_values(refer),
        decreases candidates@.len() - i,
    {
        let e = candidates[i];
        proof {
            lemma_filter_step(all, i as int, accept);
            lemma_filter_prefix(all, i as int, accept);
            lemma_filter_prefix(all, i + 1, accept);
            assert(ref_views(rows@).len() == rows@.len());
        }
        let ok = match sw.tree.record(e) {
            Some(record) => has_all(record, &with_ids) && !has_any(record, &without_ids),
            None => false,
        };
        assert(ok == accept(e));
        if ok {
            if spec.max_items != 0 && rows.len() >= spec.max_items as usize {
                truncated = true;
            } else {
                let ghost before = rows@;
                rows.push(node_ref_or_root_for(sw, e, session));
                assert(ref_views(rows@) =~= ref_views(before).push(refer(e)));
                assert(ref_views(rows@) =~= all.take(i + 1).filter(accept).map_values(refer));
            }
        }
        i = i + 1;
    }
    proof {
        if !truncated {
            assert(all.take(i as int) =~= all);
            assert(ref_views(rows@).len() == rows@.len());
        }
    }
    QueryResult { rows, truncated, unknown_components }
}

// ---------------------------------------------------------------------------
// Laws
// ---------------------------------------------------------------------------

/// A query finds exactly the live entities among its candidates that carry
/// what is required and nothing that is excluded, provided that every required
/// name stands for a component.
pub proof fn query_finds_exactly(
    w: SceneWorld,
    session: SessionId,
    spec: QuerySpec,
    e: Entity,
)
    requires
        unknown_names(entry_views(w.registry@), text_views(spec.with@)).len() == 0,
    ensures
        query_matches(w, session, spec).contains(e) <==> query_candidates(
            w,
            session,
            spec,
        ).contains(e) && query_accepts(w, spec, e),
{
    lemma_filter_contains(
        query_candidates(w, session, spec),
        |x: Entity| query_accepts(w, spec, x),
        e,
    );
}

/// A query names no entity twice.
pub proof fn query_names_each_once(w: SceneWorld, session: SessionId, spec: QuerySpec)
    requires
        w.wf(),
    ensures
        query_matches(w, session, spec).no_duplicates(),
{
    let all = query_candidates(w, session, spec);
    match spec.under {
        Some(r) => {
            if resolved_ref(w, r@, session) is Some {
                lemma_resolved_alive(w, r@, session);
                w.tree.subtree_names_each_once(resolved_ref(w, r@, session)->0);
            }
        },
        None => {},
    }
    assert(all.no_duplicates());
    lemma_filter_no_duplicates(all, |e: Entity| query_accepts(w, spec, e));
}

/// Which live entities a query looks at.
proof fn lemma_candidate(w: SceneWorld, session: SessionId, spec: QuerySpec, e: Entity)
    requires
        w.wf(),
        w.tree.alive(e),
    ensures
        query_candidates(w, session, spec).contains(e) <==> (match spec.under {
            Some(r) => match resolved_ref(w, r@, session) {
                Some(root) => w.tree.under(e, root),
                None => false,
            },
            None => true,
        }),
{
    match spec.under {
        Some(r) => {
            if resolved_ref(w, r@, session) is Some {
                lemma_resolved_alive(w, r@, session);
                w.tree.subtree_is_all_below(resolved_ref(w, r@, session)->0, e);
            }
        },
        None => {
            assert(w.tree.ids()[e as int] == e);
        },
    }
}

/// Nothing that a query returns carries a component that it excludes, and
/// everything that it returns is alive and carries all that it requires. The
/// confinement to a subtree has no part in that.
pub proof fn query_rows_meet_filters(w: SceneWorld, session: SessionId, spec: QuerySpec, e: Entity)
    requires
        limited(query_matches(w, session, spec), spec.max_items).contains(e),
    ensures
        w.tree.alive(e),
        forall|i: int, c: ComponentKind|
            0 <= i < spec.without@.len() && component_named(
                entry_views(w.registry@),
                (#[trigger] spec.without@[i])@,
            ) == Some(c) ==> !#[trigger] record_has(w.tree.rec(e), c),
        forall|i: int|
            0 <= i < spec.with@.len() ==> {
                let c = component_named(
                    entry_views(w.registry@),
                    (#[trigger] spec.with@[i])@,
                );
                c is Some && record_has(w.tree.rec(e), c->0)
            },
{
    let registry = entry_views(w.registry@);
    let all = query_matches(w, session, spec);
    lemma_limited_contains(all, spec.max_items, e);
    query_finds_exactly(w, session, spec, e);
    assert forall|i: int, c: ComponentKind|
        0 <= i < spec.without@.len() && component_named(
            registry,
            (#[trigger] spec.without@[i])@,
        ) == Some(c) implies !#[trigger] record_has(w.tree.rec(e), c) by {
        assert(text_views(spec.without@)[i] == spec.without@[i]@);
    }
    assert forall|i: int| 0 <= i < spec.with@.len() implies ({
        let c = component_named(registry, (#[trigger] spec.with@[i])@);
        c is Some && record_has(w.tree.rec(e), c->0)
    }) by {
        let names = text_views(spec.with@);
        let unknown = |n: Seq<char>| component_named(registry, n) is None;
        assert(names[i] == spec.with@[i]@);
        if component_named(registry, names[i]) is None {
            lemma_filter_contains(names, unknown, names[i]);
            assert(names.contains(names[i]));
            assert(unknown_names(registry, names) == names.filter(unknown));
        }
    }
}

/// Nothing is left out: a live entity that carries every component that the
/// query requires and none that it excludes, and that stands in the subtree to
/// which the query is confined, where it is, is found.
pub proof fn query_leaves_nothing_out(
    w: SceneWorld,
    session: SessionId,
    spec: QuerySpec,
    e: Entity,
)
    requires
        w.wf(),
        w.tree.alive(e),
        spec.under matches Some(r) ==> resolved_ref(w, r@, session) is Some && w.tree.under(
            e,
            resolved_ref(w, r@, session)->0,
        ),
        forall|i: int|
            0 <= i < spec.with@.len() ==> {
                let c = component_named(
                    entry_views(w.registry@),
                    (#[trigger] spec.with@[i])@,
                );
                c is Some && record_has(w.tree.rec(e), c->0)
            },
        forall|i: int|
            0 <= i < spec.without@.len() ==> {
                let c = component_named(
                    entry_views(w.registry@),
                    (#[trigger] spec.without@[i])@,
                );
                c is Some ==> !record_has(w.tree.rec(e), c->0)
            },
    ensures
        query_matches(w, session, spec).contains(e),
{
    let registry = entry_views(w.registry@);
    let names = text_views(spec.with@);
    let unknown = |n: Seq<char>| component_named(registry, n) is None;
    let found = unknown_names(registry, names);
    assert(found == names.filter(unknown));
    if found.len() > 0 {
        assert(found.contains(found[0]));
        lemma_filter_contains(names, unknown, found[0]);
        let i = choose|i: int| 0 <= i < names.len() && names[i] == found[0];
        assert(names[i] == spec.with@[i]@);
    }
    assert(carries_all(registry, names, w.tree.rec(e))) by {
        assert forall|i: int|
            0 <= i < names.len() && component_named(
                registry,
                #[trigger] names[i],
            ) is Some implies record_has(
            w.tree.rec(e),
            component_named(registry, names[i])->0,
        ) by {
            assert(names[i] == spec.with@[i]@);
        }
    }
    assert(!carries_any(registry, text_views(spec.without@), w.tree.rec(e))) by {
        let out = text_views(spec.without@);
        assert forall|i: int|
            0 <= i < out.len() && component_named(
                registry,
                #[trigger] out[i],
            ) is Some implies !record_has(w.tree.rec(e), component_named(registry, out[i])->0) by {
            assert(out[i] == spec.without@[i]@);
        }
    }
    lemma_candidate(w, session, spec, e);
    query_finds_exactly(w, session, spec, e);
}

/// A query that is confined to a subtree returns only what stands there, and
/// nothing at all where the node to which it is confined does not resolve.
pub proof fn query_stays_in_subtree(w: SceneWorld, session: SessionId, spec: QuerySpec, e: Entity)
    requires
        w.wf(),
        spec.under is Some,
        limited(query_matches(w, session, spec), spec.max_items).contains(e),
    ensures
        resolved_ref(w, spec.under->0@, session) is Some,
        w.tree.under(e, resolved_ref(w, spec.under->0@, session)->0),
{
    query_rows_meet_filters(w, session, spec, e);
    lemma_limited_contains(query_matches(w, session, spec), spec.max_items, e);
    query_finds_exactly(w, session, spec, e);
    lemma_candidate(w, session, spec, e);
}

/// A required name that stands for no component finds nothing.
pub proof fn unknown_requirement_finds_nothing(
    w: SceneWorld,
    session: SessionId,
    spec: QuerySpec,
    i: int,
)
    requires
        0 <= i < spec.with@.len(),
        component_named(entry_views(w.registry@), spec.with@[i]@) is None,
    ensures
        query_matches(w, session, spec).len() == 0,
{
    let all = query_matches(w, session, spec);
    if all.len() > 0 {
        assert(all.contains(all[0]));
        assert(limited(all, 0) == all);
        let free = QuerySpec { max_items: 0, ..spec };
        assert(query_matches(w, session, free) == all) by {
            lemma_filter_agrees(
                query_candidates(w, session, spec),
                |x: Entity| query_accepts(w, spec, x),
                |x: Entity| query_accepts(w, free, x),
            );
        }
        query_rows_meet_filters(w, session, free, all[0]);
    }
}

/// The names that a query reports are those it was asked by, required or
/// excluded, that stand for no component.
pub proof fn unknown_names_are_told(registry: Seq<TypeEntryView>, names: Seq<Seq<char>>, n: Seq<char>)
    ensures
        unknown_names(registry, names).contains(n) <==> names.contains(n) && component_named(
            registry,
            n,
        ) is None,
{
    lemma_filter_contains(names, |x: Seq<char>| component_named(registry, x) is None, n);
}

/// A query over the whole world names what it finds in the order of the handles.
pub proof fn query_goes_by_handles(w: SceneWorld, session: SessionId, spec: QuerySpec, i: int, j: int)
    requires
        w.wf(),
        spec.under is None,
        0 <= i < j < query_matches(w, session, spec).len(),
    ensures
        query_matches(w, session, spec)[i] < query_matches(w, session, spec)[j],
{
    lemma_filter_ascends(w.tree.ids(), |e: Entity| query_accepts(w, spec, e), i, j);
}

/// What a query finds does not depend on how many rows it may return, and what
/// it may return is the beginning of what it finds.
pub proof fn query_cap_cuts_the_end(
    w: SceneWorld,
    session: SessionId,
    spec: QuerySpec,
    max: u32,
    i: int,
)
    ensures
        query_matches(w, session, QuerySpec { max_items: max, ..spec }) == query_matches(
            w,
            session,
            spec,
        ),
        ({
            let all = query_matches(w, session, spec);
            let some = limited(all, max);
            &&& max == 0 || all.len() <= max ==> some.len() == all.len()
            &&& max != 0 && all.len() > max ==> some.len() == max
            &&& 0 <= i < some.len() ==> some[i] == all[i]
        }),
{
    let other = QuerySpec { max_items: max, ..spec };
    let a = |e: Entity| query_accepts(w, spec, e);
    let b = |e: Entity| query_accepts(w, other, e);
    lemma_filter_agrees(query_candidates(w, session, spec), a, b);
}

} // verus!
