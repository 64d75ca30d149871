//! Changes to the scene tree that keep it a forest.
use vstd::prelude::*;

use crate::agent::scene::{Entity, EntityRecord, SceneTree};
use crate::seqs::{lemma_filter_contains, lemma_filter_no_duplicates, lemma_filter_step, lemma_push_contains};

verus! {

/// Whether two records agree on everything but where they stand in the tree.
pub open spec fn same_components(a: EntityRecord, b: EntityRecord) -> bool {
    &&& a.scene_node == b.scene_node
    &&& a.scene_edge == b.scene_edge
    &&& a.kind == b.kind
    &&& a.frame == b.frame
    &&& a.rectangle == b.rectangle
    &&& a.text == b.text
    &&& a.transform == b.transform
    &&& a.order_key == b.order_key
    &&& a.edge_from == b.edge_from
    &&& a.edge_to == b.edge_to
    &&& a.others == b.others
}

/// Not being `e`.
pub open spec fn other_than(e: Entity) -> spec_fn(Entity) -> bool {
    |c: Entity| c != e
}

/// `list` without `e`.
pub open spec fn without(list: Seq<Entity>, e: Entity) -> Seq<Entity> {
    list.filter(other_than(e))
}

impl SceneTree {
    /// Whether `self` is `before` with the parent of `e` set to `parent` and
    /// the lists of children kept in step: `e` leaves its old parent's list
    /// and goes to the end of its new parent's.
    pub open spec fn moved(self, before: SceneTree, e: Entity, parent: Option<Entity>) -> bool {
        &&& self.slots@.len() == before.slots@.len()
        &&& forall|x: Entity| #[trigger] self.alive(x) <==> before.alive(x)
        &&& forall|x: Entity| #[trigger]
            before.alive(x) ==> same_components(self.rec(x), before.rec(x))
        &&& forall|x: Entity| #[trigger] before.alive(x) ==> self.parent(x) == (if x == e {
            parent
        } else {
            before.parent(x)
        })
        &&& forall|x: Entity| #[trigger]
            before.alive(x) ==> self.kids(x) == (if Some(x) == parent {
                without(before.kids(x), e).push(e)
            } else {
                without(before.kids(x), e)
            })
    }

    /// The record of a live entity, to change it in place.
    pub fn record_mut(&mut self, e: Entity) -> (r: &mut EntityRecord)
        requires
            old(self).alive(e),
        ensures
            *r == old(self).rec(e),
            final(self).slots@ == old(self).slots@.update(e as int, Some(*final(r))),
    {
        assert(self.slots@.len() == self.slots.len());
        let slot = &mut self.slots[e as usize];
        match slot {
            Some(r) => r,
            None => vstd::pervasive::unreached(),
        }
    }

    /// Adds an entity that stands alone.
    pub fn spawn(&mut self, record: EntityRecord) -> (r: Entity)
        requires
            old(self).wf(),
            old(self).slots@.len() < u32::MAX,
            record.parent is None,
            record.children@.len() == 0,
        ensures
            final(self).wf(),
            r == old(self).slots@.len(),
            final(self).slots@ == old(self).slots@.push(Some(record)),
    {
        let e = self.slots.len() as u64;
        self.slots.push(Some(record));
        proof {
            let before = *old(self);
            let after = *self;
            assert forall|x: Entity| #[trigger] after.alive(x) <==> before.alive(x) || x == e by {}
            assert forall|x: Entity| before.alive(x) implies after.rec(x) == before.rec(x)
                && x != e by {}
            let r = choose|r: spec_fn(Entity) -> nat| before.ranked(r);
            assert(before.ranked(r));
            assert(after.ranked(r)) by {
                assert forall|x: Entity| #[trigger]
                    after.alive(x) && after.parent(x) is Some implies r(after.parent(x)->0) < r(
                    x,
                ) by {
                    assert(before.alive(x));
                }
            }
            assert forall|x: Entity| #[trigger]
                after.alive(x) && after.parent(x) is Some implies after.alive(after.parent(x)->0)
                && after.kids(after.parent(x)->0).contains(x) by {
                assert(before.alive(x));
                assert(before.alive(before.parent(x)->0));
            }
            assert forall|x: Entity, i: int| after.alive(x) && 0 <= i < after.kids(x).len() implies
                after.alive(#[trigger] after.kids(x)[i]) && after.parent(after.kids(x)[i]) == Some(
                x,
            ) by {
                assert(before.alive(x));
                assert(before.alive(before.kids(x)[i]));
            }
            assert forall|x: Entity| #[trigger]
                after.alive(x) implies after.kids(x).no_duplicates() by {
                if x != e {
                    assert(before.alive(x));
                }
            }
        }
        e
    }

    /// Sets the parent of `e`. A parent that is `e` itself counts as none.
    pub fn set_parent(&mut self, e: Entity, parent: Option<Entity>)
        requires
            old(self).wf(),
            old(self).alive(e),
            parent is Some ==> old(self).alive(parent->0) && (parent->0 == e || !old(self).under(
                parent->0,
                e,
            )),
        ensures
            final(self).wf(),
            final(self).moved(*old(self), e, if parent == Some(e) {
                None
            } else {
                parent
            }),
    {
        let ghost before = *self;
        let target = match parent {
            Some(p) => if p == e {
                None
            } else {
                Some(p)
            },
            None => None,
        };
        // Leave the old parent's list.
        if let Some(q) = self.parent_of(e) {
            proof {
                assert(before.alive(q));
            }
            let kept = self.kids_without(q, e);
            let rec = self.record_mut(q);
            rec.children = kept;
        }
        let ghost middle = *self;
        proof {
            assert(middle.alive(e));
        }
        // Join the new parent's list.
        if let Some(p) = target {
            proof {
                assert(middle.alive(p));
            }
            let rec = self.record_mut(p);
            rec.children.push(e);
        }
        let rec = self.record_mut(e);
        rec.parent = target;
        proof {
            self.lemma_set_parent(before, e, target);
        }
    }

    proof fn lemma_set_parent(self, before: SceneTree, e: Entity, target: Option<Entity>)
        requires
            before.wf(),
            before.alive(e),
            target is Some ==> before.alive(target->0) && target->0 != e && !before.under(
                target->0,
                e,
            ),
            self.slots@.len() == before.slots@.len(),
            forall|x: Entity| #[trigger] self.alive(x) <==> before.alive(x),
            forall|x: Entity| #[trigger]
                before.alive(x) ==> same_components(self.rec(x), before.rec(x)),
            forall|x: Entity| #[trigger]
                before.alive(x) ==> self.parent(x) == (if x == e {
                    target
                } else {
                    before.parent(x)
                }),
            forall|x: Entity| #[trigger]
                before.alive(x) ==> self.kids(x) == ({
                    let kept = if Some(x) == before.parent(e) {
                        without(before.kids(x), e)
                    } else {
                        before.kids(x)
                    };
                    if Some(x) == target {
                        kept.push(e)
                    } else {
                        kept
                    }
                }),
        ensures
            self.wf(),
            self.moved(before, e, target),
    {
        // Only the old parent lists `e`, so leaving it out elsewhere changes nothing.
        assert forall|x: Entity| #[trigger] before.alive(x) implies self.kids(x) == (if Some(x)
            == target {
            without(before.kids(x), e).push(e)
        } else {
            without(before.kids(x), e)
        }) by {
            if Some(x) != before.parent(e) {
                if before.kids(x).contains(e) {
                    let i = choose|i: int| 0 <= i < before.kids(x).len() && before.kids(x)[i] == e;
                    assert(before.parent(before.kids(x)[i]) == Some(x));
                }
                lemma_without_absent(before.kids(x), e);
            }
        }
        assert forall|x: Entity, y: Entity| before.alive(x) implies (#[trigger] self.kids(
            x,
        ).contains(y) <==> (y != e && before.kids(x).contains(y)) || (y == e && Some(x)
            == target)) by {
            lemma_filter_contains(before.kids(x), other_than(e), y);
            lemma_push_contains(without(before.kids(x), e), e, y);
        }
        assert forall|x: Entity| #[trigger]
            self.alive(x) && self.parent(x) is Some implies self.alive(self.parent(x)->0)
            && self.kids(self.parent(x)->0).contains(x) by {
            assert(before.alive(x));
            if x != e {
                assert(before.alive(before.parent(x)->0));
            }
        }
        assert forall|x: Entity, i: int| self.alive(x) && 0 <= i < self.kids(x).len() implies
            self.alive(#[trigger] self.kids(x)[i]) && self.parent(self.kids(x)[i]) == Some(x) by {
            let y = self.kids(x)[i];
            assert(before.alive(x));
            assert(self.kids(x).contains(y));
            if y != e {
                let j = choose|j: int| 0 <= j < before.kids(x).len() && before.kids(x)[j] == y;
                assert(before.alive(before.kids(x)[j]));
            }
        }
        assert forall|x: Entity| #[trigger] self.alive(x) implies self.kids(x).no_duplicates() by {
            assert(before.alive(x));
            let kept = without(before.kids(x), e);
            lemma_filter_no_duplicates(before.kids(x), other_than(e));
            lemma_filter_contains(before.kids(x), other_than(e), e);
            if Some(x) == target {
                assert(!kept.contains(e));
                assert(kept.push(e).no_duplicates());
            }
        }
        // The subtree of `e` is ranked anew, above its new parent.
        let lift = match target {
            Some(p) => before.rank(p) + 1,
            None => 0,
        };
        let r = |x: Entity|
            if before.under(x, e) {
                before.rank(x) + lift
            } else {
                before.rank(x)
            };
        assert(self.ranked(r)) by {
            assert forall|x: Entity| #[trigger]
                self.alive(x) && self.parent(x) is Some implies r(self.parent(x)->0) < r(x) by {
                assert(before.alive(x));
                if x == e {
                    before.lemma_chain_last(e);
                    assert(before.chain(e).contains(e));
                } else {
                    let q = before.parent(x)->0;
                    before.lemma_rank(x);
                    lemma_push_contains(before.chain(q), x, e);
                }
            }
        }
    }

    /// The children of `q` without `e`.
    fn kids_without(&self, q: Entity, e: Entity) -> (r: Vec<Entity>)
        ensures
            r@ == without(self.kids(q), e),
    {
        let kids = self.kids_of(q);
        let ghost pred = other_than(e);
        let mut r: Vec<Entity> = Vec::new();
        let mut i: usize = 0;
        proof {
            assert(kids@.take(0) =~= seq![]);
            reveal(Seq::filter);
        }
        while i < kids.len()
            invariant
                i <= kids@.len(),
                pred == other_than(e),
                r@ == kids@.take(i as int).filter(pred),
            decreases kids@.len() - i,
        {
            proof {
                lemma_filter_step(kids@, i as int, pred);
            }
            if kids[i] != e {
                r.push(kids[i]);
            }
            i = i + 1;
        }
        assert(kids@.take(i as int) =~= kids@);
        r
    }
}

/// Leaving out what is not there changes nothing.
pub proof fn lemma_without_absent(list: Seq<Entity>, e: Entity)
    requires
        !list.contains(e),
    ensures
        without(list, e) == list,
    decreases list.len(),
{
    reveal(Seq::filter);
    if list.len() > 0 {
        let init = list.drop_last();
        assert(list =~= init.push(list.last()));
        lemma_push_contains(init, list.last(), e);
        lemma_without_absent(init, e);
    } else {
        assert(without(list, e) =~= list);
    }
}

/// Records with the same components agree on every field but the parent and the
/// children.
pub proof fn same_components_agree(a: EntityRecord, b: EntityRecord)
    requires
        same_components(a, b),
    ensures
        (EntityRecord { parent: b.parent, children: b.children, ..a }) == b,
{
}

/// Setting a parent changes that of one entity alone, keeps every entity and its
/// components, and keeps the lists of children in step with the parents.
pub proof fn moving_keeps_the_rest(
    after: SceneTree,
    before: SceneTree,
    e: Entity,
    parent: Option<Entity>,
    x: Entity,
    c: Entity,
)
    requires
        after.moved(before, e, parent),
        before.alive(x),
    ensures
        after.alive(x),
        after.rec(x).parent == (if x == e {
            parent
        } else {
            before.rec(x).parent
        }),
        after.rec(x).children@.contains(c) <==> (if c == e {
            parent == Some(x)
        } else {
            before.rec(x).children@.contains(c)
        }),
        (EntityRecord {
            parent: before.rec(x).parent,
            children: before.rec(x).children,
            ..after.rec(x)
        }) == before.rec(x),
{
    assert(after.alive(x));
    assert(after.kids(x) == after.rec(x).children@);
    assert(after.parent(x) == after.rec(x).parent);
    crate::seqs::lemma_filter_contains(before.kids(x), other_than(e), c);
    crate::seqs::lemma_push_contains(without(before.kids(x), e), e, c);
    same_components_agree(after.rec(x), before.rec(x));
}

} // verus!
