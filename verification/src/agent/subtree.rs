//! Subtrees: every entity below a given one.
use vstd::prelude::*;

use crate::agent::edit::{same_components, without};
use crate::agent::scene::{Entity, SceneTree};
use crate::seqs::{lemma_concat_no_duplicates, lemma_push_contains};

verus! {

impl SceneTree {
    /// The entities that a walk with a stack visits, in order: the top of the
    /// stack first, then what stands below it, last child first, then the rest
    /// of the stack. It goes down at most `levels` levels.
    pub open spec fn stack_walk(self, stack: Seq<Entity>, levels: nat) -> Seq<Entity>
        decreases levels, stack.len(),
    {
        if levels == 0 || stack.len() == 0 {
            seq![]
        } else {
            seq![stack.last()] + self.stack_walk(self.kids(stack.last()), (levels - 1) as nat)
                + self.stack_walk(stack.drop_last(), levels)
        }
    }

    /// More levels than any chain has.
    pub open spec fn all_levels(self) -> nat {
        self.slots@.len() + 1
    }

    /// `e` and everything below it.
    pub open spec fn subtree(self, e: Entity) -> Seq<Entity> {
        self.stack_walk(seq![e], self.all_levels())
    }

    /// Whether `levels` levels reach the bottom below every entity of `list`.
    pub open spec fn reaches(self, list: Seq<Entity>, levels: nat) -> bool {
        forall|i: int|
            0 <= i < list.len() ==> self.alive(#[trigger] list[i]) && self.chain(list[i]).len()
                + levels > self.slots@.len()
    }

    pub proof fn lemma_kids_reach(self, e: Entity, levels: nat)
        requires
            self.wf(),
            self.alive(e),
            levels > 0,
            self.chain(e).len() + levels > self.slots@.len(),
        ensures
            self.reaches(self.kids(e), (levels - 1) as nat),
    {
        assert forall|i: int| 0 <= i < self.kids(e).len() implies self.alive(
            #[trigger] self.kids(e)[i],
        ) && self.chain(self.kids(e)[i]).len() + (levels - 1) > self.slots@.len() by {
            self.lemma_child_chain(e, i);
        }
    }

    /// Below the bottom there is nothing more to visit.
    pub proof fn lemma_stack_walk_stable(self, list: Seq<Entity>, n: nat, m: nat)
        requires
            self.wf(),
            self.reaches(list, n),
            n <= m,
        ensures
            self.stack_walk(list, n) == self.stack_walk(list, m),
        decreases n, list.len(),
    {
        if list.len() > 0 {
            let e = list.last();
            assert(self.alive(list[list.len() - 1]));
            self.lemma_chain_len(e);
            assert(n > 0);
            self.lemma_kids_reach(e, n);
            self.lemma_stack_walk_stable(self.kids(e), (n - 1) as nat, (m - 1) as nat);
            assert forall|i: int| 0 <= i < list.drop_last().len() implies self.alive(
                #[trigger] list.drop_last()[i],
            ) && self.chain(list.drop_last()[i]).len() + n > self.slots@.len() by {
                assert(list.drop_last()[i] == list[i]);
            }
            self.lemma_stack_walk_stable(list.drop_last(), n, m);
        }
    }

    pub proof fn lemma_stack_walk_append(self, a: Seq<Entity>, b: Seq<Entity>, n: nat)
        ensures
            self.stack_walk(a + b, n) == self.stack_walk(b, n) + self.stack_walk(a, n),
        decreases b.len(),
    {
        if b.len() == 0 {
            assert(a + b =~= a);
            assert(self.stack_walk(b, n) + self.stack_walk(a, n) =~= self.stack_walk(a, n));
        } else if n > 0 {
            assert((a + b).last() == b.last());
            assert((a + b).drop_last() =~= a + b.drop_last());
            self.lemma_stack_walk_append(a, b.drop_last(), n);
            let head = seq![b.last()] + self.stack_walk(self.kids(b.last()), (n - 1) as nat);
            assert(head + (self.stack_walk(b.drop_last(), n) + self.stack_walk(a, n)) =~= (head
                + self.stack_walk(b.drop_last(), n)) + self.stack_walk(a, n));
        } else {
            assert(self.stack_walk(b, n) + self.stack_walk(a, n) =~= seq![]);
        }
    }

    /// Everything visited stands below something on the stack.
    proof fn lemma_stack_walk_sound(self, list: Seq<Entity>, n: nat, x: Entity)
        requires
            self.wf(),
            forall|i: int| 0 <= i < list.len() ==> self.alive(#[trigger] list[i]),
            self.stack_walk(list, n).contains(x),
        ensures
            self.alive(x),
            exists|i: int| 0 <= i < list.len() && self.under(x, #[trigger] list[i]),
        decreases n, list.len(),
    {
        let e = list.last();
        let below = self.stack_walk(self.kids(e), (n - 1) as nat);
        let rest = self.stack_walk(list.drop_last(), n);
        let whole = self.stack_walk(list, n);
        let k = choose|k: int| 0 <= k < whole.len() && whole[k] == x;
        assert(self.alive(list[list.len() - 1]));
        if k == 0 {
            self.lemma_chain_last(x);
            assert(self.chain(x)[self.chain(x).len() - 1] == x);
            assert(self.under(x, list[list.len() - 1]));
        } else if k <= below.len() {
            assert(below[k - 1] == x);
            assert forall|i: int| 0 <= i < self.kids(e).len() implies self.alive(
                #[trigger] self.kids(e)[i],
            ) by {
                self.lemma_child_chain(e, i);
            }
            self.lemma_stack_walk_sound(self.kids(e), (n - 1) as nat, x);
            let i = choose|i: int|
                0 <= i < self.kids(e).len() && self.under(x, #[trigger] self.kids(e)[i]);
            self.lemma_child_chain(e, i);
            self.lemma_under_parent(x, self.kids(e)[i], e);
            assert(self.under(x, list[list.len() - 1]));
        } else {
            assert(rest[k - 1 - below.len()] == x);
            assert forall|i: int| 0 <= i < list.drop_last().len() implies self.alive(
                #[trigger] list.drop_last()[i],
            ) by {
                assert(list.drop_last()[i] == list[i]);
            }
            self.lemma_stack_walk_sound(list.drop_last(), n, x);
            let i = choose|i: int|
                0 <= i < list.drop_last().len() && self.under(x, #[trigger] list.drop_last()[i]);
            assert(self.under(x, list[i]));
        }
    }

    /// What stands below a child stands below its parent.
    pub proof fn lemma_under_parent(self, x: Entity, c: Entity, p: Entity)
        requires
            self.wf(),
            self.alive(x),
            self.under(x, c),
            self.parent(c) == Some(p),
        ensures
            self.under(x, p),
    {
        self.lemma_chain(x);
        let k = choose|k: int| 0 <= k < self.chain(x).len() && self.chain(x)[k] == c;
        assert(self.parent(self.chain(x)[k]) == Some(p));
        assert(k > 0);
        assert(self.chain(x)[k - 1] == p);
    }

    /// Everything below something on the stack is visited.
    proof fn lemma_stack_walk_complete(self, list: Seq<Entity>, n: nat, i: int, x: Entity)
        requires
            self.wf(),
            self.reaches(list, n),
            0 <= i < list.len(),
            self.alive(x),
            self.under(x, list[i]),
        ensures
            self.stack_walk(list, n).contains(x),
        decreases n, list.len(),
    {
        let e = list.last();
        let below = self.stack_walk(self.kids(e), (n - 1) as nat);
        let rest = self.stack_walk(list.drop_last(), n);
        let whole = self.stack_walk(list, n);
        assert(self.alive(list[list.len() - 1]));
        self.lemma_chain_len(e);
        assert(n > 0);
        if i < list.len() - 1 {
            assert forall|j: int| 0 <= j < list.drop_last().len() implies self.alive(
                #[trigger] list.drop_last()[j],
            ) && self.chain(list.drop_last()[j]).len() + n > self.slots@.len() by {
                assert(list.drop_last()[j] == list[j]);
            }
            assert(list.drop_last()[i] == list[i]);
            self.lemma_stack_walk_complete(list.drop_last(), n, i, x);
            let k = choose|k: int| 0 <= k < rest.len() && rest[k] == x;
            assert(whole[1 + below.len() + k] == x);
        } else {
            if x == e {
                assert(whole[0] == x);
            } else {
                let j = self.lemma_child_towards(e, x);
                self.lemma_kids_reach(e, n);
                self.lemma_stack_walk_complete(self.kids(e), (n - 1) as nat, j, x);
                let m = choose|m: int| 0 <= m < below.len() && below[m] == x;
                assert(whole[1 + m] == x);
            }
        }
    }

    /// The child of `e` that `x`, which stands below `e`, stands under.
    proof fn lemma_child_towards(self, e: Entity, x: Entity) -> (j: int)
        requires
            self.wf(),
            self.alive(x),
            self.under(x, e),
            x != e,
        ensures
            0 <= j < self.kids(e).len(),
            self.under(x, self.kids(e)[j]),
    {
        self.lemma_chain(x);
        let c = self.chain(x);
        let k = choose|k: int| 0 <= k < c.len() && c[k] == e;
        let child = c[k + 1];
        assert(self.parent(child) == Some(e));
        assert(self.alive(child));
        assert(self.kids(e).contains(child));
        choose|j: int| 0 <= j < self.kids(e).len() && self.kids(e)[j] == child
    }

    /// A subtree holds exactly the entities that stand under its root.
    pub proof fn subtree_is_all_below(self, e: Entity, x: Entity)
        requires
            self.wf(),
            self.alive(e),
        ensures
            self.subtree(e).contains(x) <==> self.alive(x) && self.under(x, e),
    {
        let list = seq![e];
        self.lemma_chain_last(e);
        assert(self.reaches(list, self.all_levels()));
        if self.subtree(e).contains(x) {
            self.lemma_stack_walk_sound(list, self.all_levels(), x);
        }
        if self.alive(x) && self.under(x, e) {
            self.lemma_stack_walk_complete(list, self.all_levels(), 0, x);
        }
    }

    /// Whether `list` holds live entities of one level, each once: their chains
    /// are all `len` long.
    pub open spec fn level(self, list: Seq<Entity>, len: nat) -> bool {
        &&& list.no_duplicates()
        &&& forall|i: int|
            0 <= i < list.len() ==> self.alive(#[trigger] list[i]) && self.chain(list[i]).len()
                == len
    }

    /// An entity stands under at most one entity of each level, and none deeper
    /// than itself.
    pub proof fn lemma_one_above(self, x: Entity, a: Entity, b: Entity)
        requires
            self.wf(),
            self.alive(x),
            self.under(x, a),
        ensures
            self.chain(x).len() >= self.chain(a).len(),
            self.under(x, b) && self.chain(a).len() == self.chain(b).len() ==> a == b,
    {
        self.lemma_chain(x);
        let c = self.chain(x);
        let i = choose|i: int| 0 <= i < c.len() && c[i] == a;
        assert(self.chain(c[i]) == c.take(i + 1));
        if self.under(x, b) {
            let j = choose|j: int| 0 <= j < c.len() && c[j] == b;
            assert(self.chain(c[j]) == c.take(j + 1));
        }
    }

    proof fn lemma_kids_level(self, e: Entity)
        requires
            self.wf(),
            self.alive(e),
        ensures
            self.level(self.kids(e), self.chain(e).len() + 1),
    {
        assert forall|i: int| 0 <= i < self.kids(e).len() implies self.alive(
            #[trigger] self.kids(e)[i],
        ) && self.chain(self.kids(e)[i]).len() == self.chain(e).len() + 1 by {
            self.lemma_child_chain(e, i);
        }
    }

    proof fn lemma_stack_walk_once(self, list: Seq<Entity>, n: nat, len: nat)
        requires
            self.wf(),
            self.level(list, len),
        ensures
            self.stack_walk(list, n).no_duplicates(),
        decreases n, list.len(),
    {
        if n > 0 && list.len() > 0 {
            let e = list.last();
            let init = list.drop_last();
            let top = seq![e];
            let below = self.stack_walk(self.kids(e), (n - 1) as nat);
            let rest = self.stack_walk(init, n);
            assert(self.alive(list[list.len() - 1]));
            self.lemma_kids_level(e);
            self.lemma_stack_walk_once(self.kids(e), (n - 1) as nat, len + 1);
            assert forall|i: int| 0 <= i < init.len() implies self.alive(#[trigger] init[i])
                && self.chain(init[i]).len() == len by {
                assert(init[i] == list[i]);
            }
            self.lemma_stack_walk_once(init, n, len);
            assert forall|x: Entity| !(#[trigger] top.contains(x) && below.contains(x)) by {
                if top.contains(x) && below.contains(x) {
                    self.lemma_stack_walk_sound(self.kids(e), (n - 1) as nat, x);
                    let i = choose|i: int|
                        0 <= i < self.kids(e).len() && self.under(x, #[trigger] self.kids(e)[i]);
                    self.lemma_one_above(x, self.kids(e)[i], e);
                }
            }
            lemma_concat_no_duplicates(top, below);
            assert forall|x: Entity| !(#[trigger] (top + below).contains(x) && rest.contains(x)) by {
                if (top + below).contains(x) && rest.contains(x) {
                    self.lemma_stack_walk_sound(init, n, x);
                    let i = choose|i: int|
                        0 <= i < init.len() && self.under(x, #[trigger] init[i]);
                    let k = choose|k: int|
                        0 <= k < (top + below).len() && (top + below)[k] == x;
                    if k == 0 {
                        self.lemma_chain_last(x);
                        assert(self.chain(x)[self.chain(x).len() - 1] == x);
                    } else {
                        assert(below[k - 1] == x);
                        self.lemma_stack_walk_sound(self.kids(e), (n - 1) as nat, x);
                        let j = choose|j: int|
                            0 <= j < self.kids(e).len() && self.under(
                                x,
                                #[trigger] self.kids(e)[j],
                            );
                        self.lemma_child_chain(e, j);
                        self.lemma_under_parent(x, self.kids(e)[j], e);
                    }
                    self.lemma_one_above(x, init[i], e);
                    assert(list[i] != list[list.len() - 1]);
                }
            }
            lemma_concat_no_duplicates(top + below, rest);
        }
    }

    /// A subtree names no entity twice.
    pub proof fn subtree_names_each_once(self, e: Entity)
        requires
            self.wf(),
            self.alive(e),
        ensures
            self.subtree(e).no_duplicates(),
    {
        assert(self.level(seq![e], self.chain(e).len()));
        self.lemma_stack_walk_once(seq![e], self.all_levels(), self.chain(e).len());
    }

    /// `e` and everything below it, in the order in which a stack visits them.
    pub fn subtree_of(&self, e: Entity) -> (r: Vec<Entity>)
        requires
            self.wf(),
            self.alive(e),
        ensures
            r@ == self.subtree(e),
    {
        let mut out: Vec<Entity> = Vec::new();
        let mut stack: Vec<Entity> = Vec::new();
        stack.push(e);
        let ghost levels = self.all_levels();
        proof {
            assert(stack@ =~= seq![e]);
            self.lemma_chain_last(e);
            assert(out@ + self.stack_walk(stack@, levels) =~= self.subtree(e));
        }
        while stack.len() > 0
            invariant
                self.wf(),
                levels == self.all_levels(),
                forall|i: int| 0 <= i < stack@.len() ==> self.alive(#[trigger] stack@[i]),
                out@ + self.stack_walk(stack@, levels) == self.subtree(e),
            decreases self.stack_walk(stack@, levels).len(),
        {
            let ghost before = stack@;
            let top = stack.pop().unwrap();
            let ghost rest = stack@;
            proof {
                assert(rest =~= before.drop_last());
                assert(self.alive(before[before.len() - 1]));
                self.lemma_chain_last(top);
            }
            let ghost visited = out@;
            out.push(top);
            let kids = self.kids_of(top);
            let mut i: usize = 0;
            while i < kids.len()
                invariant
                    self.wf(),
                    self.alive(top),
                    kids@ == self.kids(top),
                    i <= kids@.len(),
                    stack@ == rest + kids@.take(i as int),
                decreases kids@.len() - i,
            {
                stack.push(kids[i]);
                i = i + 1;
                assert(stack@ =~= rest + kids@.take(i as int));
            }
            proof {
                assert(kids@.take(i as int) =~= kids@);
                self.lemma_kids_reach(top, levels);
                self.lemma_stack_walk_stable(kids@, (levels - 1) as nat, levels);
                self.lemma_stack_walk_append(rest, kids@, levels);
                assert(self.stack_walk(before, levels) =~= seq![top] + self.stack_walk(
                    stack@,
                    levels,
                ));
                assert(out@ + self.stack_walk(stack@, levels) =~= visited + self.stack_walk(
                    before,
                    levels,
                ));
                assert forall|j: int| 0 <= j < stack@.len() implies self.alive(
                    #[trigger] stack@[j],
                ) by {
                    if j < rest.len() {
                        assert(before[j] == stack@[j]);
                    } else {
                        self.lemma_child_chain(top, j - rest.len());
                    }
                }
            }
        }
        assert(out@ + self.stack_walk(stack@, levels) =~= out@);
        out
    }

    /// Whether `self` is `before` without the subtree of `e`.
    pub open spec fn pruned(self, before: SceneTree, e: Entity) -> bool {
        &&& self.slots@.len() == before.slots@.len()
        &&& forall|x: Entity| #[trigger] self.alive(x) <==> before.alive(x) && !before.under(x, e)
        &&& forall|x: Entity| #[trigger]
            self.alive(x) ==> same_components(self.rec(x), before.rec(x)) && self.parent(x)
                == before.parent(x) && self.kids(x) == without(before.kids(x), e)
    }

    /// Removes `e` and everything below it. The result lists what is gone.
    pub fn despawn(&mut self, e: Entity) -> (r: Vec<Entity>)
        requires
            old(self).wf(),
            old(self).alive(e),
        ensures
            final(self).wf(),
            final(self).pruned(*old(self), e),
            r@ == old(self).subtree(e),
    {
        let ghost before = *self;
        let doomed = self.subtree_of(e);
        self.set_parent(e, None);
        let ghost middle = *self;
        let mut i: usize = 0;
        while i < doomed.len()
            invariant
                before.wf(),
                before.alive(e),
                doomed@ == before.subtree(e),
                middle.wf(),
                middle.moved(before, e, None),
                i <= doomed@.len(),
                self.slots@.len() == middle.slots@.len(),
                forall|x: Entity| #[trigger]
                    self.alive(x) <==> middle.alive(x) && !doomed@.take(i as int).contains(x),
                forall|x: Entity| #[trigger] self.alive(x) ==> self.rec(x) == middle.rec(x),
            decreases doomed@.len() - i,
        {
            let d = doomed[i];
            proof {
                before.subtree_is_all_below(e, d);
                assert(doomed@.contains(doomed@[i as int]));
                assert(middle.alive(d));
            }
            assert(self.slots@.len() == self.slots.len());
            let ghost prev = *self;
            self.slots.set(d as usize, None);
            i = i + 1;
            proof {
                assert(doomed@.take(i as int) =~= doomed@.take(i - 1).push(d));
                assert forall|x: Entity| #[trigger] self.alive(x) <==> middle.alive(x)
                    && !doomed@.take(i as int).contains(x) by {
                    lemma_push_contains(doomed@.take(i - 1), d, x);
                    assert(prev.alive(x) <==> middle.alive(x) && !doomed@.take(i - 1).contains(x));
                }
                assert forall|x: Entity| #[trigger] self.alive(x) implies self.rec(x)
                    == middle.rec(x) by {
                    assert(prev.alive(x));
                }
            }
        }
        proof {
            assert(doomed@.take(i as int) =~= doomed@);
            assert forall|x: Entity| #[trigger] self.alive(x) <==> before.alive(x)
                && !before.under(x, e) by {
                before.subtree_is_all_below(e, x);
            }
            self.lemma_pruned(before, middle, e);
        }
        doomed
    }

    proof fn lemma_pruned(self, before: SceneTree, middle: SceneTree, e: Entity)
        requires
            before.wf(),
            before.alive(e),
            middle.wf(),
            middle.moved(before, e, None),
            self.slots@.len() == middle.slots@.len(),
            forall|x: Entity| #[trigger]
                self.alive(x) <==> before.alive(x) && !before.under(x, e),
            forall|x: Entity| #[trigger] self.alive(x) ==> self.rec(x) == middle.rec(x),
        ensures
            self.wf(),
            self.pruned(before, e),
    {
        before.lemma_chain_last(e);
        assert(before.chain(e)[before.chain(e).len() - 1] == e);
        assert forall|x: Entity| #[trigger] self.alive(x) implies x != e && middle.alive(x)
            && before.alive(x) by {}
        assert forall|x: Entity| #[trigger]
            self.alive(x) && self.parent(x) is Some implies self.alive(self.parent(x)->0)
            && self.kids(self.parent(x)->0).contains(x) by {
            assert(middle.alive(x));
            assert(before.alive(x));
            let p = before.parent(x)->0;
            assert(before.alive(p));
            if before.under(p, e) {
                lemma_push_contains(before.chain(p), x, e);
            }
            assert(middle.kids(p).contains(x));
        }
        assert forall|x: Entity, i: int| self.alive(x) && 0 <= i < self.kids(x).len() implies
            self.alive(#[trigger] self.kids(x)[i]) && self.parent(self.kids(x)[i]) == Some(x) by {
            assert(middle.alive(x));
            let c = middle.kids(x)[i];
            assert(middle.alive(c) && middle.parent(c) == Some(x));
            assert(before.alive(c));
            assert(c != e);
            assert(before.parent(c) == Some(x));
            lemma_push_contains(before.chain(x), c, e);
        }
        assert forall|x: Entity| #[trigger] self.alive(x) implies self.kids(x).no_duplicates() by {
            assert(middle.alive(x));
        }
        let r = choose|r: spec_fn(Entity) -> nat| middle.ranked(r);
        assert(middle.ranked(r));
        assert(self.ranked(r)) by {
            assert forall|x: Entity| #[trigger]
                self.alive(x) && self.parent(x) is Some implies r(self.parent(x)->0) < r(x) by {
                assert(middle.alive(x));
            }
        }
    }
}

impl SceneTree {
    /// A subtree is listed from its root, which comes first.
    pub proof fn subtree_starts_at_root(self, e: Entity)
        ensures
            self.subtree(e).len() > 0,
            self.subtree(e)[0] == e,
    {
    }
}

} // verus!
