//! Facts about sequences.
use vstd::prelude::*;

verus! {

/// The first `max` elements of `s`; all of them where `max` is 0.
pub open spec fn limited<A>(s: Seq<A>, max: u32) -> Seq<A> {
    if max == 0 || s.len() <= max {
        s
    } else {
        s.take(max as int)
    }
}

/// Filtering one more element.
pub proof fn lemma_filter_step<A>(s: Seq<A>, i: int, pred: spec_fn(A) -> bool)
    requires
        0 <= i < s.len(),
    ensures
        s.take(i + 1).filter(pred) == (if pred(s[i]) {
            s.take(i).filter(pred).push(s[i])
        } else {
            s.take(i).filter(pred)
        }),
{
    reveal(Seq::filter);
    assert(s.take(i + 1).drop_last() =~= s.take(i));
    assert(s.take(i + 1).last() == s[i]);
}

/// What a filtered sequence holds.
pub proof fn lemma_filter_contains<A>(s: Seq<A>, pred: spec_fn(A) -> bool, a: A)
    ensures
        s.filter(pred).contains(a) <==> s.contains(a) && pred(a),
    decreases s.len(),
{
    reveal(Seq::filter);
    if s.len() > 0 {
        let init = s.drop_last();
        lemma_filter_contains(init, pred, a);
        assert(s =~= init.push(s.last()));
        lemma_push_contains(init, s.last(), a);
        lemma_push_contains(init.filter(pred), s.last(), a);
    }
}

/// What a sequence with one more element holds.
pub proof fn lemma_push_contains<A>(s: Seq<A>, x: A, a: A)
    ensures
        s.push(x).contains(a) <==> s.contains(a) || x == a,
{
    if s.contains(a) {
        let i = choose|i: int| 0 <= i < s.len() && s[i] == a;
        assert(s.push(x)[i] == a);
    }
    assert(s.push(x)[s.len() as int] == x);
    if s.push(x).contains(a) && x != a {
        let i = choose|i: int| 0 <= i < s.push(x).len() && s.push(x)[i] == a;
        assert(s[i] == a);
    }
}

pub proof fn lemma_filter_no_duplicates<A>(s: Seq<A>, pred: spec_fn(A) -> bool)
    requires
        s.no_duplicates(),
    ensures
        s.filter(pred).no_duplicates(),
    decreases s.len(),
{
    reveal(Seq::filter);
    if s.len() > 0 {
        let init = s.drop_last();
        lemma_filter_no_duplicates(init, pred);
        lemma_filter_contains(init, pred, s.last());
        if init.contains(s.last()) {
            let i = choose|i: int| 0 <= i < init.len() && init[i] == s.last();
            assert(s[i] == s[s.len() - 1]);
        }
    }
}

/// Filtering a prefix gives a prefix of the filtered whole.
pub proof fn lemma_filter_prefix<A>(s: Seq<A>, i: int, pred: spec_fn(A) -> bool)
    requires
        0 <= i <= s.len(),
    ensures
        s.take(i).filter(pred).len() <= s.filter(pred).len(),
        s.filter(pred).take(s.take(i).filter(pred).len() as int) == s.take(i).filter(pred),
    decreases s.len() - i,
{
    if i == s.len() {
        assert(s.take(i) =~= s);
        assert(s.filter(pred).take(s.filter(pred).len() as int) =~= s.filter(pred));
    } else {
        lemma_filter_prefix(s, i + 1, pred);
        lemma_filter_step(s, i, pred);
        let n = s.take(i).filter(pred).len() as int;
        let m = s.take(i + 1).filter(pred).len() as int;
        assert(s.filter(pred).take(n) =~= s.filter(pred).take(m).take(n));
        assert(s.take(i + 1).filter(pred).take(n) =~= s.take(i).filter(pred));
    }
}

/// Two predicates that agree on a sequence pick the same of it.
pub proof fn lemma_filter_agrees<A>(s: Seq<A>, p: spec_fn(A) -> bool, q: spec_fn(A) -> bool)
    requires
        forall|i: int| 0 <= i < s.len() ==> p(#[trigger] s[i]) == q(s[i]),
    ensures
        s.filter(p) == s.filter(q),
    decreases s.len(),
{
    reveal(Seq::filter);
    if s.len() > 0 {
        let init = s.drop_last();
        assert forall|i: int| 0 <= i < init.len() implies p(#[trigger] init[i]) == q(init[i]) by {
            assert(init[i] == s[i]);
        }
        lemma_filter_agrees(init, p, q);
        assert(p(s[s.len() - 1]) == q(s[s.len() - 1]));
    }
}

/// Two sequences without duplicates that share nothing make one without.
pub proof fn lemma_concat_no_duplicates<A>(a: Seq<A>, b: Seq<A>)
    requires
        a.no_duplicates(),
        b.no_duplicates(),
        forall|x: A| !(#[trigger] a.contains(x) && b.contains(x)),
    ensures
        (a + b).no_duplicates(),
{
    let s = a + b;
    assert forall|i: int, j: int| 0 <= i < s.len() && 0 <= j < s.len() && i != j implies s[i]
        != s[j] by {
        if i < a.len() && j < a.len() {
            assert(a[i] != a[j]);
        } else if i >= a.len() && j >= a.len() {
            assert(b[i - a.len()] != b[j - a.len()]);
        } else if i < a.len() {
            assert(a.contains(a[i]));
            assert(b[j - a.len()] == s[j]);
        } else {
            assert(a.contains(a[j]));
            assert(b[i - a.len()] == s[i]);
        }
    }
}

/// What a capped sequence holds comes from the sequence, and nothing is missing
/// where there is no cap.
pub proof fn lemma_limited_contains<A>(s: Seq<A>, max: u32, x: A)
    ensures
        limited(s, max).contains(x) ==> s.contains(x),
        max == 0 ==> limited(s, max) == s,
{
    if limited(s, max).contains(x) {
        let i = choose|i: int| 0 <= i < limited(s, max).len() && limited(s, max)[i] == x;
        assert(s[i] == x);
    }
}

/// A cap keeps the first elements, in order, and as many as it can: all of them
/// where they are no more than the cap or the cap is 0.
pub proof fn cap_keeps_the_first<A>(s: Seq<A>, max: u32, i: int)
    ensures
        limited(s, max).len() <= s.len(),
        max != 0 ==> limited(s, max).len() <= max,
        max == 0 || s.len() <= max ==> limited(s, max).len() == s.len(),
        max != 0 && s.len() >= max ==> limited(s, max).len() == max,
        0 <= i < limited(s, max).len() ==> limited(s, max)[i] == s[i],
{
}

/// How many elements pass a filter, told as a set: as many as there are different
/// ones that pass, where the sequence holds none twice.
pub proof fn lemma_filter_counts<A>(s: Seq<A>, pred: spec_fn(A) -> bool)
    requires
        s.no_duplicates(),
    ensures
        s.filter(pred).len() == s.filter(pred).to_set().len(),
        s.filter(pred).to_set().finite(),
        forall|a: A| #[trigger] s.filter(pred).to_set().contains(a) <==> s.contains(a) && pred(a),
{
    lemma_filter_no_duplicates(s, pred);
    s.filter(pred).unique_seq_to_set();
    assert forall|a: A| #[trigger] s.filter(pred).to_set().contains(a) <==> s.contains(a) && pred(
        a,
    ) by {
        lemma_filter_contains(s, pred, a);
    }
}

/// A filter lets no more through than there is.
pub proof fn lemma_filter_len<A>(s: Seq<A>, pred: spec_fn(A) -> bool)
    ensures
        s.filter(pred).len() <= s.len(),
    decreases s.len(),
{
    reveal(Seq::filter);
    if s.len() > 0 {
        lemma_filter_len(s.drop_last(), pred);
    }
}

/// What two sequences in a row hold.
pub proof fn lemma_concat_contains<A>(a: Seq<A>, b: Seq<A>, x: A)
    ensures
        (a + b).contains(x) <==> a.contains(x) || b.contains(x),
{
    let s = a + b;
    if s.contains(x) {
        let k = choose|k: int| 0 <= k < s.len() && s[k] == x;
        if k < a.len() {
            assert(a[k] == x);
        } else {
            assert(b[k - a.len()] == x);
        }
    }
    if a.contains(x) {
        let k = choose|k: int| 0 <= k < a.len() && a[k] == x;
        assert(s[k] == x);
    }
    if b.contains(x) {
        let k = choose|k: int| 0 <= k < b.len() && b[k] == x;
        assert(s[a.len() + k] == x);
    }
}

/// A filter keeps ascending numbers ascending.
pub proof fn lemma_filter_ascends(list: Seq<u64>, pred: spec_fn(u64) -> bool, i: int, j: int)
    requires
        forall|a: int, b: int| 0 <= a < b < list.len() ==> list[a] < list[b],
    ensures
        0 <= i < j < list.filter(pred).len() ==> list.filter(pred)[i] < list.filter(pred)[j],
    decreases list.len(),
{
    reveal(Seq::filter);
    if list.len() > 0 {
        let init = list.drop_last();
        let kept = init.filter(pred);
        assert forall|a: int, b: int| 0 <= a < b < init.len() implies init[a] < init[b] by {
            assert(list[a] < list[b]);
        }
        lemma_filter_ascends(init, pred, i, j);
        if 0 <= i < j < list.filter(pred).len() && j == kept.len() {
            assert(kept.contains(kept[i]));
            lemma_filter_contains(init, pred, kept[i]);
            let a = choose|a: int| 0 <= a < init.len() && init[a] == kept[i];
            assert(list[a] < list[list.len() - 1]);
        }
    }
}

} // verus!
