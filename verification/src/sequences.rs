//! Facts about sequences that loops over vectors need.

use vstd::prelude::*;

verus! {

/// What a filter keeps of one element more.
pub proof fn lemma_filter_take<A>(s: Seq<A>, keep: spec_fn(A) -> bool, i: int)
    requires
        0 <= i < s.len(),
    ensures
        s.take(i + 1).filter(keep) == if keep(s[i]) {
            s.take(i).filter(keep).push(s[i])
        } else {
            s.take(i).filter(keep)
        },
{
    reveal(Seq::filter);
    assert(s.take(i + 1).drop_last() =~= s.take(i));
    assert(s.take(i + 1).last() == s[i]);
}

/// A filter that keeps something of a sequence keeps one of its elements that
/// satisfy the predicate.
pub proof fn lemma_filter_element<A>(s: Seq<A>, keep: spec_fn(A) -> bool, k: int)
    requires
        0 <= k < s.filter(keep).len(),
    ensures
        keep(s.filter(keep)[k]),
        exists|i: int| 0 <= i < s.len() && #[trigger] s[i] == s.filter(keep)[k],
    decreases s.len(),
{
    reveal(Seq::filter);
    let init = s.drop_last();
    if k < init.filter(keep).len() {
        lemma_filter_element(init, keep, k);
        let i = choose|i: int| 0 <= i < init.len() && #[trigger] init[i] == init.filter(keep)[k];
        assert(s[i] == s.filter(keep)[k]);
    } else {
        assert(s[s.len() - 1] == s.filter(keep)[k]);
    }
}

/// A filter that an element passes keeps something.
pub proof fn lemma_filter_keeps_some<A>(s: Seq<A>, keep: spec_fn(A) -> bool, i: int)
    requires
        0 <= i < s.len(),
        keep(s[i]),
    ensures
        s.filter(keep).len() > 0,
    decreases s.len(),
{
    reveal(Seq::filter);
    if i < s.len() - 1 {
        lemma_filter_keeps_some(s.drop_last(), keep, i);
    }
}

/// What a filtering map makes of an element is in its result.
pub proof fn lemma_filter_map_holds<A, B>(s: Seq<A>, f: spec_fn(A) -> Option<B>, i: int, n: int)
    requires
        0 <= i < n <= s.len(),
        f(s[i]) is Some,
    ensures
        s.take(n).filter_map(f).contains(f(s[i])->0),
    decreases n,
{
    s.lemma_filter_map_take_succ(f, n - 1);
    let before = s.take(n - 1).filter_map(f);
    let after = s.take(n).filter_map(f);
    if i == n - 1 {
        assert(after[before.len() as int] == f(s[i])->0);
    } else {
        lemma_filter_map_holds(s, f, i, n - 1);
        let k = choose|k: int| 0 <= k < before.len() && before[k] == f(s[i])->0;
        assert(after[k] == before[k]);
    }
}

/// A filter that every element passes keeps them all.
pub proof fn lemma_filter_keeps_all<A>(s: Seq<A>, keep: spec_fn(A) -> bool)
    requires
        forall|i: int| 0 <= i < s.len() ==> keep(#[trigger] s[i]),
    ensures
        s.filter(keep) == s,
    decreases s.len(),
{
    reveal(Seq::filter);
    if s.len() > 0 {
        let init = s.drop_last();
        assert forall|i: int| 0 <= i < init.len() implies keep(#[trigger] init[i]) by {
            assert(init[i] == s[i]);
        }
        lemma_filter_keeps_all(init, keep);
        assert(keep(s[s.len() - 1]));
        assert(init.push(s.last()) =~= s);
    }
}

/// A stronger filter keeps no more.
pub proof fn lemma_filter_weaker<A>(s: Seq<A>, p: spec_fn(A) -> bool, q: spec_fn(A) -> bool)
    requires
        forall|x: A| #[trigger] q(x) ==> p(x),
    ensures
        s.filter(q).len() <= s.filter(p).len(),
    decreases s.len(),
{
    reveal(Seq::filter);
    if s.len() > 0 {
        lemma_filter_weaker(s.drop_last(), p, q);
        assert(q(s.last()) ==> p(s.last()));
    }
}

/// A stronger filter that drops an element keeps fewer.
pub proof fn lemma_filter_strict<A>(s: Seq<A>, p: spec_fn(A) -> bool, q: spec_fn(A) -> bool, i: int)
    requires
        forall|x: A| #[trigger] q(x) ==> p(x),
        0 <= i < s.len(),
        p(s[i]),
        !q(s[i]),
    ensures
        s.filter(q).len() < s.filter(p).len(),
    decreases s.len(),
{
    reveal(Seq::filter);
    let init = s.drop_last();
    assert(q(s.last()) ==> p(s.last()));
    if i == s.len() - 1 {
        lemma_filter_weaker(init, p, q);
    } else {
        lemma_filter_strict(init, p, q, i);
    }
}

/// A filter that one element alone passes keeps that.
pub proof fn lemma_filter_unique<A>(s: Seq<A>, keep: spec_fn(A) -> bool, i: int)
    requires
        0 <= i < s.len(),
        keep(s[i]),
        forall|j: int| 0 <= j < s.len() && j != i ==> !keep(#[trigger] s[j]),
    ensures
        s.filter(keep) == seq![s[i]],
    decreases s.len(),
{
    reveal(Seq::filter);
    let init = s.drop_last();
    if i < s.len() - 1 {
        assert(!keep(s[s.len() - 1]));
        assert forall|j: int| 0 <= j < init.len() && j != i implies !keep(#[trigger] init[j]) by {
            assert(init[j] == s[j]);
        }
        lemma_filter_unique(init, keep, i);
    } else {
        assert forall|j: int| 0 <= j < init.len() implies !keep(#[trigger] init[j]) by {
            assert(init[j] == s[j]);
        }
        lemma_filter_none(init, keep);
        assert(s.filter(keep) =~= seq![s[i]]);
    }
}

/// A filter that no element passes keeps nothing.
pub proof fn lemma_filter_none<A>(s: Seq<A>, keep: spec_fn(A) -> bool)
    requires
        forall|j: int| 0 <= j < s.len() ==> !keep(#[trigger] s[j]),
    ensures
        s.filter(keep) == Seq::<A>::empty(),
{
    if s.filter(keep).len() > 0 {
        lemma_filter_element(s, keep, 0);
    }
    assert(s.filter(keep) =~= Seq::<A>::empty());
}

/// A filter that two elements pass keeps two at least.
pub proof fn lemma_filter_two<A>(s: Seq<A>, keep: spec_fn(A) -> bool, i: int, j: int)
    requires
        0 <= i < j < s.len(),
        keep(s[i]),
        keep(s[j]),
    ensures
        s.filter(keep).len() >= 2,
    decreases s.len(),
{
    reveal(Seq::filter);
    if j < s.len() - 1 {
        lemma_filter_two(s.drop_last(), keep, i, j);
    } else {
        lemma_filter_keeps_some(s.drop_last(), keep, i);
    }
}

/// What a filtering map makes of the one element that it keeps.
pub proof fn lemma_filter_map_unique<A, B>(s: Seq<A>, f: spec_fn(A) -> Option<B>, i: int)
    requires
        0 <= i < s.len(),
        f(s[i]) is Some,
        forall|j: int| 0 <= j < s.len() && j != i ==> f(#[trigger] s[j]) is None,
    ensures
        s.filter_map(f) == seq![f(s[i])->0],
{
    lemma_filter_map_to(s, f, i, s.len() as int);
    assert(s.take(s.len() as int) =~= s);
}

proof fn lemma_filter_map_to<A, B>(s: Seq<A>, f: spec_fn(A) -> Option<B>, i: int, n: int)
    requires
        0 <= i < s.len(),
        0 <= n <= s.len(),
        f(s[i]) is Some,
        forall|j: int| 0 <= j < s.len() && j != i ==> f(#[trigger] s[j]) is None,
    ensures
        s.take(n).filter_map(f) == if i < n {
            seq![f(s[i])->0]
        } else {
            Seq::<B>::empty()
        },
    decreases n,
{
    if n > 0 {
        lemma_filter_map_to(s, f, i, n - 1);
        s.lemma_filter_map_take_succ(f, n - 1);
        if i < n {
            assert(s.take(n).filter_map(f) =~= seq![f(s[i])->0]);
        } else {
            assert(s.take(n).filter_map(f) =~= Seq::<B>::empty());
        }
    } else {
        assert(s.take(0) =~= Seq::<A>::empty());
        assert(s.take(0).filter_map(f) =~= Seq::<B>::empty());
    }
}

/// A filtering map that drops every element makes nothing.
pub proof fn lemma_filter_map_none<A, B>(s: Seq<A>, f: spec_fn(A) -> Option<B>)
    requires
        forall|j: int| 0 <= j < s.len() ==> f(#[trigger] s[j]) is None,
    ensures
        s.filter_map(f) == Seq::<B>::empty(),
{
    if s.filter_map(f).len() > 0 {
        let x = s.filter_map(f)[0];
        assert(s.filter_map(f).contains(x));
        s.lemma_filter_map_contains(f, x);
        let t = choose|t: A| s.contains(t) && f(t) == Some(x);
        let k = choose|k: int| 0 <= k < s.len() && s[k] == t;
        assert(f(s[k]) is None);
    }
    assert(s.filter_map(f) =~= Seq::<B>::empty());
}

} // verus!
