//! Small sequence and multiset lemmas shared by the solvers, mostly about
//! `Seq::filter` and `to_multiset`.
use vstd::prelude::*;
use vstd::multiset::Multiset;
use vstd::seq_lib::lemma_multiset_commutative;

verus! {

/// The empty sequence has the empty multiset.
pub proof fn lemma_empty_to_multiset<A>()
    ensures
        Seq::<A>::empty().to_multiset() == Multiset::<A>::empty(),
{
    let s = Seq::<A>::empty();
    s.to_multiset_ensures();
    assert forall|x: A| s.to_multiset().count(x) == 0 by {
        assert(!s.contains(x));
    }
    assert(s.to_multiset() =~= Multiset::<A>::empty());
}

/// Filtering a one-element sequence keeps or drops its single element.
pub proof fn lemma_filter_singleton<A>(x: A, p: spec_fn(A) -> bool)
    ensures
        seq![x].filter(p) == (if p(x) {
            seq![x]
        } else {
            Seq::<A>::empty()
        }),
{
    reveal(Seq::filter);
    let s = seq![x];
    assert(s.drop_last() =~= Seq::<A>::empty());
    assert(Seq::<A>::empty().filter(p) =~= Seq::<A>::empty());
    if p(x) {
        assert(s.filter(p) =~= seq![x]);
    } else {
        assert(s.filter(p) =~= Seq::<A>::empty());
    }
}

/// Filtering after a push appends the new element exactly when it passes.
pub proof fn lemma_filter_push<A>(s: Seq<A>, x: A, p: spec_fn(A) -> bool)
    ensures
        (s.push(x)).filter(p) == (if p(x) {
            s.filter(p).push(x)
        } else {
            s.filter(p)
        }),
{
    reveal(Seq::filter);
    let t = s.push(x);
    assert(t.drop_last() =~= s);
    assert(t.last() == x);
}

/// Pointwise-equal predicates filter a sequence to the same result.
pub proof fn lemma_filter_equiv<A>(s: Seq<A>, p: spec_fn(A) -> bool, q: spec_fn(A) -> bool)
    requires
        forall|x: A| #[trigger] p(x) == q(x),
    ensures
        s.filter(p) == s.filter(q),
    decreases s.len(),
{
    reveal(Seq::filter);
    if s.len() == 0 {
        assert(s.filter(p) =~= s.filter(q));
    } else {
        lemma_filter_equiv(s.drop_last(), p, q);
        assert(p(s.last()) == q(s.last()));
        assert(s.filter(p) =~= s.filter(q));
    }
}

/// Inserting an element anywhere adds exactly it to the multiset.
pub proof fn lemma_insert_multiset<A>(s: Seq<A>, i: int, x: A)
    requires
        0 <= i <= s.len(),
    ensures
        s.insert(i, x).to_multiset() == s.to_multiset().insert(x),
{
    let a = s.subrange(0, i);
    let b = s.subrange(i, s.len() as int);
    assert(s.insert(i, x) == a.push(x) + b);
    lemma_multiset_commutative(a.push(x), b);
    a.to_multiset_ensures();
    assert(s =~= a + b);
    lemma_multiset_commutative(a, b);
    assert(s.insert(i, x).to_multiset() =~= s.to_multiset().insert(x));
}

/// A sequence splits at any index into prefix, element, suffix.
proof fn lemma_split_at<A>(s: Seq<A>, j: int)
    requires
        0 <= j < s.len(),
    ensures
        s =~= s.subrange(0, j) + seq![s[j]] + s.subrange(j + 1, s.len() as int),
        s.remove(j) =~= s.subrange(0, j) + s.subrange(j + 1, s.len() as int),
{
}

/// Filtering commutes with removing one element, at the multiset level.
proof fn lemma_filter_remove_multiset<A>(s: Seq<A>, j: int, p: spec_fn(A) -> bool)
    requires
        0 <= j < s.len(),
    ensures
        s.filter(p).to_multiset() == (if p(s[j]) {
            s.remove(j).filter(p).to_multiset().insert(s[j])
        } else {
            s.remove(j).filter(p).to_multiset()
        }),
{
    reveal(Seq::filter);
    let a = s.subrange(0, j);
    let b = seq![s[j]];
    let c = s.subrange(j + 1, s.len() as int);
    lemma_split_at(s, j);
    Seq::<A>::filter_distributes_over_add(a + b, c, p);
    Seq::<A>::filter_distributes_over_add(a, b, p);
    Seq::<A>::filter_distributes_over_add(a, c, p);
    lemma_filter_singleton(s[j], p);
    lemma_multiset_commutative(a.filter(p) + b.filter(p), c.filter(p));
    lemma_multiset_commutative(a.filter(p), b.filter(p));
    lemma_multiset_commutative(a.filter(p), c.filter(p));
    if p(s[j]) {
        b.filter(p).to_multiset_ensures();
        assert(b.filter(p).to_multiset() =~= Multiset::<A>::empty().insert(s[j]));
        assert(s.filter(p).to_multiset() =~= s.remove(j).filter(p).to_multiset().insert(s[j]));
    } else {
        lemma_empty_to_multiset::<A>();
        assert(b.filter(p) =~= Seq::<A>::empty());
        assert(s.filter(p).to_multiset() =~= s.remove(j).filter(p).to_multiset());
    }
}

/// Sequences with equal multisets filter to equal multisets: filtering is
/// insensitive to the order of the elements.
pub proof fn lemma_filter_multiset<A>(s1: Seq<A>, s2: Seq<A>, p: spec_fn(A) -> bool)
    requires
        s1.to_multiset() == s2.to_multiset(),
    ensures
        s1.filter(p).to_multiset() == s2.filter(p).to_multiset(),
    decreases s1.len(),
{
    reveal(Seq::filter);
    s1.to_multiset_ensures();
    s2.to_multiset_ensures();
    if s1.len() == 0 {
        assert(s2.to_multiset().len() == 0);
        assert(s2.len() == 0);
        assert(s1.filter(p) =~= Seq::<A>::empty());
        assert(s2.filter(p) =~= Seq::<A>::empty());
    } else {
        let x = s1.last();
        let dl = s1.drop_last();
        assert(s1 =~= dl.push(x));
        dl.to_multiset_ensures();
        assert(s1.to_multiset() == dl.to_multiset().insert(x));
        assert(s1.contains(x));
        assert(s2.to_multiset().count(x) > 0);
        assert(s2.contains(x));
        let j = choose|j: int| 0 <= j < s2.len() && s2[j] == x;
        assert(s2.remove(j).to_multiset() == s2.to_multiset().remove(x));
        assert(dl.to_multiset() =~= s2.remove(j).to_multiset());
        lemma_filter_multiset(dl, s2.remove(j), p);
        lemma_filter_push(dl, x, p);
        dl.filter(p).to_multiset_ensures();
        lemma_filter_remove_multiset(s2, j, p);
    }
}

/// Filtering by a predicate no element passes leaves nothing.
pub proof fn lemma_filter_none<A>(s: Seq<A>, p: spec_fn(A) -> bool)
    requires
        forall|i: int| 0 <= i < s.len() ==> !p(#[trigger] s[i]),
    ensures
        s.filter(p) == Seq::<A>::empty(),
    decreases s.len(),
{
    reveal(Seq::filter);
    if s.len() == 0 {
        assert(s.filter(p) =~= Seq::<A>::empty());
    } else {
        lemma_filter_none(s.drop_last(), p);
        assert(!p(s.last()));
        assert(s.filter(p) =~= Seq::<A>::empty());
    }
}

/// Filtering keeps a sequence whose elements all pass the predicate.
pub proof fn lemma_filter_all<A>(s: Seq<A>, p: spec_fn(A) -> bool)
    requires
        forall|i: int| 0 <= i < s.len() ==> p(#[trigger] s[i]),
    ensures
        s.filter(p) == s,
    decreases s.len(),
{
    reveal(Seq::filter);
    if s.len() == 0 {
        assert(s.filter(p) =~= s);
    } else {
        lemma_filter_all(s.drop_last(), p);
        assert(p(s.last()));
        assert(s.filter(p) =~= s);
    }
}

/// Filtering twice by one predicate is filtering once.
pub proof fn lemma_filter_idempotent<A>(s: Seq<A>, p: spec_fn(A) -> bool)
    ensures
        s.filter(p).filter(p) == s.filter(p),
{
    let out = s.filter(p);
    assert forall|i: int| 0 <= i < out.len() implies p(#[trigger] out[i]) by {
        s.lemma_filter_pred(p, i);
    }
    lemma_filter_all(out, p);
}

/// Filtering by the disjunction of two disjoint predicates gives, as a
/// multiset, the sum of the two separate filters.
pub proof fn lemma_filter_split<A>(
    s: Seq<A>,
    p: spec_fn(A) -> bool,
    q: spec_fn(A) -> bool,
    r: spec_fn(A) -> bool,
)
    requires
        forall|x: A| #[trigger] r(x) == (p(x) || q(x)),
        forall|x: A| !(#[trigger] p(x) && q(x)),
    ensures
        s.filter(r).to_multiset() == s.filter(p).to_multiset().add(s.filter(q).to_multiset()),
    decreases s.len(),
{
    reveal(Seq::filter);
    if s.len() == 0 {
        lemma_empty_to_multiset::<A>();
        assert(s.filter(r) =~= Seq::<A>::empty());
        assert(s.filter(p) =~= Seq::<A>::empty());
        assert(s.filter(q) =~= Seq::<A>::empty());
        assert(s.filter(r).to_multiset() =~= s.filter(p).to_multiset().add(
            s.filter(q).to_multiset(),
        ));
    } else {
        let x = s.last();
        let dl = s.drop_last();
        lemma_filter_split(dl, p, q, r);
        lemma_filter_push(dl, x, p);
        lemma_filter_push(dl, x, q);
        lemma_filter_push(dl, x, r);
        assert(s =~= dl.push(x));
        dl.filter(p).to_multiset_ensures();
        dl.filter(q).to_multiset_ensures();
        dl.filter(r).to_multiset_ensures();
        assert(s.filter(r).to_multiset() =~= s.filter(p).to_multiset().add(
            s.filter(q).to_multiset(),
        ));
    }
}

} // verus!
