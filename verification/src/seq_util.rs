//! Small general lemmas about `Seq::filter` used by the loops that rebuild
//! a table or a directory listing while dropping some rows.

use vstd::prelude::*;

verus! {

/// Extending a prefix by one element extends its filtering by that element
/// exactly when the element passes the predicate.
pub proof fn lemma_filter_take_step<T>(s: Seq<T>, p: spec_fn(T) -> bool, j: int)
    requires
        0 <= j < s.len(),
    ensures
        p(s[j]) ==> s.take(j + 1).filter(p) == s.take(j).filter(p).push(s[j]),
        !p(s[j]) ==> s.take(j + 1).filter(p) == s.take(j).filter(p),
{
    reveal(Seq::filter);
    let t = s.take(j + 1);
    assert(t.last() == s[j]);
    assert(t.drop_last() =~= s.take(j));
}

/// Every element of a filtering passes the predicate and occurs in the
/// original sequence.
pub proof fn lemma_filter_elems<T>(s: Seq<T>, p: spec_fn(T) -> bool)
    ensures
        forall|j: int|
            0 <= j < s.filter(p).len() ==> p(#[trigger] s.filter(p)[j]) && exists|i: int|
                0 <= i < s.len() && s[i] == s.filter(p)[j],
    decreases s.len(),
{
    reveal(Seq::filter);
    if s.len() == 0 {
    } else {
        lemma_filter_elems(s.drop_last(), p);
        let d = s.drop_last();
        let f = s.filter(p);
        assert(forall|i: int| 0 <= i < d.len() ==> #[trigger] d[i] == s[i]);
        assert forall|j: int| 0 <= j < f.len() implies p(#[trigger] f[j]) && exists|i: int|
            0 <= i < s.len() && s[i] == f[j] by {
            if j < d.filter(p).len() {
                assert(f[j] == d.filter(p)[j]);
                let w = choose|i: int| 0 <= i < d.len() && d[i] == d.filter(p)[j];
                assert(s[w] == f[j]);
            } else {
                assert(f[j] == s.last());
                assert(s[s.len() - 1] == f[j]);
            }
        }
    }
}

/// Filtering preserves any pairwise-ordered relation that held on the
/// original sequence.
pub proof fn lemma_filter_pairwise<T>(s: Seq<T>, p: spec_fn(T) -> bool, r: spec_fn(T, T) -> bool)
    requires
        forall|i: int, j: int| 0 <= i < j < s.len() ==> #[trigger] r(s[i], s[j]),
    ensures
        forall|i: int, j: int|
            0 <= i < j < s.filter(p).len() ==> #[trigger] r(s.filter(p)[i], s.filter(p)[j]),
    decreases s.len(),
{
    reveal(Seq::filter);
    if s.len() == 0 {
    } else {
        let d = s.drop_last();
        let f = s.filter(p);
        assert(forall|i: int| 0 <= i < d.len() ==> #[trigger] d[i] == s[i]);
        lemma_filter_pairwise(d, p, r);
        lemma_filter_elems(d, p);
        assert forall|i: int, j: int| 0 <= i < j < f.len() implies #[trigger] r(f[i], f[j]) by {
            if j < d.filter(p).len() {
                assert(f[i] == d.filter(p)[i] && f[j] == d.filter(p)[j]);
            } else if p(s.last()) && j == f.len() - 1 && f.len() == d.filter(p).len() + 1 {
                assert(f[j] == s.last());
                assert(f[i] == d.filter(p)[i]);
                let w = choose|k: int| 0 <= k < d.len() && d[k] == d.filter(p)[i];
                assert(r(s[w], s[s.len() - 1]));
            }
        }
    }
}

/// A filter whose predicate holds of every element keeps the sequence
/// unchanged.
pub proof fn lemma_filter_all<T>(s: Seq<T>, p: spec_fn(T) -> bool)
    requires
        forall|i: int| 0 <= i < s.len() ==> p(#[trigger] s[i]),
    ensures
        s.filter(p) == s,
    decreases s.len(),
{
    reveal(Seq::filter);
    if s.len() == 0 {
        assert(s.filter(p) =~= s);
    } else {
        let d = s.drop_last();
        assert(forall|i: int| 0 <= i < d.len() ==> #[trigger] d[i] == s[i]);
        lemma_filter_all(d, p);
        assert(s.filter(p) =~= s);
    }
}

/// Dropping the first element of a suffix drops it from the suffix's
/// filtering exactly when it passes the predicate.
pub proof fn lemma_filter_skip_step<T>(s: Seq<T>, p: spec_fn(T) -> bool, j: int)
    requires
        0 <= j < s.len(),
    ensures
        p(s[j]) ==> s.skip(j).filter(p) == seq![s[j]] + s.skip(j + 1).filter(p),
        !p(s[j]) ==> s.skip(j).filter(p) == s.skip(j + 1).filter(p),
{
    reveal_with_fuel(Seq::filter, 2);
    assert(s.skip(j) =~= seq![s[j]] + s.skip(j + 1));
    Seq::filter_distributes_over_add(seq![s[j]], s.skip(j + 1), p);
    assert(seq![s[j]].drop_last() =~= Seq::<T>::empty());
    if p(s[j]) {
        assert(seq![s[j]].filter(p) =~= seq![s[j]]);
        assert(s.skip(j).filter(p) == seq![s[j]] + s.skip(j + 1).filter(p));
    } else {
        assert(seq![s[j]].filter(p) =~= Seq::<T>::empty());
        assert(Seq::<T>::empty() + s.skip(j + 1).filter(p) =~= s.skip(j + 1).filter(p));
    }
}

/// Two predicates that agree on every element of a sequence filter it to
/// the same subsequence.
pub proof fn lemma_filter_congruence<T>(s: Seq<T>, p: spec_fn(T) -> bool, q: spec_fn(T) -> bool)
    requires
        forall|i: int| 0 <= i < s.len() ==> p(#[trigger] s[i]) == q(s[i]),
    ensures
        s.filter(p) == s.filter(q),
    decreases s.len(),
{
    reveal(Seq::filter);
    if s.len() == 0 {
        assert(s.filter(p) =~= s.filter(q));
    } else {
        let d = s.drop_last();
        assert(forall|i: int| 0 <= i < d.len() ==> #[trigger] d[i] == s[i]);
        lemma_filter_congruence(d, p, q);
        assert(p(s.last()) == q(s.last()));
    }
}

/// Filtering a concatenation whose left part fails the predicate
/// everywhere and whose right part passes it everywhere keeps exactly the
/// right part.
pub proof fn lemma_filter_concat_right<T>(a: Seq<T>, b: Seq<T>, p: spec_fn(T) -> bool)
    requires
        forall|i: int| 0 <= i < a.len() ==> !p(#[trigger] a[i]),
        forall|i: int| 0 <= i < b.len() ==> p(#[trigger] b[i]),
    ensures
        (a + b).filter(p) == b,
{
    Seq::filter_distributes_over_add(a, b, p);
    lemma_filter_all(b, p);
    lemma_filter_elems(a, p);
    if a.filter(p).len() > 0 {
        let x = a.filter(p)[0];
        let w = choose|w: int| 0 <= w < a.len() && a[w] == x;
        assert(false);
    }
    assert(a.filter(p) + b =~= b);
}

/// Filtering a concatenation whose right part fails the predicate
/// everywhere filters only the left part.
pub proof fn lemma_filter_concat_left<T>(a: Seq<T>, b: Seq<T>, p: spec_fn(T) -> bool)
    requires
        forall|i: int| 0 <= i < b.len() ==> !p(#[trigger] b[i]),
    ensures
        (a + b).filter(p) == a.filter(p),
{
    Seq::filter_distributes_over_add(a, b, p);
    lemma_filter_elems(b, p);
    if b.filter(p).len() > 0 {
        let x = b.filter(p)[0];
        let w = choose|w: int| 0 <= w < b.len() && b[w] == x;
        assert(false);
    }
    assert(a.filter(p) + b.filter(p) =~= a.filter(p));
}

} // verus!
