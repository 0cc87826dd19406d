//! Facts about sequences that the catalog and the lists rely on: first
//! matches, filters, and stable insertion order.
use vstd::prelude::*;

verus! {

/// The first position whose element satisfies `p`.
pub open spec fn first_index<A>(s: Seq<A>, p: spec_fn(A) -> bool) -> Option<int> {
    if exists|i: int| 0 <= i < s.len() && p(s[i]) {
        Some(
            choose|i: int| 0 <= i < s.len() && p(s[i]) && forall|j: int| 0 <= j < i ==> !p(s[j]),
        )
    } else {
        None
    }
}

pub proof fn lemma_first_index_is<A>(s: Seq<A>, p: spec_fn(A) -> bool, k: int)
    requires
        0 <= k < s.len(),
        p(s[k]),
        forall|j: int| 0 <= j < k ==> !p(s[j]),
    ensures
        first_index(s, p) == Some(k),
{
    assert(0 <= k < s.len() && p(s[k]) && forall|j: int| 0 <= j < k ==> !p(s[j]));
    let i = choose|i: int| 0 <= i < s.len() && p(s[i]) && forall|j: int| 0 <= j < i ==> !p(s[j]);
    if i < k {
        assert(!p(s[i]));
    }
    if k < i {
        assert(!p(s[k]));
    }
}

/// Where some element satisfies `p`, a first one does.
pub proof fn lemma_first_exists<A>(s: Seq<A>, p: spec_fn(A) -> bool)
    requires
        exists|i: int| 0 <= i < s.len() && p(s[i]),
    ensures
        exists|i: int| 0 <= i < s.len() && p(s[i]) && forall|j: int| 0 <= j < i ==> !p(s[j]),
    decreases s.len(),
{
    let d = s.drop_last();
    if exists|i: int| 0 <= i < d.len() && p(d[i]) {
        lemma_first_exists(d, p);
        let i = choose|i: int| 0 <= i < d.len() && p(d[i]) && forall|j: int| 0 <= j < i ==> !p(d[j]);
        assert(s[i] == d[i]);
        assert forall|j: int| 0 <= j < i implies !p(s[j]) by {
            assert(s[j] == d[j]);
        }
    } else {
        let k = s.len() - 1;
        let w = choose|i: int| 0 <= i < s.len() && p(s[i]);
        if w < k {
            assert(d[w] == s[w]);
        }
        assert forall|j: int| 0 <= j < k implies !p(s[j]) by {
            assert(s[j] == d[j]);
        }
        assert(p(s[k]));
    }
}

pub proof fn lemma_first_index_some<A>(s: Seq<A>, p: spec_fn(A) -> bool)
    ensures
        first_index(s, p) matches Some(k) ==> 0 <= k < s.len() && p(s[k]) && forall|j: int|
            0 <= j < k ==> !p(s[j]),
{
    if exists|i: int| 0 <= i < s.len() && p(s[i]) {
        lemma_first_exists(s, p);
    }
}

pub proof fn lemma_first_index_none<A>(s: Seq<A>, p: spec_fn(A) -> bool)
    requires
        forall|j: int| 0 <= j < s.len() ==> !p(s[j]),
    ensures
        first_index(s, p) is None,
{
}

pub proof fn lemma_filter_step<A>(s: Seq<A>, p: spec_fn(A) -> bool, i: int)
    requires
        0 <= i < s.len(),
    ensures
        s.take(i + 1).filter(p) == (if p(s[i]) {
            s.take(i).filter(p).push(s[i])
        } else {
            s.take(i).filter(p)
        }),
{
    assert(s.take(i + 1) =~= s.take(i).push(s[i]));
    s.take(i).lemma_filter_push(s[i], p);
}

/// Every element of a filtered sequence comes from the sequence.
pub proof fn lemma_filter_subset<A>(s: Seq<A>, p: spec_fn(A) -> bool)
    ensures
        forall|k: int| 0 <= k < s.filter(p).len() ==> s.contains(#[trigger] s.filter(p)[k]),
        forall|k: int| 0 <= k < s.filter(p).len() ==> p(#[trigger] s.filter(p)[k]),
    decreases s.len(),
{
    broadcast use vstd::seq_lib::group_filter_ensures;

    reveal(Seq::filter);
    if s.len() > 0 {
        let d = s.drop_last();
        lemma_filter_subset(d, p);
        let f = s.filter(p);
        assert forall|k: int| 0 <= k < f.len() implies s.contains(#[trigger] f[k]) by {
            if k < d.filter(p).len() {
                assert(f[k] == d.filter(p)[k]);
                let j = choose|j: int| 0 <= j < d.len() && d[j] == d.filter(p)[k];
                assert(s[j] == d[j]);
            } else {
                assert(f[k] == s.last());
                assert(s[s.len() - 1] == s.last());
            }
        }
    }
}

/// The elements that `x` goes before under the strict order `lt`.
pub open spec fn precedes<A>(x: A, lt: spec_fn(A, A) -> bool) -> spec_fn(A) -> bool {
    |y: A| lt(x, y)
}

/// `x` inserted into `s` before the first element it goes before, so that it
/// follows every element it ties with.
pub open spec fn inserted_by<A>(s: Seq<A>, x: A, lt: spec_fn(A, A) -> bool) -> Seq<A> {
    match first_index(s, precedes(x, lt)) {
        Some(p) => s.insert(p, x),
        None => s.push(x),
    }
}

/// The stable sort of `s` by the strict order `lt`: each element in turn
/// inserted after those it does not go before.
pub open spec fn sorted_by<A>(s: Seq<A>, lt: spec_fn(A, A) -> bool) -> Seq<A>
    decreases s.len(),
{
    if s.len() == 0 {
        s
    } else {
        inserted_by(sorted_by(s.drop_last(), lt), s.last(), lt)
    }
}

/// `lt` is irreflexive and transitive.
pub open spec fn is_strict_order<A>(lt: spec_fn(A, A) -> bool) -> bool {
    &&& forall|a: A| !(#[trigger] lt(a, a))
    &&& forall|a: A, b: A, c: A| #[trigger] lt(a, b) && #[trigger] lt(b, c) ==> lt(a, c)
}

/// No element of `s` goes before an earlier one.
pub open spec fn is_sorted_by<A>(s: Seq<A>, lt: spec_fn(A, A) -> bool) -> bool {
    forall|i: int, j: int| 0 <= i < j < s.len() ==> !lt(#[trigger] s[j], #[trigger] s[i])
}

/// Insertion keeps every element and adds `x`.
pub proof fn lemma_inserted_by_multiset<A>(s: Seq<A>, x: A, lt: spec_fn(A, A) -> bool)
    ensures
        inserted_by(s, x, lt).to_multiset() == s.to_multiset().insert(x),
{
    broadcast use vstd::seq_lib::to_multiset_build, vstd::seq_lib::to_multiset_insert;

    lemma_first_index_some(s, precedes(x, lt));
}

/// Sorting rearranges: the sorted sequence holds the same elements, as often.
pub proof fn lemma_sorted_by_permutes<A>(s: Seq<A>, lt: spec_fn(A, A) -> bool)
    ensures
        sorted_by(s, lt).to_multiset() == s.to_multiset(),
    decreases s.len(),
{
    broadcast use vstd::seq_lib::to_multiset_build;

    if s.len() > 0 {
        lemma_sorted_by_permutes(s.drop_last(), lt);
        lemma_inserted_by_multiset(sorted_by(s.drop_last(), lt), s.last(), lt);
        assert(s.drop_last().push(s.last()) =~= s);
    }
}

/// Insertion into a sorted sequence keeps it sorted.
pub proof fn lemma_inserted_by_sorted<A>(s: Seq<A>, x: A, lt: spec_fn(A, A) -> bool)
    requires
        is_strict_order(lt),
        is_sorted_by(s, lt),
    ensures
        is_sorted_by(inserted_by(s, x, lt), lt),
{
    let q = precedes(x, lt);
    lemma_first_index_some(s, q);
    let r = inserted_by(s, x, lt);
    match first_index(s, q) {
        Some(p) => {
            assert(lt(x, s[p]));
            assert forall|i: int, j: int| 0 <= i < j < r.len() implies !lt(#[trigger] r[j], #[trigger] r[i]) by {
                if j < p {
                    assert(r[i] == s[i] && r[j] == s[j]);
                } else if j == p {
                    assert(r[j] == x && r[i] == s[i]);
                    assert(!q(s[i]));
                } else if i < p {
                    assert(r[j] == s[j - 1] && r[i] == s[i]);
                } else if i == p {
                    assert(r[i] == x && r[j] == s[j - 1]);
                    if lt(s[j - 1], x) {
                        assert(lt(s[j - 1], s[p]));
                        if j - 1 > p {
                            assert(!lt(s[j - 1], s[p]));
                        }
                    }
                } else {
                    assert(r[j] == s[j - 1] && r[i] == s[i - 1]);
                }
            }
        },
        None => {
            assert forall|i: int, j: int| 0 <= i < j < r.len() implies !lt(#[trigger] r[j], #[trigger] r[i]) by {
                if j < s.len() {
                    assert(r[i] == s[i] && r[j] == s[j]);
                } else {
                    assert(r[j] == x && r[i] == s[i]);
                    assert(!q(s[i]));
                }
            }
        },
    }
}

/// Sorting by a strict order gives a sorted sequence.
pub proof fn lemma_sorted_by_sorted<A>(s: Seq<A>, lt: spec_fn(A, A) -> bool)
    requires
        is_strict_order(lt),
    ensures
        is_sorted_by(sorted_by(s, lt), lt),
    decreases s.len(),
{
    if s.len() > 0 {
        lemma_sorted_by_sorted(s.drop_last(), lt);
        lemma_inserted_by_sorted(sorted_by(s.drop_last(), lt), s.last(), lt);
    }
}

} // verus!
