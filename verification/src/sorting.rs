//! Stable sorting of items by a precomputed key: a flag that puts flagged
//! items first, then text in ascending order.
use vstd::prelude::*;

use crate::seqs::{is_strict_order, lemma_first_index_is, lemma_first_index_none, precedes, sorted_by};
use crate::text::{chars_lt, lemma_seq_lt_irreflexive, lemma_seq_lt_transitive, seq_lt};

verus! {

/// A key `(first, text)` goes before another: flagged keys first, then by text.
pub open spec fn key_before(a: (bool, Seq<char>), b: (bool, Seq<char>)) -> bool {
    ||| (a.0 && !b.0)
    ||| (a.0 == b.0 && seq_lt(a.1, b.1))
}

/// `lt` is the order of the keys that `key` gives.
pub open spec fn ordered_by_key<T>(
    lt: spec_fn(T, T) -> bool,
    key: spec_fn(T) -> (bool, Seq<char>),
) -> bool {
    forall|a: T, b: T| #[trigger] lt(a, b) == key_before(key(a), key(b))
}

/// Sorts `items` stably by `lt`, given each item's key: `flags[i]` and
/// `texts[i]` are the key of `items[i]`.
pub fn sort_by_key<T>(
    items: Vec<T>,
    flags: Vec<bool>,
    texts: Vec<Vec<char>>,
    Ghost(lt): Ghost<spec_fn(T, T) -> bool>,
    Ghost(key): Ghost<spec_fn(T) -> (bool, Seq<char>)>,
) -> (r: Vec<T>)
    requires
        ordered_by_key(lt, key),
        flags@.len() == items@.len(),
        texts@.len() == items@.len(),
        forall|i: int| 0 <= i < items@.len() ==> #[trigger] key(items@[i]) == (flags@[i], texts@[i]@),
    ensures
        r@ == sorted_by(items@, lt),
{
    let ghost s = items@;
    let mut input = items;
    let mut in_flags = flags;
    let mut in_texts = texts;
    let mut out: Vec<T> = Vec::new();
    let mut out_flags: Vec<bool> = Vec::new();
    let mut out_texts: Vec<Vec<char>> = Vec::new();
    let ghost mut i: int = 0;
    assert(input@ =~= s.skip(0));
    assert(s.take(0) =~= Seq::<T>::empty());
    while input.len() > 0
        invariant
            0 <= i <= s.len(),
            ordered_by_key(lt, key),
            input@ == s.skip(i),
            in_flags@.len() == input@.len(),
            in_texts@.len() == input@.len(),
            forall|j: int| 0 <= j < input@.len() ==> #[trigger] key(input@[j]) == (in_flags@[j], in_texts@[j]@),
            out@ == sorted_by(s.take(i), lt),
            out_flags@.len() == out@.len(),
            out_texts@.len() == out@.len(),
            forall|j: int| 0 <= j < out@.len() ==> #[trigger] key(out@[j]) == (out_flags@[j], out_texts@[j]@),
        decreases input.len(),
    {
        let ghost old_input = input@;
        let ghost old_flags = in_flags@;
        let ghost old_texts = in_texts@;
        assert(key(old_input[0]) == (old_flags[0], old_texts[0]@));
        let x = input.remove(0);
        let xf = in_flags.remove(0);
        let xt = in_texts.remove(0);
        proof {
            assert(input@ =~= s.skip(i + 1));
            assert(s.take(i + 1).drop_last() =~= s.take(i));
            assert(s.take(i + 1).last() == x);
            assert forall|j: int| 0 <= j < input@.len() implies #[trigger] key(input@[j]) == (
                in_flags@[j],
                in_texts@[j]@,
            ) by {
                assert(input@[j] == old_input[j + 1]);
                assert(key(old_input[j + 1]) == (old_flags[j + 1], old_texts[j + 1]@));
            }
        }
        let ghost sv = out@;
        let ghost q = precedes(x, lt);
        let mut p: usize = 0;
        let mut stop = false;
        while !stop && p < out.len()
            invariant
                p <= out.len(),
                ordered_by_key(lt, key),
                sv == out@,
                out_flags@.len() == out@.len(),
                out_texts@.len() == out@.len(),
                forall|j: int| 0 <= j < out@.len() ==> #[trigger] key(out@[j]) == (out_flags@[j], out_texts@[j]@),
                key(x) == (xf, xt@),
                q == precedes(x, lt),
                forall|j: int| 0 <= j < p ==> !q(#[trigger] sv[j]),
                stop ==> p < out.len() && q(sv[p as int]),
            decreases out.len() - p + (if stop { 0int } else { 1int }),
        {
            assert(key(out@[p as int]) == (out_flags@[p as int], out_texts@[p as int]@));
            assert(q(sv[p as int]) == lt(x, out@[p as int]));
            let yf = out_flags[p];
            let before = if xf != yf {
                xf
            } else {
                chars_lt(&xt, &out_texts[p])
            };
            if before {
                stop = true;
            } else {
                p = p + 1;
            }
        }
        proof {
            if p < out.len() {
                lemma_first_index_is(sv, q, p as int);
            } else {
                lemma_first_index_none(sv, q);
            }
        }
        let ghost of = out_flags@;
        let ghost ot = out_texts@;
        if p < out.len() {
            out.insert(p, x);
            out_flags.insert(p, xf);
            out_texts.insert(p, xt);
        } else {
            out.push(x);
            out_flags.push(xf);
            out_texts.push(xt);
        }
        proof {
            assert forall|j: int| 0 <= j < out@.len() implies #[trigger] key(out@[j]) == (
                out_flags@[j],
                out_texts@[j]@,
            ) by {
                if j < p {
                    assert(out@[j] == sv[j] && out_flags@[j] == of[j] && out_texts@[j] == ot[j]);
                    assert(key(sv[j]) == (of[j], ot[j]@));
                } else if j > p {
                    assert(out@[j] == sv[j - 1] && out_flags@[j] == of[j - 1] && out_texts@[j]
                        == ot[j - 1]);
                    assert(key(sv[j - 1]) == (of[j - 1], ot[j - 1]@));
                }
            }
            i = i + 1;
        }
    }
    assert(s.take(i) =~= s);
    out
}

/// An order by keys is a strict order.
pub proof fn lemma_key_order_strict<T>(lt: spec_fn(T, T) -> bool, key: spec_fn(T) -> (bool, Seq<char>))
    requires
        ordered_by_key(lt, key),
    ensures
        is_strict_order(lt),
{
    assert forall|a: T| !(#[trigger] lt(a, a)) by {
        lemma_seq_lt_irreflexive(key(a).1);
    }
    assert forall|a: T, b: T, c: T| #[trigger] lt(a, b) && #[trigger] lt(b, c) implies lt(a, c) by {
        if key(a).0 == key(b).0 && key(b).0 == key(c).0 {
            lemma_seq_lt_transitive(key(a).1, key(b).1, key(c).1);
        }
    }
}

} // verus!
