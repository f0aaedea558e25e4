//! Text order and a stable sort of keyed positions.
use vstd::prelude::*;

use itertools::Itertools;

use crate::text::strings_view;

verus! {

/// Strict order of texts: lexicographic by character code point, a proper
/// prefix first.
pub open spec fn text_lt(a: Seq<char>, b: Seq<char>) -> bool
    decreases a.len(),
{
    if b.len() == 0 {
        false
    } else if a.len() == 0 {
        true
    } else if a[0] != b[0] {
        (a[0] as u32) < (b[0] as u32)
    } else {
        text_lt(a.drop_first(), b.drop_first())
    }
}

/// Strict lexicographic order of lists of texts.
pub open spec fn texts_lt(a: Seq<Seq<char>>, b: Seq<Seq<char>>) -> bool
    decreases a.len(),
{
    if b.len() == 0 {
        false
    } else if a.len() == 0 {
        true
    } else if a[0] != b[0] {
        text_lt(a[0], b[0])
    } else {
        texts_lt(a.drop_first(), b.drop_first())
    }
}

pub open spec fn texts_le(a: Seq<Seq<char>>, b: Seq<Seq<char>>) -> bool {
    texts_lt(a, b) || a == b
}

/// The keys' views.
pub open spec fn keys_view(keys: Seq<Vec<String>>) -> Seq<Seq<Seq<char>>> {
    keys.map_values(|k: Vec<String>| strings_view(k@))
}

/// `p` lists each of the positions `0..n` once.
pub open spec fn is_index_permutation(p: Seq<int>, n: nat) -> bool {
    &&& p.len() == n
    &&& forall|i: int| 0 <= i < n ==> 0 <= #[trigger] p[i] < n
    &&& forall|i: int, j: int| 0 <= i < j < n ==> p[i] != p[j]
}

/// Relies on `itertools::Itertools::sorted_by_key`, which sorts with
/// `slice::sort_by_key` and is stable. The key is the list of strings at each
/// position, ordered by `Vec`'s lexicographic `Ord`, in which `String`s compare
/// by their bytes, that is by code point.
#[verifier::external_body]
pub(crate) fn stable_sorted_positions(keys: &Vec<Vec<String>>) -> (r: Vec<usize>)
    ensures
        r@.len() == keys@.len(),
        forall|i: int| 0 <= i < r@.len() ==> #[trigger] r@[i] < keys@.len(),
        forall|i: int, j: int| 0 <= i < j < r@.len() ==> r@[i] != r@[j],
        forall|i: int, j: int|
            0 <= i < j < r@.len() ==> texts_lt(keys_view(keys@)[r@[i] as int], keys_view(keys@)[r@[j] as int]) || (
            keys_view(keys@)[r@[i] as int] == keys_view(keys@)[r@[j] as int] && r@[i] < r@[j]),
{
    (0..keys.len()).sorted_by_key(|i| keys[*i].clone()).collect()
}

/// The strict text order is irreflexive and asymmetric.
pub proof fn lemma_text_lt_asymmetric(a: Seq<char>, b: Seq<char>)
    ensures
        text_lt(a, b) ==> !text_lt(b, a) && a != b,
    decreases a.len(),
{
    if a.len() > 0 && b.len() > 0 && a[0] == b[0] {
        lemma_text_lt_asymmetric(a.drop_first(), b.drop_first());
        if a == b {
            assert(a.drop_first() == b.drop_first());
        }
    }
}

/// The strict order of lists of texts is irreflexive and asymmetric.
pub proof fn lemma_texts_lt_asymmetric(a: Seq<Seq<char>>, b: Seq<Seq<char>>)
    ensures
        texts_lt(a, b) ==> !texts_lt(b, a) && a != b,
    decreases a.len(),
{
    if a.len() > 0 && b.len() > 0 {
        if a[0] != b[0] {
            lemma_text_lt_asymmetric(a[0], b[0]);
        } else {
            lemma_texts_lt_asymmetric(a.drop_first(), b.drop_first());
            if a == b {
                assert(a.drop_first() == b.drop_first());
            }
        }
    }
}

/// `r` orders the positions of `keys` by key, equal keys in their first order:
/// what a stable sort gives.
pub open spec fn is_stable_order(keys: Seq<Seq<Seq<char>>>, r: Seq<int>) -> bool {
    &&& is_index_permutation(r, keys.len())
    &&& forall|i: int, j: int|
        0 <= i < j < r.len() ==> texts_lt(keys[r[i]], keys[r[j]]) || (keys[r[i]] == keys[r[j]] && r[i] < r[j])
}

/// The keys are already in order.
pub open spec fn keys_sorted(keys: Seq<Seq<Seq<char>>>) -> bool {
    forall|i: int, j: int| 0 <= i < j < keys.len() ==> texts_le(keys[i], keys[j])
}

proof fn lemma_increasing_lower(r: Seq<int>, i: int)
    requires
        0 <= i < r.len(),
        forall|k: int| 0 <= k < r.len() ==> 0 <= #[trigger] r[k],
        forall|k: int, l: int| 0 <= k < l < r.len() ==> r[k] < r[l],
    ensures
        r[i] >= i,
    decreases i,
{
    if i > 0 {
        lemma_increasing_lower(r, i - 1);
    }
}

proof fn lemma_increasing_upper(r: Seq<int>, i: int)
    requires
        0 <= i < r.len(),
        forall|k: int| 0 <= k < r.len() ==> #[trigger] r[k] < r.len(),
        forall|k: int, l: int| 0 <= k < l < r.len() ==> r[k] < r[l],
    ensures
        r[i] <= i,
    decreases r.len() - i,
{
    if i < r.len() - 1 {
        lemma_increasing_upper(r, i + 1);
    }
}

/// Sorting keys that are already in order, stably, leaves every position where
/// it is: a canonical order is its own canonical order.
pub proof fn lemma_stable_order_of_sorted_is_identity(keys: Seq<Seq<Seq<char>>>, r: Seq<int>)
    requires
        is_stable_order(keys, r),
        keys_sorted(keys),
    ensures
        forall|i: int| 0 <= i < r.len() ==> #[trigger] r[i] == i,
{
    assert forall|i: int, j: int| 0 <= i < j < r.len() implies r[i] < r[j] by {
        if r[i] > r[j] {
            assert(texts_le(keys[r[j]], keys[r[i]]));
            lemma_texts_lt_asymmetric(keys[r[i]], keys[r[j]]);
            lemma_texts_lt_asymmetric(keys[r[j]], keys[r[i]]);
        }
    }
    assert forall|i: int| 0 <= i < r.len() implies #[trigger] r[i] == i by {
        lemma_increasing_lower(r, i);
        lemma_increasing_upper(r, i);
    }
}

/// Some position of `p` holds `j`.
pub open spec fn reaches(p: Seq<int>, j: int) -> bool {
    exists|i: int| 0 <= i < p.len() && #[trigger] p[i] == j
}

/// A permutation of the positions `0..n` reaches every position.
pub proof fn lemma_permutation_onto(p: Seq<int>, n: nat)
    requires
        is_index_permutation(p, n),
    ensures
        forall|j: int| 0 <= j < n ==> #[trigger] reaches(p, j),
{
    assert(p.no_duplicates());
    p.unique_seq_to_set();
    vstd::set_lib::lemma_int_range(0, n as int);
    assert(p.to_set().subset_of(vstd::set_lib::set_int_range(0, n as int)));
    vstd::set_lib::lemma_subset_equality(p.to_set(), vstd::set_lib::set_int_range(0, n as int));
    assert forall|j: int| 0 <= j < n implies #[trigger] reaches(p, j) by {
        assert(vstd::set_lib::set_int_range(0, n as int).contains(j));
        assert(p.to_set().contains(j));
    }
}

} // verus!
