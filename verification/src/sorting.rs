//! Stable sorting by a key of a rank and a text: lower ranks first, within a
//! rank by the order of the texts, and equal keys in the order in which they
//! came.

use vstd::prelude::*;
use vstd::seq_lib::seq_to_set_is_finite;
use vstd::set_lib::lemma_int_range;
use vstd::set_lib::lemma_subset_equality;
use vstd::set_lib::set_int_range;
use crate::text::lemma_lex_lt_transitive;
use crate::text::lemma_lex_trichotomy;
use crate::text::lex_lt;
use crate::text::str_lt;

verus! {

/// What an item is sorted by.
#[derive(Debug)]
pub struct SortKey {
    pub rank: u8,
    pub text: String,
}

/// The mathematical content of a [`SortKey`].
pub struct SortKeyView {
    pub rank: u8,
    pub text: Seq<char>,
}

impl DeepView for SortKey {
    type V = SortKeyView;

    open spec fn deep_view(&self) -> SortKeyView {
        SortKeyView { rank: self.rank, text: self.text@ }
    }
}

/// Key `a` sorts strictly before key `b`.
pub open spec fn key_lt(a: SortKeyView, b: SortKeyView) -> bool {
    a.rank < b.rank || (a.rank == b.rank && lex_lt(a.text, b.text))
}

/// The item at position `p` belongs before the item at position `q`: its key
/// sorts first, or the keys are equal and it came first.
pub open spec fn goes_before(keys: Seq<SortKeyView>, p: int, q: int) -> bool {
    key_lt(keys[p], keys[q]) || (keys[p] == keys[q] && p < q)
}

/// `order` lists positions of `keys`, each belonging before the next.
pub open spec fn is_ascending(keys: Seq<SortKeyView>, order: Seq<usize>) -> bool {
    &&& forall|i: int| 0 <= i < order.len() ==> (#[trigger] order[i]) < keys.len()
    &&& forall|i: int, j: int|
        0 <= i < j < order.len() ==> goes_before(keys, #[trigger] order[i] as int, #[trigger] order[j] as int)
}

/// `order` is the stable sorted order of `keys`: it lists every position
/// once, each belonging before the next.
pub open spec fn is_stable_order(keys: Seq<SortKeyView>, order: Seq<usize>) -> bool {
    order.len() == keys.len() && is_ascending(keys, order)
}

/// The items of `input` in the given order.
pub open spec fn arranged<T>(input: Seq<T>, order: Seq<usize>) -> Seq<T> {
    Seq::new(order.len(), |i: int| input[order[i] as int])
}

/// `goes_before` is a strict total order on the positions of `keys`.
pub proof fn lemma_goes_before_total(keys: Seq<SortKeyView>, p: int, q: int)
    ensures
        !goes_before(keys, p, p),
        goes_before(keys, p, q) || p == q || goes_before(keys, q, p),
        !(goes_before(keys, p, q) && goes_before(keys, q, p)),
{
    lemma_lex_trichotomy(keys[p].text, keys[q].text);
    lemma_lex_trichotomy(keys[p].text, keys[p].text);
}

/// `goes_before` is transitive.
pub proof fn lemma_goes_before_transitive(keys: Seq<SortKeyView>, p: int, q: int, r: int)
    requires
        goes_before(keys, p, q),
        goes_before(keys, q, r),
    ensures
        goes_before(keys, p, r),
{
    let a = keys[p];
    let b = keys[q];
    let c = keys[r];
    if a.rank == b.rank && b.rank == c.rank {
        if lex_lt(a.text, b.text) && lex_lt(b.text, c.text) {
            lemma_lex_lt_transitive(a.text, b.text, c.text);
        }
    }
}

/// In a stable order no position occurs twice.
pub proof fn lemma_order_distinct(keys: Seq<SortKeyView>, order: Seq<usize>, i: int, j: int)
    requires
        is_ascending(keys, order),
        0 <= i < order.len(),
        0 <= j < order.len(),
        i != j,
    ensures
        order[i] != order[j],
{
    lemma_goes_before_total(keys, order[i] as int, order[j] as int);
    if i < j {
        assert(goes_before(keys, order[i] as int, order[j] as int));
    } else {
        assert(goes_before(keys, order[j] as int, order[i] as int));
    }
}

/// A stable order lists every position.
pub proof fn lemma_order_complete(keys: Seq<SortKeyView>, order: Seq<usize>, position: int)
    requires
        is_stable_order(keys, order),
        0 <= position < keys.len(),
    ensures
        exists|i: int| 0 <= i < order.len() && order[i] == position,
{
    let listed = Seq::new(order.len(), |i: int| order[i] as int);
    let all = set_int_range(0, keys.len() as int);
    assert forall|i: int, j: int|
        0 <= i < listed.len() && 0 <= j < listed.len() && i != j implies listed[i] != listed[j] by {
        lemma_order_distinct(keys, order, i, j);
    }
    listed.unique_seq_to_set();
    seq_to_set_is_finite(listed);
    lemma_int_range(0, keys.len() as int);
    assert forall|p: int| listed.to_set().contains(p) implies all.contains(p) by {
        let i = choose|i: int| 0 <= i < listed.len() && listed[i] == p;
        assert(order[i] < keys.len());
    }
    lemma_subset_equality(listed.to_set(), all);
    assert(all.contains(position));
    assert(listed.contains(position));
    let i = choose|i: int| 0 <= i < listed.len() && listed[i] == position;
    assert(order[i] == position);
}

/// Two stable orders of the same keys list the same position at every place.
proof fn lemma_orders_agree_at(
    keys: Seq<SortKeyView>,
    first: Seq<usize>,
    second: Seq<usize>,
    at: int,
)
    requires
        is_stable_order(keys, first),
        is_stable_order(keys, second),
        0 <= at < keys.len(),
    ensures
        first[at] == second[at],
    decreases at,
{
    assert forall|k: int| 0 <= k < at implies first[k] == second[k] by {
        lemma_orders_agree_at(keys, first, second, k);
    }
    let x = first[at] as int;
    let y = second[at] as int;
    if x != y {
        lemma_goes_before_total(keys, x, y);
        if goes_before(keys, x, y) {
            lemma_order_complete(keys, second, x);
            let k = choose|k: int| 0 <= k < second.len() && second[k] == x;
            if k < at {
                lemma_order_distinct(keys, first, k, at);
            } else if k > at {
                assert(goes_before(keys, second[at] as int, second[k] as int));
            }
        } else {
            lemma_order_complete(keys, first, y);
            let k = choose|k: int| 0 <= k < first.len() && first[k] == y;
            if k < at {
                lemma_order_distinct(keys, second, k, at);
            } else if k > at {
                assert(goes_before(keys, first[at] as int, first[k] as int));
            }
        }
    }
}

/// Keys have one stable order and no other.
pub proof fn lemma_stable_order_unique(
    keys: Seq<SortKeyView>,
    first: Seq<usize>,
    second: Seq<usize>,
)
    requires
        is_stable_order(keys, first),
        is_stable_order(keys, second),
    ensures
        first == second,
{
    assert forall|i: int| 0 <= i < first.len() implies first[i] == second[i] by {
        lemma_orders_agree_at(keys, first, second, i);
    }
}

/// Whether key `a` sorts strictly before key `b`.
pub fn key_before(a: &SortKey, b: &SortKey) -> (r: bool)
    ensures
        r == key_lt(a.deep_view(), b.deep_view()),
{
    if a.rank != b.rank {
        a.rank < b.rank
    } else {
        str_lt(a.text.as_str(), b.text.as_str())
    }
}

/// The stable sorted order of `keys`, as the list of their positions.
pub fn stable_order(keys: &Vec<SortKey>) -> (order: Vec<usize>)
    ensures
        is_stable_order(keys.deep_view(), order@),
{
    let ghost kv = keys.deep_view();
    let mut order: Vec<usize> = Vec::new();
    let mut k: usize = 0;
    while k < keys.len()
        invariant
            k <= keys.len(),
            kv == keys.deep_view(),
            order.len() == k,
            is_ascending(kv, order@),
            forall|i: int| 0 <= i < order.len() ==> (#[trigger] order[i]) < k,
        decreases keys.len() - k,
    {
        let mut p: usize = order.len();
        while p > 0 && key_before(&keys[k], &keys[order[p - 1]])
            invariant
                p <= order.len(),
                k < keys.len(),
                kv == keys.deep_view(),
                is_ascending(kv, order@),
                forall|i: int| 0 <= i < order.len() ==> (#[trigger] order[i]) < k,
                forall|i: int|
                    p <= i < order.len() ==> key_lt(kv[k as int], kv[(#[trigger] order[i]) as int]),
            decreases p,
        {
            p -= 1;
        }
        let ghost before = order@;
        order.insert(p, k);
        proof {
            assert forall|i: int, j: int| 0 <= i < j < order.len() implies goes_before(
                kv,
                #[trigger] order[i] as int,
                #[trigger] order[j] as int,
            ) by {
                if j == p {
                    // order[i] lies before the insertion point
                    let last = before[p - 1] as int;
                    assert(!key_lt(kv[k as int], kv[last]));
                    lemma_lex_trichotomy(kv[k as int].text, kv[last].text);
                    assert(goes_before(kv, last, k as int));
                    if i < p - 1 {
                        assert(goes_before(kv, before[i] as int, before[p - 1] as int));
                        lemma_goes_before_transitive(kv, before[i] as int, last, k as int);
                    }
                } else if i == p {
                    assert(order[j] == before[j - 1]);
                } else {
                    let bi = if i < p { i } else { i - 1 };
                    let bj = if j < p { j } else { j - 1 };
                    assert(order[i] == before[bi]);
                    assert(order[j] == before[bj]);
                    assert(goes_before(kv, before[bi] as int, before[bj] as int));
                }
            }
            assert forall|i: int| 0 <= i < order.len() implies (#[trigger] order[i]) < k + 1 by {
                if i < p {
                    assert(order[i] == before[i]);
                } else if i > p {
                    assert(order[i] == before[i - 1]);
                }
            }
        }
        k += 1;
    }
    order
}

} // verus!
