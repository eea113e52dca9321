//! The order in which the elements of an array are taken when it is compared
//! sorted: by a text computed from each element, equal texts in the order in
//! which they stood.
use vstd::prelude::*;
use crate::order::{
    lemma_le_total_ordering, lemma_le_transitive, lemma_lt_asymmetric, rank, text_le, text_lt,
    Rank,
};
use vstd::relations::sorted_by;
use vstd::seq_lib::{lemma_sorted_unique, to_multiset_build, to_multiset_insert};

verus! {

/// The order with the index `idx` put in: behind every index whose key is
/// not greater, before every index whose key is greater.
pub open spec fn inserted(order: Seq<int>, keys: Seq<Seq<char>>, idx: int) -> Seq<int>
    decreases order.len(),
{
    if order.len() == 0 {
        seq![idx]
    } else if text_lt(keys[idx], keys[order.last()]) {
        inserted(order.drop_last(), keys, idx).push(order.last())
    } else {
        order.push(idx)
    }
}

/// The indices of the first `n` keys, sorted by key; indices of equal keys
/// stay in increasing order.
pub open spec fn sort_order_upto(keys: Seq<Seq<char>>, n: nat) -> Seq<int>
    decreases n,
{
    if n == 0 {
        Seq::empty()
    } else {
        inserted(sort_order_upto(keys, (n - 1) as nat), keys, n - 1)
    }
}

/// The indices of the keys, sorted by key; indices of equal keys stay in
/// increasing order.
pub open spec fn sort_order(keys: Seq<Seq<char>>) -> Seq<int> {
    sort_order_upto(keys, keys.len())
}

/// The indices `0, 1, .., n - 1` in their own order.
pub open spec fn identity_order(n: nat) -> Seq<int> {
    Seq::new(n, |i: int| i)
}

/// Whether every entry of an order is an index below `n`.
pub open spec fn within(order: Seq<int>, n: nat) -> bool {
    forall|i: int| 0 <= i < order.len() ==> 0 <= #[trigger] order[i] < n
}

/// Putting an index in makes the order one longer and keeps it within bounds.
pub proof fn lemma_inserted(order: Seq<int>, keys: Seq<Seq<char>>, idx: int, n: nat)
    requires
        within(order, n),
        0 <= idx < n,
    ensures
        inserted(order, keys, idx).len() == order.len() + 1,
        within(inserted(order, keys, idx), n),
    decreases order.len(),
{
    if order.len() > 0 && text_lt(keys[idx], keys[order.last()]) {
        lemma_inserted(order.drop_last(), keys, idx, n);
        let shorter = inserted(order.drop_last(), keys, idx);
        assert forall|i: int| 0 <= i < shorter.push(order.last()).len() implies 0
            <= #[trigger] shorter.push(order.last())[i] < n by {
            if i < shorter.len() {
                assert(shorter.push(order.last())[i] == shorter[i]);
            }
        }
    }
}

/// The sorted order of `n` keys has `n` entries, each an index below `n`.
pub proof fn lemma_sort_order_upto(keys: Seq<Seq<char>>, n: nat)
    ensures
        sort_order_upto(keys, n).len() == n,
        within(sort_order_upto(keys, n), n),
    decreases n,
{
    if n > 0 {
        lemma_sort_order_upto(keys, (n - 1) as nat);
        let before = sort_order_upto(keys, (n - 1) as nat);
        assert(within(before, n));
        lemma_inserted(before, keys, n - 1, n);
    }
}

/// The texts of a list of keys.
pub open spec fn keys_view(keys: Seq<Vec<char>>) -> Seq<Seq<char>> {
    Seq::new(keys.len(), |i: int| keys[i]@)
}

/// The entries of an order, as integers.
pub open spec fn order_view(order: Seq<usize>) -> Seq<int> {
    Seq::new(order.len(), |i: int| order[i] as int)
}

/// Sorts the indices of the keys by key, keeping the indices of equal keys
/// in increasing order.
pub fn sort_indices(keys: &Vec<Vec<char>>) -> (order: Vec<usize>)
    ensures
        order_view(order@) == sort_order(keys_view(keys@)),
        order@.len() == keys@.len(),
        forall|i: int| 0 <= i < order@.len() ==> #[trigger] order@[i] < keys@.len(),
{
    let ghost texts = keys_view(keys@);
    let mut order: Vec<usize> = Vec::new();
    let mut n: usize = 0;
    proof {
        assert(order_view(order@) =~= sort_order_upto(texts, 0));
    }
    while n < keys.len()
        invariant
            n <= keys.len(),
            texts == keys_view(keys@),
            order@.len() == n,
            order_view(order@) == sort_order_upto(texts, n as nat),
            forall|i: int| 0 <= i < order@.len() ==> #[trigger] order@[i] < n,
        decreases keys.len() - n,
    {
        // find the place of `n`: behind the last index whose key is not greater
        let ghost before = order_view(order@);
        let mut at: usize = order.len();
        proof {
            assert(before.take(before.len() as int) == before);
            assert(before.skip(before.len() as int) == Seq::<int>::empty());
            assert(inserted(before, texts, n as int) + Seq::<int>::empty() == inserted(
                before,
                texts,
                n as int,
            ));
        }
        while at > 0 && is_before(&keys[n], &keys[order[at - 1]])
            invariant
                n < keys.len(),
                texts == keys_view(keys@),
                order@.len() == n,
                before == order_view(order@),
                at <= order@.len(),
                forall|i: int| 0 <= i < order@.len() ==> #[trigger] order@[i] < n,
                inserted(before, texts, n as int) == inserted(
                    before.take(at as int),
                    texts,
                    n as int,
                ) + before.skip(at as int),
            decreases at,
        {
            proof {
                let head = before.take(at as int);
                assert(head.last() == before[at - 1]);
                assert(head.drop_last() == before.take(at - 1));
                assert(texts[n as int] == keys@[n as int]@);
                assert(texts[before[at - 1]] == keys@[order@[at - 1] as int]@);
                assert(inserted(head, texts, n as int) == inserted(
                    before.take(at - 1),
                    texts,
                    n as int,
                ).push(before[at - 1]));
                assert(before.skip(at - 1) == seq![before[at - 1]] + before.skip(at as int));
                assert(inserted(before.take(at - 1), texts, n as int).push(before[at - 1])
                    + before.skip(at as int) == inserted(before.take(at - 1), texts, n as int)
                    + before.skip(at - 1));
            }
            at = at - 1;
        }
        proof {
            let head = before.take(at as int);
            if at > 0 {
                assert(head.last() == before[at - 1]);
                assert(texts[n as int] == keys@[n as int]@);
                assert(texts[before[at - 1]] == keys@[order@[at - 1] as int]@);
            }
            assert(inserted(head, texts, n as int) == head.push(n as int));
        }
        order.insert(at, n);
        proof {
            assert(order_view(order@) =~= before.take(at as int).push(n as int) + before.skip(
                at as int,
            ));
            assert forall|i: int| 0 <= i < order@.len() implies #[trigger] order@[i] < n + 1 by {
                if i < at {
                } else if i > at {
                    assert(order@[i] == before[i - 1]);
                }
            }
        }
        n = n + 1;
    }
    order
}

/// Whether the first text comes strictly before the second.
pub fn is_before(a: &Vec<char>, b: &Vec<char>) -> (r: bool)
    ensures
        r == text_lt(a@, b@),
{
    match rank(a, b) {
        Rank::Before => true,
        _ => false,
    }
}

/// The indices `0, 1, .., n - 1`.
pub fn identity_indices(n: usize) -> (order: Vec<usize>)
    ensures
        order_view(order@) == identity_order(n as nat),
        order@.len() == n,
        forall|i: int| 0 <= i < order@.len() ==> #[trigger] order@[i] < n,
{
    let mut order: Vec<usize> = Vec::new();
    let mut i: usize = 0;
    while i < n
        invariant
            i <= n,
            order@.len() == i,
            forall|j: int| 0 <= j < i ==> #[trigger] order@[j] == j,
        decreases n - i,
    {
        order.push(i);
        i = i + 1;
    }
    proof {
        assert(order_view(order@) =~= identity_order(n as nat));
    }
    order
}

/// The keys in the order of the indices.
pub open spec fn arranged_keys(keys: Seq<Seq<char>>, order: Seq<int>) -> Seq<Seq<char>> {
    Seq::new(order.len(), |i: int| keys[order[i]])
}

/// Where an index is put into an order: behind the last index whose key is
/// not greater.
pub open spec fn place_of(order: Seq<int>, keys: Seq<Seq<char>>, idx: int) -> int
    decreases order.len(),
{
    if order.len() > 0 && text_lt(keys[idx], keys[order.last()]) {
        place_of(order.drop_last(), keys, idx)
    } else {
        order.len() as int
    }
}

/// Putting an index in is inserting it at its place.
pub proof fn lemma_inserted_at_place(order: Seq<int>, keys: Seq<Seq<char>>, idx: int)
    ensures
        0 <= place_of(order, keys, idx) <= order.len(),
        inserted(order, keys, idx) == order.insert(place_of(order, keys, idx), idx),
        forall|i: int|
            place_of(order, keys, idx) <= i < order.len() ==> text_lt(
                keys[idx],
                keys[#[trigger] order[i]],
            ),
        place_of(order, keys, idx) > 0 ==> text_le(
            keys[order[place_of(order, keys, idx) - 1]],
            keys[idx],
        ),
    decreases order.len(),
{
    if order.len() > 0 && text_lt(keys[idx], keys[order.last()]) {
        let front = order.drop_last();
        lemma_inserted_at_place(front, keys, idx);
        let at = place_of(front, keys, idx);
        assert(front.insert(at, idx).push(order.last()) =~= order.insert(at, idx));
        assert forall|i: int| at <= i < order.len() implies text_lt(
            keys[idx],
            keys[#[trigger] order[i]],
        ) by {
            if i < front.len() {
                assert(order[i] == front[i]);
            }
        }
        if at > 0 {
            assert(order[at - 1] == front[at - 1]);
        }
    } else {
        assert(order.push(idx) =~= order.insert(order.len() as int, idx));
    }
}

/// An order that was sorted stays sorted when an index is put in, and its
/// keys are the keys that it had and the key of the new index.
pub proof fn lemma_inserted_sorted(order: Seq<int>, keys: Seq<Seq<char>>, idx: int)
    requires
        sorted_by(arranged_keys(keys, order), |a: Seq<char>, b: Seq<char>| text_le(a, b)),
    ensures
        sorted_by(
            arranged_keys(keys, inserted(order, keys, idx)),
            |a: Seq<char>, b: Seq<char>| text_le(a, b),
        ),
        arranged_keys(keys, inserted(order, keys, idx)).to_multiset() == arranged_keys(
            keys,
            order,
        ).to_multiset().insert(keys[idx]),
{
    let le = |a: Seq<char>, b: Seq<char>| text_le(a, b);
    lemma_inserted_at_place(order, keys, idx);
    let at = place_of(order, keys, idx);
    let before = arranged_keys(keys, order);
    let after = arranged_keys(keys, inserted(order, keys, idx));
    assert(after =~= before.insert(at, keys[idx]));
    to_multiset_insert(before, at, keys[idx]);
    assert forall|i: int, j: int| 0 <= i < j < after.len() implies #[trigger] le(
        after[i],
        after[j],
    ) by {
        if j < at {
            assert(le(before[i], before[j]));
        } else if j == at {
            // what stands before the place is not greater than the new key
            assert(after[i] == before[i]);
            if i < at - 1 {
                assert(le(before[i], before[at - 1]));
                assert(before[at - 1] == keys[order[at - 1]]);
                lemma_le_transitive(before[i], before[at - 1], keys[idx]);
            } else {
                assert(before[i] == keys[order[at - 1]]);
            }
        } else if i == at {
            assert(after[j] == before[j - 1]);
            assert(before[j - 1] == keys[order[j - 1]]);
            assert(text_lt(keys[idx], keys[order[j - 1]]));
            lemma_lt_asymmetric(keys[idx], keys[order[j - 1]]);
        } else if i < at {
            assert(after[j] == before[j - 1]);
            assert(le(before[i], before[j - 1]));
        } else {
            assert(after[i] == before[i - 1]);
            assert(after[j] == before[j - 1]);
            assert(le(before[i - 1], before[j - 1]));
        }
    }
}

/// The sorted order of the first `n` keys puts them in order, and holds
/// each of them once.
pub proof fn lemma_sort_order_sorted(keys: Seq<Seq<char>>, n: nat)
    requires
        n <= keys.len(),
    ensures
        sorted_by(
            arranged_keys(keys, sort_order_upto(keys, n)),
            |a: Seq<char>, b: Seq<char>| text_le(a, b),
        ),
        arranged_keys(keys, sort_order_upto(keys, n)).to_multiset() == keys.take(
            n as int,
        ).to_multiset(),
    decreases n,
{
    if n == 0 {
        assert(arranged_keys(keys, sort_order_upto(keys, 0)) =~= keys.take(0));
    } else {
        let before = sort_order_upto(keys, (n - 1) as nat);
        lemma_sort_order_sorted(keys, (n - 1) as nat);
        lemma_inserted_sorted(before, keys, n - 1);
        assert(keys.take(n as int) =~= keys.take(n - 1).push(keys[n - 1]));
        to_multiset_build(keys.take(n - 1), keys[n - 1]);
    }
}

/// Two lists that hold the same keys, in whatever order, hold them in the
/// same order once they are sorted.
pub proof fn lemma_sorted_keys_agree(a: Seq<Seq<char>>, b: Seq<Seq<char>>)
    requires
        a.to_multiset() == b.to_multiset(),
    ensures
        a.len() == b.len(),
        arranged_keys(a, sort_order(a)) == arranged_keys(b, sort_order(b)),
{
    broadcast use vstd::seq_lib::to_multiset_len;

    assert(a.len() == a.to_multiset().len());
    assert(b.len() == b.to_multiset().len());
    lemma_sort_order_sorted(a, a.len());
    lemma_sort_order_sorted(b, b.len());
    assert(a.take(a.len() as int) =~= a);
    assert(b.take(b.len() as int) =~= b);
    lemma_le_total_ordering();
    lemma_sorted_unique(
        arranged_keys(a, sort_order(a)),
        arranged_keys(b, sort_order(b)),
        |x: Seq<char>, y: Seq<char>| text_le(x, y),
    );
}

} // verus!
