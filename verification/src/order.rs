//! The order of texts: character by character, the shorter first where one
//! is the beginning of the other. This is the order in which `String` sorts.
use vstd::prelude::*;

verus! {

/// `a` and `b` agree on their first `k` characters, and there `a` ends or
/// holds the smaller character.
pub open spec fn precedes_at(a: Seq<char>, b: Seq<char>, k: int) -> bool {
    &&& 0 <= k <= a.len()
    &&& k < b.len()
    &&& a.take(k) == b.take(k)
    &&& (k < a.len() ==> (a[k] as int) < (b[k] as int))
}

/// `a` comes strictly before `b`.
pub open spec fn text_lt(a: Seq<char>, b: Seq<char>) -> bool {
    exists|k: int| precedes_at(a, b, k)
}

/// A sequence of texts in strictly increasing order.
pub open spec fn increasing(keys: Seq<Seq<char>>) -> bool {
    forall|i: int, j: int| 0 <= i < j < keys.len() ==> text_lt(#[trigger] keys[i], #[trigger] keys[j])
}

/// No text comes before itself.
pub proof fn lemma_lt_irreflexive(a: Seq<char>)
    ensures
        !text_lt(a, a),
{
}

/// The order is transitive.
pub proof fn lemma_lt_transitive(a: Seq<char>, b: Seq<char>, c: Seq<char>)
    requires
        text_lt(a, b),
        text_lt(b, c),
    ensures
        text_lt(a, c),
{
    let k1 = choose|k: int| precedes_at(a, b, k);
    let k2 = choose|k: int| precedes_at(b, c, k);
    let k = if k1 <= k2 {
        k1
    } else {
        k2
    };
    assert(a.take(k) == a.take(k1).take(k));
    assert(b.take(k) == b.take(k1).take(k));
    assert(b.take(k) == b.take(k2).take(k));
    assert(c.take(k) == c.take(k2).take(k));
    if k1 < k2 {
        assert(b.take(k2)[k1] == b[k1]);
        assert(c.take(k2)[k1] == c[k1]);
    } else if k2 < k1 {
        assert(a.take(k1)[k2] == a[k2]);
        assert(b.take(k1)[k2] == b[k2]);
    }
    assert(precedes_at(a, c, k));
}

/// Of two texts at most one comes before the other.
pub proof fn lemma_lt_asymmetric(a: Seq<char>, b: Seq<char>)
    requires
        text_lt(a, b),
    ensures
        !text_lt(b, a),
        a != b,
{
    if text_lt(b, a) {
        lemma_lt_transitive(a, b, a);
        lemma_lt_irreflexive(a);
    }
    lemma_lt_irreflexive(a);
}

/// Of two different texts one comes before the other.
pub proof fn lemma_lt_total(a: Seq<char>, b: Seq<char>)
    ensures
        text_lt(a, b) || a == b || text_lt(b, a),
    decreases a.len(),
{
    if a.len() == 0 {
        if b.len() == 0 {
            assert(a =~= b);
        } else {
            assert(a.take(0) =~= b.take(0));
            assert(precedes_at(a, b, 0));
        }
    } else if b.len() == 0 {
        assert(b.take(0) =~= a.take(0));
        assert(precedes_at(b, a, 0));
    } else if (a[0] as int) < (b[0] as int) {
        assert(a.take(0) =~= b.take(0));
        assert(precedes_at(a, b, 0));
    } else if (b[0] as int) < (a[0] as int) {
        assert(b.take(0) =~= a.take(0));
        assert(precedes_at(b, a, 0));
    } else {
        let x = a.skip(1);
        let y = b.skip(1);
        lemma_lt_total(x, y);
        if text_lt(x, y) {
            let k = choose|k: int| precedes_at(x, y, k);
            assert(a.take(k + 1) =~= seq![a[0]] + x.take(k));
            assert(b.take(k + 1) =~= seq![b[0]] + y.take(k));
            assert(b[k + 1] == y[k]);
            if k < x.len() {
                assert(a[k + 1] == x[k]);
            }
            assert(precedes_at(a, b, k + 1));
        } else if text_lt(y, x) {
            let k = choose|k: int| precedes_at(y, x, k);
            assert(a.take(k + 1) =~= seq![a[0]] + x.take(k));
            assert(b.take(k + 1) =~= seq![b[0]] + y.take(k));
            assert(a[k + 1] == x[k]);
            if k < y.len() {
                assert(b[k + 1] == y[k]);
            }
            assert(precedes_at(b, a, k + 1));
        } else {
            assert(a =~= seq![a[0]] + x);
            assert(b =~= seq![b[0]] + y);
        }
    }
}

/// `a` comes before `b` or is the same text.
pub open spec fn text_le(a: Seq<char>, b: Seq<char>) -> bool {
    !text_lt(b, a)
}

/// The order of texts is a total order.
pub proof fn lemma_le_total_ordering()
    ensures
        vstd::relations::total_ordering(|a: Seq<char>, b: Seq<char>| text_le(a, b)),
{
    let le = |a: Seq<char>, b: Seq<char>| text_le(a, b);
    assert forall|x: Seq<char>| #[trigger] le(x, x) by {
        lemma_lt_irreflexive(x);
    }
    assert forall|x: Seq<char>, y: Seq<char>| #[trigger] le(x, y) && #[trigger] le(y, x) implies x
        == y by {
        lemma_lt_total(x, y);
    }
    assert forall|x: Seq<char>, y: Seq<char>, z: Seq<char>| #[trigger]
        le(x, y) && #[trigger] le(y, z) implies le(x, z) by {
        lemma_le_transitive(x, y, z);
    }
    assert forall|x: Seq<char>, y: Seq<char>| #[trigger] le(x, y) || #[trigger] le(y, x) by {
        if text_lt(y, x) {
            lemma_lt_asymmetric(y, x);
        }
    }
}

/// The order that admits equal texts is transitive too.
pub proof fn lemma_le_transitive(x: Seq<char>, y: Seq<char>, z: Seq<char>)
    requires
        text_le(x, y),
        text_le(y, z),
    ensures
        text_le(x, z),
{
    if text_lt(z, x) {
        lemma_lt_total(x, y);
        if text_lt(x, y) {
            lemma_lt_transitive(z, x, y);
        }
    }
}

/// In an increasing sequence no text occurs twice.
pub proof fn lemma_increasing_distinct(keys: Seq<Seq<char>>)
    requires
        increasing(keys),
    ensures
        forall|i: int, j: int|
            0 <= i < keys.len() && 0 <= j < keys.len() && i != j ==> #[trigger] keys[i]
                != #[trigger] keys[j],
{
    assert forall|i: int, j: int|
        0 <= i < keys.len() && 0 <= j < keys.len() && i != j implies #[trigger] keys[i]
        != #[trigger] keys[j] by {
        if i < j {
            lemma_lt_asymmetric(keys[i], keys[j]);
        } else {
            lemma_lt_asymmetric(keys[j], keys[i]);
        }
    }
}

/// A sequence in which each text comes before the next is increasing.
pub proof fn lemma_increasing_from_adjacent(keys: Seq<Seq<char>>)
    requires
        forall|i: int| 0 < i < keys.len() ==> text_lt(keys[i - 1], #[trigger] keys[i]),
    ensures
        increasing(keys),
    decreases keys.len(),
{
    if keys.len() > 1 {
        let front = keys.drop_last();
        assert forall|i: int| 0 < i < front.len() implies text_lt(
            front[i - 1],
            #[trigger] front[i],
        ) by {
            assert(text_lt(keys[i - 1], keys[i]));
        }
        lemma_increasing_from_adjacent(front);
        let last = keys.len() - 1;
        assert forall|i: int, j: int| 0 <= i < j < keys.len() implies text_lt(
            #[trigger] keys[i],
            #[trigger] keys[j],
        ) by {
            if j < last {
                assert(text_lt(front[i], front[j]));
            } else if i < last - 1 {
                assert(text_lt(front[i], front[last - 1]));
                assert(text_lt(keys[last - 1], keys[last]));
                lemma_lt_transitive(keys[i], keys[last - 1], keys[last]);
            } else {
                assert(text_lt(keys[last - 1], keys[last]));
            }
        }
    }
}

/// How one text stands to another in the order.
#[derive(Clone, Copy, Debug, PartialEq, Eq, Structural)]
pub enum Rank {
    /// The first comes before the second.
    Before,
    /// The two are the same text.
    Same,
    /// The first comes after the second.
    After,
}

/// Compares two texts.
pub fn rank(a: &Vec<char>, b: &Vec<char>) -> (r: Rank)
    ensures
        r == Rank::Before <==> text_lt(a@, b@),
        r == Rank::Same <==> a@ == b@,
        r == Rank::After <==> text_lt(b@, a@),
{
    let mut i: usize = 0;
    while i < a.len() && i < b.len()
        invariant
            i <= a.len(),
            i <= b.len(),
            a@.take(i as int) == b@.take(i as int),
        decreases a.len() - i,
    {
        if a[i] < b[i] {
            proof {
                assert(precedes_at(a@, b@, i as int));
                lemma_lt_asymmetric(a@, b@);
            }
            return Rank::Before;
        }
        if a[i] > b[i] {
            proof {
                assert(precedes_at(b@, a@, i as int));
                lemma_lt_asymmetric(b@, a@);
            }
            return Rank::After;
        }
        proof {
            assert(a@.take(i + 1) == a@.take(i as int).push(a@[i as int]));
            assert(b@.take(i + 1) == b@.take(i as int).push(b@[i as int]));
        }
        i = i + 1;
    }
    if i < b.len() {
        proof {
            assert(precedes_at(a@, b@, i as int));
            lemma_lt_asymmetric(a@, b@);
        }
        Rank::Before
    } else if i < a.len() {
        proof {
            assert(precedes_at(b@, a@, i as int));
            lemma_lt_asymmetric(b@, a@);
        }
        Rank::After
    } else {
        proof {
            assert(a@.take(a@.len() as int) == a@);
            assert(b@.take(b@.len() as int) == b@);
            lemma_lt_irreflexive(a@);
        }
        Rank::Same
    }
}

} // verus!
