use vstd::prelude::*;
use std::cmp::Ordering;

verus! {

/// A comparison function that behaves as a strict total order: `Equal` exactly on
/// equal values, antisymmetric, and transitive on `Less`.
pub open spec fn is_order<T>(c: spec_fn(T, T) -> Ordering) -> bool {
    &&& forall|a: T, b: T| (#[trigger] c(a, b) == Ordering::Equal) <==> a == b
    &&& forall|a: T, b: T| (#[trigger] c(a, b) == Ordering::Less) <==> c(b, a) == Ordering::Greater
    &&& forall|a: T, b: T, d: T|
        #[trigger] c(a, b) == Ordering::Less && #[trigger] c(b, d) == Ordering::Less ==> c(a, d)
            == Ordering::Less
}

/// The order of integers.
pub open spec fn int_cmp(a: int, b: int) -> Ordering {
    if a < b {
        Ordering::Less
    } else if a == b {
        Ordering::Equal
    } else {
        Ordering::Greater
    }
}

/// Lexicographic order of two sequences, elements compared by `c`; a proper
/// prefix comes first.
pub open spec fn seq_cmp<T>(a: Seq<T>, b: Seq<T>, c: spec_fn(T, T) -> Ordering) -> Ordering
    decreases a.len(),
{
    if a.len() == 0 {
        if b.len() == 0 {
            Ordering::Equal
        } else {
            Ordering::Less
        }
    } else if b.len() == 0 {
        Ordering::Greater
    } else if c(a[0], b[0]) == Ordering::Equal {
        seq_cmp(a.drop_first(), b.drop_first(), c)
    } else {
        c(a[0], b[0])
    }
}

proof fn lemma_seq_cmp_equal<T>(a: Seq<T>, b: Seq<T>, c: spec_fn(T, T) -> Ordering)
    requires
        is_order(c),
    ensures
        (seq_cmp(a, b, c) == Ordering::Equal) <==> a == b,
    decreases a.len(),
{
    if a.len() > 0 && b.len() > 0 {
        lemma_seq_cmp_equal(a.drop_first(), b.drop_first(), c);
        if a.drop_first() == b.drop_first() && a[0] == b[0] {
            assert(a =~= seq![a[0]] + a.drop_first());
            assert(b =~= seq![b[0]] + b.drop_first());
        }
        if a == b {
            assert(a.drop_first() =~= b.drop_first());
        }
    } else if a.len() == 0 && b.len() == 0 {
        assert(a =~= b);
    }
}

proof fn lemma_seq_cmp_flip<T>(a: Seq<T>, b: Seq<T>, c: spec_fn(T, T) -> Ordering)
    requires
        is_order(c),
    ensures
        (seq_cmp(a, b, c) == Ordering::Less) <==> seq_cmp(b, a, c) == Ordering::Greater,
        (seq_cmp(a, b, c) == Ordering::Greater) <==> seq_cmp(b, a, c) == Ordering::Less,
    decreases a.len(),
{
    if a.len() > 0 && b.len() > 0 {
        lemma_seq_cmp_flip(a.drop_first(), b.drop_first(), c);
        assert(c(a[0], b[0]) == Ordering::Equal <==> c(b[0], a[0]) == Ordering::Equal);
        assert(c(b[0], a[0]) == Ordering::Less <==> c(a[0], b[0]) == Ordering::Greater);
    }
}

proof fn lemma_seq_cmp_trans<T>(a: Seq<T>, b: Seq<T>, d: Seq<T>, c: spec_fn(T, T) -> Ordering)
    requires
        is_order(c),
        seq_cmp(a, b, c) == Ordering::Less,
        seq_cmp(b, d, c) == Ordering::Less,
    ensures
        seq_cmp(a, d, c) == Ordering::Less,
    decreases a.len(),
{
    if a.len() > 0 && b.len() > 0 && d.len() > 0 {
        let x = c(a[0], b[0]);
        let y = c(b[0], d[0]);
        if x == Ordering::Equal && y == Ordering::Equal {
            lemma_seq_cmp_trans(a.drop_first(), b.drop_first(), d.drop_first(), c);
        } else if x == Ordering::Equal {
            assert(a[0] == b[0]);
        } else if y == Ordering::Equal {
            assert(b[0] == d[0]);
        } else {
            assert(c(a[0], d[0]) == Ordering::Less);
        }
    }
}

/// Lexicographic order over an order is again an order.
pub proof fn lemma_seq_order<T>(c: spec_fn(T, T) -> Ordering)
    requires
        is_order(c),
    ensures
        is_order(|a: Seq<T>, b: Seq<T>| seq_cmp(a, b, c)),
{
    let s = |a: Seq<T>, b: Seq<T>| seq_cmp(a, b, c);
    assert forall|a: Seq<T>, b: Seq<T>| (#[trigger] s(a, b) == Ordering::Equal) <==> a == b by {
        lemma_seq_cmp_equal(a, b, c);
    }
    assert forall|a: Seq<T>, b: Seq<T>|
        (#[trigger] s(a, b) == Ordering::Less) <==> s(b, a) == Ordering::Greater by {
        lemma_seq_cmp_flip(a, b, c);
    }
    assert forall|a: Seq<T>, b: Seq<T>, d: Seq<T>|
        #[trigger] s(a, b) == Ordering::Less && #[trigger] s(b, d) == Ordering::Less implies s(
            a,
            d,
        ) == Ordering::Less by {
        lemma_seq_cmp_trans(a, b, d, c);
    }
}

/// An order stays an order under a comparison function that agrees with it everywhere.
pub proof fn lemma_order_ext<T>(c: spec_fn(T, T) -> Ordering, d: spec_fn(T, T) -> Ordering)
    requires
        is_order(c),
        forall|a: T, b: T| #[trigger] d(a, b) == c(a, b),
    ensures
        is_order(d),
{
    assert forall|a: T, b: T| (#[trigger] d(a, b) == Ordering::Equal) <==> a == b by {
        assert(c(a, b) == Ordering::Equal <==> a == b);
    }
    assert forall|a: T, b: T|
        (#[trigger] d(a, b) == Ordering::Less) <==> d(b, a) == Ordering::Greater by {
        assert(c(a, b) == Ordering::Less <==> c(b, a) == Ordering::Greater);
    }
    assert forall|a: T, b: T, e: T|
        #[trigger] d(a, b) == Ordering::Less && #[trigger] d(b, e) == Ordering::Less implies d(a, e)
            == Ordering::Less by {
        assert(c(a, b) == Ordering::Less && c(b, e) == Ordering::Less ==> c(a, e) == Ordering::Less);
    }
}

} // verus!
