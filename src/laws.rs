use vstd::prelude::*;
use vstd::relations::sorted_by;
use vstd::seq_lib::lemma_sorted_unique;
use std::cmp::Ordering;
use crate::bdeque::window_push;
use crate::distance::{default_cmp, flat_cmp, intersection_of, merge_count};
use crate::label::{key_cmp, lemma_key_order, ValidGramElement};
use crate::pqgrams::{gram_leq, lemma_gram_le_total, GramKey, NodeKey};
use crate::profile::{
    children_grams, fillers, siblings_after, subtree_grams, tail_grams, tail_len, tree_grams,
    LabelledTree, TreeShape,
};

verus! {

/// Every gram of `s` has `p` ancestors and `q` siblings.
pub open spec fn grams_fit(s: Seq<GramKey>, p: nat, q: nat) -> bool {
    forall|i: int| 0 <= i < s.len() ==> (#[trigger] s[i]).0.len() == p && s[i].1.len() == q
}

proof fn lemma_fit_concat(a: Seq<GramKey>, b: Seq<GramKey>, p: nat, q: nat)
    requires
        grams_fit(a, p, q),
        grams_fit(b, p, q),
    ensures
        grams_fit(a + b, p, q),
{
    assert forall|i: int| 0 <= i < (a + b).len() implies (#[trigger] (a + b)[i]).0.len() == p
        && (a + b)[i].1.len() == q by {
        if i >= a.len() {
            assert((a + b)[i] == b[i - a.len()]);
        }
    }
}

proof fn lemma_window_len<T>(s: Seq<T>, x: T, m: nat)
    requires
        s.len() == m,
    ensures
        window_push(s, x, m).len() == m,
{
}

proof fn lemma_siblings_after_len(cs: Seq<TreeShape>, k: nat, q: nat)
    ensures
        siblings_after(cs, k, q).len() == q,
    decreases k,
{
    if k > 0 {
        lemma_siblings_after_len(cs, (k - 1) as nat, q);
        lemma_window_len(siblings_after(cs, (k - 1) as nat, q), cs[k - 1].label, q);
    }
}

proof fn lemma_tail_fit(a: Seq<NodeKey>, sib: Seq<NodeKey>, p: nat, q: nat, n: nat)
    requires
        a.len() == p,
        sib.len() == q,
    ensures
        grams_fit(tail_grams(a, sib, q, n), p, q),
        tail_grams(a, sib, q, n).len() == n,
    decreases n,
{
    if n > 0 {
        let s = window_push(sib, None, q);
        lemma_window_len(sib, None, q);
        lemma_tail_fit(a, s, p, q, (n - 1) as nat);
        lemma_fit_concat(seq![(a, s)], tail_grams(a, s, q, (n - 1) as nat), p, q);
    }
}

proof fn lemma_subtree_fit(t: TreeShape, anc: Seq<NodeKey>, p: nat, q: nat)
    requires
        anc.len() == p,
    ensures
        grams_fit(subtree_grams(t, anc, p, q), p, q),
    decreases t, t.children.len() + 1,
{
    let a = window_push(anc, t.label, p);
    lemma_window_len(anc, t.label, p);
    if t.children.len() == 0 {
        assert(fillers(q).len() == q);
    } else {
        let n = t.children.len();
        lemma_children_fit(t, a, p, q, n);
        lemma_siblings_after_len(t.children, n, q);
        lemma_tail_fit(a, siblings_after(t.children, n, q), p, q, tail_len(q));
        lemma_fit_concat(
            children_grams(t, a, p, q, n),
            tail_grams(a, siblings_after(t.children, n, q), q, tail_len(q)),
            p,
            q,
        );
    }
}

proof fn lemma_children_fit(t: TreeShape, a: Seq<NodeKey>, p: nat, q: nat, k: nat)
    requires
        a.len() == p,
    ensures
        grams_fit(children_grams(t, a, p, q, k), p, q),
    decreases t, k,
{
    if k > 0 && k <= t.children.len() {
        lemma_children_fit(t, a, p, q, (k - 1) as nat);
        lemma_siblings_after_len(t.children, k, q);
        lemma_subtree_fit(t.children[k - 1], a, p, q);
        let g = seq![(a, siblings_after(t.children, k, q))];
        lemma_fit_concat(children_grams(t, a, p, q, (k - 1) as nat), g, p, q);
        lemma_fit_concat(
            children_grams(t, a, p, q, (k - 1) as nat) + g,
            subtree_grams(t.children[k - 1], a, p, q),
            p,
            q,
        );
    }
}

/// Every gram of a tree's profile has exactly `p` ancestors and `q` siblings,
/// padded with fillers where the tree has fewer.
pub proof fn lemma_profile_gram_lengths(t: TreeShape, p: nat, q: nat)
    ensures
        grams_fit(tree_grams(t, p, q), p, q),
{
    lemma_subtree_fit(t, fillers(p), p, q);
}

/// The number of grams in a tree's profile by count: one for a leaf, and for a
/// node with `k` children `k + q - 1`, summed over all nodes.
pub open spec fn gram_count(t: TreeShape, q: nat) -> nat
    decreases t, t.children.len() + 1,
{
    if t.children.len() == 0 {
        1
    } else {
        t.children.len() + tail_len(q) + children_count(t, q, t.children.len())
    }
}

/// The grams counted for the subtrees of the first `k` children.
pub open spec fn children_count(t: TreeShape, q: nat, k: nat) -> nat
    decreases t, k,
{
    if k == 0 || k > t.children.len() {
        0
    } else {
        children_count(t, q, (k - 1) as nat) + gram_count(t.children[k - 1], q)
    }
}

proof fn lemma_subtree_size(t: TreeShape, anc: Seq<NodeKey>, p: nat, q: nat)
    ensures
        subtree_grams(t, anc, p, q).len() == gram_count(t, q),
    decreases t, t.children.len() + 1,
{
    let a = window_push(anc, t.label, p);
    if t.children.len() > 0 {
        let n = t.children.len();
        lemma_children_size(t, a, p, q, n);
        lemma_siblings_after_len(t.children, n, q);
        lemma_tail_size(a, siblings_after(t.children, n, q), q, tail_len(q));
    }
}

proof fn lemma_tail_size(a: Seq<NodeKey>, sib: Seq<NodeKey>, q: nat, n: nat)
    ensures
        tail_grams(a, sib, q, n).len() == n,
    decreases n,
{
    if n > 0 {
        lemma_tail_size(a, window_push(sib, None, q), q, (n - 1) as nat);
    }
}

proof fn lemma_children_size(t: TreeShape, a: Seq<NodeKey>, p: nat, q: nat, k: nat)
    requires
        k <= t.children.len(),
    ensures
        children_grams(t, a, p, q, k).len() == k + children_count(t, q, k),
    decreases t, k,
{
    if k > 0 {
        lemma_children_size(t, a, p, q, (k - 1) as nat);
        lemma_subtree_size(t.children[k - 1], a, p, q);
    }
}

/// A tree's profile holds, for each node with `k >= 1` children, `k + q - 1`
/// grams, and for each leaf one.
pub proof fn lemma_profile_size(t: TreeShape, p: nat, q: nat)
    requires
        q >= 1,
    ensures
        tree_grams(t, p, q).len() == gram_count(t, q),
{
    lemma_subtree_size(t, fillers(p), p, q);
}

/// A tree of one node has a single gram: fillers but for the node's own label,
/// last among the ancestors.
pub proof fn lemma_single_node_profile(t: TreeShape, p: nat, q: nat)
    requires
        t.children.len() == 0,
        p >= 1,
    ensures
        tree_grams(t, p, q) == seq![(fillers((p - 1) as nat).push(t.label), fillers(q))],
{
    assert(fillers(p).drop_first() =~= fillers((p - 1) as nat));
}

/// Two trees of the same shape, of whatever types, get the same profile, sorted
/// or not.
pub proof fn lemma_profile_deterministic<L: ValidGramElement, T: LabelledTree<L>, U: LabelledTree<L>>(
    a: T,
    b: U,
    p: nat,
    q: nat,
)
    requires
        a.shape() == b.shape(),
    ensures
        tree_grams(a.shape(), p, q) == tree_grams(b.shape(), p, q),
        tree_grams(a.shape(), p, q).sort_by(gram_leq()) == tree_grams(b.shape(), p, q).sort_by(
            gram_leq(),
        ),
{
}

proof fn lemma_flat_cmp_refl(a: Seq<Seq<int>>)
    ensures
        flat_cmp(a, a) == Ordering::Equal,
    decreases a.len(),
{
    lemma_key_order();
    if a.len() > 0 {
        let k = |x: Seq<int>, y: Seq<int>| key_cmp(x, y);
        assert(k(a[0], a[0]) == Ordering::Equal <==> a[0] == a[0]);
        lemma_flat_cmp_refl(a.drop_first());
    }
}

proof fn lemma_merge_self(s: Seq<GramKey>, f: Seq<int>, i: nat)
    requires
        i <= s.len(),
    ensures
        merge_count(s, s, f, i, i) == s.len() - i,
    decreases s.len() - i,
{
    if i < s.len() {
        let g = s[i as int];
        lemma_flat_cmp_refl(crate::pqgrams::flat_keys(g, f));
        assert(default_cmp(g, g, f) == Ordering::Equal);
        lemma_merge_self(s, f, i + 1);
    }
}

/// A profile compared with itself matches in every gram, whatever the filler:
/// its intersection is its size, so its distance `1 - 2 * intersection / union`
/// to itself is 0.
pub proof fn lemma_distance_to_self(s: Seq<GramKey>, filler: Seq<int>)
    ensures
        intersection_of(s, s, filler) == s.len(),
        2 * intersection_of(s, s, filler) == s.len() + s.len(),
{
    lemma_merge_self(s, filler, 0);
}

/// Sorting the unsorted profiles by the gram order, in any way, gives the
/// profiles built sorted, and so the same distance.
pub proof fn lemma_sort_invariance(
    t1: TreeShape,
    t2: TreeShape,
    p: nat,
    q: nat,
    x1: Seq<GramKey>,
    x2: Seq<GramKey>,
    filler: Seq<int>,
)
    requires
        sorted_by(x1, gram_leq()),
        sorted_by(x2, gram_leq()),
        x1.to_multiset() == tree_grams(t1, p, q).to_multiset(),
        x2.to_multiset() == tree_grams(t2, p, q).to_multiset(),
    ensures
        x1.len() + x2.len() == tree_grams(t1, p, q).sort_by(gram_leq()).len() + tree_grams(
            t2,
            p,
            q,
        ).sort_by(gram_leq()).len(),
        intersection_of(x1, x2, filler) == intersection_of(
            tree_grams(t1, p, q).sort_by(gram_leq()),
            tree_grams(t2, p, q).sort_by(gram_leq()),
            filler,
        ),
{
    lemma_gram_le_total();
    let le = gram_leq();
    tree_grams(t1, p, q).lemma_sort_by_ensures(le);
    tree_grams(t2, p, q).lemma_sort_by_ensures(le);
    lemma_sorted_unique(x1, tree_grams(t1, p, q).sort_by(le), le);
    lemma_sorted_unique(x2, tree_grams(t2, p, q).sort_by(le), le);
}

} // verus!
