use vstd::prelude::*;
use crate::bdeque::{window_push, BDeque};
use crate::label::ValidGramElement;
use vstd::relations::sorted_by;
use vstd::seq_lib::{group_to_multiset_ensures, lemma_multiset_commutative, lemma_sorted_unique};
use std::cmp::Ordering;
use crate::pqgrams::{
    gram_le, gram_leq, lemma_gram_le_total, nodes_view, profile_view, GramKey, Node, NodeKey, PQGram,
};

verus! {

/// The shape of a labelled tree: its label and its children, in order.
pub struct TreeShape {
    pub label: NodeKey,
    pub children: Seq<TreeShape>,
}

/// A tree that grams can be taken of: a label and ordered children.
pub trait LabelledTree<L: ValidGramElement>: Sized {
    /// The tree below this node.
    spec fn shape(&self) -> TreeShape;

    fn label(&self) -> (r: Node<L>)
        ensures
            r@ == self.shape().label,
    ;

    fn children(&self) -> (r: Vec<&Self>)
        ensures
            r@.len() == self.shape().children.len(),
            forall|i: int| 0 <= i < r@.len() ==> (#[trigger] r@[i]).shape() == self.shape().children[i],
    ;
}

/// A window of `n` fillers.
pub open spec fn fillers(n: nat) -> Seq<NodeKey> {
    Seq::new(n, |i: int| None)
}

/// How many filler grams close the sibling list of a node with children.
pub open spec fn tail_len(q: nat) -> nat {
    if q == 0 {
        0
    } else {
        (q - 1) as nat
    }
}

/// The sibling window once the labels of the first `k` children have been pushed.
pub open spec fn siblings_after(cs: Seq<TreeShape>, k: nat, q: nat) -> Seq<NodeKey>
    decreases k,
{
    if k == 0 {
        fillers(q)
    } else {
        window_push(siblings_after(cs, (k - 1) as nat, q), cs[k - 1].label, q)
    }
}

/// The grams closing a sibling list: `n` more fillers pushed onto `sib`, one
/// gram after each.
pub open spec fn tail_grams(a: Seq<NodeKey>, sib: Seq<NodeKey>, q: nat, n: nat) -> Seq<GramKey>
    decreases n,
{
    if n == 0 {
        Seq::empty()
    } else {
        let s = window_push(sib, None, q);
        seq![(a, s)] + tail_grams(a, s, q, (n - 1) as nat)
    }
}

/// The grams of a node whose ancestor window, before its own label, is `anc`.
pub open spec fn subtree_grams(t: TreeShape, anc: Seq<NodeKey>, p: nat, q: nat) -> Seq<GramKey>
    decreases t, t.children.len() + 1,
{
    let a = window_push(anc, t.label, p);
    if t.children.len() == 0 {
        seq![(a, fillers(q))]
    } else {
        children_grams(t, a, p, q, t.children.len())
            + tail_grams(a, siblings_after(t.children, t.children.len(), q), q, tail_len(q))
    }
}

/// The grams of the first `k` children of `t`, whose ancestor window is `a`:
/// for each child, the gram that sees it arrive, then the child's own grams.
pub open spec fn children_grams(t: TreeShape, a: Seq<NodeKey>, p: nat, q: nat, k: nat) -> Seq<
    GramKey,
>
    decreases t, k,
{
    if k == 0 || k > t.children.len() {
        Seq::empty()
    } else {
        children_grams(t, a, p, q, (k - 1) as nat) + seq![(a, siblings_after(t.children, k, q))]
            + subtree_grams(t.children[k - 1], a, p, q)
    }
}

/// The profile of a tree, in traversal order.
pub open spec fn tree_grams(t: TreeShape, p: nat, q: nat) -> Seq<GramKey> {
    subtree_grams(t, fillers(p), p, q)
}

proof fn lemma_window_push_view<L: ValidGramElement>(s: Seq<Node<L>>, x: Node<L>, m: nat)
    ensures
        nodes_view(window_push(s, x, m)) == window_push(nodes_view(s), x@, m),
{
    assert(nodes_view(window_push(s, x, m)) =~= window_push(nodes_view(s), x@, m));
}

/// The current contents of a window of nodes, as a vector.
fn snapshot<L: ValidGramElement>(w: &BDeque<Node<L>>) -> (r: Vec<Node<L>>)
    ensures
        r@ == w@,
{
    let r = w.copy_state();
    assert(r@ =~= w@);
    r
}

/// An independent copy of a window of nodes.
fn copy_window<L: ValidGramElement>(w: &BDeque<Node<L>>) -> (r: BDeque<Node<L>>)
    requires
        w.wf(),
    ensures
        r.wf(),
        r@ == w@,
        r.capacity() == w.capacity(),
{
    let r = w.clone();
    assert(r@ =~= w@);
    r
}

/// The grams of `subtree`: its label joins the ancestor window, then each child
/// is seen through a fresh sibling window and walked with its own copy of the
/// ancestors.
fn _profile_subtree<L: ValidGramElement, T: LabelledTree<L>>(
    subtree: &T,
    p: usize,
    q: usize,
    ancestors: &mut BDeque<Node<L>>,
) -> (r: Vec<PQGram<L>>)
    requires
        old(ancestors).wf(),
        old(ancestors).capacity() == p,
    ensures
        final(ancestors).wf(),
        final(ancestors).capacity() == p,
        nodes_view(final(ancestors)@) == window_push(
            nodes_view(old(ancestors)@),
            subtree.shape().label,
            p as nat,
        ),
        profile_view(r@) == subtree_grams(subtree.shape(), nodes_view(old(ancestors)@), p as nat, q as nat),
    decreases subtree.shape(),
{
    let ghost t = subtree.shape();
    let ghost anc0 = ancestors@;
    let lab = subtree.label();
    proof {
        lemma_window_push_view(anc0, lab, p as nat);
    }
    ancestors.push_back(lab);
    let ghost a = nodes_view(ancestors@);
    let mut siblings = BDeque::<Node<L>>::new(q);
    siblings.fill_with(Node::Filler);
    assert(nodes_view(siblings@) =~= fillers(q as nat));
    let mut pqgrams = Vec::<PQGram<L>>::new();
    let children = subtree.children();
    if children.len() == 0 {
        let g = PQGram::new(snapshot(ancestors), snapshot(&siblings));
        pqgrams.push(g);
        assert(profile_view(pqgrams@) =~= subtree_grams(t, nodes_view(anc0), p as nat, q as nat));
    } else {
        let mut k: usize = 0;
        assert(profile_view(pqgrams@) =~= children_grams(t, a, p as nat, q as nat, 0));
        while k < children.len()
            invariant
                t == subtree.shape(),
                children@.len() == t.children.len(),
                forall|i: int| 0 <= i < children@.len() ==> (#[trigger] children@[i]).shape() == t.children[i],
                ancestors.wf(),
                ancestors.capacity() == p,
                nodes_view(ancestors@) == a,
                siblings.wf(),
                siblings.capacity() == q,
                k <= children@.len(),
                nodes_view(siblings@) == siblings_after(t.children, k as nat, q as nat),
                profile_view(pqgrams@) == children_grams(t, a, p as nat, q as nat, k as nat),
            decreases children@.len() - k,
        {
            let child = children[k];
            let cl = child.label();
            let ghost sib0 = siblings@;
            proof {
                lemma_window_push_view(sib0, cl, q as nat);
            }
            siblings.push_back(cl);
            let g = PQGram::new(snapshot(ancestors), snapshot(&siblings));
            let ghost before = pqgrams@;
            pqgrams.push(g);
            let mut branch = copy_window(ancestors);
            let mut below = _profile_subtree(child, p, q, &mut branch);
            pqgrams.append(&mut below);
            k = k + 1;
            assert(profile_view(pqgrams@) =~= children_grams(t, a, p as nat, q as nat, k as nat));
        }
        let tail: usize = if q > 0 { q - 1 } else { 0 };
        let mut j: usize = 0;
        while j < tail
            invariant
                j <= tail,
                nodes_view(ancestors@) == a,
                siblings.wf(),
                siblings.capacity() == q,
                profile_view(pqgrams@) + tail_grams(a, nodes_view(siblings@), q as nat, (tail - j) as nat)
                    == subtree_grams(t, nodes_view(anc0), p as nat, q as nat),
            decreases tail - j,
        {
            let ghost sib0 = siblings@;
            proof {
                lemma_window_push_view(sib0, Node::<L>::Filler, q as nat);
            }
            siblings.push_back(Node::Filler);
            let g = PQGram::new(snapshot(ancestors), snapshot(&siblings));
            pqgrams.push(g);
            j = j + 1;
        }
    }
    pqgrams
}

proof fn lemma_insert_multiset<A>(s: Seq<A>, k: int, x: A)
    requires
        0 <= k <= s.len(),
    ensures
        s.insert(k, x).to_multiset() == s.to_multiset().insert(x),
{
    broadcast use group_to_multiset_ensures;

    let a = s.subrange(0, k);
    let b = s.subrange(k, s.len() as int);
    assert(s =~= a + b);
    assert(s.insert(k, x) =~= a.push(x) + b);
    lemma_multiset_commutative(a, b);
    lemma_multiset_commutative(a.push(x), b);
    assert(s.insert(k, x).to_multiset() =~= s.to_multiset().insert(x));
}

/// Sorts a profile by the gram order.
fn sort_profile<L: ValidGramElement>(v: Vec<PQGram<L>>) -> (r: Vec<PQGram<L>>)
    ensures
        profile_view(r@) == profile_view(v@).sort_by(gram_leq()),
{
    broadcast use group_to_multiset_ensures;

    proof {
        lemma_gram_le_total();
    }
    let ghost orig = profile_view(v@);
    let ghost le = gram_leq();
    let mut v = v;
    let mut out: Vec<PQGram<L>> = Vec::new();
    while v.len() > 0
        invariant
            le == gram_leq(),
            vstd::relations::total_ordering(le),
            sorted_by(profile_view(out@), le),
            profile_view(out@).to_multiset().add(profile_view(v@).to_multiset()) == orig.to_multiset(),
        decreases v@.len(),
    {
        let ghost v0 = v@;
        let g = v.pop().unwrap();
        assert(profile_view(v0) =~= profile_view(v@).push(g@));
        proof {
            vstd::seq_lib::to_multiset_build(profile_view(v@), g@);
        }
        assert(profile_view(v0).to_multiset() == profile_view(v@).to_multiset().insert(g@));
        let mut k: usize = 0;
        let mut searching = true;
        while searching && k < out.len()
            invariant
                le == gram_leq(),
                k <= out@.len(),
                forall|j: int| 0 <= j < k ==> #[trigger] gram_le(out@[j]@, g@),
                !searching ==> k < out@.len() && !gram_le(out@[k as int]@, g@),
            decreases out@.len() - k + if searching { 1int } else { 0int },
        {
            let o = out[k].compare(&g);
            match o {
                Ordering::Greater => {
                    searching = false;
                },
                _ => {
                    k = k + 1;
                },
            }
        }
        let ghost s = profile_view(out@);
        proof {
            if k < out@.len() {
                assert(s[k as int] == out@[k as int]@);
                assert(!gram_le(s[k as int], g@));
                assert(le(s[k as int], g@) || le(g@, s[k as int]));
            }
        }
        out.insert(k, g);
        proof {
            assert(profile_view(out@) =~= s.insert(k as int, g@));
            lemma_insert_multiset(s, k as int, g@);
            let ns = profile_view(out@);
            assert forall|i: int, j: int| 0 <= i < j < ns.len() implies le(#[trigger] ns[i], #[trigger] ns[j]) by {
                if k < s.len() {
                    assert(le(g@, s[k as int]));
                }
                if j < k {
                    assert(le(s[i], s[j]));
                } else if j == k {
                    assert(gram_le(s[i], g@));
                } else if i == k {
                    assert(le(s[k as int], s[j - 1]) || k == j - 1);
                } else if i < k {
                    assert(le(s[i], s[j - 1]));
                } else {
                    assert(le(s[i - 1], s[j - 1]));
                }
            }
            assert(profile_view(out@).to_multiset() == s.to_multiset().insert(g@));
            assert(profile_view(out@).to_multiset().add(profile_view(v@).to_multiset()) =~= s.to_multiset().add(profile_view(v0).to_multiset()));
        }
    }
    proof {
        assert(profile_view(v@) =~= Seq::<GramKey>::empty());
        assert(profile_view(out@).to_multiset() =~= orig.to_multiset());
        orig.lemma_sort_by_ensures(le);
        lemma_sorted_unique(profile_view(out@), orig.sort_by(le), le);
    }
    out
}

/// Builds the profile of a tree: every gram, in traversal order, or sorted
/// by the gram order when `sort` is set.
pub fn pqgram_profile<L: ValidGramElement, T: LabelledTree<L>>(
    tree: T,
    p: usize,
    q: usize,
    sort: bool,
) -> (r: Vec<PQGram<L>>)
    ensures
        profile_view(r@) == if sort {
            tree_grams(tree.shape(), p as nat, q as nat).sort_by(gram_leq())
        } else {
            tree_grams(tree.shape(), p as nat, q as nat)
        },
{
    let mut ancestors = BDeque::<Node<L>>::new(p);
    ancestors.fill_with(Node::Filler);
    assert(nodes_view(ancestors@) =~= fillers(p as nat));
    let prof = _profile_subtree(&tree, p, q, &mut ancestors);
    if sort {
        sort_profile(prof)
    } else {
        prof
    }
}

} // verus!
