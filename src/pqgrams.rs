use vstd::prelude::*;
use std::cmp::Ordering;
use crate::label::{key_cmp, lemma_key_order, ValidGramElement};
use vstd::relations::total_ordering;
use crate::order::{is_order, lemma_order_ext, lemma_seq_order, seq_cmp};

verus! {

/// What a gram node stands for: `None` for the filler, else the label's key.
pub type NodeKey = Option<Seq<int>>;

/// What a gram stands for: its ancestors and its siblings.
pub type GramKey = (Seq<NodeKey>, Seq<NodeKey>);

/// A single tree node that may form part of a gram: the filler marks an
/// absent node, so that a literal `*` can still be a label.
#[derive(Debug, PartialEq, Eq, PartialOrd, Ord)]
pub enum Node<L: ValidGramElement> {
    Filler,
    Label(L),
}

impl<L: ValidGramElement> View for Node<L> {
    type V = NodeKey;

    open spec fn view(&self) -> NodeKey {
        match self {
            Node::Filler => None,
            Node::Label(l) => Some(l.key()),
        }
    }
}

impl<L: ValidGramElement> Clone for Node<L> {
    fn clone(&self) -> (r: Self)
        ensures
            r == *self,
    {
        match self {
            Node::Filler => Node::Filler,
            Node::Label(l) => Node::Label(l.duplicate()),
        }
    }
}

/// The order of gram nodes: the filler before every label, labels by key.
pub open spec fn node_cmp(a: NodeKey, b: NodeKey) -> Ordering {
    match (a, b) {
        (None, None) => Ordering::Equal,
        (None, Some(_)) => Ordering::Less,
        (Some(_), None) => Ordering::Greater,
        (Some(x), Some(y)) => key_cmp(x, y),
    }
}

/// Lexicographic order of node sequences.
pub open spec fn nodes_cmp(a: Seq<NodeKey>, b: Seq<NodeKey>) -> Ordering {
    seq_cmp(a, b, |x: NodeKey, y: NodeKey| node_cmp(x, y))
}

/// The order of grams: ancestors first, then siblings.
pub open spec fn gram_cmp(a: GramKey, b: GramKey) -> Ordering {
    if nodes_cmp(a.0, b.0) == Ordering::Equal {
        nodes_cmp(a.1, b.1)
    } else {
        nodes_cmp(a.0, b.0)
    }
}

/// The non-strict gram order, by which profiles are sorted.
pub open spec fn gram_le(a: GramKey, b: GramKey) -> bool {
    gram_cmp(a, b) != Ordering::Greater
}

pub proof fn lemma_node_order()
    ensures
        is_order(|a: NodeKey, b: NodeKey| node_cmp(a, b)),
{
    lemma_key_order();
    let k = |a: Seq<int>, b: Seq<int>| key_cmp(a, b);
    let n = |a: NodeKey, b: NodeKey| node_cmp(a, b);
    assert forall|a: NodeKey, b: NodeKey| (#[trigger] n(a, b) == Ordering::Equal) <==> a == b by {
        if a is Some && b is Some {
            assert(k(a->0, b->0) == Ordering::Equal <==> a->0 == b->0);
        }
    }
    assert forall|a: NodeKey, b: NodeKey|
        (#[trigger] n(a, b) == Ordering::Less) <==> n(b, a) == Ordering::Greater by {
        if a is Some && b is Some {
            assert(k(a->0, b->0) == Ordering::Less <==> k(b->0, a->0) == Ordering::Greater);
        }
    }
    assert forall|a: NodeKey, b: NodeKey, d: NodeKey|
        #[trigger] n(a, b) == Ordering::Less && #[trigger] n(b, d) == Ordering::Less implies n(a, d)
            == Ordering::Less by {
        if a is Some && b is Some && d is Some {
            assert(k(a->0, b->0) == Ordering::Less && k(b->0, d->0) == Ordering::Less ==> k(
                a->0,
                d->0,
            ) == Ordering::Less);
        }
    }
}

pub proof fn lemma_nodes_order()
    ensures
        is_order(|a: Seq<NodeKey>, b: Seq<NodeKey>| nodes_cmp(a, b)),
{
    let n = |x: NodeKey, y: NodeKey| node_cmp(x, y);
    lemma_node_order();
    lemma_seq_order(n);
    let s = |a: Seq<NodeKey>, b: Seq<NodeKey>| seq_cmp(a, b, n);
    let t = |a: Seq<NodeKey>, b: Seq<NodeKey>| nodes_cmp(a, b);
    assert forall|a: Seq<NodeKey>, b: Seq<NodeKey>| #[trigger] t(a, b) == s(a, b) by {}
    lemma_order_ext(s, t);
}

pub proof fn lemma_gram_order()
    ensures
        is_order(|a: GramKey, b: GramKey| gram_cmp(a, b)),
{
    lemma_nodes_order();
    let s = |a: Seq<NodeKey>, b: Seq<NodeKey>| nodes_cmp(a, b);
    let g = |a: GramKey, b: GramKey| gram_cmp(a, b);
    assert forall|a: GramKey, b: GramKey| (#[trigger] g(a, b) == Ordering::Equal) <==> a == b by {
        assert(s(a.0, b.0) == Ordering::Equal <==> a.0 == b.0);
        assert(s(a.1, b.1) == Ordering::Equal <==> a.1 == b.1);
    }
    assert forall|a: GramKey, b: GramKey|
        (#[trigger] g(a, b) == Ordering::Less) <==> g(b, a) == Ordering::Greater by {
        assert(s(a.0, b.0) == Ordering::Equal <==> s(b.0, a.0) == Ordering::Equal);
        assert(s(a.0, b.0) == Ordering::Less <==> s(b.0, a.0) == Ordering::Greater);
        assert(s(a.1, b.1) == Ordering::Less <==> s(b.1, a.1) == Ordering::Greater);
        assert(s(b.0, a.0) == Ordering::Less <==> s(a.0, b.0) == Ordering::Greater);
    }
    assert forall|a: GramKey, b: GramKey, d: GramKey|
        #[trigger] g(a, b) == Ordering::Less && #[trigger] g(b, d) == Ordering::Less implies g(a, d)
            == Ordering::Less by {
        assert(s(a.0, b.0) == Ordering::Equal <==> a.0 == b.0);
        assert(s(b.0, d.0) == Ordering::Equal <==> b.0 == d.0);
        assert(s(a.0, d.0) == Ordering::Equal <==> a.0 == d.0);
        assert(s(a.0, b.0) == Ordering::Less && s(b.0, d.0) == Ordering::Less ==> s(a.0, d.0)
            == Ordering::Less);
        assert(s(a.1, b.1) == Ordering::Less && s(b.1, d.1) == Ordering::Less ==> s(a.1, d.1)
            == Ordering::Less);
        assert(s(a.0, d.0) == Ordering::Less <==> s(d.0, a.0) == Ordering::Greater);
        assert(s(a.0, b.0) == Ordering::Less <==> s(b.0, a.0) == Ordering::Greater);
    }
}

/// The keys of a node sequence.
pub open spec fn nodes_view<L: ValidGramElement>(s: Seq<Node<L>>) -> Seq<NodeKey> {
    s.map_values(|n: Node<L>| n@)
}

/// A single gram in a profile.
#[derive(Debug, PartialEq, Eq, PartialOrd, Ord)]
pub struct PQGram<L: ValidGramElement> {
    ancestors: Vec<Node<L>>,
    siblings: Vec<Node<L>>,
}

impl<L: ValidGramElement> View for PQGram<L> {
    type V = GramKey;

    closed spec fn view(&self) -> GramKey {
        (nodes_view(self.ancestors@), nodes_view(self.siblings@))
    }
}

/// Copies a node vector element by element.
fn copy_nodes<L: ValidGramElement>(v: &Vec<Node<L>>) -> (r: Vec<Node<L>>)
    ensures
        r@ == v@,
{
    let mut r: Vec<Node<L>> = Vec::with_capacity(v.len());
    let mut i: usize = 0;
    while i < v.len()
        invariant
            i <= v@.len(),
            r@ == v@.subrange(0, i as int),
        decreases v@.len() - i,
    {
        r.push(v[i].clone());
        i = i + 1;
        assert(r@ =~= v@.subrange(0, i as int));
    }
    assert(v@.subrange(0, v@.len() as int) =~= v@);
    r
}

impl<L: ValidGramElement> Clone for PQGram<L> {
    fn clone(&self) -> (r: Self)
        ensures
            r@ == self@,
    {
        PQGram { ancestors: copy_nodes(&self.ancestors), siblings: copy_nodes(&self.siblings) }
    }
}

/// The labels of a gram, ancestors then siblings, with `filler` for each filler.
pub open spec fn flat_keys(g: GramKey, filler: Seq<int>) -> Seq<Seq<int>> {
    (g.0 + g.1).map_values(|n: NodeKey|
        match n {
            None => filler,
            Some(k) => k,
        })
}

/// The keys of a label sequence.
pub open spec fn labels_view<L: ValidGramElement>(s: Seq<L>) -> Seq<Seq<int>> {
    s.map_values(|l: L| l.key())
}

impl<L: ValidGramElement> PQGram<L> {
    /// Build a gram from ancestors and siblings.
    pub fn new(ps: Vec<Node<L>>, qs: Vec<Node<L>>) -> (r: PQGram<L>)
        ensures
            r@ == (nodes_view(ps@), nodes_view(qs@)),
    {
        PQGram { ancestors: ps, siblings: qs }
    }

    /// Ancestor and sibling labels in one sequence, each filler replaced by a
    /// copy of `filler_as` (by convention `*` for strings).
    pub fn concat(&self, filler_as: L) -> (r: Vec<L>)
        ensures
            labels_view(r@) == flat_keys(self@, filler_as.key()),
    {
        let mut bits: Vec<L> = Vec::with_capacity(self.ancestors.len());
        let ghost want = flat_keys(self@, filler_as.key());
        let ghost na = self.ancestors@.len();
        let mut i: usize = 0;
        while i < self.ancestors.len()
            invariant
                want == flat_keys(self@, filler_as.key()),
                na == self.ancestors@.len(),
                want.len() == na + self.siblings@.len(),
                i <= na,
                labels_view(bits@) == want.subrange(0, i as int),
                bits@.len() == i,
            decreases na - i,
        {
            let bit = match &self.ancestors[i] {
                Node::Label(v) => v.duplicate(),
                Node::Filler => filler_as.duplicate(),
            };
            let ghost before = bits@;
            bits.push(bit);
            proof {
                assert(want[i as int] == bit.key());
                assert forall|k: int| 0 <= k < i implies labels_view(bits@)[k] == want[k] by {
                    assert(labels_view(before)[k] == want.subrange(0, i as int)[k]);
                }
            }
            i = i + 1;
            assert(labels_view(bits@) =~= want.subrange(0, i as int));
        }
        let mut j: usize = 0;
        while j < self.siblings.len()
            invariant
                want == flat_keys(self@, filler_as.key()),
                na == self.ancestors@.len(),
                want.len() == na + self.siblings@.len(),
                j <= self.siblings@.len(),
                labels_view(bits@) == want.subrange(0, na + j),
                bits@.len() == na + j,
            decreases self.siblings@.len() - j,
        {
            let bit = match &self.siblings[j] {
                Node::Label(v) => v.duplicate(),
                Node::Filler => filler_as.duplicate(),
            };
            let ghost before = bits@;
            bits.push(bit);
            proof {
                assert(want[na + j] == bit.key());
                assert forall|k: int| 0 <= k < na + j implies labels_view(bits@)[k] == want[k] by {
                    assert(labels_view(before)[k] == want.subrange(0, na + j)[k]);
                }
            }
            j = j + 1;
            assert(labels_view(bits@) =~= want.subrange(0, na + j));
        }
        assert(want.subrange(0, want.len() as int) =~= want);
        bits
    }
}

/// The flat form of each gram of a profile.
pub open spec fn flat_profile(profile: Seq<GramKey>, filler: Seq<int>) -> Seq<Seq<Seq<int>>> {
    profile.map_values(|g: GramKey| flat_keys(g, filler))
}

/// The keys of each gram of a profile.
pub open spec fn profile_view<L: ValidGramElement>(s: Seq<PQGram<L>>) -> Seq<GramKey> {
    s.map_values(|g: PQGram<L>| g@)
}

/// Grams nest ancestors and siblings, but are mostly used as flat vectors of
/// constant length: this turns every gram of a profile into one.
pub fn flatten_profile<L: ValidGramElement>(profile: &Vec<PQGram<L>>, filler_as: L) -> (r: Vec<
    Vec<L>,
>)
    ensures
        r@.map_values(|v: Vec<L>| labels_view(v@)) == flat_profile(
            profile_view(profile@),
            filler_as.key(),
        ),
{
    let ghost want = flat_profile(profile_view(profile@), filler_as.key());
    let mut r: Vec<Vec<L>> = Vec::with_capacity(profile.len());
    let mut i: usize = 0;
    while i < profile.len()
        invariant
            i <= profile@.len(),
            want == flat_profile(profile_view(profile@), filler_as.key()),
            want.len() == profile@.len(),
            r@.map_values(|v: Vec<L>| labels_view(v@)) == want.subrange(0, i as int),
            r@.len() == i,
        decreases profile@.len() - i,
    {
        let flat = profile[i].concat(filler_as.duplicate());
        let ghost before = r@;
        r.push(flat);
        proof {
            assert forall|k: int| 0 <= k < i implies labels_view(r@[k]@) == want[k] by {
                assert(before.map_values(|v: Vec<L>| labels_view(v@))[k] == want.subrange(
                    0,
                    i as int,
                )[k]);
            }
        }
        i = i + 1;
        assert(r@.map_values(|v: Vec<L>| labels_view(v@)) =~= want.subrange(0, i as int));
    }
    assert(want.subrange(0, i as int) =~= want);
    r
}

/// The gram order as a relation.
pub open spec fn gram_leq() -> spec_fn(GramKey, GramKey) -> bool {
    |a: GramKey, b: GramKey| gram_le(a, b)
}

pub proof fn lemma_gram_le_total()
    ensures
        total_ordering(gram_leq()),
{
    lemma_gram_order();
    let c = |a: GramKey, b: GramKey| gram_cmp(a, b);
    let le = gram_leq();
    assert forall|a: GramKey, b: GramKey, d: GramKey| #[trigger] le(a, b) && #[trigger] le(b, d) implies le(a, d) by {
        if c(a, b) == Ordering::Equal {
        } else if c(b, d) == Ordering::Equal {
        } else {
            assert(c(a, b) == Ordering::Less);
            assert(c(b, d) == Ordering::Less);
        }
    }
    assert forall|a: GramKey, b: GramKey| #[trigger] le(a, b) && #[trigger] le(b, a) implies a == b by {
        if c(a, b) == Ordering::Less {
            assert(c(b, a) == Ordering::Greater);
        }
    }
    assert forall|a: GramKey, b: GramKey| #[trigger] le(a, b) || #[trigger] le(b, a) by {
        if c(a, b) == Ordering::Greater {
            assert(c(b, a) == Ordering::Less);
        }
    }
    assert forall|a: GramKey| #[trigger] le(a, a) by {
        assert(c(a, a) == Ordering::Equal);
    }
}

fn compare_node<L: ValidGramElement>(a: &Node<L>, b: &Node<L>) -> (r: Ordering)
    ensures
        r == node_cmp(a@, b@),
{
    match (a, b) {
        (Node::Filler, Node::Filler) => Ordering::Equal,
        (Node::Filler, Node::Label(_)) => Ordering::Less,
        (Node::Label(_), Node::Filler) => Ordering::Greater,
        (Node::Label(x), Node::Label(y)) => x.compare(y),
    }
}

fn compare_nodes<L: ValidGramElement>(a: &Vec<Node<L>>, b: &Vec<Node<L>>) -> (r: Ordering)
    ensures
        r == nodes_cmp(nodes_view(a@), nodes_view(b@)),
{
    let ghost ka = nodes_view(a@);
    let ghost kb = nodes_view(b@);
    let mut i: usize = 0;
    assert(ka.skip(0) =~= ka);
    assert(kb.skip(0) =~= kb);
    while i < a.len() && i < b.len()
        invariant
            i <= a@.len(),
            i <= b@.len(),
            ka == nodes_view(a@),
            kb == nodes_view(b@),
            nodes_cmp(ka, kb) == nodes_cmp(ka.skip(i as int), kb.skip(i as int)),
        decreases a@.len() - i,
    {
        let o = compare_node(&a[i], &b[i]);
        assert(ka.skip(i as int)[0] == a@[i as int]@);
        assert(kb.skip(i as int)[0] == b@[i as int]@);
        match o {
            Ordering::Equal => {},
            _ => {
                return o;
            },
        }
        assert(ka.skip(i as int).drop_first() =~= ka.skip(i + 1));
        assert(kb.skip(i as int).drop_first() =~= kb.skip(i + 1));
        i = i + 1;
    }
    if i < a.len() {
        Ordering::Greater
    } else if i < b.len() {
        Ordering::Less
    } else {
        Ordering::Equal
    }
}

impl<L: ValidGramElement> PQGram<L> {
    /// Compares two grams in the gram order.
    pub fn compare(&self, other: &PQGram<L>) -> (r: Ordering)
        ensures
            r == gram_cmp(self@, other@),
    {
        let o = compare_nodes(&self.ancestors, &other.ancestors);
        match o {
            Ordering::Equal => compare_nodes(&self.siblings, &other.siblings),
            _ => o,
        }
    }
}

} // verus!
