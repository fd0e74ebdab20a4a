use vstd::prelude::*;
use vstd::utf8::encode_utf8;
use crate::label::{bytes_key, ValidGramElement};
use crate::pqgrams::Node;
use crate::profile::{LabelledTree, TreeShape};

verus! {

broadcast use vstd::std_specs::vec::group_vec_axioms;

/// A plain owned tree: a label and its children, in order.
#[derive(Debug)]
pub struct Tree<T: ValidGramElement> {
    pub label: T,
    pub children: Box<Vec<Tree<T>>>,
}

/// The shape of a tree.
pub open spec fn tree_shape<T: ValidGramElement>(t: Tree<T>) -> TreeShape
    decreases t, t.children@.len() + 1,
{
    TreeShape { label: Some(t.label.key()), children: child_shapes(t, t.children@.len()) }
}

/// The shapes of the first `k` children of a tree.
pub open spec fn child_shapes<T: ValidGramElement>(t: Tree<T>, k: nat) -> Seq<TreeShape>
    decreases t, k,
{
    if k == 0 || k > t.children@.len() {
        Seq::empty()
    } else {
        child_shapes(t, (k - 1) as nat).push(tree_shape(t.children@[k - 1]))
    }
}

proof fn lemma_child_shapes<T: ValidGramElement>(t: Tree<T>, k: nat)
    requires
        k <= t.children@.len(),
    ensures
        child_shapes(t, k).len() == k,
        forall|i: int| 0 <= i < k ==> #[trigger] child_shapes(t, k)[i] == tree_shape(t.children@[i]),
    decreases k,
{
    if k > 0 {
        lemma_child_shapes(t, (k - 1) as nat);
    }
}

impl<T: ValidGramElement> LabelledTree<T> for Tree<T> {
    open spec fn shape(&self) -> TreeShape {
        tree_shape(*self)
    }

    fn label(&self) -> (r: Node<T>) {
        Node::Label(self.label.duplicate())
    }

    fn children(&self) -> (r: Vec<&Tree<T>>) {
        proof {
            lemma_child_shapes(*self, self.children@.len());
        }
        let n = self.children.len();
        let mut r: Vec<&Tree<T>> = Vec::with_capacity(n);
        let mut i: usize = 0;
        while i < n
            invariant
                n == self.children@.len(),
                i <= n,
                r@.len() == i,
                forall|j: int| 0 <= j < i ==> #[trigger] r@[j] == self.children@[j],
            decreases n - i,
        {
            r.push(&self.children[i]);
            i = i + 1;
        }
        r
    }
}

impl<T: ValidGramElement> Tree<T> {
    pub fn new(label: T) -> (r: Tree<T>)
        ensures
            r.shape() == (TreeShape { label: Some(label.key()), children: Seq::empty() }),
    {
        let r = Tree { label: label, children: Box::new(Vec::new()) };
        assert(child_shapes(r, 0) =~= Seq::<TreeShape>::empty());
        r
    }

    /// A deep copy of the tree.
    fn copy_tree(&self) -> (r: Tree<T>)
        ensures
            r.shape() == self.shape(),
        decreases *self,
    {
        let n = self.children.len();
        let mut cs: Vec<Tree<T>> = Vec::with_capacity(n);
        let mut i: usize = 0;
        while i < n
            invariant
                n == self.children@.len(),
                i <= n,
                cs@.len() == i,
                forall|j: int| 0 <= j < i ==> tree_shape(#[trigger] cs@[j]) == tree_shape(self.children@[j]),
            decreases n - i,
        {
            let c = self.children[i].copy_tree();
            cs.push(c);
            i = i + 1;
        }
        let r = Tree { label: self.label.duplicate(), children: Box::new(cs) };
        proof {
            lemma_child_shapes(*self, n as nat);
            lemma_child_shapes(r, n as nat);
            assert(child_shapes(r, n as nat) =~= child_shapes(*self, n as nat));
        }
        r
    }

    /// Adds `child` as the last child and hands the tree back, so that nested
    /// trees can be written as one expression.
    pub fn add_node(self, child: Tree<T>) -> (r: Tree<T>)
        ensures
            r.shape() == (TreeShape {
                label: self.shape().label,
                children: self.shape().children.push(child.shape()),
            }),
    {
        let ghost old_self = self;
        let ghost cs = child;
        let Tree { label, children } = self;
        let mut c = *children;
        c.push(child);
        let r = Tree { label: label, children: Box::new(c) };
        proof {
            lemma_child_shapes(old_self, old_self.children@.len());
            lemma_child_shapes(r, r.children@.len());
            assert(child_shapes(r, r.children@.len()) =~= child_shapes(
                old_self,
                old_self.children@.len(),
            ).push(tree_shape(cs)));
        }
        r
    }
}

impl<T: ValidGramElement> Clone for Tree<T> {
    fn clone(&self) -> (r: Self)
        ensures
            r.shape() == self.shape(),
    {
        self.copy_tree()
    }
}

impl Tree<String> {
    /// A leaf labelled with a copy of `label`.
    pub fn new_str(label: &str) -> (r: Tree<String>)
        ensures
            r.shape() == (TreeShape {
                label: Some(bytes_key(encode_utf8(label@))),
                children: Seq::empty(),
            }),
    {
        Tree::new(label.to_owned())
    }
}

} // verus!
