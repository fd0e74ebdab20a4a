use vstd::prelude::*;
use vstd::utf8::encode_utf8;
use std::cmp::Ordering;
use crate::order::{int_cmp, is_order, lemma_seq_order, seq_cmp};

verus! {

/// Order of label keys: lexicographic over integers.
pub open spec fn key_cmp(a: Seq<int>, b: Seq<int>) -> Ordering {
    seq_cmp(a, b, |x: int, y: int| int_cmp(x, y))
}

pub proof fn lemma_key_order()
    ensures
        is_order(|a: Seq<int>, b: Seq<int>| key_cmp(a, b)),
{
    let c = |x: int, y: int| int_cmp(x, y);
    let s = |a: Seq<int>, b: Seq<int>| seq_cmp(a, b, c);
    lemma_seq_order(c);
    assert(is_order(s));
    let k = |a: Seq<int>, b: Seq<int>| key_cmp(a, b);
    assert forall|a: Seq<int>, b: Seq<int>| #[trigger] k(a, b) == s(a, b) by {}
    assert forall|a: Seq<int>, b: Seq<int>| (#[trigger] k(a, b) == Ordering::Equal) <==> a == b by {
        assert(s(a, b) == Ordering::Equal <==> a == b);
    }
    assert forall|a: Seq<int>, b: Seq<int>|
        (#[trigger] k(a, b) == Ordering::Less) <==> k(b, a) == Ordering::Greater by {
        assert(s(a, b) == Ordering::Less <==> s(b, a) == Ordering::Greater);
    }
    assert forall|a: Seq<int>, b: Seq<int>, d: Seq<int>|
        #[trigger] k(a, b) == Ordering::Less && #[trigger] k(b, d) == Ordering::Less implies k(a, d)
            == Ordering::Less by {
        assert(s(a, b) == Ordering::Less && s(b, d) == Ordering::Less ==> s(a, d) == Ordering::Less);
    }
}

/// What a label must offer to stand in a gram: a key that the label order
/// compares, an exact copy, a comparison and a default value.
pub trait ValidGramElement: Clone + Sized {
    /// The value that orders labels.
    spec fn key(&self) -> Seq<int>;

    /// The key of the default label.
    spec fn default_key() -> Seq<int>;

    fn duplicate(&self) -> (r: Self)
        ensures
            r == *self,
    ;

    fn compare(&self, other: &Self) -> (r: Ordering)
        ensures
            r == key_cmp(self.key(), other.key()),
    ;

    fn default_label() -> (r: Self)
        ensures
            r.key() == Self::default_key(),
    ;
}

/// The bytes of a string as integers.
pub open spec fn bytes_key(b: Seq<u8>) -> Seq<int> {
    b.map_values(|x: u8| x as int)
}

/// Byte-wise lexicographic comparison, the order of `str`.
fn compare_bytes(a: &[u8], b: &[u8]) -> (r: Ordering)
    ensures
        r == key_cmp(bytes_key(a@), bytes_key(b@)),
{
    let ghost ka = bytes_key(a@);
    let ghost kb = bytes_key(b@);
    let mut i: usize = 0;
    assert(ka.skip(0) =~= ka);
    assert(kb.skip(0) =~= kb);
    while i < a.len() && i < b.len()
        invariant
            i <= a@.len(),
            i <= b@.len(),
            ka == bytes_key(a@),
            kb == bytes_key(b@),
            key_cmp(ka, kb) == key_cmp(ka.skip(i as int), kb.skip(i as int)),
        decreases a@.len() - i,
    {
        let x = a[i];
        let y = b[i];
        assert(ka.skip(i as int)[0] == x as int);
        assert(kb.skip(i as int)[0] == y as int);
        if x < y {
            return Ordering::Less;
        } else if x > y {
            return Ordering::Greater;
        }
        assert(ka.skip(i as int).drop_first() =~= ka.skip(i + 1));
        assert(kb.skip(i as int).drop_first() =~= kb.skip(i + 1));
        i = i + 1;
    }
    if i < a.len() {
        Ordering::Greater
    } else if i < b.len() {
        Ordering::Less
    } else {
        Ordering::Equal
    }
}

impl ValidGramElement for String {
    open spec fn key(&self) -> Seq<int> {
        bytes_key(encode_utf8(self@))
    }

    open spec fn default_key() -> Seq<int> {
        Seq::empty()
    }

    fn duplicate(&self) -> (r: Self) {
        self.clone()
    }

    fn compare(&self, other: &Self) -> (r: Ordering) {
        compare_bytes(self.as_str().as_bytes(), other.as_str().as_bytes())
    }

    fn default_label() -> (r: Self) {
        let r = String::new();
        assert(bytes_key(encode_utf8(r@)) =~= Seq::<int>::empty());
        r
    }
}

/// A single integer compares as the integer does.
proof fn lemma_singleton_cmp(a: int, b: int)
    ensures
        key_cmp(seq![a], seq![b]) == int_cmp(a, b),
{
    assert(seq![a].drop_first() =~= Seq::<int>::empty());
    assert(seq![b].drop_first() =~= Seq::<int>::empty());
    let c = |x: int, y: int| int_cmp(x, y);
    assert(seq_cmp(Seq::<int>::empty(), Seq::<int>::empty(), c) == Ordering::Equal);
    assert(c(seq![a][0], seq![b][0]) == int_cmp(a, b));
    assert(key_cmp(seq![a], seq![b]) == seq_cmp(seq![a], seq![b], c));
}

impl ValidGramElement for i8 {
    open spec fn key(&self) -> Seq<int> {
        seq![*self as int]
    }

    open spec fn default_key() -> Seq<int> {
        seq![0]
    }

    fn duplicate(&self) -> (r: Self) {
        *self
    }

    fn compare(&self, other: &Self) -> (r: Ordering) {
        proof {
            lemma_singleton_cmp(*self as int, *other as int);
        }
        if *self < *other {
            Ordering::Less
        } else if *self == *other {
            Ordering::Equal
        } else {
            Ordering::Greater
        }
    }

    fn default_label() -> (r: Self) {
        0
    }
}

impl ValidGramElement for u8 {
    open spec fn key(&self) -> Seq<int> {
        seq![*self as int]
    }

    open spec fn default_key() -> Seq<int> {
        seq![0]
    }

    fn duplicate(&self) -> (r: Self) {
        *self
    }

    fn compare(&self, other: &Self) -> (r: Ordering) {
        proof {
            lemma_singleton_cmp(*self as int, *other as int);
        }
        if *self < *other {
            Ordering::Less
        } else if *self == *other {
            Ordering::Equal
        } else {
            Ordering::Greater
        }
    }

    fn default_label() -> (r: Self) {
        0
    }
}

impl ValidGramElement for i16 {
    open spec fn key(&self) -> Seq<int> {
        seq![*self as int]
    }

    open spec fn default_key() -> Seq<int> {
        seq![0]
    }

    fn duplicate(&self) -> (r: Self) {
        *self
    }

    fn compare(&self, other: &Self) -> (r: Ordering) {
        proof {
            lemma_singleton_cmp(*self as int, *other as int);
        }
        if *self < *other {
            Ordering::Less
        } else if *self == *other {
            Ordering::Equal
        } else {
            Ordering::Greater
        }
    }

    fn default_label() -> (r: Self) {
        0
    }
}

impl ValidGramElement for u16 {
    open spec fn key(&self) -> Seq<int> {
        seq![*self as int]
    }

    open spec fn default_key() -> Seq<int> {
        seq![0]
    }

    fn duplicate(&self) -> (r: Self) {
        *self
    }

    fn compare(&self, other: &Self) -> (r: Ordering) {
        proof {
            lemma_singleton_cmp(*self as int, *other as int);
        }
        if *self < *other {
            Ordering::Less
        } else if *self == *other {
            Ordering::Equal
        } else {
            Ordering::Greater
        }
    }

    fn default_label() -> (r: Self) {
        0
    }
}

impl ValidGramElement for i32 {
    open spec fn key(&self) -> Seq<int> {
        seq![*self as int]
    }

    open spec fn default_key() -> Seq<int> {
        seq![0]
    }

    fn duplicate(&self) -> (r: Self) {
        *self
    }

    fn compare(&self, other: &Self) -> (r: Ordering) {
        proof {
            lemma_singleton_cmp(*self as int, *other as int);
        }
        if *self < *other {
            Ordering::Less
        } else if *self == *other {
            Ordering::Equal
        } else {
            Ordering::Greater
        }
    }

    fn default_label() -> (r: Self) {
        0
    }
}

impl ValidGramElement for u32 {
    open spec fn key(&self) -> Seq<int> {
        seq![*self as int]
    }

    open spec fn default_key() -> Seq<int> {
        seq![0]
    }

    fn duplicate(&self) -> (r: Self) {
        *self
    }

    fn compare(&self, other: &Self) -> (r: Ordering) {
        proof {
            lemma_singleton_cmp(*self as int, *other as int);
        }
        if *self < *other {
            Ordering::Less
        } else if *self == *other {
            Ordering::Equal
        } else {
            Ordering::Greater
        }
    }

    fn default_label() -> (r: Self) {
        0
    }
}

impl ValidGramElement for i64 {
    open spec fn key(&self) -> Seq<int> {
        seq![*self as int]
    }

    open spec fn default_key() -> Seq<int> {
        seq![0]
    }

    fn duplicate(&self) -> (r: Self) {
        *self
    }

    fn compare(&self, other: &Self) -> (r: Ordering) {
        proof {
            lemma_singleton_cmp(*self as int, *other as int);
        }
        if *self < *other {
            Ordering::Less
        } else if *self == *other {
            Ordering::Equal
        } else {
            Ordering::Greater
        }
    }

    fn default_label() -> (r: Self) {
        0
    }
}

impl ValidGramElement for u64 {
    open spec fn key(&self) -> Seq<int> {
        seq![*self as int]
    }

    open spec fn default_key() -> Seq<int> {
        seq![0]
    }

    fn duplicate(&self) -> (r: Self) {
        *self
    }

    fn compare(&self, other: &Self) -> (r: Ordering) {
        proof {
            lemma_singleton_cmp(*self as int, *other as int);
        }
        if *self < *other {
            Ordering::Less
        } else if *self == *other {
            Ordering::Equal
        } else {
            Ordering::Greater
        }
    }

    fn default_label() -> (r: Self) {
        0
    }
}

} // verus!
