use vstd::prelude::*;
use std::cmp::Ordering;
use crate::label::{key_cmp, ValidGramElement};
use crate::pqgrams::{flat_keys, labels_view, profile_view, GramKey, PQGram};
use crate::profile::LabelledTree;

verus! {

/// Element-wise comparison of two flat grams, as far as the shorter one goes:
/// the order of the first pair of labels that differ, else `Equal`.
pub open spec fn flat_cmp(a: Seq<Seq<int>>, b: Seq<Seq<int>>) -> Ordering
    decreases a.len(),
{
    if a.len() == 0 || b.len() == 0 {
        Ordering::Equal
    } else if key_cmp(a[0], b[0]) == Ordering::Equal {
        flat_cmp(a.drop_first(), b.drop_first())
    } else {
        key_cmp(a[0], b[0])
    }
}

/// The default comparison of two grams, fillers read as `filler`.
pub open spec fn default_cmp(l: GramKey, r: GramKey, filler: Seq<int>) -> Ordering {
    flat_cmp(flat_keys(l, filler), flat_keys(r, filler))
}

/// The similarity the default comparison gives: 1 for a match, else 0.
pub open spec fn default_similarity(o: Ordering) -> nat {
    if o == Ordering::Equal {
        1
    } else {
        0
    }
}

/// The intersection of two profiles from positions `i` and `j` on: a merge that
/// counts matching grams and steps past the smaller gram otherwise.
pub open spec fn merge_count(l: Seq<GramKey>, r: Seq<GramKey>, filler: Seq<int>, i: nat, j: nat) -> nat
    decreases l.len() + r.len() - i - j,
{
    if i >= l.len() || j >= r.len() {
        0
    } else {
        let o = default_cmp(l[i as int], r[j as int], filler);
        if o == Ordering::Equal {
            1 + merge_count(l, r, filler, i + 1, j + 1)
        } else if o == Ordering::Less {
            merge_count(l, r, filler, i + 1, j)
        } else {
            merge_count(l, r, filler, i, j + 1)
        }
    }
}

/// The intersection of two whole profiles.
pub open spec fn intersection_of(l: Seq<GramKey>, r: Seq<GramKey>, filler: Seq<int>) -> nat {
    merge_count(l, r, filler, 0, 0)
}

/// The filler a comparison uses: the given one, else the default label.
pub open spec fn filler_key<L: ValidGramElement>(alt: Option<L>) -> Seq<int> {
    match alt {
        Some(l) => l.key(),
        None => L::default_key(),
    }
}

/// The default gram comparison: both grams flattened with `filler_value` and
/// compared label by label. A match has similarity 1 and order `Equal`; otherwise
/// the similarity is 0 and the order is that of the first differing labels.
pub fn default_gram_edit_distance<L: ValidGramElement>(
    left: &PQGram<L>,
    right: &PQGram<L>,
    filler_value: L,
) -> (r: (u64, Ordering))
    ensures
        r.1 == default_cmp(left@, right@, filler_value.key()),
        r.0 == default_similarity(r.1),
{
    let ghost f = filler_value.key();
    let a = left.concat(filler_value.duplicate());
    let b = right.concat(filler_value.duplicate());
    let ghost ka = labels_view(a@);
    let ghost kb = labels_view(b@);
    let mut i: usize = 0;
    assert(ka.skip(0) =~= ka);
    assert(kb.skip(0) =~= kb);
    while i < a.len() && i < b.len()
        invariant
            i <= a@.len(),
            i <= b@.len(),
            ka == labels_view(a@),
            kb == labels_view(b@),
            f == filler_value.key(),
            ka.len() == a@.len(),
            kb.len() == b@.len(),
            ka == flat_keys(left@, f),
            kb == flat_keys(right@, f),
            flat_cmp(ka, kb) == flat_cmp(ka.skip(i as int), kb.skip(i as int)),
        decreases a@.len() - i,
    {
        let o = a[i].compare(&b[i]);
        assert(ka.skip(i as int)[0] == a@[i as int].key());
        assert(kb.skip(i as int)[0] == b@[i as int].key());
        assert(ka.skip(i as int).len() > 0 && kb.skip(i as int).len() > 0);
        match o {
            Ordering::Equal => {},
            _ => {
                return (0, o);
            },
        }
        assert(ka.skip(i as int).drop_first() =~= ka.skip(i + 1));
        assert(kb.skip(i as int).drop_first() =~= kb.skip(i + 1));
        i = i + 1;
    }
    (1, Ordering::Equal)
}

/// The intersection of two profiles under the default comparison: a merge over
/// both, from the front, that expects them sorted and does not check it.
pub fn pqgram_profile_intersection<L: ValidGramElement, T: LabelledTree<L>>(
    left: &Vec<PQGram<L>>,
    right: &Vec<PQGram<L>>,
    alt_filler_value: Option<L>,
) -> (r: usize)
    ensures
        r == intersection_of(
            profile_view(left@),
            profile_view(right@),
            filler_key(alt_filler_value),
        ),
{
    let filler = match alt_filler_value {
        Some(l) => l,
        None => L::default_label(),
    };
    let ghost l = profile_view(left@);
    let ghost rt = profile_view(right@);
    let ghost f = filler.key();
    let mut intersection: usize = 0;
    let mut i: usize = 0;
    let mut j: usize = 0;
    let maxi = left.len();
    let maxj = right.len();
    while i < maxi && j < maxj
        invariant
            maxi == left@.len(),
            maxj == right@.len(),
            l == profile_view(left@),
            rt == profile_view(right@),
            f == filler.key(),
            i <= maxi,
            j <= maxj,
            intersection <= i,
            intersection + merge_count(l, rt, f, i as nat, j as nat) == intersection_of(l, rt, f),
        decreases maxi + maxj - i - j,
    {
        let (similarity, order) = default_gram_edit_distance(
            &left[i],
            &right[j],
            filler.duplicate(),
        );
        assert(l[i as int] == left@[i as int]@);
        assert(rt[j as int] == right@[j as int]@);
        intersection = intersection + similarity as usize;
        match order {
            Ordering::Equal => {
                i = i + 1;
                j = j + 1;
            },
            Ordering::Less => {
                i = i + 1;
            },
            Ordering::Greater => {
                j = j + 1;
            },
        }
    }
    intersection
}

/// The parts of a profile distance `1 - 2 * intersection / union`, where `union`
/// is the sum of the two profile sizes.
#[derive(Debug, Clone, Copy, PartialEq, Eq)]
pub struct ProfileDistance {
    pub intersection: usize,
    pub union: usize,
}

/// The distance between two sorted profiles under the default comparison. With
/// no filler given, fillers are read as the label type's default value, which
/// should then not occur as a label in either tree.
pub fn pqgram_distance<L: ValidGramElement, T: LabelledTree<L>>(
    left: &Vec<PQGram<L>>,
    right: &Vec<PQGram<L>>,
    alt_filler_value: Option<L>,
) -> (r: ProfileDistance)
    requires
        left@.len() + right@.len() <= usize::MAX,
    ensures
        r.intersection == intersection_of(
            profile_view(left@),
            profile_view(right@),
            filler_key(alt_filler_value),
        ),
        r.union == left@.len() + right@.len(),
{
    let union = left.len() + right.len();
    let intersection = pqgram_profile_intersection::<L, T>(left, right, alt_filler_value);
    ProfileDistance { intersection, union }
}

} // verus!
