use pqgrams::{
    default_gram_edit_distance, flatten_profile, pqgram_distance, pqgram_profile,
    pqgram_profile_intersection, LabelledTree, Node, PQGram, ProfileDistance, Tree,
};
use std::cmp::Ordering;

fn f64_round_2dp(n: f64) -> f64 {
    (n * 100.).round() / 100.
}

fn distance_value(d: ProfileDistance) -> f64 {
    1. - 2. * (d.intersection as f64 / d.union as f64)
}

fn build_known_tree_1() -> Tree<String> {
    Tree::new_str("a")
        .add_node(Tree::new_str("a").add_node(Tree::new_str("e")).add_node(Tree::new_str("b")))
        .add_node(Tree::new_str("b"))
        .add_node(Tree::new_str("c"))
}

fn known_profile_1() -> Vec<Vec<String>> {
    vec![
        vec!["*", "a", "*", "*", "a"],
        vec!["*", "a", "*", "a", "b"],
        vec!["*", "a", "a", "b", "c"],
        vec!["*", "a", "b", "c", "*"],
        vec!["*", "a", "c", "*", "*"],
        vec!["a", "a", "*", "*", "e"],
        vec!["a", "a", "*", "e", "b"],
        vec!["a", "a", "b", "*", "*"],
        vec!["a", "a", "e", "b", "*"],
        vec!["a", "b", "*", "*", "*"],
        vec!["a", "b", "*", "*", "*"],
        vec!["a", "c", "*", "*", "*"],
        vec!["a", "e", "*", "*", "*"],
    ]
    .iter()
    .map(|v| v.iter().map(|s| s.to_string()).collect())
    .collect()
}

fn build_known_tree_2() -> Tree<String> {
    Tree::new_str("a")
        .add_node(Tree::new_str("a").add_node(Tree::new_str("e")).add_node(Tree::new_str("b")))
        .add_node(Tree::new_str("b"))
        .add_node(Tree::new_str("x"))
}

fn strings(v: &[&str]) -> Vec<String> {
    v.iter().map(|s| s.to_string()).collect()
}

#[test]
fn test_pqgram_profile() {
    assert_eq!(
        known_profile_1(),
        flatten_profile(&pqgram_profile(build_known_tree_1(), 2, 3, true), "*".to_string())
    )
}

#[test]
fn test_pqgram_distance() {
    let tree_1 = build_known_tree_1();
    let tree_2 = tree_1.clone();
    let tree_3 = build_known_tree_2();
    let prof1 = pqgram_profile(tree_1, 2, 3, false);
    let prof2 = pqgram_profile(tree_2, 2, 3, false);
    let prof3 = pqgram_profile(tree_3, 2, 3, false);
    let dist12 = distance_value(pqgram_distance::<String, Tree<String>>(&prof1, &prof2, None));
    let dist13 = distance_value(pqgram_distance::<String, Tree<String>>(&prof1, &prof3, None));
    assert_eq!(f64_round_2dp(dist12), 0.);
    assert_eq!(f64_round_2dp(dist13), 0.31);
}

#[test]
fn test_pqgram_distance_when_sorted() {
    let tree_1 = build_known_tree_1();
    let tree_2 = tree_1.clone();
    let tree_3 = build_known_tree_2();
    let prof1 = pqgram_profile(tree_1, 2, 3, true);
    let prof2 = pqgram_profile(tree_2, 2, 3, true);
    let prof3 = pqgram_profile(tree_3, 2, 3, true);
    let dist12 = distance_value(pqgram_distance::<String, Tree<String>>(&prof1, &prof2, None));
    let dist13 = distance_value(pqgram_distance::<String, Tree<String>>(&prof1, &prof3, None));
    assert_eq!(f64_round_2dp(dist12), 0.);
    assert_eq!(f64_round_2dp(dist13), 0.31);
}

#[test]
fn known_tree_has_thirteen_grams() {
    assert_eq!(pqgram_profile(build_known_tree_1(), 2, 3, false).len(), 13);
}

#[test]
fn known_tree_unsorted_profile_in_traversal_order() {
    let flat = flatten_profile(&pqgram_profile(build_known_tree_1(), 2, 3, false), "*".to_string());
    assert_eq!(flat[0], strings(&["*", "a", "*", "*", "a"]));
    assert_eq!(flat[1], strings(&["a", "a", "*", "*", "e"]));
    assert_eq!(flat[2], strings(&["a", "e", "*", "*", "*"]));
    assert_eq!(flat[12], strings(&["*", "a", "c", "*", "*"]));
}

#[test]
fn every_gram_has_p_ancestors_and_q_siblings() {
    for (p, q) in [(1usize, 1usize), (2, 3), (3, 2), (4, 4)] {
        let flat = flatten_profile(&pqgram_profile(build_known_tree_1(), p, q, false), "*".to_string());
        for g in flat {
            assert_eq!(g.len(), p + q);
        }
    }
}

#[test]
fn profile_size_follows_children_counts() {
    // nodes with children: root (3), inner a (2); leaves: e, b, b, c
    for q in 1usize..5 {
        let n = pqgram_profile(build_known_tree_1(), 2, q, false).len();
        assert_eq!(n, (3 + q - 1) + (2 + q - 1) + 4);
    }
}

#[test]
fn equal_trees_give_equal_profiles() {
    let a = pqgram_profile(build_known_tree_1(), 2, 3, false);
    let b = pqgram_profile(build_known_tree_1(), 2, 3, false);
    assert!(a == b);
    let c = pqgram_profile(build_known_tree_1(), 3, 2, true);
    let d = pqgram_profile(build_known_tree_1(), 3, 2, true);
    assert!(c == d);
}

#[test]
fn profile_matches_itself_in_full() {
    let prof = pqgram_profile(build_known_tree_2(), 2, 3, true);
    let d = pqgram_distance::<String, Tree<String>>(&prof, &prof, None);
    assert_eq!(d, ProfileDistance { intersection: 13, union: 26 });
    assert_eq!(distance_value(d), 0.);
}

#[test]
fn sorting_outside_gives_the_same_distance() {
    let mut a = pqgram_profile(build_known_tree_1(), 2, 3, false);
    let mut b = pqgram_profile(build_known_tree_2(), 2, 3, false);
    a.sort();
    b.sort();
    let sa = pqgram_profile(build_known_tree_1(), 2, 3, true);
    let sb = pqgram_profile(build_known_tree_2(), 2, 3, true);
    assert!(a == sa);
    assert!(b == sb);
    let outside = pqgram_distance::<String, Tree<String>>(&a, &b, Some("*".to_string()));
    let inside = pqgram_distance::<String, Tree<String>>(&sa, &sb, Some("*".to_string()));
    assert_eq!(outside, inside);
}

#[test]
fn single_node_tree_has_one_gram() {
    let prof = pqgram_profile(Tree::new_str("r"), 2, 3, false);
    assert_eq!(prof.len(), 1);
    let flat = flatten_profile(&prof, "*".to_string());
    assert_eq!(flat, vec![strings(&["*", "r", "*", "*", "*"])]);
    let prof = pqgram_profile(Tree::new(9u32), 1, 1, true);
    assert_eq!(flatten_profile(&prof, 0), vec![vec![9, 0]]);
}

#[test]
fn integer_labels_profile() {
    let t = Tree::new(1i64).add_node(Tree::new(2)).add_node(Tree::new(3));
    let flat = flatten_profile(&pqgram_profile(t, 1, 2, false), -1);
    assert_eq!(flat, vec![vec![1, -1, 2], vec![2, -1, -1], vec![1, 2, 3], vec![3, -1, -1], vec![1, 3, -1]]);
}

#[test]
fn gram_concat_replaces_fillers() {
    let g = PQGram::new(
        vec![Node::Filler, Node::Label("x".to_string())],
        vec![Node::Label("y".to_string()), Node::Filler, Node::Filler],
    );
    assert_eq!(g.concat("*".to_string()), strings(&["*", "x", "y", "*", "*"]));
}

#[test]
fn default_comparison_of_grams() {
    let g1 = PQGram::new(vec![Node::Filler, Node::Label(1u8)], vec![Node::Label(2)]);
    let g2 = PQGram::new(vec![Node::Filler, Node::Label(1u8)], vec![Node::Label(3)]);
    assert_eq!(default_gram_edit_distance(&g1, &g1.clone(), 0), (1, Ordering::Equal));
    assert_eq!(default_gram_edit_distance(&g1, &g2, 0), (0, Ordering::Less));
    assert_eq!(default_gram_edit_distance(&g2, &g1, 0), (0, Ordering::Greater));
    // with filler 5 the filler reads as larger than the label 1
    let g3 = PQGram::new(vec![Node::Label(1u8)], vec![]);
    let g4 = PQGram::new(vec![Node::Filler], vec![]);
    assert_eq!(default_gram_edit_distance(&g3, &g4, 5), (0, Ordering::Less));
    assert_eq!(default_gram_edit_distance(&g3, &g4, 1), (1, Ordering::Equal));
}

#[test]
fn gram_order_puts_filler_first() {
    let g1 = PQGram::new(vec![Node::Filler], vec![Node::Label("a".to_string())]);
    let g2 = PQGram::new(vec![Node::Label("".to_string())], vec![Node::Filler]);
    assert_eq!(g1.compare(&g2), Ordering::Less);
    assert_eq!(g2.compare(&g1), Ordering::Greater);
    assert_eq!(g1.compare(&g1), Ordering::Equal);
    let g3 = PQGram::new(vec![Node::Label("ab".to_string())], vec![]);
    let g4 = PQGram::new(vec![Node::Label("b".to_string())], vec![]);
    assert_eq!(g3.compare(&g4), Ordering::Less);
}

#[test]
fn intersection_of_different_trees() {
    let a = pqgram_profile(build_known_tree_1(), 2, 3, true);
    let b = pqgram_profile(build_known_tree_2(), 2, 3, true);
    let n = pqgram_profile_intersection::<String, Tree<String>>(&a, &b, Some("*".to_string()));
    assert_eq!(n, 9);
    let empty: Vec<PQGram<String>> = Vec::new();
    let none = pqgram_profile_intersection::<String, Tree<String>>(&a, &empty, None);
    assert_eq!(none, 0);
}

#[test]
fn tree_children_and_labels() {
    let t = build_known_tree_1();
    assert!(t.label() == Node::Label("a".to_string()));
    let cs = t.children();
    assert_eq!(cs.len(), 3);
    assert!(cs[2].label() == Node::Label("c".to_string()));
    assert_eq!(cs[0].children().len(), 2);
}
