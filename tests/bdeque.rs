use pqgrams::BDeque;

#[test]
fn test_bdeque() {
    let mut bd = BDeque::new(3);
    assert_eq!(bd.copy_state(), vec![]);
    bd.push_back(1);
    assert_eq!(bd.copy_state(), vec![1]);
    bd.push_back(2);
    assert_eq!(bd.copy_state(), vec![1, 2]);
    bd.push_back(3);
    assert_eq!(bd.copy_state(), vec![1, 2, 3]);
    let one = bd.push_back(4);
    assert_eq!(bd.copy_state(), vec![2, 3, 4]);
    assert_eq!(one, Some(1));
    bd.fill_with(0);
    assert_eq!(bd.copy_state(), vec![0, 0, 0]);
}

#[test]
fn bdeque_of_capacity_zero_stays_empty() {
    let mut bd: BDeque<u8> = BDeque::new(0);
    assert_eq!(bd.push_back(7), Some(7));
    assert_eq!(bd.copy_state(), Vec::<u8>::new());
    bd.fill_with(1);
    assert_eq!(bd.copy_state(), Vec::<u8>::new());
}

#[test]
fn bdeque_push_below_capacity_evicts_nothing() {
    let mut bd = BDeque::new(2);
    assert_eq!(bd.push_back('a'), None);
    assert_eq!(bd.push_back('b'), None);
    assert_eq!(bd.push_back('c'), Some('a'));
    assert_eq!(bd.copy_state(), vec!['b', 'c']);
}

#[test]
fn bdeque_clone_is_independent() {
    let mut bd = BDeque::new(2);
    bd.fill_with(0u32);
    let mut other = bd.clone();
    other.push_back(5);
    assert_eq!(bd.copy_state(), vec![0, 0]);
    assert_eq!(other.copy_state(), vec![0, 5]);
}
