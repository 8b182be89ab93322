use deet::warmup::{add_n, add_n_inplace, dedup};

#[test]
fn test_add_n() {
    assert_eq!(add_n(vec![1], 2), vec![3]);
}

#[test]
fn test_add_n_inplace() {
    let mut v = vec![1];
    add_n_inplace(&mut v, 2);
    assert_eq!(v, vec![3]);
}

#[test]
fn test_dedup() {
    let mut v = vec![3, 1, 0, 1, 4, 4];
    dedup(&mut v);
    assert_eq!(v, vec![3, 1, 0, 4]);
}

#[test]
fn add_n_keeps_order_and_length() {
    assert_eq!(add_n(vec![], 5), Vec::<i32>::new());
    assert_eq!(add_n(vec![-3, 0, 7], -2), vec![-5, -2, 5]);
    assert_eq!(add_n(vec![i32::MAX - 1, i32::MIN], 1), vec![i32::MAX, i32::MIN + 1]);
}

#[test]
fn add_n_inplace_changes_every_element() {
    let mut v = vec![10, 20, 30];
    add_n_inplace(&mut v, -10);
    assert_eq!(v, vec![0, 10, 20]);
    let mut empty: Vec<i32> = Vec::new();
    add_n_inplace(&mut empty, 1);
    assert!(empty.is_empty());
}

#[test]
fn dedup_keeps_first_occurrences() {
    let mut v = vec![2, 2, 2];
    dedup(&mut v);
    assert_eq!(v, vec![2]);
    let mut v = vec![1, 2, 1, 3, 2, 1];
    dedup(&mut v);
    assert_eq!(v, vec![1, 2, 3]);
    let mut v: Vec<i32> = Vec::new();
    dedup(&mut v);
    assert!(v.is_empty());
}

#[test]
fn dedup_leaves_distinct_elements_alone() {
    let mut v = vec![5, -1, 9, 0];
    dedup(&mut v);
    assert_eq!(v, vec![5, -1, 9, 0]);
}
