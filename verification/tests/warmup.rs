use deet::warmup::{add_n, add_n_inplace, dedup};

#[test]
fn test_add_n() {
    assert_eq!(add_n(vec![1], 2), vec![3]);
}

#[test]
fn test_add_n_inplace() {
    let mut v = vec![1];
    add_n_inplace(&mut v, 2);
    assert_eq!(v, vec![3]);
}

#[test]
fn test_dedup() {
    let mut v = vec![3, 1, 0, 1, 4, 4];
    dedup(&mut v);
    assert_eq!(v, vec![3, 1, 0, 4]);
}

#[test]
fn add_n_adds_to_every_item() {
    assert_eq!(add_n(vec![], 5), Vec::<i32>::new());
    assert_eq!(add_n(vec![1, -2, 3], -3), vec![-2, -5, 0]);
    assert_eq!(add_n(vec![i32::MAX - 1, i32::MIN], 1), vec![i32::MAX, i32::MIN + 1]);
    assert_eq!(add_n(vec![7, 7], 0), vec![7, 7]);
}

#[test]
fn add_n_inplace_adds_to_every_item() {
    let mut v: Vec<i32> = vec![];
    add_n_inplace(&mut v, 9);
    assert!(v.is_empty());
    let mut v = vec![10, 20, -30];
    add_n_inplace(&mut v, -10);
    assert_eq!(v, vec![0, 10, -40]);
    let mut v = vec![i32::MIN + 1];
    add_n_inplace(&mut v, -1);
    assert_eq!(v, vec![i32::MIN]);
}

#[test]
fn dedup_keeps_the_first_of_equal_items() {
    let mut v: Vec<i32> = vec![];
    dedup(&mut v);
    assert!(v.is_empty());
    let mut v = vec![5];
    dedup(&mut v);
    assert_eq!(v, vec![5]);
    let mut v = vec![2, 2, 2, 2];
    dedup(&mut v);
    assert_eq!(v, vec![2]);
    let mut v = vec![1, 2, 3];
    dedup(&mut v);
    assert_eq!(v, vec![1, 2, 3]);
    let mut v = vec![1, 2, 1, 3, 2, 1, -1, 3];
    dedup(&mut v);
    assert_eq!(v, vec![1, 2, 3, -1]);
}

#[test]
fn dedup_twice_is_dedup_once() {
    let mut v = vec![4, 0, 4, 1, 0, 9];
    dedup(&mut v);
    let once = v.clone();
    dedup(&mut v);
    assert_eq!(v, once);
}
