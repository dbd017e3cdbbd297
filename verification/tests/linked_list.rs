use deet::linked_list::{fmt, LinkedList};

#[test]
fn a_new_list_is_empty() {
    let list: LinkedList<u32> = LinkedList::new();
    assert!(list.is_empty());
    assert_eq!(list.get_size(), 0);
}

#[test]
fn push_front_puts_the_item_first() {
    let mut list: LinkedList<u32> = LinkedList::new();
    for i in 1..12 {
        list.push_front(i);
    }
    assert!(!list.is_empty());
    assert_eq!(list.get_size(), 11);
    assert_eq!(list.pop_front(), Some(11));
    assert_eq!(list.get_size(), 10);
    assert_eq!(list.pop_front(), Some(10));
    assert_eq!(list.get_size(), 9);
}

#[test]
fn pop_front_on_an_empty_list_gives_nothing() {
    let mut list: LinkedList<String> = LinkedList::new();
    assert_eq!(list.pop_front(), None);
    assert_eq!(list.get_size(), 0);
    list.push_front("a".to_string());
    assert_eq!(list.pop_front(), Some("a".to_string()));
    assert_eq!(list.pop_front(), None);
    assert!(list.is_empty());
}

#[test]
fn items_come_off_in_the_reverse_order_of_pushing() {
    let mut list: LinkedList<i64> = LinkedList::new();
    list.push_front(1);
    list.push_front(2);
    list.push_front(3);
    assert_eq!(list.pop_front(), Some(3));
    assert_eq!(list.pop_front(), Some(2));
    list.push_front(7);
    assert_eq!(list.pop_front(), Some(7));
    assert_eq!(list.pop_front(), Some(1));
    assert_eq!(list.pop_front(), None);
}

#[test]
fn a_clone_has_the_same_items_and_a_life_of_its_own() {
    let mut list: LinkedList<String> = LinkedList::new();
    list.push_front("c".to_string());
    list.push_front("b".to_string());
    list.push_front("a".to_string());
    let mut copy = list.clone();
    assert_eq!(copy.get_size(), 3);
    assert!(copy == list);
    assert_eq!(copy.pop_front(), Some("a".to_string()));
    assert_eq!(copy.get_size(), 2);
    assert_eq!(list.get_size(), 3);
    assert!(copy != list);
    assert_eq!(list.pop_front(), Some("a".to_string()));
    assert!(copy == list);
}

#[test]
fn lists_are_equal_when_their_items_are() {
    let mut left: LinkedList<u32> = LinkedList::new();
    let mut right: LinkedList<u32> = LinkedList::new();
    assert!(left == right);
    left.push_front(1);
    assert!(left != right);
    right.push_front(1);
    assert!(left == right);
    left.push_front(2);
    right.push_front(3);
    assert!(left != right);
    left.pop_front();
    right.pop_front();
    assert!(left == right);
    right.push_front(1);
    assert!(left != right);
}

#[test]
fn the_walk_hands_out_every_item_from_the_head_on() {
    let mut list: LinkedList<u32> = LinkedList::new();
    for i in 1..6 {
        list.push_front(i);
    }
    let mut walk = list.into_iter();
    let mut seen: Vec<u32> = Vec::new();
    while let Some(item) = walk.next() {
        seen.push(item);
    }
    assert_eq!(seen, vec![5, 4, 3, 2, 1]);
    assert_eq!(walk.next(), None);
    assert_eq!(list.get_size(), 5);
}

#[test]
fn the_walk_of_an_empty_list_ends_at_once() {
    let list: LinkedList<u32> = LinkedList::new();
    let mut walk = list.into_iter();
    assert_eq!(walk.next(), None);
    assert_eq!(walk.next(), None);
}

#[test]
fn a_list_is_written_with_a_blank_before_every_item() {
    assert_eq!(fmt(&vec![]), "");
    assert_eq!(fmt(&vec!["11".to_string()]), " 11");
    assert_eq!(
        fmt(&vec!["10".to_string(), "9".to_string(), "8".to_string()]),
        " 10 9 8"
    );
    assert_eq!(fmt(&vec!["".to_string(), "x".to_string()]), "  x");
}

#[test]
fn a_long_list_keeps_count() {
    let mut list: LinkedList<usize> = LinkedList::new();
    for i in 0..1000 {
        list.push_front(i);
        assert_eq!(list.get_size(), i + 1);
    }
    for i in (0..1000).rev() {
        assert_eq!(list.pop_front(), Some(i));
        assert_eq!(list.get_size(), i);
    }
    assert!(list.is_empty());
}
