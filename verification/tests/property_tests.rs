use dlist::list::List;

#[test]
fn size_counts_insertions_and_deletions() {
    let mut list = List::new();
    // Two failed deletions on the empty list count for nothing.
    assert_eq!(list.delete_front(), None);
    assert_eq!(list.delete_back(), None);
    assert_eq!(list.get_size(), 0);

    // Four insertions, one successful deletion: size is 4 - 1.
    list.insert_front("a".to_string());
    list.insert_back("b".to_string());
    list.insert_front("c".to_string());
    list.insert_back("d".to_string());
    assert!(list.delete_back().is_some());
    assert_eq!(list.get_size(), 3);

    // Three more successful deletions and one failed one: size is 0.
    assert!(list.delete_front().is_some());
    assert!(list.delete_back().is_some());
    assert!(list.delete_front().is_some());
    assert_eq!(list.delete_back(), None);
    assert_eq!(list.get_size(), 0);
}

#[test]
fn is_empty_iff_size_zero() {
    let mut list = List::new();
    assert_eq!(list.is_empty(), list.get_size() == 0);
    assert!(list.is_empty());

    list.insert_back("x".to_string());
    assert_eq!(list.is_empty(), list.get_size() == 0);
    assert!(!list.is_empty());

    list.delete_front();
    assert_eq!(list.is_empty(), list.get_size() == 0);
    assert!(list.is_empty());
}

#[test]
fn get_every_position_from_head() {
    let mut list = List::new();
    list.insert_back("first".to_string());
    list.insert_back("second".to_string());
    list.insert_back("third".to_string());

    assert_eq!(list.get(0).unwrap(), "first");
    assert_eq!(list.get(1).unwrap(), "second");
    assert_eq!(list.get(2).unwrap(), "third");
    assert!(list.get(3).is_none());
    assert!(list.get(-1).is_none());
}

#[test]
fn front_after_delete_front() {
    let mut list = List::new();
    list.insert_back("1".to_string());
    list.insert_back("2".to_string());
    list.insert_back("3".to_string());

    assert_eq!(list.delete_front().unwrap(), "1");
    assert_eq!(list.front().unwrap(), "2");

    assert_eq!(list.delete_front().unwrap(), "2");
    assert_eq!(list.front().unwrap(), "3");

    assert_eq!(list.delete_front().unwrap(), "3");
    assert_eq!(list.front(), None);

    // Deleting again is a no-op on the empty list.
    assert_eq!(list.delete_front(), None);
    assert_eq!(list.get_size(), 0);
    assert!(list.is_empty());
}

#[test]
fn delete_back_singleton_equals_delete_front() {
    let mut by_back = List::new();
    by_back.insert_front("only".to_string());
    let mut by_front = List::new();
    by_front.insert_front("only".to_string());

    assert_eq!(by_back.delete_back(), by_front.delete_front());
    assert_eq!(by_back.get_size(), by_front.get_size());
    assert_eq!(by_back.is_empty(), by_front.is_empty());
    assert_eq!(by_back.front(), by_front.front());
    assert_eq!(by_back.back(), by_front.back());
}

#[test]
fn display_joins_values_with_delimiter() {
    let mut list = List::new();
    assert_eq!(list.display(), "");

    list.insert_back("A".to_string());
    assert_eq!(list.display(), "A");

    list.insert_back("B".to_string());
    list.insert_back("C".to_string());
    assert_eq!(list.display(), "A <-> B <-> C");
}

#[test]
fn back_tracks_the_tail() {
    let mut list = List::new();
    assert_eq!(list.back(), None);
    list.insert_back("1".to_string());
    assert_eq!(list.back().unwrap(), "1");
    list.insert_back("2".to_string());
    assert_eq!(list.back().unwrap(), "2");
    assert_eq!(list.delete_back().unwrap(), "2");
    assert_eq!(list.back().unwrap(), "1");
}
