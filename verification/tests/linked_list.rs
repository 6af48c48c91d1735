use syskit::linked_list::LinkedList;

fn list_of(values: &[u32]) -> LinkedList<u32> {
    let mut list = LinkedList::new();
    for value in values.iter().rev() {
        list.push_front(*value);
    }
    list
}

#[test]
fn new_list_is_empty() {
    let mut list: LinkedList<u32> = LinkedList::new();
    assert!(list.is_empty());
    assert_eq!(list.get_size(), 0);
    assert_eq!(list.pop_front(), None);
    assert_eq!(list.get_size(), 0);
    let other: LinkedList<String> = LinkedList::default();
    assert!(other.is_empty());
}

#[test]
fn push_and_pop_at_the_front() {
    let mut list: LinkedList<u32> = LinkedList::new();
    for i in 1..12 {
        list.push_front(i);
    }
    assert!(!list.is_empty());
    assert_eq!(list.get_size(), 11);
    assert_eq!(list.pop_front(), Some(11));
    assert_eq!(list.get_size(), 10);
    assert_eq!(list.pop_front(), Some(10));
    let mut rest = Vec::new();
    while let Some(value) = list.pop_front() {
        rest.push(value);
    }
    assert_eq!(rest, vec![9, 8, 7, 6, 5, 4, 3, 2, 1]);
    assert!(list.is_empty());
}

#[test]
fn list_owns_values_that_are_not_copy() {
    let mut list: LinkedList<String> = LinkedList::new();
    list.push_front("b".to_string());
    list.push_front("a".to_string());
    assert_eq!(list.pop_front(), Some("a".to_string()));
    assert_eq!(list.pop_front(), Some("b".to_string()));
    assert_eq!(list.pop_front(), None);
}

#[test]
fn to_string_puts_a_space_before_each_value() {
    assert_eq!(list_of(&[]).to_string(), "");
    assert_eq!(list_of(&[7]).to_string(), " 7");
    assert_eq!(list_of(&[11, 10, 9, 1]).to_string(), " 11 10 9 1");
    assert_eq!(list_of(&[0, 4294967295, 100]).to_string(), " 0 4294967295 100");
}

#[test]
fn clone_copies_the_values_in_order() {
    let list = list_of(&[3, 1, 2]);
    let mut copy = list.clone();
    assert_eq!(copy.get_size(), 3);
    assert_eq!(copy.pop_front(), Some(3));
    assert_eq!(copy.pop_front(), Some(1));
    assert_eq!(copy.pop_front(), Some(2));
    assert_eq!(copy.pop_front(), None);
    assert_eq!(list.get_size(), 3);
    assert_eq!(list.to_string(), " 3 1 2");
    assert!(list_of(&[]).clone().is_empty());
}

#[test]
fn lists_compare_by_length_and_values() {
    assert!(list_of(&[]) == list_of(&[]));
    assert!(list_of(&[1, 2, 3]) == list_of(&[1, 2, 3]));
    assert!(list_of(&[1, 2, 3]) != list_of(&[1, 2]));
    assert!(list_of(&[1, 2]) != list_of(&[1, 2, 3]));
    assert!(list_of(&[1, 2, 3]) != list_of(&[1, 2, 4]));
    assert!(list_of(&[0, 2, 3]) != list_of(&[1, 2, 3]));
    assert!(list_of(&[]) != list_of(&[0]));
    let list = list_of(&[5, 6]);
    let mut copy = list.clone();
    assert!(list == copy);
    copy.pop_front();
    assert!(list != copy);
}

#[test]
fn clear_empties_the_list() {
    let mut list = list_of(&[1, 2, 3]);
    list.clear();
    assert!(list.is_empty());
    assert_eq!(list.pop_front(), None);
    list.push_front(9);
    assert_eq!(list.to_string(), " 9");
    let mut long: LinkedList<u32> = LinkedList::new();
    for i in 0..100_000 {
        long.push_front(i);
    }
    long.clear();
    assert_eq!(long.get_size(), 0);
}

#[test]
fn long_list_is_dropped_without_deep_recursion() {
    let mut list: LinkedList<u64> = LinkedList::new();
    for i in 0..2_000_000 {
        list.push_front(i);
    }
    assert_eq!(list.get_size(), 2_000_000);
    drop(list);
}
