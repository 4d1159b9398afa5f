use deet::linked_list::{LinkedList, Node};

fn list_of(values: &[i32]) -> LinkedList<i32> {
    let mut list = LinkedList::new();
    for value in values.iter().rev() {
        list.push_front(*value);
    }
    list
}

fn drain(list: &mut LinkedList<i32>) -> Vec<i32> {
    let mut out = Vec::new();
    while let Some(value) = list.pop_front() {
        out.push(value);
    }
    out
}

#[test]
fn a_new_list_is_empty() {
    let mut list: LinkedList<String> = LinkedList::new();
    assert!(list.is_empty());
    assert_eq!(list.get_size(), 0);
    assert_eq!(list.pop_front(), None);
    assert_eq!(list.to_string(), "");
}

#[test]
fn node_new_holds_value_and_rest() {
    let tail = Node::new(2, None);
    let head = Node::new(1, Some(Box::new(tail)));
    assert_eq!(head.value, 1);
    assert_eq!(head.next.as_ref().unwrap().value, 2);
    assert!(head.next.unwrap().next.is_none());
}

#[test]
fn push_and_pop_work_at_the_front() {
    let mut list: LinkedList<String> = LinkedList::new();
    for i in 1..12 {
        list.push_front(i.to_string());
    }
    assert!(!list.is_empty());
    assert_eq!(list.get_size(), 11);
    assert_eq!(list.to_string(), " 11 10 9 8 7 6 5 4 3 2 1");
    assert_eq!(list.pop_front(), Some("11".to_string()));
    assert_eq!(list.get_size(), 10);
    assert_eq!(list.to_string(), " 10 9 8 7 6 5 4 3 2 1");
}

#[test]
fn popping_everything_empties_the_list() {
    let mut list = list_of(&[1, 2, 3]);
    assert_eq!(drain(&mut list), vec![1, 2, 3]);
    assert!(list.is_empty());
    assert_eq!(list.get_size(), 0);
    assert_eq!(list.pop_front(), None);
}

#[test]
fn iter_yields_clones_front_first() {
    let list = list_of(&[4, 5, 6]);
    let mut iter = list.iter();
    assert_eq!(iter.next(), Some(4));
    assert_eq!(iter.next(), Some(5));
    assert_eq!(iter.next(), Some(6));
    assert_eq!(iter.next(), None);
    assert_eq!(iter.next(), None);
    assert_eq!(list.get_size(), 3);
}

#[test]
fn clone_copies_the_values_in_order() {
    let mut list = list_of(&[7, 8, 9]);
    let mut copy = list.clone();
    assert_eq!(copy.get_size(), 3);
    assert!(copy == list);
    list.push_front(6);
    assert_eq!(drain(&mut copy), vec![7, 8, 9]);
    assert_eq!(drain(&mut list), vec![6, 7, 8, 9]);
    let empty: LinkedList<i32> = LinkedList::new();
    assert!(empty.clone().is_empty());
}

#[test]
fn lists_are_equal_value_by_value() {
    assert!(list_of(&[1, 2, 3]) == list_of(&[1, 2, 3]));
    assert!(list_of(&[]) == list_of(&[]));
    assert!(list_of(&[1, 2, 3]) != list_of(&[1, 2]));
    assert!(list_of(&[1, 2]) != list_of(&[1, 2, 3]));
    assert!(list_of(&[1, 2, 3]) != list_of(&[1, 2, 4]));
    assert!(list_of(&[0, 2, 3]) != list_of(&[1, 2, 3]));
}

#[test]
fn clear_takes_the_list_apart() {
    let mut list = list_of(&[1, 2, 3]);
    list.clear();
    assert!(list.is_empty());
    assert_eq!(list.get_size(), 0);
    list.push_front(9);
    assert_eq!(list.to_string(), " 9");
}

#[test]
fn a_long_list_is_dropped_without_deep_recursion() {
    let mut list = LinkedList::new();
    for i in 0..1_000_000u32 {
        list.push_front(i);
    }
    assert_eq!(list.get_size(), 1_000_000);
    drop(list);
}
