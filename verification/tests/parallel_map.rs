use deet::parallel_map::{empty_slots, finish, map_all, next_job, place};

#[test]
fn next_job_hands_out_from_the_back_with_the_index() {
    let mut queue = vec!['a', 'b', 'c'];
    assert_eq!(next_job(&mut queue), Some((2, 'c')));
    assert_eq!(next_job(&mut queue), Some((1, 'b')));
    assert_eq!(queue, vec!['a']);
    assert_eq!(next_job(&mut queue), Some((0, 'a')));
    assert_eq!(next_job(&mut queue), None);
    assert_eq!(next_job(&mut queue), None);
}

#[test]
fn empty_slots_are_all_empty() {
    let slots: Vec<Option<u8>> = empty_slots(3);
    assert_eq!(slots, vec![None, None, None]);
    let none: Vec<Option<u8>> = empty_slots(0);
    assert!(none.is_empty());
}

#[test]
fn place_fills_the_place_with_the_index() {
    let mut slots: Vec<Option<&str>> = empty_slots(3);
    assert!(place(&mut slots, 1, "one"));
    assert_eq!(slots, vec![None, Some("one"), None]);
    assert!(place(&mut slots, 1, "uno"));
    assert_eq!(slots, vec![None, Some("uno"), None]);
    assert!(!place(&mut slots, 3, "three"));
    assert_eq!(slots, vec![None, Some("uno"), None]);
}

#[test]
fn finish_needs_every_place_filled() {
    assert_eq!(finish(vec![Some(1), Some(2), Some(3)]), Some(vec![1, 2, 3]));
    assert_eq!(finish(vec![Some(1), None, Some(3)]), None);
    assert_eq!(finish(vec![None::<u8>]), None);
    assert_eq!(finish(Vec::<Option<u8>>::new()), Some(vec![]));
}

#[test]
fn results_arrive_in_any_order_and_end_up_in_place() {
    let mut queue = vec![6, 7, 8, 9, 10];
    let mut slots = empty_slots(queue.len());
    let mut jobs = Vec::new();
    while let Some(job) = next_job(&mut queue) {
        jobs.push(job);
    }
    jobs.swap(0, 3);
    jobs.swap(1, 4);
    for (index, item) in jobs {
        assert!(place(&mut slots, index, item * item));
    }
    assert_eq!(finish(slots), Some(vec![36, 49, 64, 81, 100]));
}

#[test]
fn map_all_squares_in_order() {
    let v = vec![6, 7, 8, 9, 10, 1, 2, 3, 4, 5, 12, 18, 11, 5, 20];
    let squares = map_all(v, |num| num * num);
    assert_eq!(squares, vec![36, 49, 64, 81, 100, 1, 4, 9, 16, 25, 144, 324, 121, 25, 400]);
    let none: Vec<String> = map_all(Vec::<u8>::new(), |n| n.to_string());
    assert!(none.is_empty());
}
