use std::collections::{BTreeMap, HashMap, VecDeque};
use traverse::utils::{count, range, range_step, repeat};
use traverse::visit::{Tally, Visitor};
use traverse::{Callback, Internal, IntoTraversal, Traversal, TraversalExt};

#[test]
fn foreach_stops_when_the_callback_says_so() {
    let mut seen = Vec::new();
    let callback = range(0, 10).foreach(Callback::new(|x: i32| {
        seen.push(x);
        x == 3
    }));
    assert!(callback.stopped());
    assert_eq!(seen, vec![0, 1, 2, 3]);
}

#[test]
fn foreach_runs_to_the_end_when_never_stopped() {
    let mut seen = Vec::new();
    let callback = range(0, 4).foreach(Callback::new(|x: i32| {
        seen.push(x);
        false
    }));
    assert!(!callback.stopped());
    assert_eq!(seen, vec![0, 1, 2, 3]);
}

#[test]
fn run_visits_every_item() {
    let mut sum = 0;
    range(1, 5).run(|x: i32| sum += x);
    assert_eq!(sum, 10);
}

#[test]
fn run_on_slice_visits_in_index_order() {
    let data = [3u8, 1, 2];
    let mut seen = Vec::new();
    (&data[..]).run(|x| seen.push(*x));
    assert_eq!(seen, vec![3, 1, 2]);
}

#[test]
fn mutable_slice_hands_out_each_element_once() {
    let mut data = [1, 2, 3, 4];
    (&mut data[..]).run(|x| *x *= 10);
    assert_eq!(data, [10, 20, 30, 40]);
}

#[test]
fn mutable_slice_stops_early() {
    let mut data = [1, 2, 3, 4];
    let found = (&mut data[..]).any(|x| {
        *x += 1;
        *x == 3
    });
    assert!(found);
    assert_eq!(data, [2, 3, 3, 4]);
}

#[test]
fn visitor_can_be_driven_by_hand() {
    let mut tally = Tally::new();
    assert!(!tally.visit('a'));
    assert!(!tally.visit('b'));
    assert_eq!(tally.n, 2);
}

#[test]
fn any_asks_nothing_after_the_first_hit() {
    let mut pulled = 0;
    let found = range(0, 10).inspect(|_| pulled += 1).any(|x| x == 3);
    assert!(found);
    assert_eq!(pulled, 4);
}

#[test]
fn all_asks_nothing_after_the_first_failure() {
    let mut pulled = 0;
    let holds = range(0, 10).inspect(|_| pulled += 1).all(|x| x < 6);
    assert!(!holds);
    assert_eq!(pulled, 7);
}

#[test]
fn any_returns_before_a_sequence_that_would_panic() {
    let guarded = range(0, 10).map(|x| {
        assert!(x <= 5);
        x
    });
    assert!(guarded.any(|x| x == 5));
}

#[test]
fn any_returns_on_a_counter() {
    assert!(count(0u64, 1).any(|x| x == 1000));
}

#[test]
fn all_returns_on_a_repeated_value() {
    assert!(!repeat(7).all(|x| x != 7));
}

#[test]
fn any_on_empty_is_false_and_all_is_true() {
    assert!(!range(0, 0).any(|_: i32| true));
    assert!(range(0, 0).all(|_: i32| false));
}

#[test]
fn count_of_take_is_the_smaller_of_both() {
    assert_eq!(range(0, 10).take(3).count(), 3);
    assert_eq!(range(0, 10).take(10).count(), 10);
    assert_eq!(range(0, 10).take(25).count(), 10);
    assert_eq!(range(0, 10).take(0).count(), 0);
    assert_eq!(range(0, 0).take(5).count(), 0);
    assert_eq!(repeat('x').take(7).count(), 7);
    assert_eq!(count(5u8, 0).take(4).count(), 4);
}

#[test]
fn take_pulls_one_item_more_than_it_hands_on() {
    let mut pulled = 0;
    let vec: Vec<i32> = range(0, 10).inspect(|_| pulled += 1).take(3).collect();
    assert_eq!(vec, vec![0, 1, 2]);
    assert_eq!(pulled, 4);
}

#[test]
fn take_while_drops_the_item_that_fails() {
    let mut pulled = 0;
    let vec: Vec<i32> = range(0, 10).inspect(|_| pulled += 1).take_while(|&x| x != 2).collect();
    assert_eq!(vec, vec![0, 1]);
    assert_eq!(pulled, 3);
}

#[test]
fn skip_while_tests_only_the_leading_items() {
    let vec: Vec<i32> = range(0, 8).skip_while(|&x| x % 4 != 3).collect();
    assert_eq!(vec, vec![3, 4, 5, 6, 7]);
}

#[test]
fn skip_more_than_there_is() {
    let vec: Vec<i32> = range(0, 3).skip(5).collect();
    assert_eq!(vec, Vec::<i32>::new());
    let vec: Vec<i32> = range(0, 3).skip(0).collect();
    assert_eq!(vec, vec![0, 1, 2]);
}

#[test]
fn chain_does_not_start_the_second_after_a_stop() {
    let mut second = 0;
    let found = range(0, 3).chain(range(10, 13).inspect(|_| second += 1)).any(|x| x == 2);
    assert!(found);
    assert_eq!(second, 0);
}

#[test]
fn chain_goes_on_into_the_second() {
    let found = range(0, 3).chain(range(10, 13)).any(|x| x == 11);
    assert!(found);
}

#[test]
fn flat_map_hands_out_each_sub_sequence() {
    let vec: Vec<i32> = range(0, 4).flat_map(|n| range(0, n)).collect();
    assert_eq!(vec, vec![0, 0, 1, 0, 1, 2]);
}

#[test]
fn flat_map_stops_inner_and_outer() {
    let mut outer = 0;
    let mut inner = 0;
    let found = range(1, 10)
        .inspect(|_| outer += 1)
        .flat_map(|n| range(0, n))
        .inspect(|_| inner += 1)
        .any(|x| x == 2);
    assert!(found);
    assert_eq!(outer, 3);
    assert_eq!(inner, 6);
}

#[test]
fn enumerate_counts_from_zero() {
    let vec: Vec<(usize, char)> = repeat('a').take(3).enumerate().collect();
    assert_eq!(vec, vec![(0, 'a'), (1, 'a'), (2, 'a')]);
}

#[test]
fn filter_map_keeps_the_payloads() {
    let vec: Vec<u8> = range(0u8, 6).filter_map(|x| if x > 3 { Some(x * 2) } else { None }).collect();
    assert_eq!(vec, vec![8, 10]);
}

#[test]
fn map_of_a_vector_is_the_element_wise_map() {
    let data = vec![3u32, 1, 4, 1, 5, 9, 2, 6];
    let expected: Vec<u32> = data.iter().map(|x| x * x).collect();
    let result: Vec<u32> = data.clone().into_traversal().map(|x| x * x).collect();
    assert_eq!(result, expected);
}

#[test]
fn filter_of_a_vector_keeps_order() {
    let data = vec![3u32, 1, 4, 1, 5, 9, 2, 6];
    let result: Vec<u32> = data.into_traversal().filter(|x| x % 2 == 1).collect();
    assert_eq!(result, vec![3, 1, 1, 5, 9]);
}

#[test]
fn zero_sized_items_round_trip() {
    let none: Vec<()> = Vec::new();
    let got: Vec<()> = (&none[..]).cloned().collect();
    assert_eq!(got.len(), 0);
    let one = vec![()];
    let got: Vec<()> = (&one[..]).cloned().collect();
    assert_eq!(got.len(), 1);
    let many = vec![(); 1000];
    let got: Vec<()> = (&many[..]).cloned().collect();
    assert_eq!(got.len(), 1000);
    assert_eq!((&many[..]).count(), 1000);
    let got: Vec<()> = many.into_traversal().collect();
    assert_eq!(got.len(), 1000);
}

#[test]
fn zero_sized_items_through_a_mutable_slice() {
    let mut many = vec![(); 1000];
    assert_eq!((&mut many[..]).count(), 1000);
}

#[test]
fn bridge_pulls_until_the_iterator_ends() {
    let vec: Vec<char> = Internal::new("abc".chars()).collect();
    assert_eq!(vec, vec!['a', 'b', 'c']);
}

#[test]
fn bridge_leaves_the_rest_after_a_stop() {
    let mut pulled = 0;
    let source = (0..10).inspect(|_| pulled += 1);
    assert!(Internal::new(source).any(|x| x == 2));
    assert_eq!(pulled, 3);
}

#[test]
fn size_hint_of_slice_and_vector() {
    let data = [1, 2, 3];
    assert_eq!((&data[..]).size_hint(), (3, Some(3)));
    assert_eq!(vec![1, 2].into_traversal().size_hint(), (2, Some(2)));
    assert_eq!(range(0, 5).size_hint(), (0, None));
}

#[test]
fn collect_into_a_deque() {
    let deque: VecDeque<i32> = range(0, 4).collect();
    assert_eq!(deque, VecDeque::from(vec![0, 1, 2, 3]));
}

#[test]
fn collect_into_a_hash_map_keeps_the_later_pair() {
    let pairs = vec![(1, 'a'), (2, 'b'), (1, 'c')];
    let map: HashMap<i32, char> = pairs.into_traversal().collect();
    assert_eq!(map.len(), 2);
    assert_eq!(map[&1], 'c');
    assert_eq!(map[&2], 'b');
}

#[test]
fn collect_into_an_ordered_map_keeps_the_later_pair() {
    let pairs = vec![(2, 'b'), (1, 'a'), (2, 'z')];
    let map: BTreeMap<i32, char> = pairs.into_traversal().collect();
    let listed: Vec<(i32, char)> = map.into_iter().collect();
    assert_eq!(listed, vec![(1, 'a'), (2, 'z')]);
}

#[test]
fn stepped_range_ends_where_the_step_would_overflow() {
    assert_eq!(range_step(200u8, 255, 50).collect::<Vec<u8>>(), vec![200, 250]);
    assert_eq!(range_step(100i8, 127, 20).collect::<Vec<i8>>(), vec![100, 120]);
    assert_eq!(range_step(-100i8, -128, -20).collect::<Vec<i8>>(), vec![-100, -120]);
}

#[test]
fn inspect_sees_each_item_before_it_is_handed_on() {
    let order = std::cell::RefCell::new(Vec::new());
    let found = range(0, 5)
        .inspect(|&x| order.borrow_mut().push(("shown", x)))
        .any(|x| {
            order.borrow_mut().push(("asked", x));
            x == 1
        });
    assert!(found);
    assert_eq!(
        order.into_inner(),
        vec![("shown", 0), ("asked", 0), ("shown", 1), ("asked", 1)]
    );
}

#[test]
fn enumerate_counts_the_items_that_reach_it() {
    let vec: Vec<(usize, i32)> = range(0, 10).filter(|x| x % 3 == 0).enumerate().collect();
    assert_eq!(vec, vec![(0, 0), (1, 3), (2, 6), (3, 9)]);
}

#[test]
fn filter_never_stops_on_a_dropped_item() {
    let mut pulled = 0;
    let vec: Vec<i32> = range(0, 6).inspect(|_| pulled += 1).filter(|x| *x < 2).collect();
    assert_eq!(vec, vec![0, 1]);
    assert_eq!(pulled, 6);
}
