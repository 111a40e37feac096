use traverse::prim::PrimInt;
use traverse::utils::{
    count, iterate, range, range_inclusive, range_step, range_step_inclusive, repeat,
};
use traverse::{Traversal, TraversalExt};

#[test]
fn checked_add_i8() {
    assert_eq!(PrimInt::checked_add(100i8, 27), Some(127));
    assert_eq!(PrimInt::checked_add(100i8, 28), None);
    assert_eq!(PrimInt::checked_add(-100i8, -29), None);
    assert_eq!(range_step_inclusive(100i8, 127, 9).collect::<Vec<i8>>(), vec![100, 109, 118, 127]);
}

#[test]
fn checked_add_i16() {
    assert_eq!(PrimInt::checked_add(32_000i16, 767), Some(32_767));
    assert_eq!(PrimInt::checked_add(32_000i16, 768), None);
    assert_eq!(range_step(32_000i16, 32_767, 500).collect::<Vec<i16>>(), vec![32_000, 32_500]);
}

#[test]
fn checked_add_i32() {
    assert_eq!(PrimInt::checked_add(i32::MAX - 1, 1), Some(i32::MAX));
    assert_eq!(PrimInt::checked_add(i32::MAX, 1), None);
    assert_eq!(PrimInt::checked_add(i32::MIN, -1), None);
    assert_eq!(
        range_step(i32::MAX - 5, i32::MAX, 3).collect::<Vec<i32>>(),
        vec![i32::MAX - 5, i32::MAX - 2]
    );
}

#[test]
fn checked_add_i64() {
    assert_eq!(PrimInt::checked_add(i64::MAX - 1, 1), Some(i64::MAX));
    assert_eq!(PrimInt::checked_add(i64::MAX, 1), None);
    assert_eq!(
        range_step(i64::MIN + 5, i64::MIN, -3).collect::<Vec<i64>>(),
        vec![i64::MIN + 5, i64::MIN + 2]
    );
}

#[test]
fn checked_add_i128() {
    assert_eq!(PrimInt::checked_add(i128::MAX - 1, 1), Some(i128::MAX));
    assert_eq!(PrimInt::checked_add(i128::MAX, 1), None);
    assert_eq!(
        range_step(i128::MAX - 5, i128::MAX, 3).collect::<Vec<i128>>(),
        vec![i128::MAX - 5, i128::MAX - 2]
    );
}

#[test]
fn checked_add_isize() {
    assert_eq!(PrimInt::checked_add(isize::MAX - 1, 1), Some(isize::MAX));
    assert_eq!(PrimInt::checked_add(isize::MAX, 1), None);
    assert_eq!(
        range_step(isize::MAX - 5, isize::MAX, 3).collect::<Vec<isize>>(),
        vec![isize::MAX - 5, isize::MAX - 2]
    );
}

#[test]
fn checked_add_u8() {
    assert_eq!(PrimInt::checked_add(200u8, 55), Some(255));
    assert_eq!(PrimInt::checked_add(200u8, 56), None);
    assert_eq!(range_step_inclusive(200u8, 255, 50).collect::<Vec<u8>>(), vec![200, 250]);
}

#[test]
fn checked_add_u16() {
    assert_eq!(PrimInt::checked_add(65_000u16, 535), Some(65_535));
    assert_eq!(PrimInt::checked_add(65_000u16, 536), None);
    assert_eq!(range_step(65_000u16, 65_535, 500).collect::<Vec<u16>>(), vec![65_000, 65_500]);
}

#[test]
fn checked_add_u32() {
    assert_eq!(PrimInt::checked_add(u32::MAX - 1, 1), Some(u32::MAX));
    assert_eq!(PrimInt::checked_add(u32::MAX, 1), None);
    assert_eq!(
        range_step(u32::MAX - 5, u32::MAX, 3).collect::<Vec<u32>>(),
        vec![u32::MAX - 5, u32::MAX - 2]
    );
}

#[test]
fn checked_add_u64() {
    assert_eq!(PrimInt::checked_add(u64::MAX - 1, 1), Some(u64::MAX));
    assert_eq!(PrimInt::checked_add(u64::MAX, 1), None);
    assert_eq!(
        range_step(u64::MAX - 5, u64::MAX, 3).collect::<Vec<u64>>(),
        vec![u64::MAX - 5, u64::MAX - 2]
    );
}

#[test]
fn checked_add_u128() {
    assert_eq!(PrimInt::checked_add(u128::MAX - 1, 1), Some(u128::MAX));
    assert_eq!(PrimInt::checked_add(u128::MAX, 1), None);
    assert_eq!(
        range_step(u128::MAX - 5, u128::MAX, 3).collect::<Vec<u128>>(),
        vec![u128::MAX - 5, u128::MAX - 2]
    );
}

#[test]
fn checked_add_usize() {
    assert_eq!(PrimInt::checked_add(usize::MAX - 1, 1), Some(usize::MAX));
    assert_eq!(PrimInt::checked_add(usize::MAX, 1), None);
    assert_eq!(
        range_step(usize::MAX - 5, usize::MAX, 3).collect::<Vec<usize>>(),
        vec![usize::MAX - 5, usize::MAX - 2]
    );
}

#[test]
fn zero_one_and_order() {
    assert_eq!(<i32 as PrimInt>::zero(), 0);
    assert_eq!(<u8 as PrimInt>::one(), 1);
    assert!(PrimInt::less_than(-1i32, 0));
    assert!(!PrimInt::less_than(3u8, 3));
    assert_eq!(PrimInt::plus(40i64, 2), 42);
}

#[test]
fn range_up_to_the_largest_value() {
    assert_eq!(range(250u8, 255).collect::<Vec<u8>>(), vec![250, 251, 252, 253, 254]);
    assert_eq!(range_inclusive(250u8, 255).collect::<Vec<u8>>(), vec![250, 251, 252, 253, 254, 255]);
    assert_eq!(range_inclusive(i8::MIN, i8::MIN).collect::<Vec<i8>>(), vec![-128]);
    assert_eq!(range_inclusive(5i8, 4).collect::<Vec<i8>>(), Vec::<i8>::new());
}

#[test]
fn stepped_range_inclusive_up_to_the_largest_value() {
    assert_eq!(range_step_inclusive(251u8, 255, 2).collect::<Vec<u8>>(), vec![251, 253, 255]);
    assert_eq!(range_step_inclusive(-126i8, -128, -1).collect::<Vec<i8>>(), vec![-126, -127, -128]);
}

#[test]
fn stepped_range_with_step_zero() {
    assert_eq!(range_step(0, 10, 0).collect::<Vec<i32>>(), Vec::<i32>::new());
    assert_eq!(range_step(10, 0, 0).take(3).collect::<Vec<i32>>(), vec![10, 10, 10]);
    assert_eq!(range_step_inclusive(0, 10, 0).collect::<Vec<i32>>(), Vec::<i32>::new());
    assert_eq!(range_step_inclusive(5, 5, 0).take(2).collect::<Vec<i32>>(), vec![5, 5]);
}

#[test]
fn stepped_range_against_the_direction() {
    assert_eq!(range_step(0, 10, -1).collect::<Vec<i32>>(), Vec::<i32>::new());
    assert_eq!(range_step(10, 0, 1).collect::<Vec<i32>>(), Vec::<i32>::new());
}

#[test]
fn counter_advances_by_step() {
    assert_eq!(count(10, 5).take(4).collect::<Vec<i32>>(), vec![10, 15, 20, 25]);
    assert_eq!(count(10, -5).take(4).collect::<Vec<i32>>(), vec![10, 5, 0, -5]);
    assert_eq!(count(3u8, 0).take(3).collect::<Vec<u8>>(), vec![3, 3, 3]);
}

#[test]
fn counter_ends_where_the_type_ends() {
    assert_eq!(count(250u8, 2).collect::<Vec<u8>>(), vec![250, 252, 254]);
    assert_eq!(count(-126i8, -1).collect::<Vec<i8>>(), vec![-126, -127, -128]);
    assert_eq!(count(253u8, 1).count(), 3);
}

#[test]
fn iterate_yields_the_seed_first() {
    assert_eq!(iterate(3u64, |x| x + 1).take(1).collect::<Vec<u64>>(), vec![3]);
    assert_eq!(iterate(1u64, |x| x * 3).take(4).collect::<Vec<u64>>(), vec![1, 3, 9, 27]);
}

#[test]
fn iterate_stops_on_the_seed() {
    let mut calls = 0;
    let found = iterate(0, |x: i32| {
        calls += 1;
        x + 1
    })
    .any(|x| x == 0);
    assert!(found);
    assert_eq!(calls, 0);
}

#[test]
fn iterate_applies_the_function_once_per_further_item() {
    let mut calls = 0;
    let found = iterate(0, |x: i32| {
        calls += 1;
        x + 1
    })
    .any(|x| x == 3);
    assert!(found);
    assert_eq!(calls, 3);
}

#[test]
fn repeat_clones_the_element() {
    let word = String::from("ab");
    let vec: Vec<String> = repeat(word).take(2).collect();
    assert_eq!(vec, vec![String::from("ab"), String::from("ab")]);
}
