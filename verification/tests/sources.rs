use traverse::utils::{
    iterate, range, range_inclusive, range_step, range_step_inclusive, repeat,
};
use traverse::{Internal, IntoTraversal, Traversal, TraversalExt};

#[test]
fn slice_test_basic() {
    let data = [1, 2, 5, 4, 6, 7];
    let traversal: Vec<usize> = (&data[..]).map(|&x| x).collect();
    assert_eq!(traversal, data);
}

#[test]
fn slice_test_zero_size() {
    let data = [(), (), ()];
    let traversal: Vec<()> = (&data[..]).map(|&x| x).collect();
    assert_eq!(traversal, data);
}

#[test]
fn vec_test_basic() {
    let data = vec![1, 2, 5, 4, 6, 7];
    let traversal: Vec<usize> = data.clone().into_traversal().collect();
    assert_eq!(traversal, data);
}

#[test]
fn vec_test_zero_size() {
    let data = vec![(), (), ()];
    let traversal: Vec<()> = data.clone().into_traversal().collect();
    assert_eq!(traversal, data);
}

#[test]
fn test_any() {
    assert!(Internal::new([1, 2, 3, 4].iter()).cloned().any(|i| i > 3));
    assert!(!Internal::new([1, 2, 3, 4].iter()).cloned().any(|i| i > 4));
}

#[test]
fn test_all() {
    assert!(Internal::new([1, 2, 3, 4].iter()).cloned().all(|i| i < 5));
    assert!(!Internal::new([1, 2, 3, 4].iter()).cloned().all(|i| i < 4));
}

#[test]
fn test_range() {
    assert_eq!(range(0, 5).collect::<Vec<i32>>(), vec![0, 1, 2, 3, 4]);
    assert_eq!(range(-10, -1).collect::<Vec<i32>>(), vec![-10, -9, -8, -7, -6, -5, -4, -3, -2]);
    assert_eq!(range(200i32, -5).count(), 0);
    assert_eq!(range(200i32, 200).count(), 0);
}

#[test]
fn test_range_inclusive() {
    assert_eq!(range_inclusive(0, 5).collect::<Vec<i32>>(), vec![0, 1, 2, 3, 4, 5]);
    assert_eq!(range_inclusive(200i32, -5).count(), 0);
    assert_eq!(range_inclusive(200, 200).collect::<Vec<i32>>(), vec![200]);
}

#[test]
fn test_range_step() {
    assert_eq!(range_step(0, 20, 5).collect::<Vec<i32>>(), vec![0, 5, 10, 15]);
    assert_eq!(range_step(20, 0, -5).collect::<Vec<i32>>(), vec![20, 15, 10, 5]);
    assert_eq!(range_step(20, 0, -6).collect::<Vec<i32>>(), vec![20, 14, 8, 2]);
    assert_eq!(range_step(200u8, 255, 50).collect::<Vec<u8>>(), vec![200u8, 250]);
    assert_eq!(range_step(200, -5, 1).collect::<Vec<i32>>(), vec![]);
    assert_eq!(range_step(200, 200, 1).collect::<Vec<i32>>(), vec![]);
}

#[test]
fn test_range_step_inclusive() {
    assert_eq!(range_step_inclusive(0, 20, 5).collect::<Vec<i32>>(), vec![0, 5, 10, 15, 20]);
    assert_eq!(range_step_inclusive(20, 0, -5).collect::<Vec<i32>>(), vec![20, 15, 10, 5, 0]);
    assert_eq!(range_step_inclusive(20, 0, -6).collect::<Vec<i32>>(), vec![20, 14, 8, 2]);
    assert_eq!(range_step_inclusive(200, 255, 50).collect::<Vec<u8>>(), vec![200, 250]);
    assert_eq!(range_step_inclusive(200, -5, 1).collect::<Vec<i32>>(), vec![]);
    assert_eq!(range_step_inclusive(200, 200, 1).collect::<Vec<i32>>(), vec![200]);
}

#[test]
fn test_iterate() {
    assert_eq!(iterate(1, |x| x * 2).take(5).collect::<Vec<i32>>(), vec![1, 2, 4, 8, 16]);
}

#[test]
fn test_repeat() {
    assert_eq!(repeat(42).take(5).collect::<Vec<i32>>(), vec![42, 42, 42, 42, 42]);
}
