use traverse::utils::{range, repeat};
use traverse::{Traversal, TraversalExt};

#[test]
fn map() {
    let vec: Vec<_> = range(0, 5).map(|x| x * 2).collect();
    assert_eq!(vec, &[0, 2, 4, 6, 8]);
}

#[test]
fn filter() {
    let vec: Vec<_> = range(0, 10).filter(|x| x % 2 == 0).collect();
    assert_eq!(vec, &[0, 2, 4, 6, 8]);
}

#[test]
fn filter_map() {
    let vec: Vec<_> = range(0, 10)
        .filter_map(|x| if x % 2 == 0 { Some(x / 2) } else { None })
        .collect();
    assert_eq!(vec, &[0, 1, 2, 3, 4]);
}

#[test]
fn enumerate() {
    let vec: Vec<_> = range(1, 5).enumerate().collect();
    assert_eq!(vec, &[(0, 1), (1, 2), (2, 3), (3, 4)]);
}

#[test]
fn take() {
    let vec: Vec<_> = range(0, 10).take(5).collect();
    assert_eq!(vec, &[0, 1, 2, 3, 4]);
}

#[test]
fn skip() {
    let vec: Vec<_> = range(0, 10).skip(5).collect();
    assert_eq!(vec, &[5, 6, 7, 8, 9]);
}

#[test]
fn take_while() {
    let vec: Vec<_> = range(0, 10).take_while(|&x| x < 5).collect();
    assert_eq!(vec, &[0, 1, 2, 3, 4]);
}

#[test]
fn skip_while() {
    let vec: Vec<_> = range(0, 10).skip_while(|&x| x < 5).collect();
    assert_eq!(vec, &[5, 6, 7, 8, 9]);
}

#[test]
fn inspect() {
    let mut x = 0;
    let vec: Vec<_> = range(0, 5).inspect(|&y| x += y).collect();
    assert_eq!(vec, &[0, 1, 2, 3, 4]);
    assert_eq!(x, 10);
}

#[test]
fn chain() {
    let vec: Vec<_> = range(5, 10).chain(range(0, 5)).collect();
    assert_eq!(vec, &[5, 6, 7, 8, 9, 0, 1, 2, 3, 4]);
}

#[test]
fn cloned() {
    let x = 0;
    let vec: Vec<_> = repeat(&x).cloned().take(5).collect();
    assert_eq!(vec, &[0, 0, 0, 0, 0]);
}
