use sort::test_data::{merge_array, stroll};
use sort::test_utils::{test_empty, test_sort, test_sort_by, test_sort_by_key};
use sort::{Solution, Stable};

#[test]
fn stable_empty() {
    assert!(test_empty(Stable));
}

#[test]
fn test_data_empty() {
    let lhs: [isize; 0] = [];
    let rhs: [isize; 0] = [];
    let array = merge_array(lhs, rhs);
    assert!(array.is_empty());
}

#[test]
fn merge_array_adds_elementwise() {
    assert_eq!(merge_array([1, 2, 3], [4, 5, 6]), [5, 7, 9]);
}

#[test]
fn sort_method_with_closure() {
    let array = vec![0, 1, 2, 3, 4, 5, 6, 7, 8, 9];
    let a = Stable::sort_method(array, |a: &i32, b: &i32| a < b);
    assert!(a.force_check());
    assert_eq!(a.take(), [0, 1, 2, 3, 4, 5, 6, 7, 8, 9]);
}

#[test]
fn sort_natural_order() {
    let sorted = Stable::sort(vec![5, -1, 3, 3, 0, 9, -7]);
    assert!(sorted.force_check());
    assert_eq!(sorted.as_slice(), &[-7, -1, 0, 3, 3, 5, 9]);
}

#[test]
fn sort_by_reversed_comparison() {
    let sorted = Stable::sort_by(vec![2, 8, 1, 5], |a: &i32, b: &i32| b.cmp(a));
    assert!(sorted.force_check());
    assert_eq!(sorted.take(), vec![8, 5, 2, 1]);
}

#[test]
fn sort_by_key_is_stable() {
    let sorted = Stable::sort_by_key(vec![13, 2, 21, 4, 11, 3], |x: &i32| *x % 10);
    assert!(sorted.force_check());
    assert_eq!(sorted.take(), vec![21, 11, 2, 13, 3, 4]);
}

#[test]
fn sort_empty_and_single() {
    assert_eq!(Stable::sort(vec![]).take(), Vec::<i32>::new());
    assert_eq!(Stable::sort(vec![4]).take(), vec![4]);
}

#[test]
fn simple_against_std() {
    let data = vec![0, 1, 2, 3, 4, 5, 6, 7, 8, 9];
    assert!(test_sort(Stable, data.clone()));
    assert!(test_sort_by(Stable, data.clone(), |a: &i32, b: &i32| a.cmp(b)));
    assert!(test_sort_by_key(Stable, data, |i: &i32| *i));
}

#[test]
fn shuffled_against_std() {
    let data = vec![9, -4, 17, 0, 0, 3, -4, 100, 2, 8, 1];
    assert!(test_sort(Stable, data.clone()));
    assert!(test_sort_by(Stable, data.clone(), |a: &i32, b: &i32| a.cmp(b)));
    assert!(test_sort_by_key(Stable, data, |i: &i32| *i));
}

#[test]
fn stroll_walks_from_start() {
    assert_eq!(stroll(5, [100, 1, -2, 3]), Some([5, 6, 4, 7]));
    assert_eq!(stroll(5, [0isize; 0]), Some([]));
    assert_eq!(stroll(isize::MAX - 1, [0, 1, 1]), None);
}
