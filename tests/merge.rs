use sort::csort::{merge_sort, merge_two_sorted_array};
use sort::merge_two_sorted::{merge_two_sorted, merge_two_sorted_rs, MergeError, Stack};

#[test]
fn one_element_array() {
    let mut array = [5, 2];
    merge_two_sorted(&mut array, 1).unwrap();
    assert_eq!(array, [2, 5]);
}

#[test]
fn empty_element_right() {
    let mut array = [0];
    merge_two_sorted(&mut array, 0).unwrap();
    assert_eq!(array, [0]);
}

#[test]
fn empty_element_left() {
    let mut array = [2];
    merge_two_sorted(&mut array, 1).unwrap();
    assert_eq!(array, [2]);
}

#[test]
fn empty_element_both() {
    let mut array: [i32; 0] = [];
    merge_two_sorted(&mut array, 0).unwrap();
    assert_eq!(array, [0; 0]);
}

#[test]
fn merge_array() {
    let mut array = [-1, 0, 3, 5, 6, -3, 5, 7, 8, 8, 9, 10];
    merge_two_sorted(&mut array, 5).unwrap();
    assert_eq!(array, [-3, -1, 0, 3, 5, 5, 6, 7, 8, 8, 9, 10]);
}

#[test]
fn split_past_end_is_refused() {
    let mut array = [5, 2];
    assert_eq!(merge_two_sorted(&mut array, 3), Err(MergeError::SplitOutOfRange));
    assert_eq!(array, [5, 2]);
}

#[test]
fn merge_two_sorted_rs_example() {
    let array3 = merge_two_sorted_rs(&[1, 3, 5], &[2, 9]);
    assert_eq!(array3, vec![1, 2, 3, 5, 9]);
}

#[test]
fn merge_two_sorted_rs_empty_left() {
    let empty: [i32; 0] = [];
    assert_eq!(merge_two_sorted_rs(&empty, &[0]), vec![0]);
    assert_eq!(merge_two_sorted_rs(&[0], &empty), vec![0]);
    assert_eq!(merge_two_sorted_rs(&empty, &empty), Vec::<i32>::new());
}

#[test]
fn merge_two_sorted_rs_equal_keys() {
    let merged = merge_two_sorted_rs(&[1usize, 4, 4, 7], &[0, 4, 8]);
    assert_eq!(merged, vec![0, 1, 4, 4, 4, 7, 8]);
}

#[test]
fn stack_full_after_capacity_pushes() {
    let mut stack = Stack::new(3);
    stack.push(1);
    stack.push(2);
    stack.push(3);
    assert_eq!(stack.take_if_full(), Some(vec![1, 2, 3]));
}

#[test]
fn stack_not_full_is_refused() {
    let mut stack = Stack::new(3);
    stack.push(1);
    stack.push(2);
    assert_eq!(stack.take_if_full(), None);
}

#[test]
fn stack_pop_order() {
    let mut stack = Stack::new(2);
    assert_eq!(stack.pop(), None::<i32>);
    stack.push(7);
    stack.push(8);
    assert_eq!(stack.len(), 2);
    assert_eq!(stack.pop(), Some(8));
    assert_eq!(stack.pop(), Some(7));
    assert_eq!(stack.pop(), None);
    stack.push(9);
    stack.push(10);
    assert_eq!(stack.take_no_check(), vec![9, 10]);
}

#[test]
fn merge_two_sorted_array_in_place() {
    let mut array = [1, 4, 9, 0, 4, 5];
    merge_two_sorted_array(&mut array, 3);
    assert_eq!(array, [0, 1, 4, 4, 5, 9]);
}

#[test]
fn merge_sort_sorts() {
    let mut array = [5, -3, 8, 8, 0, 12, -40, 7, 1];
    merge_sort(&mut array);
    assert_eq!(array, [-40, -3, 0, 1, 5, 7, 8, 8, 12]);
    let mut empty: [i32; 0] = [];
    merge_sort(&mut empty);
    assert_eq!(empty, [0; 0]);
    let mut one = [3];
    merge_sort(&mut one);
    assert_eq!(one, [3]);
}
