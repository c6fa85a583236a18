use rand::{thread_rng, Rng};
use sort::search::{
    binary_search, linear_search, parallel_search, sequential_search, split_at, split_at_middle,
    std_binary_search,
};

#[test]
fn zero() {
    let slice: [usize; 0] = [];
    let (left, middle, right) = split_at_middle(&slice);
    assert_eq!(left, &[]);
    assert_eq!(middle, None);
    assert_eq!(right, &[]);
}

#[test]
fn one() {
    let slice = [1];
    let (left, middle, right) = split_at_middle(&slice);
    assert_eq!(left, &[]);
    assert_eq!(middle, Some(&1));
    assert_eq!(right, &[]);
}

#[test]
fn two() {
    let slice = [1, 2];
    let (left, middle, right) = split_at_middle(&slice);
    assert_eq!(left, &[1]);
    assert_eq!(middle, Some(&2));
    assert_eq!(right, &[]);
}

#[test]
fn three() {
    let slice = [1, 2, 3];
    let (left, middle, right) = split_at_middle(&slice);
    assert_eq!(left, &[1]);
    assert_eq!(middle, Some(&2));
    assert_eq!(right, &[3]);
}

#[test]
fn four() {
    let slice = [1, 2, 3, 4];
    let (left, middle, right) = split_at_middle(&slice);
    assert_eq!(left, &[1, 2]);
    assert_eq!(middle, Some(&3));
    assert_eq!(right, &[4]);
}

#[test]
fn five() {
    let slice = [1, 2, 3, 4, 5];
    let (left, middle, right) = split_at_middle(&slice);
    assert_eq!(left, &[1, 2]);
    assert_eq!(middle, Some(&3));
    assert_eq!(right, &[4, 5]);
}

#[test]
fn split_at_out_of_bounds_is_empty() {
    let slice = [1, 2, 3];
    let (left, middle, right) = split_at(&slice, 3);
    assert!(left.is_empty());
    assert_eq!(middle, None);
    assert!(right.is_empty());
}

#[test]
fn main_no_such_element() {
    let slice = [1, 2, 3];
    let index = sequential_search(&4, &slice);
    assert_eq!(index, None);
}

#[test]
fn main_slice_is_empty() {
    let slice: [usize; 0] = [];
    let index = sequential_search(&1, &slice);
    assert_eq!(index, None);
}

#[test]
fn main_find() {
    let slice = [1, 2, 3];
    let index = sequential_search(&2, &slice);
    assert_eq!(index, Some(1));
}

#[test]
fn sequential_search_gives_first_index() {
    let slice = [7, 3, 3, 3];
    assert_eq!(sequential_search(&3, &slice), Some(1));
}

#[test]
fn no_such_element() {
    let slice = [1, 2, 3];
    let index = binary_search(&4, &slice);
    assert_eq!(index, None);
}

#[test]
fn slice_is_empty() {
    let slice: [usize; 0] = [];
    let index = binary_search(&1, &slice);
    assert_eq!(index, None);
}

#[test]
fn find() {
    let slice = [1, 2, 3];
    let index = binary_search(&2, &slice);
    assert_eq!(index, Some(1));
}

#[test]
fn main_big_array() {
    let slice = [1, 2, 3, 4, 5];
    let index = binary_search(&1, &slice);
    assert_eq!(index, Some(0));
}

#[test]
fn binary_search_every_position() {
    let slice: Vec<usize> = (0..17).map(|x| 3 * x + 1).collect();
    for (i, x) in slice.iter().enumerate() {
        assert_eq!(binary_search(x, &slice), Some(i));
        assert_eq!(binary_search(&(x + 1), &slice), None);
    }
    assert_eq!(binary_search(&0, &slice), None);
}

fn random_check_binary() {
    let mut rng = thread_rng();
    let len = 100;

    let mut array: Vec<usize> = (0..len).map(|_| rng.gen()).collect();
    let check = rng.gen_range(0..len);

    array.sort();
    let index = binary_search(&array[check], &array);
    assert_eq!(index, Some(check));
}

#[test]
fn main_random_check_repeatedly() {
    for _ in 0..100 {
        random_check_binary()
    }
}

fn random_check_linear() {
    let mut rng = thread_rng();
    let len = 100;

    let mut array: Vec<i32> = (0..len).map(|_| rng.gen()).collect();
    let check = rng.gen_range(0..len);

    array.sort();
    let index = linear_search(&array[check], &array);
    assert_eq!(index, Some(check));
}

#[test]
fn random_check_repeatedly() {
    for _ in 0..100 {
        random_check_linear()
    }
}

#[test]
fn linear_search_small_cases() {
    let slice = [1, 2, 3];
    assert_eq!(linear_search(&4, &slice), None);
    assert_eq!(linear_search(&2, &slice), Some(1));
    assert_eq!(linear_search(&0, &slice), None);
    let empty: [i32; 0] = [];
    assert_eq!(linear_search(&1, &empty), None);
    let big = [1, 2, 3, 4, 5];
    assert_eq!(linear_search(&1, &big), Some(0));
}

#[test]
fn linear_search_constant_slice() {
    let slice = [4, 4, 4];
    assert_eq!(linear_search(&4, &slice), Some(0));
    assert_eq!(linear_search(&5, &slice), None);
}

#[test]
fn linear_search_uneven_values() {
    let slice = [-100, -3, 0, 1, 2, 50, 51, 1000];
    for (i, x) in slice.iter().enumerate() {
        assert_eq!(linear_search(x, &slice), Some(i));
    }
    assert_eq!(linear_search(&49, &slice), None);
    assert_eq!(linear_search(&-101, &slice), None);
    assert_eq!(linear_search(&1001, &slice), None);
}

#[test]
fn linear_search_agrees_with_binary_search() {
    let slice: Vec<i32> = vec![-7, -7, 0, 3, 3, 9, 12, 40];
    for t in -10..45 {
        assert_eq!(
            linear_search(&t, &slice).is_some(),
            binary_search(&t, &slice).is_some()
        );
    }
}

#[test]
fn parallel_search_cases() {
    let slice = [1, 2, 3];
    assert_eq!(parallel_search(&4, &slice), None);
    assert_eq!(parallel_search(&2, &slice), Some(1));
    let empty: [usize; 0] = [];
    assert_eq!(parallel_search(&1, &empty), None);
}

#[test]
fn std_binary_search_cases() {
    let slice = [1, 2, 3, 8];
    assert_eq!(std_binary_search(&8, &slice), Some(3));
    assert_eq!(std_binary_search(&5, &slice), None);
}
