use stl::algo;
use stl::range::InputRange;
use stl::rng;

#[test]
pub fn copy_if_to_end() {
    let vec1 = vec![1, 2, 3, 4];
    let mut vec2 = vec![0, 0, 0];

    let j = algo::copy_if(&vec1, 2, vec1.end(), &mut vec2, 1, |x: &i32| x % 2 == 0);

    assert_eq!(vec2, vec![0, 4, 0]);
    assert_eq!(j, 2);

    let j = rng::copy_if(&vec1, &mut vec2, 1, |x: &i32| x % 2 == 0);
    assert_eq!(vec2, vec![0, 2, 4]);
    assert_eq!(j, 3);
}

#[test]
pub fn copy_to_end() {
    let vec1 = vec![1, 2, 3, 4];
    let mut vec2 = vec![0, 0, 0, 0, 0];

    let j = algo::copy(&vec1, 2, vec1.end(), &mut vec2, 1);

    assert_eq!(vec2, vec![0, 3, 4, 0, 0]);
    assert_eq!(j, 3);

    let j = rng::copy(&vec1, &mut vec2, 1);
    assert_eq!(vec2, vec![0, 1, 2, 3, 4]);
    assert_eq!(j, 5);
}

#[test]
pub fn copy_if_empty_range() {
    let vec1: Vec<i32> = vec![];
    let mut vec2 = vec![0, 0, 0];

    let j = algo::copy_if(&vec1, 0, vec1.end(), &mut vec2, 1, |x: &i32| x % 2 == 0);

    assert_eq!(vec2, vec![0, 0, 0]);
    assert_eq!(j, 1);

    let j = rng::copy_if(&vec1, &mut vec2, 1, |x: &i32| x % 2 == 0);
    assert_eq!(vec2, vec![0, 0, 0]);
    assert_eq!(j, 1);
}

#[test]
pub fn copy_empty_range() {
    let vec1: Vec<i32> = vec![];
    let mut vec2 = vec![0, 0, 0, 0, 0];

    let j = algo::copy(&vec1, 0, vec1.end(), &mut vec2, 1);

    assert_eq!(vec2, vec![0, 0, 0, 0, 0]);
    assert_eq!(j, 1);

    let j = rng::copy(&vec1, &mut vec2, 1);
    assert_eq!(vec2, vec![0, 0, 0, 0, 0]);
    assert_eq!(j, 1);
}

#[test]
fn copy_if_writes_matching_elements_in_order() {
    let src = vec![5, 2, 7, 4, 9, 6];
    let mut dst = vec![0, 0, 0];
    let j = rng::copy_if(&src, &mut dst, 0, |x: &i32| x % 2 == 0);
    assert_eq!(dst, vec![2, 4, 6]);
    assert_eq!(j, 3);
}

#[test]
fn copy_matches_copy_if_with_always_true() {
    let src = vec![3, 1, 2];
    let mut dst_copy = vec![0, 0, 0, 0];
    let mut dst_copy_if = vec![0, 0, 0, 0];
    let j_copy = rng::copy(&src, &mut dst_copy, 1);
    let j_copy_if = rng::copy_if(&src, &mut dst_copy_if, 1, |_x: &i32| true);
    assert_eq!(dst_copy, dst_copy_if);
    assert_eq!(j_copy, j_copy_if);
    assert_eq!(dst_copy, vec![0, 3, 1, 2]);
    assert_eq!(j_copy, 4);
}

#[test]
fn copy_between_array_and_vec() {
    let src = [10u32, 20, 30];
    let mut dst = vec![0u32, 0, 0, 0];
    let j = rng::copy(&src, &mut dst, 0);
    assert_eq!(dst, vec![10, 20, 30, 0]);
    assert_eq!(j, 3);
}
