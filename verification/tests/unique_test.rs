use stl::range::InputRange;
use stl::rng;
use stl::rng::infix::STLUniqueExt;

#[test]
fn unique_compacts_adjacent_duplicates() {
    let mut arr = [1, 1, 2];
    let i = rng::unique(&mut arr);
    assert_eq!(i, 2);
    assert_eq!(&arr[..i], &[1, 2]);
}

#[test]
fn unique_on_empty_range_is_noop() {
    let mut v: Vec<i32> = vec![];
    let i = rng::unique(&mut v);
    assert_eq!(i, 0);
    assert_eq!(v, vec![]);
}

#[test]
fn unique_without_adjacent_duplicates_keeps_everything() {
    let mut v = vec![1, 2, 3, 2, 1];
    let i = rng::unique(&mut v);
    assert_eq!(i, 5);
    assert_eq!(v, vec![1, 2, 3, 2, 1]);
}

#[test]
fn unique_keeps_nonadjacent_equal_elements_as_runs() {
    let mut v = vec![1, 1, 2, 2, 1];
    let i = rng::unique(&mut v);
    assert_eq!(i, 3);
    assert_eq!(&v[..i], &[1, 2, 1]);
    let mut permuted = v.clone();
    permuted.sort();
    assert_eq!(permuted, vec![1, 1, 1, 2, 2]);
}

#[test]
fn unique_by_equal_first_component() {
    let mut arr = [(1, 2), (1, 3), (2, 3)];
    let i = rng::unique_by(&mut arr, |x: &(i32, i32), y: &(i32, i32)| x.0 == y.0);
    assert_eq!(i, 2);
    assert_eq!(&arr[..i], &[(1, 2), (2, 3)]);
}

#[test]
fn unique_by_infix_form() {
    let mut arr = [(1, 2), (1, 3), (2, 3)];
    let i = arr.unique_by(|x: &(i32, i32), y: &(i32, i32)| x.0 == y.0);
    assert_eq!(i, 2);
    assert_eq!(&arr[..i], &[(1, 2), (2, 3)]);
}

#[test]
fn unique_infix_form() {
    let mut arr = [1, 1, 2];
    let i = arr.unique();
    assert_eq!(i, 2);
    assert_eq!(&arr[..i], &[1, 2]);
}

#[test]
fn unique_is_idempotent_on_compacted_prefix() {
    let mut v = vec![4, 4, 4, 7, 7, 1, 4];
    let i = rng::unique(&mut v);
    assert_eq!(i, 4);
    assert_eq!(&v[..i], &[4, 7, 1, 4]);
    let mut prefix: Vec<i32> = v[..i].to_vec();
    let j = rng::unique(&mut prefix);
    assert_eq!(j, i);
    assert_eq!(prefix, vec![4, 7, 1, 4]);
}

#[test]
fn unique_copy_by_into_exact_capacity() {
    let src = [(1, 2), (1, 3), (2, 3)];
    let mut dest = [(0, 0), (0, 0)];
    let i = rng::unique_copy_by(&src, &mut dest, |x: &(i32, i32), y: &(i32, i32)| x.0 == y.0);
    assert_eq!(i, 2);
    assert_eq!(dest, [(1, 2), (2, 3)]);
}

#[test]
fn unique_copy_compacts_adjacent_equal_elements() {
    let src = [1, 1, 2];
    let mut dest = [0, 0];
    let i = rng::unique_copy(&src, &mut dest);
    assert_eq!(i, 2);
    assert_eq!(dest, [1, 2]);
}

#[test]
fn unique_leaves_range_size_unchanged() {
    let mut v = vec![9, 9, 9, 9];
    let before = v.len();
    let i = rng::unique(&mut v);
    assert_eq!(i, 1);
    assert_eq!(v.len(), before);
    assert_eq!(v[0], 9);
}

#[test]
fn explicit_bounds_unique_works_on_subrange() {
    let mut v = vec![5, 1, 1, 2, 8];
    let i = stl::algo::unique_by(&mut v, 1, 4, |x: &i32, y: &i32| x == y);
    assert_eq!(i, 3);
    assert_eq!(&v[..3], &[5, 1, 2]);
    assert_eq!(v[4], 8);
    assert_eq!(v.len(), 5);
}

#[test]
fn distance_counts_after_steps() {
    let v = vec![3, 1, 4, 1, 5];
    let d = stl::range::ForwardRange::distance(&v, v.start(), v.end());
    assert_eq!(d, 5);
    let mut steps = 0;
    let mut p = v.start();
    while p != v.end() {
        p = v.after(p);
        steps += 1;
    }
    assert_eq!(d, steps);

    let a = [7u64, 8, 9];
    let d2 = stl::range::ForwardRange::distance(&a, a.start(), a.end());
    assert_eq!(d2, 3);
    let mut steps2 = 0;
    let mut q = a.start();
    while q != a.end() {
        q = a.after(q);
        steps2 += 1;
    }
    assert_eq!(d2, steps2);
}

#[test]
fn position_stepping_on_arrays() {
    let a = [2u32, 4, 6, 8];
    assert_eq!(a.start(), 0);
    assert_eq!(a.end(), 4);
    assert_eq!(a.after(1), 2);
    assert_eq!(a.after_n(0, 3), 3);
    assert_eq!(stl::range::BidirectionalRange::before(&a, 2), 1);
    assert_eq!(stl::range::BidirectionalRange::before_n(&a, 3, 2), 1);
    assert_eq!(*a.at(&2), 6);
}

#[test]
fn add_sums_machine_words() {
    assert_eq!(stl::add(2, 3), 5);
    assert_eq!(stl::add(0, 0), 0);
}
