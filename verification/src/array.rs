//! The reference container adapter: a fixed-length array satisfies every
//! capability, with a machine-width offset as its position type and
//! constant-time overrides for the stepping and distance operations.

use vstd::prelude::*;

use crate::range::{
    BidirectionalRange, ForwardRange, InputRange, OutputRange, RandomAccessRange, SemiOutputRange,
};

verus! {

broadcast use vstd::array::group_array_axioms;

/// Relies on `<[T]>::swap` (reached through the array's slice view):
/// exchanges the elements at the two in-bounds indexes and touches nothing
/// else.
#[verifier::external_body]
fn array_swap<T, const N: usize>(a: &mut [T; N], i: usize, j: usize)
    requires
        i < N,
        j < N,
    ensures
        final(a)@ == old(a)@.update(i as int, old(a)@[j as int]).update(
            j as int,
            old(a)@[i as int],
        ),
{
    a.swap(i, j);
}

/// Relies on `<[T; N] as core::ops::IndexMut<usize>>::index_mut`: hands out
/// a reference to the element at the in-bounds index, so that afterwards
/// the array holds, at that index, whatever the caller left behind the
/// reference, and every other element is untouched.
#[verifier::external_body]
fn array_at_mut<T, const N: usize>(a: &mut [T; N], i: usize) -> (e: &mut T)
    requires
        i < N,
    ensures
        *e == old(a)@[i as int],
        final(a)@ == old(a)@.update(i as int, *final(e)),
{
    &mut a[i]
}

impl<T, const N: usize> InputRange for [T; N] {
    type Element = T;

    type Position = usize;

    open spec fn contents(&self) -> Seq<T> {
        self@
    }

    open spec fn valid_pos(&self, p: usize) -> bool {
        p <= N
    }

    open spec fn pos_idx(&self, p: usize) -> int {
        p as int
    }

    proof fn lemma_pos_idx_bounds(&self, p: usize) {
    }

    proof fn lemma_len_bound(&self) {
    }

    fn start(&self) -> (p: usize) {
        0
    }

    fn end(&self) -> (p: usize) {
        N
    }

    fn pos_eq(&self, a: usize, b: usize) -> (r: bool) {
        a == b
    }

    fn after(&self, p: usize) -> (r: usize) {
        p + 1
    }

    fn after_n(&self, p: usize, n: usize) -> (r: usize) {
        p + n
    }

    fn at(&self, p: &usize) -> (e: &T) {
        &self[*p]
    }
}

impl<T, const N: usize> ForwardRange for [T; N] {
    fn distance(&self, from: usize, to: usize) -> (n: usize) {
        to - from
    }
}

impl<T, const N: usize> BidirectionalRange for [T; N] {
    fn before(&self, p: usize) -> (r: usize) {
        p - 1
    }

    fn before_n(&self, p: usize, n: usize) -> (r: usize) {
        p - n
    }
}

impl<T, const N: usize> RandomAccessRange for [T; N] {

}

impl<T, const N: usize> SemiOutputRange for [T; N] {
    fn swap_at(&mut self, i: &usize, j: &usize) {
        array_swap(self, *i, *j);
    }
}

impl<T, const N: usize> OutputRange for [T; N] {
    fn at_mut(&mut self, p: &usize) -> (e: &mut T) {
        array_at_mut(self, *p)
    }
}

} // verus!
