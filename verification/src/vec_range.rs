//! A growable buffer as a range: `Vec<T>` satisfies every capability, with
//! a machine-width offset as its position type.

use vstd::prelude::*;

use crate::range::{
    BidirectionalRange, ForwardRange, InputRange, OutputRange, RandomAccessRange, SemiOutputRange,
};

verus! {

broadcast use vstd::std_specs::vec::axiom_spec_len;

/// Relies on `<[T]>::swap` (reached through `Vec`'s slice view): exchanges
/// the elements at the two in-bounds indexes and touches nothing else.
#[verifier::external_body]
fn vec_swap<T>(v: &mut Vec<T>, a: usize, b: usize)
    requires
        a < old(v)@.len(),
        b < old(v)@.len(),
    ensures
        final(v)@ == old(v)@.update(a as int, old(v)@[b as int]).update(
            b as int,
            old(v)@[a as int],
        ),
{
    v.swap(a, b);
}

impl<T> InputRange for Vec<T> {
    type Element = T;

    type Position = usize;

    open spec fn contents(&self) -> Seq<T> {
        self@
    }

    open spec fn valid_pos(&self, p: usize) -> bool {
        p <= self@.len()
    }

    open spec fn pos_idx(&self, p: usize) -> int {
        p as int
    }

    proof fn lemma_pos_idx_bounds(&self, p: usize) {
    }

    proof fn lemma_len_bound(&self) {
        vstd::std_specs::vec::axiom_spec_len(self);
    }

    fn start(&self) -> (p: usize) {
        0
    }

    fn end(&self) -> (p: usize) {
        self.len()
    }

    fn pos_eq(&self, a: usize, b: usize) -> (r: bool) {
        a == b
    }

    fn after(&self, p: usize) -> (r: usize) {
        proof {
            vstd::std_specs::vec::axiom_spec_len(self);
        }
        p + 1
    }

    fn after_n(&self, p: usize, n: usize) -> (r: usize) {
        proof {
            vstd::std_specs::vec::axiom_spec_len(self);
        }
        p + n
    }

    fn at(&self, p: &usize) -> (e: &T) {
        &self[*p]
    }
}

impl<T> ForwardRange for Vec<T> {
    fn distance(&self, from: usize, to: usize) -> (n: usize) {
        to - from
    }
}

impl<T> BidirectionalRange for Vec<T> {
    fn before(&self, p: usize) -> (r: usize) {
        p - 1
    }

    fn before_n(&self, p: usize, n: usize) -> (r: usize) {
        p - n
    }
}

impl<T> RandomAccessRange for Vec<T> {

}

impl<T> SemiOutputRange for Vec<T> {
    fn swap_at(&mut self, i: &usize, j: &usize) {
        vec_swap(self, *i, *j);
    }
}

impl<T> OutputRange for Vec<T> {
    fn at_mut(&mut self, p: &usize) -> (e: &mut T) {
        &mut self[*p]
    }
}

} // verus!
