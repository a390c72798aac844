//! Whole-range overloads of the copy family: the source bounds default to
//! the range's own start and end.

use vstd::prelude::*;

use crate::algo;
use crate::algo::{pred_decided_on, pred_of, pred_witnessed, span};
use crate::model::filtered;
use crate::range::{Duplicable, InputRange, OutputRange};

verus! {

broadcast use vstd::seq::group_seq_axioms;

/// Copies the elements of `rng` that satisfy `pred` to `dest` starting at
/// `out`, in their original relative order, and returns the destination
/// position one past the last element written; see `algo::copy_if`.
pub fn copy_if<R, D, F>(rng: &R, dest: &mut D, out: D::Position, pred: F) -> (r: D::Position) where
    R: InputRange<Element = <D as InputRange>::Element>,
    R::Element: Duplicable,
    D: OutputRange,
    F: Fn(&R::Element) -> bool,

    requires
        old(dest).valid_pos(out),
        pred_decided_on(pred, rng.contents(), 0, rng.contents().len() as int),
        old(dest).pos_idx(out) + filtered(rng.contents(), pred_of(pred)).len() <= old(dest).contents().len(),
    ensures
        final(dest).valid_pos(r),
        final(dest).pos_idx(r) == old(dest).pos_idx(out) + filtered(
            rng.contents(),
            pred_of(pred),
        ).len(),
        final(dest).contents().len() == old(dest).contents().len(),
        final(dest).contents().subrange(old(dest).pos_idx(out), final(dest).pos_idx(r))
            == filtered(rng.contents(), pred_of(pred)),
        forall|j: int|
            0 <= j < old(dest).pos_idx(out) ==> #[trigger] final(dest).contents()[j] == old(dest).contents()[j],
        forall|j: int|
            old(dest).pos_idx(out) + filtered(rng.contents(), pred_of(pred)).len() <= j < old(dest).contents().len()
                ==> #[trigger] final(dest).contents()[j] == old(dest).contents()[j],
        forall|q: D::Position|
            old(dest).valid_pos(q) ==> #[trigger] final(dest).valid_pos(q) && final(dest).pos_idx(q) == old(dest).pos_idx(q),
        pred_witnessed(pred, rng.contents(), 0, rng.contents().len() as int),
{
    let from = rng.start();
    let to = rng.end();
    proof {
        assert(span(*rng, from, to) =~= rng.contents());
    }
    algo::copy_if(rng, from, to, dest, out, pred)
}

/// Copies every element of `rng` to `dest` starting at `out`, in order,
/// and returns the destination position one past the last element written;
/// see `algo::copy`.
pub fn copy<R, D>(rng: &R, dest: &mut D, out: D::Position) -> (r: D::Position) where
    R: InputRange<Element = <D as InputRange>::Element>,
    R::Element: Duplicable,
    D: OutputRange,

    requires
        old(dest).valid_pos(out),
        old(dest).pos_idx(out) + rng.contents().len() <= old(dest).contents().len(),
    ensures
        final(dest).valid_pos(r),
        final(dest).pos_idx(r) == old(dest).pos_idx(out) + rng.contents().len(),
        final(dest).contents().len() == old(dest).contents().len(),
        final(dest).contents().subrange(old(dest).pos_idx(out), final(dest).pos_idx(r))
            == rng.contents(),
        forall|j: int|
            0 <= j < old(dest).pos_idx(out) ==> #[trigger] final(dest).contents()[j] == old(dest).contents()[j],
        forall|j: int|
            old(dest).pos_idx(out) + rng.contents().len() <= j < old(dest).contents().len()
                ==> #[trigger] final(dest).contents()[j] == old(dest).contents()[j],
        forall|q: D::Position|
            old(dest).valid_pos(q) ==> #[trigger] final(dest).valid_pos(q) && final(dest).pos_idx(q) == old(dest).pos_idx(q),
{
    let from = rng.start();
    let to = rng.end();
    proof {
        assert(span(*rng, from, to) =~= rng.contents());
    }
    algo::copy(rng, from, to, dest, out)
}

} // verus!
