//! Whole-range overloads of the unique family: the source bounds default
//! to the range's own start and end, and the copying variants write from
//! the destination's own start.

use vstd::prelude::*;

use crate::algo;
use crate::algo::{
    equiv_rel, rel_adjacent_witnessed, rel_chain_witnessed, rel_decided_adjacent, rel_decided_on,
    rel_of, span,
};
use crate::model::{kept, run_heads};
use crate::range::{Duplicable, InputRange, OutputRange, Regular, SemiOutputRange, SemiRegular};

verus! {

broadcast use vstd::seq::group_seq_axioms;

/// Compacts, in place, each maximal group of adjacent `bi_pred`-equivalent
/// elements of `rng` down to its first element and returns the position of
/// the new logical end; see `algo::unique_by`.  The physical size of the
/// range never changes: its contents are permuted, with the kept elements
/// at the front in their original relative order.
pub fn unique_by<R, F>(rng: &mut R, bi_pred: F) -> (r: R::Position) where
    R: SemiOutputRange,
    F: Fn(&R::Element, &R::Element) -> bool,

    requires
        rel_decided_on(bi_pred, old(rng).contents()),
    ensures
        final(rng).valid_pos(r),
        final(rng).pos_idx(r) == kept(old(rng).contents(), rel_of(bi_pred)).len(),
        final(rng).contents().len() == old(rng).contents().len(),
        final(rng).contents().subrange(0, final(rng).pos_idx(r)) == kept(
            old(rng).contents(),
            rel_of(bi_pred),
        ),
        final(rng).contents().to_multiset() == old(rng).contents().to_multiset(),
        forall|q: R::Position|
            old(rng).valid_pos(q) ==> #[trigger] final(rng).valid_pos(q) && final(rng).pos_idx(q)
                == old(rng).pos_idx(q),
        rel_chain_witnessed(bi_pred, old(rng).contents()),
{
    let from = rng.start();
    let to = rng.end();
    proof {
        assert(span(*rng, from, to) =~= rng.contents());
    }
    let r = algo::unique_by(rng, from, to, bi_pred);
    proof {
        assert(rng.contents().subrange(0, rng.contents().len() as int) =~= rng.contents());
    }
    r
}

/// Compacts, in place, each maximal group of adjacent equal elements of
/// `rng` down to its first element, under the element type's default
/// equivalence, and returns the position of the new logical end; see
/// `algo::unique`.
pub fn unique<R>(rng: &mut R) -> (r: R::Position) where
    R: SemiOutputRange,
    R::Element: SemiRegular,

    ensures
        final(rng).valid_pos(r),
        final(rng).pos_idx(r) == kept(old(rng).contents(), equiv_rel::<R::Element>()).len(),
        final(rng).contents().len() == old(rng).contents().len(),
        final(rng).contents().subrange(0, final(rng).pos_idx(r)) == kept(
            old(rng).contents(),
            equiv_rel::<R::Element>(),
        ),
        final(rng).contents().to_multiset() == old(rng).contents().to_multiset(),
        forall|q: R::Position|
            old(rng).valid_pos(q) ==> #[trigger] final(rng).valid_pos(q) && final(rng).pos_idx(q)
                == old(rng).pos_idx(q),
{
    let from = rng.start();
    let to = rng.end();
    proof {
        assert(span(*rng, from, to) =~= rng.contents());
    }
    let r = algo::unique(rng, from, to);
    proof {
        assert(rng.contents().subrange(0, rng.contents().len() as int) =~= rng.contents());
    }
    r
}

/// Copies only the first element of each maximal run of adjacent
/// `bi_pred`-equivalent elements of `src` to the front of `dest` and
/// returns the destination position one past the last element written; see
/// `algo::unique_copy_by`.
pub fn unique_copy_by<R, D, F>(src: &R, dest: &mut D, bi_pred: F) -> (r: D::Position) where
    R: InputRange<Element = <D as InputRange>::Element>,
    R::Element: Duplicable,
    D: OutputRange,
    F: Fn(&R::Element, &R::Element) -> bool,

    requires
        rel_decided_adjacent(bi_pred, src.contents()),
        run_heads(src.contents(), rel_of(bi_pred)).len() <= old(dest).contents().len(),
    ensures
        final(dest).valid_pos(r),
        final(dest).pos_idx(r) == run_heads(src.contents(), rel_of(bi_pred)).len(),
        final(dest).contents().len() == old(dest).contents().len(),
        final(dest).contents().subrange(0, final(dest).pos_idx(r)) == run_heads(
            src.contents(),
            rel_of(bi_pred),
        ),
        forall|j: int|
            run_heads(src.contents(), rel_of(bi_pred)).len() <= j < old(dest).contents().len()
                ==> #[trigger] final(dest).contents()[j] == old(dest).contents()[j],
        forall|q: D::Position|
            old(dest).valid_pos(q) ==> #[trigger] final(dest).valid_pos(q) && final(dest).pos_idx(q) == old(dest).pos_idx(q),
        rel_adjacent_witnessed(bi_pred, src.contents()),
{
    let from = src.start();
    let to = src.end();
    let out = dest.start();
    proof {
        assert(span(*src, from, to) =~= src.contents());
    }
    algo::unique_copy_by(src, from, to, dest, out, bi_pred)
}

/// Copies only the first element of each maximal run of adjacent equal
/// elements of `src` to the front of `dest`, under the element type's
/// default equivalence, and returns the destination position one past the
/// last element written; see `algo::unique_copy`.
pub fn unique_copy<R, D>(src: &R, dest: &mut D) -> (r: D::Position) where
    R: InputRange<Element = <D as InputRange>::Element>,
    R::Element: Regular,
    D: OutputRange,

    requires
        run_heads(src.contents(), equiv_rel::<R::Element>()).len() <= old(dest).contents().len(),
    ensures
        final(dest).valid_pos(r),
        final(dest).pos_idx(r) == run_heads(src.contents(), equiv_rel::<R::Element>()).len(),
        final(dest).contents().len() == old(dest).contents().len(),
        final(dest).contents().subrange(0, final(dest).pos_idx(r)) == run_heads(
            src.contents(),
            equiv_rel::<R::Element>(),
        ),
        forall|j: int|
            run_heads(src.contents(), equiv_rel::<R::Element>()).len() <= j < old(dest).contents().len()
                ==> #[trigger] final(dest).contents()[j] == old(dest).contents()[j],
        forall|q: D::Position|
            old(dest).valid_pos(q) ==> #[trigger] final(dest).valid_pos(q) && final(dest).pos_idx(q) == old(dest).pos_idx(q),
{
    let from = src.start();
    let to = src.end();
    let out = dest.start();
    proof {
        assert(span(*src, from, to) =~= src.contents());
        dest.lemma_pos_idx_bounds(out);
    }
    algo::unique_copy(src, from, to, dest, out)
}

} // verus!
