//! Method-call sugar for the in-place unique family: `unique`,
//! `unique_by`.  Pure ergonomics over the free functions of
//! [`crate::rng`], with the same contracts.

use vstd::prelude::*;

use crate::algo::{equiv_rel, rel_chain_witnessed, rel_decided_on, rel_of};
use crate::model::kept;
use crate::range::{SemiOutputRange, SemiRegular};

verus! {

/// `unique`, `unique_by`, callable as methods of any swap-capable range.
pub trait STLUniqueExt: SemiOutputRange {
    /// As `rng::unique_by`: compacts each maximal group of adjacent
    /// `bi_pred`-equivalent elements down to its first element, in place,
    /// and returns the new logical end.
    fn unique_by<F>(&mut self, bi_pred: F) -> (r: Self::Position) where
        F: Fn(&Self::Element, &Self::Element) -> bool,

        requires
            rel_decided_on(bi_pred, old(self).contents()),
        ensures
            final(self).valid_pos(r),
            final(self).pos_idx(r) == kept(old(self).contents(), rel_of(bi_pred)).len(),
            final(self).contents().len() == old(self).contents().len(),
            final(self).contents().subrange(0, final(self).pos_idx(r)) == kept(
                old(self).contents(),
                rel_of(bi_pred),
            ),
            final(self).contents().to_multiset() == old(self).contents().to_multiset(),
            forall|q: Self::Position|
                old(self).valid_pos(q) ==> #[trigger] final(self).valid_pos(q)
                    && final(self).pos_idx(q) == old(self).pos_idx(q),
            rel_chain_witnessed(bi_pred, old(self).contents()),
    ;

    /// As `rng::unique`: compacts each maximal group of adjacent equal
    /// elements down to its first element, in place, under the element
    /// type's default equivalence, and returns the new logical end.
    fn unique(&mut self) -> (r: Self::Position) where Self::Element: SemiRegular
        ensures
            final(self).valid_pos(r),
            final(self).pos_idx(r) == kept(
                old(self).contents(),
                equiv_rel::<Self::Element>(),
            ).len(),
            final(self).contents().len() == old(self).contents().len(),
            final(self).contents().subrange(0, final(self).pos_idx(r)) == kept(
                old(self).contents(),
                equiv_rel::<Self::Element>(),
            ),
            final(self).contents().to_multiset() == old(self).contents().to_multiset(),
            forall|q: Self::Position|
                old(self).valid_pos(q) ==> #[trigger] final(self).valid_pos(q)
                    && final(self).pos_idx(q) == old(self).pos_idx(q),
    ;
}

impl<R: SemiOutputRange> STLUniqueExt for R {
    fn unique_by<F>(&mut self, bi_pred: F) -> (r: Self::Position) where
        F: Fn(&Self::Element, &Self::Element) -> bool,
    {
        crate::rng::unique_by(self, bi_pred)
    }

    fn unique(&mut self) -> (r: Self::Position) where Self::Element: SemiRegular {
        crate::rng::unique(self)
    }
}

} // verus!
