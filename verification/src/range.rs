//! The capability hierarchy: what a container must expose to be traversed
//! (`InputRange` → `ForwardRange` → `BidirectionalRange` →
//! `RandomAccessRange`) or mutated (`SemiOutputRange` → `OutputRange`)
//! through positions, together with the value-semantics tags on element
//! types (`Duplicable`, `SemiRegular`, `Regular`).
//!
//! Each range carries a mathematical model: `contents()` is the sequence of
//! elements it ranges over, and every valid position stands for an index
//! `pos_idx()` into that sequence, with the index `contents().len()` playing
//! the part of the one-past-the-end sentinel.  All contracts, of the trait
//! methods and of the algorithms built on them, speak of this model.

use vstd::prelude::*;

verus! {

/// Read-only single-pass traversal: positions, stepping forward, element
/// access.
///
/// A position is a plain value scoped to one range instance; it models the
/// index `pos_idx()` into `contents()`.  The sentinel returned by `end()`
/// models the index `contents().len()` and must never be dereferenced.
pub trait InputRange {
    type Element;

    type Position: Copy;

    /// The sequence of elements this range traverses.
    spec fn contents(&self) -> Seq<Self::Element>;

    /// Whether `p` belongs to this range instance (including the sentinel).
    spec fn valid_pos(&self, p: Self::Position) -> bool;

    /// The index into `contents()` that `p` stands for.
    spec fn pos_idx(&self, p: Self::Position) -> int;

    /// A valid position stands for an index within `[0, contents().len()]`.
    proof fn lemma_pos_idx_bounds(&self, p: Self::Position)
        requires
            self.valid_pos(p),
        ensures
            0 <= self.pos_idx(p) <= self.contents().len(),
    ;

    /// A range never holds more elements than a machine word can count.
    proof fn lemma_len_bound(&self)
        ensures
            self.contents().len() <= usize::MAX,
    ;

    /// The position of the first element.
    fn start(&self) -> (p: Self::Position)
        ensures
            self.valid_pos(p),
            self.pos_idx(p) == 0,
    ;

    /// The one-past-the-last sentinel position.
    fn end(&self) -> (p: Self::Position)
        ensures
            self.valid_pos(p),
            self.pos_idx(p) == self.contents().len(),
    ;

    /// Whether two positions of this range stand for the same index.
    fn pos_eq(&self, a: Self::Position, b: Self::Position) -> (r: bool)
        requires
            self.valid_pos(a),
            self.valid_pos(b),
        ensures
            r <==> self.pos_idx(a) == self.pos_idx(b),
    ;

    /// One step forward; the input must not be the sentinel.
    fn after(&self, p: Self::Position) -> (r: Self::Position)
        requires
            self.valid_pos(p),
            self.pos_idx(p) < self.contents().len(),
        ensures
            self.valid_pos(r),
            self.pos_idx(r) == self.pos_idx(p) + 1,
    ;

    /// `n` steps forward: semantically `n` applications of `after`, which
    /// the default body performs one by one; random-access ranges may
    /// override it with a constant-time computation.
    fn after_n(&self, p: Self::Position, n: usize) -> (r: Self::Position)
        requires
            self.valid_pos(p),
            self.pos_idx(p) + n <= self.contents().len(),
        ensures
            self.valid_pos(r),
            self.pos_idx(r) == self.pos_idx(p) + n,
    {
        let mut cur = p;
        let mut k: usize = 0;
        while k < n
            invariant
                self.valid_pos(p),
                self.pos_idx(p) + n <= self.contents().len(),
                k <= n,
                self.valid_pos(cur),
                self.pos_idx(cur) == self.pos_idx(p) + k,
            decreases n - k,
        {
            cur = self.after(cur);
            k = k + 1;
        }
        cur
    }

    /// Read access to the element at `p`; the input must not be the
    /// sentinel.
    fn at(&self, p: &Self::Position) -> (e: &Self::Element)
        requires
            self.valid_pos(*p),
            self.pos_idx(*p) < self.contents().len(),
        ensures
            *e == self.contents()[self.pos_idx(*p)],
    ;
}

/// Multi-pass traversal, adding the measure of how far apart two positions
/// are.
pub trait ForwardRange: InputRange {
    /// The number of `after` steps leading from `from` to `to`; `from` must
    /// not lie past `to`.  The default body walks step by step; random-access
    /// ranges may override it with a constant-time computation that must
    /// agree with this step count.
    fn distance(&self, from: Self::Position, to: Self::Position) -> (n: usize)
        requires
            self.valid_pos(from),
            self.valid_pos(to),
            self.pos_idx(from) <= self.pos_idx(to),
        ensures
            n == self.pos_idx(to) - self.pos_idx(from),
    {
        proof {
            self.lemma_pos_idx_bounds(from);
            self.lemma_pos_idx_bounds(to);
            self.lemma_len_bound();
        }
        let mut cur = from;
        let mut n: usize = 0;
        while !self.pos_eq(cur, to)
            invariant
                self.valid_pos(cur),
                self.valid_pos(to),
                self.pos_idx(to) <= self.contents().len() <= usize::MAX,
                0 <= self.pos_idx(from) <= self.pos_idx(cur) <= self.pos_idx(to),
                n == self.pos_idx(cur) - self.pos_idx(from),
            decreases self.pos_idx(to) - self.pos_idx(cur),
        {
            cur = self.after(cur);
            n = n + 1;
        }
        n
    }
}

/// Traversal that can also step backward.
pub trait BidirectionalRange: ForwardRange {
    /// One step backward; the input must not be the start position.
    fn before(&self, p: Self::Position) -> (r: Self::Position)
        requires
            self.valid_pos(p),
            self.pos_idx(p) >= 1,
        ensures
            self.valid_pos(r),
            self.pos_idx(r) == self.pos_idx(p) - 1,
    ;

    /// `n` steps backward: semantically `n` applications of `before`; the
    /// default body performs them one by one.
    fn before_n(&self, p: Self::Position, n: usize) -> (r: Self::Position)
        requires
            self.valid_pos(p),
            self.pos_idx(p) >= n,
        ensures
            self.valid_pos(r),
            self.pos_idx(r) == self.pos_idx(p) - n,
    {
        let mut cur = p;
        let mut k: usize = 0;
        while k < n
            invariant
                self.valid_pos(p),
                self.pos_idx(p) >= n,
                k <= n,
                self.valid_pos(cur),
                self.pos_idx(cur) == self.pos_idx(p) - k,
            decreases n - k,
        {
            cur = self.before(cur);
            k = k + 1;
        }
        cur
    }
}

/// A refinement contract, not a new operation: a range with this capability
/// promises that `after_n`, `before_n` and `distance` run in constant time.
/// Their results must still agree, step for step, with the repeated-step
/// definitions, which the shared contracts above already force.
pub trait RandomAccessRange: BidirectionalRange {

}

/// Mutation restricted to exchanging two existing element slots.  No value
/// is constructed or destroyed, so the element type needs no `Duplicable`
/// bound.
pub trait SemiOutputRange: ForwardRange {
    /// Exchanges the elements at two valid positions of this range; neither
    /// may be the sentinel.  The contents are permuted in place and every
    /// position of the range keeps its meaning.
    fn swap_at(&mut self, i: &Self::Position, j: &Self::Position)
        requires
            old(self).valid_pos(*i),
            old(self).pos_idx(*i) < old(self).contents().len(),
            old(self).valid_pos(*j),
            old(self).pos_idx(*j) < old(self).contents().len(),
        ensures
            final(self).contents() == old(self).contents().update(
                old(self).pos_idx(*i),
                old(self).contents()[old(self).pos_idx(*j)],
            ).update(old(self).pos_idx(*j), old(self).contents()[old(self).pos_idx(*i)]),
            forall|q: Self::Position|
                #![trigger final(self).valid_pos(q)]
                #![trigger old(self).valid_pos(q)]
                old(self).valid_pos(q) ==> final(self).valid_pos(q) && final(self).pos_idx(q)
                    == old(self).pos_idx(q),
    ;
}

/// Full mutation: write access to any element slot, required whenever an
/// algorithm must store a value not already present in the range.
pub trait OutputRange: SemiOutputRange {
    /// Write access to the element at `p`; the input must not be the
    /// sentinel.  Afterwards the contents hold, at that index, whatever the
    /// caller left behind the returned reference, and every position of the
    /// range keeps its meaning.
    fn at_mut(&mut self, p: &Self::Position) -> (e: &mut Self::Element)
        requires
            old(self).valid_pos(*p),
            old(self).pos_idx(*p) < old(self).contents().len(),
        ensures
            *e == old(self).contents()[old(self).pos_idx(*p)],
            final(self).contents() == old(self).contents().update(
                old(self).pos_idx(*p),
                *final(e),
            ),
            forall|q: Self::Position|
                #![trigger final(self).valid_pos(q)]
                #![trigger old(self).valid_pos(q)]
                old(self).valid_pos(q) ==> final(self).valid_pos(q) && final(self).pos_idx(q)
                    == old(self).pos_idx(q),
    ;
}

/// Value-semantics tag: the element can be copied to produce an additional
/// independent value.
pub trait Duplicable: Sized {
    /// An independent copy, equal to the original.
    fn duplicate(&self) -> (r: Self)
        ensures
            r == *self,
    ;
}

/// Value-semantics tag: the element carries a default equivalence test.
pub trait SemiRegular {
    /// What the default equivalence means for this type.
    spec fn equiv_spec(&self, other: &Self) -> bool;

    /// The default equivalence test.
    fn equiv(&self, other: &Self) -> (r: bool)
        ensures
            r == self.equiv_spec(other),
    ;
}

/// Value-semantics tag: default equivalence together with duplication, as
/// the no-predicate copying algorithms need.
pub trait Regular: SemiRegular + Duplicable {

}

impl Duplicable for u8 {
    fn duplicate(&self) -> (r: Self) {
        *self
    }
}

impl SemiRegular for u8 {
    open spec fn equiv_spec(&self, other: &Self) -> bool {
        *self == *other
    }

    fn equiv(&self, other: &Self) -> (r: bool) {
        *self == *other
    }
}

impl Regular for u8 {

}

impl Duplicable for u32 {
    fn duplicate(&self) -> (r: Self) {
        *self
    }
}

impl SemiRegular for u32 {
    open spec fn equiv_spec(&self, other: &Self) -> bool {
        *self == *other
    }

    fn equiv(&self, other: &Self) -> (r: bool) {
        *self == *other
    }
}

impl Regular for u32 {

}

impl Duplicable for u64 {
    fn duplicate(&self) -> (r: Self) {
        *self
    }
}

impl SemiRegular for u64 {
    open spec fn equiv_spec(&self, other: &Self) -> bool {
        *self == *other
    }

    fn equiv(&self, other: &Self) -> (r: bool) {
        *self == *other
    }
}

impl Regular for u64 {

}

impl Duplicable for usize {
    fn duplicate(&self) -> (r: Self) {
        *self
    }
}

impl SemiRegular for usize {
    open spec fn equiv_spec(&self, other: &Self) -> bool {
        *self == *other
    }

    fn equiv(&self, other: &Self) -> (r: bool) {
        *self == *other
    }
}

impl Regular for usize {

}

impl Duplicable for i32 {
    fn duplicate(&self) -> (r: Self) {
        *self
    }
}

impl SemiRegular for i32 {
    open spec fn equiv_spec(&self, other: &Self) -> bool {
        *self == *other
    }

    fn equiv(&self, other: &Self) -> (r: bool) {
        *self == *other
    }
}

impl Regular for i32 {

}

impl Duplicable for i64 {
    fn duplicate(&self) -> (r: Self) {
        *self
    }
}

impl SemiRegular for i64 {
    open spec fn equiv_spec(&self, other: &Self) -> bool {
        *self == *other
    }

    fn equiv(&self, other: &Self) -> (r: bool) {
        *self == *other
    }
}

impl Regular for i64 {

}

impl<A: Duplicable, B: Duplicable> Duplicable for (A, B) {
    fn duplicate(&self) -> (r: Self) {
        (self.0.duplicate(), self.1.duplicate())
    }
}

impl<A: SemiRegular, B: SemiRegular> SemiRegular for (A, B) {
    open spec fn equiv_spec(&self, other: &Self) -> bool {
        self.0.equiv_spec(&other.0) && self.1.equiv_spec(&other.1)
    }

    fn equiv(&self, other: &Self) -> (r: bool) {
        self.0.equiv(&other.0) && self.1.equiv(&other.1)
    }
}

impl<A: Regular, B: Regular> Regular for (A, B) {

}

} // verus!
