//! The algorithm primitives in explicit-bounds form: each takes the
//! positions it works between, is written against the weakest capability it
//! needs, and is specified over the sequence model of [`crate::model`].
//!
//! A caller-supplied predicate is an executable closure, of which only its
//! contract is known.  The contracts below read a closure through the spec
//! predicate [`pred_of`] (for relations, [`rel_of`]): the element passes
//! unless `false` is among the closure's possible verdicts on it.  Wherever
//! an algorithm consults the closure, it requires the verdict to be decided
//! ([`pred_decided`], [`rel_decided`]): not both `true` and `false` may be
//! possible, so the spec predicate agrees with whatever the call returned.
//! Each algorithm also reports, through [`pred_witnessed`] or its relation
//! forms, that the closure's contract admits the decided verdict on every
//! consulted element or pair; that is what lets a caller who knows more
//! about the closure, such as the no-predicate `unique` variants, replace
//! the spec predicate by its own relation.

use vstd::prelude::*;

use crate::model::{
    filtered, filtered_upto, kept, kept_upto, lemma_filtered_all_true, lemma_filtered_upto_mono,
    lemma_kept_congruent, lemma_kept_upto_basic, lemma_kept_upto_last_in_source,
    lemma_run_heads_congruent, lemma_run_heads_mono, lemma_run_heads_upto_len_mono,
    lemma_swap_preserves_multiset, run_heads, run_heads_upto,
};
use crate::range::{Duplicable, InputRange, OutputRange, Regular, SemiOutputRange, SemiRegular};

verus! {

broadcast use vstd::seq::group_seq_axioms;

/// The sequence of elements a pair of positions spans within a range.
pub open spec fn span<R: InputRange>(src: R, from: R::Position, to: R::Position) -> Seq<
    R::Element,
> {
    src.contents().subrange(src.pos_idx(from), src.pos_idx(to))
}

/// How the contracts read a unary predicate closure: `x` passes unless
/// `false` is among the closure's possible verdicts on `x`.
pub open spec fn pred_of<T, F: Fn(&T) -> bool>(pred: F) -> spec_fn(T) -> bool {
    |x: T| !call_ensures(pred, (&x,), false)
}

/// The closure may be consulted on `x` and cannot answer both ways: its
/// verdict on `x` is decided, and so agrees with [`pred_of`].
pub open spec fn pred_decided<T, F: Fn(&T) -> bool>(pred: F, x: T) -> bool {
    &&& call_requires(pred, (&x,))
    &&& !(call_ensures(pred, (&x,), true) && call_ensures(pred, (&x,), false))
}

/// [`pred_decided`] over the elements `s[a .. b)`.
pub open spec fn pred_decided_on<T, F: Fn(&T) -> bool>(pred: F, s: Seq<T>, a: int, b: int) -> bool {
    forall|i: int| a <= i < b ==> pred_decided(pred, #[trigger] s[i])
}

/// The closure's contract admits the decided verdict on every element of
/// `s[a .. b)`: what an algorithm that consulted the closure there reports
/// back.
pub open spec fn pred_witnessed<T, F: Fn(&T) -> bool>(pred: F, s: Seq<T>, a: int, b: int) -> bool {
    forall|i: int| a <= i < b ==> call_ensures(pred, (&s[i],), pred_of(pred)(#[trigger] s[i]))
}

/// How the contracts read a binary predicate closure: `x` and `y` are
/// equivalent unless `false` is among the closure's possible verdicts on
/// the pair.
pub open spec fn rel_of<T, F: Fn(&T, &T) -> bool>(r: F) -> spec_fn(T, T) -> bool {
    |x: T, y: T| !call_ensures(r, (&x, &y), false)
}

/// The closure may be consulted on the pair and cannot answer both ways.
pub open spec fn rel_decided<T, F: Fn(&T, &T) -> bool>(r: F, x: T, y: T) -> bool {
    &&& call_requires(r, (&x, &y))
    &&& !(call_ensures(r, (&x, &y), true) && call_ensures(r, (&x, &y), false))
}

/// [`rel_decided`] over every pair of elements of `s`: the in-place
/// compaction tests each element against the most recently kept one, and
/// which pairs those are depends on the verdicts themselves.
pub open spec fn rel_decided_on<T, F: Fn(&T, &T) -> bool>(r: F, s: Seq<T>) -> bool {
    forall|i: int, j: int|
        0 <= i < s.len() && 0 <= j < s.len() ==> rel_decided(r, #[trigger] s[i], #[trigger] s[j])
}

/// [`rel_decided`] over the adjacent pairs of `s`: all the copying
/// compaction consults.
pub open spec fn rel_decided_adjacent<T, F: Fn(&T, &T) -> bool>(r: F, s: Seq<T>) -> bool {
    forall|j: int| 1 <= j < s.len() ==> rel_decided(r, s[j - 1], #[trigger] s[j])
}

/// The closure's contract admits the decided verdict on each pair the
/// in-place compaction of `s` consults: every element after the first
/// against the most recently kept element before it.
pub open spec fn rel_chain_witnessed<T, F: Fn(&T, &T) -> bool>(r: F, s: Seq<T>) -> bool {
    forall|i: int|
        1 <= i < s.len() ==> call_ensures(
            r,
            (&kept_upto(s, rel_of(r), i).last(), &s[i]),
            rel_of(r)(kept_upto(s, rel_of(r), i).last(), #[trigger] s[i]),
        )
}

/// The closure's contract admits the decided verdict on each adjacent pair
/// of `s`: what the copying compaction consults.
pub open spec fn rel_adjacent_witnessed<T, F: Fn(&T, &T) -> bool>(r: F, s: Seq<T>) -> bool {
    forall|j: int|
        1 <= j < s.len() ==> call_ensures(
            r,
            (&s[j - 1], &s[j]),
            rel_of(r)(s[j - 1], #[trigger] s[j]),
        )
}

/// The default equivalence of a `SemiRegular` element type, as a relation
/// on the sequence model.
pub open spec fn equiv_rel<T: SemiRegular>() -> spec_fn(T, T) -> bool {
    |x: T, y: T| x.equiv_spec(&y)
}

/// Copies the elements of `src` between `from` and `to` that satisfy
/// `pred` to `dest` starting at `out`, in their original relative order,
/// and returns the destination position one past the last element written.
/// Elements failing the predicate consume no destination capacity.  The
/// destination must have room, from `out` on, for exactly the passing
/// elements; everything outside the written window is left untouched.
pub fn copy_if<R, D, F>(
    src: &R,
    from: R::Position,
    to: R::Position,
    dest: &mut D,
    out: D::Position,
    pred: F,
) -> (r: D::Position) where
    R: InputRange<Element = <D as InputRange>::Element>,
    R::Element: Duplicable,
    D: OutputRange,
    F: Fn(&R::Element) -> bool,

    requires
        src.valid_pos(from),
        src.valid_pos(to),
        src.pos_idx(from) <= src.pos_idx(to),
        old(dest).valid_pos(out),
        pred_decided_on(pred, src.contents(), src.pos_idx(from), src.pos_idx(to)),
        old(dest).pos_idx(out) + filtered(span(*src, from, to), pred_of(pred)).len() <= old(dest).contents().len(),
    ensures
        final(dest).valid_pos(r),
        final(dest).pos_idx(r) == old(dest).pos_idx(out) + filtered(
            span(*src, from, to),
            pred_of(pred),
        ).len(),
        final(dest).contents().len() == old(dest).contents().len(),
        final(dest).contents().subrange(old(dest).pos_idx(out), final(dest).pos_idx(r))
            == filtered(span(*src, from, to), pred_of(pred)),
        forall|j: int|
            0 <= j < old(dest).pos_idx(out) ==> #[trigger] final(dest).contents()[j] == old(dest).contents()[j],
        forall|j: int|
            old(dest).pos_idx(out) + filtered(span(*src, from, to), pred_of(pred)).len() <= j < old(dest).contents().len() ==> #[trigger] final(dest).contents()[j] == old(dest).contents()[j],
        forall|q: D::Position|
            old(dest).valid_pos(q) ==> #[trigger] final(dest).valid_pos(q) && final(dest).pos_idx(q) == old(dest).pos_idx(q),
        pred_witnessed(pred, src.contents(), src.pos_idx(from), src.pos_idx(to)),
{
    let ghost s = src.contents();
    let ghost from_i = src.pos_idx(from);
    let ghost to_i = src.pos_idx(to);
    let ghost sub = span(*src, from, to);
    let ghost p = pred_of(pred);
    let ghost oi = old(dest).pos_idx(out);
    let ghost d0 = old(dest).contents();
    proof {
        src.lemma_pos_idx_bounds(from);
        src.lemma_pos_idx_bounds(to);
        src.lemma_len_bound();
        dest.lemma_pos_idx_bounds(out);
        dest.lemma_len_bound();
    }
    let mut cur = from;
    let mut o = out;
    while !src.pos_eq(cur, to)
        invariant
            src.valid_pos(cur),
            src.valid_pos(to),
            src.valid_pos(from),
            from_i == src.pos_idx(from),
            to_i == src.pos_idx(to),
            s == src.contents(),
            sub == span(*src, from, to),
            p == pred_of(pred),
            0 <= from_i <= src.pos_idx(cur) <= to_i <= s.len() <= usize::MAX,
            sub.len() == to_i - from_i,
            pred_decided_on(pred, s, from_i, to_i),
            pred_witnessed(pred, s, from_i, src.pos_idx(cur)),
            dest.valid_pos(o),
            dest.contents().len() == d0.len(),
            0 <= oi,
            oi + filtered(sub, p).len() <= d0.len(),
            dest.pos_idx(o) == oi + filtered_upto(sub, p, src.pos_idx(cur) - from_i).len(),
            dest.contents().subrange(oi, dest.pos_idx(o)) == filtered_upto(
                sub,
                p,
                src.pos_idx(cur) - from_i,
            ),
            forall|j: int| 0 <= j < oi ==> #[trigger] dest.contents()[j] == d0[j],
            forall|j: int|
                dest.pos_idx(o) <= j < d0.len() ==> #[trigger] dest.contents()[j] == d0[j],
            forall|q: D::Position|
                old(dest).valid_pos(q) ==> #[trigger] dest.valid_pos(q) && dest.pos_idx(q) == old(dest).pos_idx(q),
        decreases to_i - src.pos_idx(cur),
    {
        let ghost k = src.pos_idx(cur) - from_i;
        let ghost dpre = dest.contents();
        let ghost opre = dest.pos_idx(o);
        proof {
            assert(sub[k] == s[src.pos_idx(cur)]);
            lemma_filtered_upto_mono(sub, p, k + 1, sub.len() as int);
        }
        let e = src.at(&cur);
        let c = pred(e);
        if c {
            proof {
                assert(p(sub[k]));
                assert(filtered_upto(sub, p, k + 1) == filtered_upto(sub, p, k).push(sub[k]));
                assert(opre < oi + filtered(sub, p).len() <= d0.len());
            }
            let v = e.duplicate();
            let slot = dest.at_mut(&o);
            *slot = v;
            proof {
                assert(dest.contents() == dpre.update(opre, sub[k]));
                assert(dest.contents().len() == dpre.len());
                assert(dest.valid_pos(o) && dest.pos_idx(o) == opre);
            }
            o = dest.after(o);
            proof {
                assert(dest.pos_idx(o) == opre + 1);
                assert(dest.contents().subrange(oi, opre + 1) =~= filtered_upto(
                    sub,
                    p,
                    k,
                ).push(sub[k]));
            }
        } else {
            proof {
                assert(!p(sub[k]));
                assert(filtered_upto(sub, p, k + 1) == filtered_upto(sub, p, k));
            }
        }
        cur = src.after(cur);
        proof {
            assert(dest.contents().subrange(oi, dest.pos_idx(o)) == filtered_upto(sub, p, k + 1));
        }
    }
    proof {
        assert(filtered_upto(sub, p, sub.len() as int) == filtered(sub, p));
        assert(src.pos_idx(cur) == to_i);
    }
    o
}

/// Copies every element of `src` between `from` and `to` to `dest`
/// starting at `out`, in order, and returns the destination position one
/// past the last element written.  Defined as `copy_if` under a predicate
/// that always holds, and specified accordingly: the written window is
/// exactly the source span.
pub fn copy<R, D>(
    src: &R,
    from: R::Position,
    to: R::Position,
    dest: &mut D,
    out: D::Position,
) -> (r: D::Position) where
    R: InputRange<Element = <D as InputRange>::Element>,
    R::Element: Duplicable,
    D: OutputRange,

    requires
        src.valid_pos(from),
        src.valid_pos(to),
        src.pos_idx(from) <= src.pos_idx(to),
        old(dest).valid_pos(out),
        old(dest).pos_idx(out) + (src.pos_idx(to) - src.pos_idx(from)) <= old(dest).contents().len(),
    ensures
        final(dest).valid_pos(r),
        final(dest).pos_idx(r) == old(dest).pos_idx(out) + (src.pos_idx(to) - src.pos_idx(from)),
        final(dest).contents().len() == old(dest).contents().len(),
        final(dest).contents().subrange(old(dest).pos_idx(out), final(dest).pos_idx(r)) == span(
            *src,
            from,
            to,
        ),
        forall|j: int|
            0 <= j < old(dest).pos_idx(out) ==> #[trigger] final(dest).contents()[j] == old(dest).contents()[j],
        forall|j: int|
            old(dest).pos_idx(out) + (src.pos_idx(to) - src.pos_idx(from)) <= j < old(dest).contents().len() ==> #[trigger] final(dest).contents()[j] == old(dest).contents()[j],
        forall|q: D::Position|
            old(dest).valid_pos(q) ==> #[trigger] final(dest).valid_pos(q) && final(dest).pos_idx(q) == old(dest).pos_idx(q),
{
    let always = |x: &R::Element| -> (b: bool)
        ensures
            b,
        {
            true
        };
    let ghost sub = span(*src, from, to);
    proof {
        src.lemma_pos_idx_bounds(from);
        src.lemma_pos_idx_bounds(to);
        assert(sub.len() == src.pos_idx(to) - src.pos_idx(from));
        assert forall|i: int| 0 <= i < sub.len() implies pred_of(always)(#[trigger] sub[i]) by {
            assert(!call_ensures(always, (&sub[i],), false));
        }
        lemma_filtered_all_true(sub, pred_of(always));
        assert forall|i: int|
            src.pos_idx(from) <= i < src.pos_idx(to) implies pred_decided(
            always,
            #[trigger] src.contents()[i],
        ) by {
            assert(!call_ensures(always, (&src.contents()[i],), false));
        }
    }
    copy_if(src, from, to, dest, out, always)
}

/// Compacts, in place, each maximal group of adjacent `bi_pred`-equivalent
/// elements between `from` and `to` down to its first element: every
/// element is tested against the most recently kept one and swapped forward
/// if found inequivalent.  Returns the position one past the last kept
/// element.  The physical size of the range never changes: the span between
/// `from` and `to` is permuted, with the kept elements in their original
/// relative order at the front, and the order of what is left behind them
/// unspecified.
#[verifier::rlimit(100)]
pub fn unique_by<R, F>(
    rng: &mut R,
    from: R::Position,
    to: R::Position,
    bi_pred: F,
) -> (r: R::Position) where
    R: SemiOutputRange,
    F: Fn(&R::Element, &R::Element) -> bool,

    requires
        old(rng).valid_pos(from),
        old(rng).valid_pos(to),
        old(rng).pos_idx(from) <= old(rng).pos_idx(to),
        rel_decided_on(bi_pred, span(*old(rng), from, to)),
    ensures
        final(rng).valid_pos(r),
        final(rng).pos_idx(r) == old(rng).pos_idx(from) + kept(
            span(*old(rng), from, to),
            rel_of(bi_pred),
        ).len(),
        final(rng).contents().len() == old(rng).contents().len(),
        final(rng).contents().subrange(old(rng).pos_idx(from), final(rng).pos_idx(r)) == kept(
            span(*old(rng), from, to),
            rel_of(bi_pred),
        ),
        final(rng).contents().subrange(old(rng).pos_idx(from), old(rng).pos_idx(to)).to_multiset()
            == span(*old(rng), from, to).to_multiset(),
        forall|j: int|
            0 <= j < old(rng).pos_idx(from) ==> #[trigger] final(rng).contents()[j] == old(rng).contents()[j],
        forall|j: int|
            old(rng).pos_idx(to) <= j < old(rng).contents().len()
                ==> #[trigger] final(rng).contents()[j] == old(rng).contents()[j],
        forall|q: R::Position|
            old(rng).valid_pos(q) ==> #[trigger] final(rng).valid_pos(q) && final(rng).pos_idx(q)
                == old(rng).pos_idx(q),
        rel_chain_witnessed(bi_pred, span(*old(rng), from, to)),
{
    let ghost s0 = old(rng).contents();
    let ghost from_i = old(rng).pos_idx(from);
    let ghost to_i = old(rng).pos_idx(to);
    let ghost sub = span(*old(rng), from, to);
    let ghost q = rel_of(bi_pred);
    proof {
        rng.lemma_pos_idx_bounds(from);
        rng.lemma_pos_idx_bounds(to);
        rng.lemma_len_bound();
    }
    if rng.pos_eq(from, to) {
        proof {
            assert(sub =~= Seq::<R::Element>::empty());
            assert(kept(sub, q).len() == 0);
            assert(final(rng).contents().subrange(from_i, to_i) =~= kept(sub, q));
        }
        return to;
    }
    let mut kept_pos = from;
    let mut scan = rng.after(from);
    proof {
        assert(rng.contents().subrange(from_i, from_i + 1) =~= kept_upto(sub, q, 1));
        assert(rng.contents().subrange(from_i, from_i + 1) =~= sub.subrange(0, 1));
    }
    while !rng.pos_eq(scan, to)
        invariant
            rng.valid_pos(kept_pos),
            rng.valid_pos(scan),
            rng.valid_pos(to),
            0 <= from_i <= rng.pos_idx(kept_pos) < rng.pos_idx(scan) <= to_i,
            to_i == rng.pos_idx(to),
            from_i == old(rng).pos_idx(from),
            to_i == old(rng).pos_idx(to),
            to_i <= s0.len() <= usize::MAX,
            sub.len() == to_i - from_i,
            sub == span(*old(rng), from, to),
            q == rel_of(bi_pred),
            s0 == old(rng).contents(),
            rng.contents().len() == s0.len(),
            rel_decided_on(bi_pred, sub),
            forall|t: int|
                1 <= t < rng.pos_idx(scan) - from_i ==> call_ensures(
                    bi_pred,
                    (&kept_upto(sub, q, t).last(), &sub[t]),
                    q(kept_upto(sub, q, t).last(), #[trigger] sub[t]),
                ),
            rng.pos_idx(kept_pos) + 1 - from_i == kept_upto(
                sub,
                q,
                rng.pos_idx(scan) - from_i,
            ).len(),
            rng.contents().subrange(from_i, rng.pos_idx(kept_pos) + 1) == kept_upto(
                sub,
                q,
                rng.pos_idx(scan) - from_i,
            ),
            rng.contents().subrange(from_i, rng.pos_idx(scan)).to_multiset() == sub.subrange(
                0,
                rng.pos_idx(scan) - from_i,
            ).to_multiset(),
            forall|j: int|
                rng.pos_idx(scan) <= j < to_i ==> #[trigger] rng.contents()[j] == s0[j],
            forall|j: int| 0 <= j < from_i ==> #[trigger] rng.contents()[j] == s0[j],
            forall|j: int| to_i <= j < s0.len() ==> #[trigger] rng.contents()[j] == s0[j],
            forall|qp: R::Position|
                old(rng).valid_pos(qp) ==> #[trigger] rng.valid_pos(qp) && rng.pos_idx(qp)
                    == old(rng).pos_idx(qp),
        decreases to_i - rng.pos_idx(scan),
    {
        let ghost i = rng.pos_idx(scan) - from_i;
        let ghost ki = rng.pos_idx(kept_pos);
        let ghost cpre = rng.contents();
        proof {
            lemma_kept_upto_basic(sub, q, i);
            lemma_kept_upto_last_in_source(sub, q, i);
            assert(cpre[ki] == cpre.subrange(from_i, ki + 1).last());
            assert(cpre[ki] == kept_upto(sub, q, i).last());
            assert(cpre[rng.pos_idx(scan)] == s0[rng.pos_idx(scan)]);
            assert(sub[i] == s0[rng.pos_idx(scan)]);
            let u = choose|u: int| 0 <= u < i && kept_upto(sub, q, i).last() == sub[u];
            assert(rel_decided(bi_pred, sub[u], sub[i]));
        }
        let ke = rng.at(&kept_pos);
        let se = rng.at(&scan);
        let c = bi_pred(ke, se);
        proof {
            assert(c == q(kept_upto(sub, q, i).last(), sub[i]));
            assert(call_ensures(
                bi_pred,
                (&kept_upto(sub, q, i).last(), &sub[i]),
                q(kept_upto(sub, q, i).last(), sub[i]),
            ));
        }
        if !c {
            kept_pos = rng.after(kept_pos);
            rng.swap_at(&kept_pos, &scan);
            proof {
                let si = rng.pos_idx(scan);
                assert(rng.contents() == cpre.update(ki + 1, cpre[si]).update(si, cpre[ki + 1]));
                assert(kept_upto(sub, q, i + 1) == kept_upto(sub, q, i).push(sub[i]));
                assert(rng.contents().subrange(from_i, ki + 2) =~= kept_upto(sub, q, i).push(
                    sub[i],
                ));
                assert(rng.contents().subrange(from_i, si + 1) =~= cpre.subrange(
                    from_i,
                    si + 1,
                ).update(ki + 1 - from_i, cpre[si]).update(si - from_i, cpre[ki + 1]));
                lemma_swap_preserves_multiset(
                    cpre.subrange(from_i, si + 1),
                    ki + 1 - from_i,
                    si - from_i,
                );
                assert(cpre.subrange(from_i, si + 1) =~= cpre.subrange(from_i, si).push(cpre[si]));
                assert(sub.subrange(0, i + 1) =~= sub.subrange(0, i).push(sub[i]));
                vstd::seq_lib::to_multiset_build(cpre.subrange(from_i, si), cpre[si]);
                vstd::seq_lib::to_multiset_build(sub.subrange(0, i), sub[i]);
                assert(rng.contents().subrange(from_i, si + 1).to_multiset() == sub.subrange(
                    0,
                    i + 1,
                ).to_multiset());
            }
        } else {
            proof {
                let si = rng.pos_idx(scan);
                assert(kept_upto(sub, q, i + 1) == kept_upto(sub, q, i));
                assert(rng.contents().subrange(from_i, si + 1) =~= rng.contents().subrange(
                    from_i,
                    si,
                ).push(cpre[si]));
                assert(sub.subrange(0, i + 1) =~= sub.subrange(0, i).push(sub[i]));
                vstd::seq_lib::to_multiset_build(rng.contents().subrange(from_i, si), cpre[si]);
                vstd::seq_lib::to_multiset_build(sub.subrange(0, i), sub[i]);
                assert(rng.contents().subrange(from_i, si + 1).to_multiset() == sub.subrange(
                    0,
                    i + 1,
                ).to_multiset());
            }
        }
        scan = rng.after(scan);
    }
    proof {
        assert(rng.pos_idx(scan) == to_i);
        assert(sub.subrange(0, sub.len() as int) =~= sub);
        assert(kept_upto(sub, q, sub.len() as int) == kept(sub, q));
    }
    let r = rng.after(kept_pos);
    r
}

/// Compacts, in place, each maximal group of adjacent equal elements
/// between `from` and `to` down to its first element, under the element
/// type's default equivalence.  Behaves exactly as `unique_by` under that
/// equivalence: the span is permuted, the kept elements stand at the front
/// in their original relative order, the physical size never changes, and
/// the position one past the last kept element is returned.
pub fn unique<R>(rng: &mut R, from: R::Position, to: R::Position) -> (r: R::Position) where
    R: SemiOutputRange,
    R::Element: SemiRegular,

    requires
        old(rng).valid_pos(from),
        old(rng).valid_pos(to),
        old(rng).pos_idx(from) <= old(rng).pos_idx(to),
    ensures
        final(rng).valid_pos(r),
        final(rng).pos_idx(r) == old(rng).pos_idx(from) + kept(
            span(*old(rng), from, to),
            equiv_rel::<R::Element>(),
        ).len(),
        final(rng).contents().len() == old(rng).contents().len(),
        final(rng).contents().subrange(old(rng).pos_idx(from), final(rng).pos_idx(r)) == kept(
            span(*old(rng), from, to),
            equiv_rel::<R::Element>(),
        ),
        final(rng).contents().subrange(old(rng).pos_idx(from), old(rng).pos_idx(to)).to_multiset()
            == span(*old(rng), from, to).to_multiset(),
        forall|j: int|
            0 <= j < old(rng).pos_idx(from) ==> #[trigger] final(rng).contents()[j] == old(rng).contents()[j],
        forall|j: int|
            old(rng).pos_idx(to) <= j < old(rng).contents().len()
                ==> #[trigger] final(rng).contents()[j] == old(rng).contents()[j],
        forall|q: R::Position|
            old(rng).valid_pos(q) ==> #[trigger] final(rng).valid_pos(q) && final(rng).pos_idx(q)
                == old(rng).pos_idx(q),
{
    let ghost sub = span(*old(rng), from, to);
    let eq = |x: &R::Element, y: &R::Element| -> (b: bool)
        ensures
            b == x.equiv_spec(y),
        {
            x.equiv(y)
        };
    proof {
        assert forall|a: int, b: int|
            0 <= a < sub.len() && 0 <= b < sub.len() implies rel_decided(
            eq,
            #[trigger] sub[a],
            #[trigger] sub[b],
        ) by {
            assert(!(call_ensures(eq, (&sub[a], &sub[b]), true) && call_ensures(
                eq,
                (&sub[a], &sub[b]),
                false,
            )));
        }
    }
    let r = unique_by(rng, from, to, eq);
    proof {
        let q = rel_of(eq);
        let qe = equiv_rel::<R::Element>();
        assert forall|i: int| 1 <= i < sub.len() implies q(kept_upto(sub, q, i).last(), #[trigger] sub[i])
            == qe(kept_upto(sub, q, i).last(), sub[i]) by {
            let last = kept_upto(sub, q, i).last();
            assert(call_ensures(eq, (&last, &sub[i]), q(last, sub[i])));
        }
        lemma_kept_congruent(sub, q, qe);
    }
    r
}

/// Copies, from the span between `from` and `to`, only the first element
/// of each maximal run of adjacent `bi_pred`-equivalent elements to `dest`
/// starting at `out`, in order, and returns the destination position one
/// past the last element written.  The source is read once and never
/// changed; the destination must have room for one element per run, and
/// everything outside the written window is left untouched.
#[verifier::rlimit(100)]
pub fn unique_copy_by<R, D, F>(
    src: &R,
    from: R::Position,
    to: R::Position,
    dest: &mut D,
    out: D::Position,
    bi_pred: F,
) -> (r: D::Position) where
    R: InputRange<Element = <D as InputRange>::Element>,
    R::Element: Duplicable,
    D: OutputRange,
    F: Fn(&R::Element, &R::Element) -> bool,

    requires
        src.valid_pos(from),
        src.valid_pos(to),
        src.pos_idx(from) <= src.pos_idx(to),
        old(dest).valid_pos(out),
        rel_decided_adjacent(bi_pred, span(*src, from, to)),
        old(dest).pos_idx(out) + run_heads(span(*src, from, to), rel_of(bi_pred)).len() <= old(dest).contents().len(),
    ensures
        final(dest).valid_pos(r),
        final(dest).pos_idx(r) == old(dest).pos_idx(out) + run_heads(
            span(*src, from, to),
            rel_of(bi_pred),
        ).len(),
        final(dest).contents().len() == old(dest).contents().len(),
        final(dest).contents().subrange(old(dest).pos_idx(out), final(dest).pos_idx(r))
            == run_heads(span(*src, from, to), rel_of(bi_pred)),
        forall|j: int|
            0 <= j < old(dest).pos_idx(out) ==> #[trigger] final(dest).contents()[j] == old(dest).contents()[j],
        forall|j: int|
            old(dest).pos_idx(out) + run_heads(span(*src, from, to), rel_of(bi_pred)).len() <= j
                < old(dest).contents().len() ==> #[trigger] final(dest).contents()[j] == old(dest).contents()[j],
        forall|q: D::Position|
            old(dest).valid_pos(q) ==> #[trigger] final(dest).valid_pos(q) && final(dest).pos_idx(q) == old(dest).pos_idx(q),
        rel_adjacent_witnessed(bi_pred, span(*src, from, to)),
{
    let ghost s = src.contents();
    let ghost from_i = src.pos_idx(from);
    let ghost to_i = src.pos_idx(to);
    let ghost sub = span(*src, from, to);
    let ghost q = rel_of(bi_pred);
    let ghost oi = old(dest).pos_idx(out);
    let ghost d0 = old(dest).contents();
    proof {
        src.lemma_pos_idx_bounds(from);
        src.lemma_pos_idx_bounds(to);
        src.lemma_len_bound();
        dest.lemma_pos_idx_bounds(out);
    }
    if src.pos_eq(from, to) {
        proof {
            assert(sub =~= Seq::<R::Element>::empty());
            assert(run_heads(sub, q).len() == 0);
            assert(final(dest).contents().subrange(oi, oi) =~= run_heads(sub, q));
        }
        return out;
    }
    proof {
        lemma_run_heads_upto_len_mono(sub, q, 1, sub.len() as int);
    }
    let e0 = src.at(&from);
    let v0 = e0.duplicate();
    let slot0 = dest.at_mut(&out);
    *slot0 = v0;
    let mut o = dest.after(out);
    let mut prev = from;
    let mut cur = src.after(from);
    proof {
        assert(dest.contents().subrange(oi, oi + 1) =~= run_heads_upto(sub, q, 1));
    }
    while !src.pos_eq(cur, to)
        invariant
            src.valid_pos(prev),
            src.valid_pos(cur),
            src.valid_pos(to),
            src.valid_pos(from),
            from_i == src.pos_idx(from),
            to_i == src.pos_idx(to),
            s == src.contents(),
            sub == span(*src, from, to),
            q == rel_of(bi_pred),
            src.pos_idx(cur) == src.pos_idx(prev) + 1,
            0 <= from_i < src.pos_idx(cur) <= to_i <= s.len() <= usize::MAX,
            sub.len() == to_i - from_i,
            rel_decided_adjacent(bi_pred, sub),
            forall|j: int|
                1 <= j < src.pos_idx(cur) - from_i ==> call_ensures(
                    bi_pred,
                    (&sub[j - 1], &sub[j]),
                    q(sub[j - 1], #[trigger] sub[j]),
                ),
            dest.valid_pos(o),
            dest.contents().len() == d0.len(),
            0 <= oi,
            oi + run_heads(sub, q).len() <= d0.len(),
            dest.pos_idx(o) == oi + run_heads_upto(sub, q, src.pos_idx(cur) - from_i).len(),
            dest.contents().subrange(oi, dest.pos_idx(o)) == run_heads_upto(
                sub,
                q,
                src.pos_idx(cur) - from_i,
            ),
            forall|j: int| 0 <= j < oi ==> #[trigger] dest.contents()[j] == d0[j],
            forall|j: int|
                dest.pos_idx(o) <= j < d0.len() ==> #[trigger] dest.contents()[j] == d0[j],
            forall|qp: D::Position|
                old(dest).valid_pos(qp) ==> #[trigger] dest.valid_pos(qp) && dest.pos_idx(qp)
                    == old(dest).pos_idx(qp),
        decreases to_i - src.pos_idx(cur),
    {
        let ghost i = src.pos_idx(cur) - from_i;
        let ghost dpre = dest.contents();
        let ghost opre = dest.pos_idx(o);
        proof {
            assert(sub[i] == s[src.pos_idx(cur)]);
            assert(sub[i - 1] == s[src.pos_idx(prev)]);
            lemma_run_heads_upto_len_mono(sub, q, i + 1, sub.len() as int);
        }
        let pe = src.at(&prev);
        let ce = src.at(&cur);
        let c = bi_pred(pe, ce);
        proof {
            assert(rel_decided(bi_pred, sub[i - 1], sub[i]));
            assert(c == q(sub[i - 1], sub[i]));
            assert(call_ensures(bi_pred, (&sub[i - 1], &sub[i]), q(sub[i - 1], sub[i])));
        }
        if !c {
            proof {
                assert(run_heads_upto(sub, q, i + 1) == run_heads_upto(sub, q, i).push(sub[i]));
                assert(opre < oi + run_heads(sub, q).len() <= d0.len());
            }
            let v = ce.duplicate();
            let slot = dest.at_mut(&o);
            *slot = v;
            proof {
                assert(dest.contents() == dpre.update(opre, sub[i]));
            }
            o = dest.after(o);
            proof {
                assert(dest.contents().subrange(oi, opre + 1) =~= run_heads_upto(sub, q, i).push(
                    sub[i],
                ));
            }
        } else {
            proof {
                assert(run_heads_upto(sub, q, i + 1) == run_heads_upto(sub, q, i));
            }
        }
        prev = cur;
        cur = src.after(cur);
        proof {
            assert(dest.contents().subrange(oi, dest.pos_idx(o)) == run_heads_upto(sub, q, i + 1));
        }
    }
    proof {
        assert(src.pos_idx(cur) == to_i);
        assert(run_heads_upto(sub, q, sub.len() as int) == run_heads(sub, q));
    }
    o
}

/// Copies, from the span between `from` and `to`, only the first element
/// of each maximal run of adjacent equal elements to `dest` starting at
/// `out`, under the element type's default equivalence.  Behaves exactly
/// as `unique_copy_by` under that equivalence.
pub fn unique_copy<R, D>(
    src: &R,
    from: R::Position,
    to: R::Position,
    dest: &mut D,
    out: D::Position,
) -> (r: D::Position) where
    R: InputRange<Element = <D as InputRange>::Element>,
    R::Element: Regular,
    D: OutputRange,

    requires
        src.valid_pos(from),
        src.valid_pos(to),
        src.pos_idx(from) <= src.pos_idx(to),
        old(dest).valid_pos(out),
        old(dest).pos_idx(out) + run_heads(span(*src, from, to), equiv_rel::<R::Element>()).len()
            <= old(dest).contents().len(),
    ensures
        final(dest).valid_pos(r),
        final(dest).pos_idx(r) == old(dest).pos_idx(out) + run_heads(
            span(*src, from, to),
            equiv_rel::<R::Element>(),
        ).len(),
        final(dest).contents().len() == old(dest).contents().len(),
        final(dest).contents().subrange(old(dest).pos_idx(out), final(dest).pos_idx(r))
            == run_heads(span(*src, from, to), equiv_rel::<R::Element>()),
        forall|j: int|
            0 <= j < old(dest).pos_idx(out) ==> #[trigger] final(dest).contents()[j] == old(dest).contents()[j],
        forall|j: int|
            old(dest).pos_idx(out) + run_heads(span(*src, from, to), equiv_rel::<R::Element>()).len()
                <= j < old(dest).contents().len() ==> #[trigger] final(dest).contents()[j]
                == old(dest).contents()[j],
        forall|q: D::Position|
            old(dest).valid_pos(q) ==> #[trigger] final(dest).valid_pos(q) && final(dest).pos_idx(q) == old(dest).pos_idx(q),
{
    let ghost sub = span(*src, from, to);
    let ghost qe = equiv_rel::<R::Element>();
    let eq = |x: &R::Element, y: &R::Element| -> (b: bool)
        ensures
            b == x.equiv_spec(y),
        {
            x.equiv(y)
        };
    proof {
        assert forall|j: int| 1 <= j < sub.len() implies rel_decided(
            eq,
            sub[j - 1],
            #[trigger] sub[j],
        ) by {
            assert(!(call_ensures(eq, (&sub[j - 1], &sub[j]), true) && call_ensures(
                eq,
                (&sub[j - 1], &sub[j]),
                false,
            )));
        }
        assert forall|j: int|
            1 <= j < sub.len() && qe(sub[j - 1], #[trigger] sub[j]) implies rel_of(eq)(
            sub[j - 1],
            sub[j],
        ) by {
            if call_ensures(eq, (&sub[j - 1], &sub[j]), false) {
                assert(!sub[j - 1].equiv_spec(&sub[j]));
            }
        }
        lemma_run_heads_mono(sub, qe, rel_of(eq));
    }
    let r = unique_copy_by(src, from, to, dest, out, eq);
    proof {
        assert forall|j: int| 1 <= j < sub.len() implies rel_of(eq)(sub[j - 1], #[trigger] sub[j])
            == qe(sub[j - 1], sub[j]) by {
            assert(call_ensures(eq, (&sub[j - 1], &sub[j]), rel_of(eq)(sub[j - 1], sub[j])));
        }
        lemma_run_heads_congruent(sub, rel_of(eq), qe);
    }
    r
}

} // verus!
