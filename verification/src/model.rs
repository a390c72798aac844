//! The mathematical model the algorithm contracts speak of: what a filtered
//! copy writes, what in-place compaction keeps, and what a run-compacting
//! copy writes, each as a function of the source sequence and an abstract
//! predicate, together with the laws the library states about them.

use vstd::prelude::*;

verus! {

/// The elements among the first `n` of `s` that satisfy `p`, in their
/// original relative order.
pub open spec fn filtered_upto<T>(s: Seq<T>, p: spec_fn(T) -> bool, n: int) -> Seq<T>
    decreases n,
{
    if n <= 0 {
        Seq::empty()
    } else if p(s[n - 1]) {
        filtered_upto(s, p, n - 1).push(s[n - 1])
    } else {
        filtered_upto(s, p, n - 1)
    }
}

/// The elements of `s` that satisfy `p`, in their original relative order:
/// what a filtered copy of `s` writes.
pub open spec fn filtered<T>(s: Seq<T>, p: spec_fn(T) -> bool) -> Seq<T> {
    filtered_upto(s, p, s.len() as int)
}

/// What in-place compaction keeps of the first `n` elements of `s`: the
/// first element, and every later one that is not `p`-equivalent to the
/// most recently kept element.
pub open spec fn kept_upto<T>(s: Seq<T>, p: spec_fn(T, T) -> bool, n: int) -> Seq<T>
    decreases n,
{
    if n <= 0 {
        Seq::empty()
    } else if n == 1 {
        seq![s[0]]
    } else {
        let prev = kept_upto(s, p, n - 1);
        if p(prev.last(), s[n - 1]) {
            prev
        } else {
            prev.push(s[n - 1])
        }
    }
}

/// The compacted form of `s` under `p`: what the in-place `unique` family
/// leaves at the front of the range.
pub open spec fn kept<T>(s: Seq<T>, p: spec_fn(T, T) -> bool) -> Seq<T> {
    kept_upto(s, p, s.len() as int)
}

/// The heads of the maximal adjacent runs among the first `n` elements of
/// `s`: the first element, and every later one not `p`-equivalent to its
/// immediate predecessor.
pub open spec fn run_heads_upto<T>(s: Seq<T>, p: spec_fn(T, T) -> bool, n: int) -> Seq<T>
    decreases n,
{
    if n <= 0 {
        Seq::empty()
    } else if n == 1 {
        seq![s[0]]
    } else if p(s[n - 2], s[n - 1]) {
        run_heads_upto(s, p, n - 1)
    } else {
        run_heads_upto(s, p, n - 1).push(s[n - 1])
    }
}

/// The run heads of `s` under `p`: what the copying `unique` family writes.
pub open spec fn run_heads<T>(s: Seq<T>, p: spec_fn(T, T) -> bool) -> Seq<T> {
    run_heads_upto(s, p, s.len() as int)
}

/// Filtering more of the source never writes less.
pub proof fn lemma_filtered_upto_mono<T>(s: Seq<T>, p: spec_fn(T) -> bool, n: int, m: int)
    requires
        0 <= n <= m,
    ensures
        filtered_upto(s, p, n).len() <= filtered_upto(s, p, m).len(),
    decreases m,
{
    if n < m {
        lemma_filtered_upto_mono(s, p, n, m - 1);
    }
}

/// A predicate that holds of every element filters nothing out: the copy
/// with an always-true predicate writes the source exactly.
pub proof fn lemma_filtered_all_true<T>(s: Seq<T>, p: spec_fn(T) -> bool)
    requires
        forall|i: int| 0 <= i < s.len() ==> p(#[trigger] s[i]),
    ensures
        filtered(s, p) == s,
{
    lemma_filtered_upto_all_true(s, p, s.len() as int);
    assert(filtered(s, p) =~= s);
}

proof fn lemma_filtered_upto_all_true<T>(s: Seq<T>, p: spec_fn(T) -> bool, n: int)
    requires
        0 <= n <= s.len(),
        forall|i: int| 0 <= i < s.len() ==> p(#[trigger] s[i]),
    ensures
        filtered_upto(s, p, n) =~= s.subrange(0, n),
    decreases n,
{
    if n > 0 {
        lemma_filtered_upto_all_true(s, p, n - 1);
    }
}

/// The compacted prefix is never empty once the source is not, it never
/// grows past the source, and it starts at the source's first element.
pub proof fn lemma_kept_upto_basic<T>(s: Seq<T>, p: spec_fn(T, T) -> bool, n: int)
    requires
        1 <= n,
    ensures
        1 <= kept_upto(s, p, n).len() <= n,
        kept_upto(s, p, n)[0] == s[0],
    decreases n,
{
    if n > 1 {
        lemma_kept_upto_basic(s, p, n - 1);
    }
}

/// Compaction only drops elements, it never reorders the kept ones: the
/// compacted prefix keeps no two adjacent `p`-equivalent elements.
pub proof fn lemma_kept_no_adjacent<T>(s: Seq<T>, p: spec_fn(T, T) -> bool)
    ensures
        forall|j: int|
            1 <= j < kept(s, p).len() ==> !p(kept(s, p)[j - 1], #[trigger] kept(s, p)[j]),
{
    lemma_kept_upto_no_adjacent(s, p, s.len() as int);
}

proof fn lemma_kept_upto_no_adjacent<T>(s: Seq<T>, p: spec_fn(T, T) -> bool, n: int)
    ensures
        forall|j: int|
            1 <= j < kept_upto(s, p, n).len() ==> !p(
                kept_upto(s, p, n)[j - 1],
                #[trigger] kept_upto(s, p, n)[j],
            ),
    decreases n,
{
    if n > 1 {
        lemma_kept_upto_no_adjacent(s, p, n - 1);
        let prev = kept_upto(s, p, n - 1);
        let cur = kept_upto(s, p, n);
        if !p(prev.last(), s[n - 1]) {
            assert(forall|j: int|
                1 <= j < prev.len() ==> cur[j - 1] == prev[j - 1] && #[trigger] cur[j] == prev[j]);
        }
    }
}

/// A sequence with no two adjacent `p`-equivalent elements is already
/// compact: compaction keeps all of it.
pub proof fn lemma_kept_of_compact<T>(s: Seq<T>, p: spec_fn(T, T) -> bool)
    requires
        forall|j: int| 1 <= j < s.len() ==> !p(s[j - 1], #[trigger] s[j]),
    ensures
        kept(s, p) == s,
{
    lemma_kept_upto_of_compact(s, p, s.len() as int);
    assert(kept(s, p) =~= s);
}

proof fn lemma_kept_upto_of_compact<T>(s: Seq<T>, p: spec_fn(T, T) -> bool, n: int)
    requires
        0 <= n <= s.len(),
        forall|j: int| 1 <= j < s.len() ==> !p(s[j - 1], #[trigger] s[j]),
    ensures
        kept_upto(s, p, n) =~= s.subrange(0, n),
    decreases n,
{
    if n > 0 {
        lemma_kept_upto_of_compact(s, p, n - 1);
        if n > 1 {
            assert(kept_upto(s, p, n - 1).last() == s[n - 2]);
        }
    }
}

/// Idempotence of in-place compaction: compacting an already-compacted
/// sequence is the identity, so re-applying `unique` to the prefix it left
/// behind changes nothing.
pub proof fn lemma_kept_idempotent<T>(s: Seq<T>, p: spec_fn(T, T) -> bool)
    ensures
        kept(kept(s, p), p) == kept(s, p),
{
    lemma_kept_no_adjacent(s, p);
    lemma_kept_of_compact(kept(s, p), p);
}

/// Two relations that agree on the pairs compaction consults, namely each
/// element against the most recently kept one, compact `s` alike.
pub proof fn lemma_kept_congruent<T>(
    s: Seq<T>,
    p: spec_fn(T, T) -> bool,
    q: spec_fn(T, T) -> bool,
)
    requires
        forall|i: int|
            1 <= i < s.len() ==> p(kept_upto(s, p, i).last(), #[trigger] s[i]) == q(
                kept_upto(s, p, i).last(),
                s[i],
            ),
    ensures
        kept(s, p) == kept(s, q),
{
    lemma_kept_upto_congruent(s, p, q, s.len() as int);
}

proof fn lemma_kept_upto_congruent<T>(
    s: Seq<T>,
    p: spec_fn(T, T) -> bool,
    q: spec_fn(T, T) -> bool,
    n: int,
)
    requires
        n <= s.len(),
        forall|i: int|
            1 <= i < s.len() ==> p(kept_upto(s, p, i).last(), #[trigger] s[i]) == q(
                kept_upto(s, p, i).last(),
                s[i],
            ),
    ensures
        kept_upto(s, p, n) == kept_upto(s, q, n),
    decreases n,
{
    if n > 1 {
        lemma_kept_upto_congruent(s, p, q, n - 1);
    }
}

/// Coarsening the relation on adjacent pairs merges runs and so never
/// increases the number of run heads.
pub proof fn lemma_run_heads_mono<T>(s: Seq<T>, p: spec_fn(T, T) -> bool, q: spec_fn(T, T) -> bool)
    requires
        forall|j: int| 1 <= j < s.len() ==> p(s[j - 1], #[trigger] s[j]) ==> q(s[j - 1], s[j]),
    ensures
        run_heads(s, q).len() <= run_heads(s, p).len(),
{
    lemma_run_heads_upto_mono(s, p, q, s.len() as int);
}

proof fn lemma_run_heads_upto_mono<T>(
    s: Seq<T>,
    p: spec_fn(T, T) -> bool,
    q: spec_fn(T, T) -> bool,
    n: int,
)
    requires
        n <= s.len(),
        forall|j: int| 1 <= j < s.len() ==> p(s[j - 1], #[trigger] s[j]) ==> q(s[j - 1], s[j]),
    ensures
        run_heads_upto(s, q, n).len() <= run_heads_upto(s, p, n).len(),
    decreases n,
{
    if n > 1 {
        lemma_run_heads_upto_mono(s, p, q, n - 1);
    }
}

/// Taking more of the source never writes fewer run heads.
pub proof fn lemma_run_heads_upto_len_mono<T>(s: Seq<T>, p: spec_fn(T, T) -> bool, n: int, m: int)
    requires
        0 <= n <= m,
    ensures
        run_heads_upto(s, p, n).len() <= run_heads_upto(s, p, m).len(),
    decreases m,
{
    if n < m {
        lemma_run_heads_upto_len_mono(s, p, n, m - 1);
    }
}

/// The most recently kept element is an element of the source: compaction
/// invents no values.
pub proof fn lemma_kept_upto_last_in_source<T>(s: Seq<T>, p: spec_fn(T, T) -> bool, n: int)
    requires
        1 <= n,
    ensures
        exists|u: int| 0 <= u < n && kept_upto(s, p, n).last() == s[u],
    decreases n,
{
    if n == 1 {
        assert(kept_upto(s, p, n).last() == s[0]);
    } else {
        let prev = kept_upto(s, p, n - 1);
        if p(prev.last(), s[n - 1]) {
            lemma_kept_upto_last_in_source(s, p, n - 1);
        } else {
            assert(kept_upto(s, p, n).last() == s[n - 1]);
        }
    }
}

/// Exchanging two elements of a sequence permutes it: the multiset of its
/// elements is unchanged.
pub proof fn lemma_swap_preserves_multiset<T>(s: Seq<T>, a: int, b: int)
    requires
        0 <= a < s.len(),
        0 <= b < s.len(),
    ensures
        s.update(a, s[b]).update(b, s[a]).to_multiset() == s.to_multiset(),
{
    broadcast use vstd::seq_lib::group_to_multiset_ensures;
    broadcast use vstd::multiset::group_multiset_axioms;

    if a == b {
        assert(s.update(a, s[b]).update(b, s[a]) =~= s);
    } else {
        let s1 = s.update(a, s[b]);
        assert(s1.update(b, s[a]).to_multiset() =~= s.to_multiset());
    }
}

/// Two relations that agree on the adjacent pairs of `s` cut `s` into the
/// same runs.
pub proof fn lemma_run_heads_congruent<T>(
    s: Seq<T>,
    p: spec_fn(T, T) -> bool,
    q: spec_fn(T, T) -> bool,
)
    requires
        forall|j: int| 1 <= j < s.len() ==> p(s[j - 1], #[trigger] s[j]) == q(s[j - 1], s[j]),
    ensures
        run_heads(s, p) == run_heads(s, q),
{
    lemma_run_heads_upto_congruent(s, p, q, s.len() as int);
}

proof fn lemma_run_heads_upto_congruent<T>(
    s: Seq<T>,
    p: spec_fn(T, T) -> bool,
    q: spec_fn(T, T) -> bool,
    n: int,
)
    requires
        n <= s.len(),
        forall|j: int| 1 <= j < s.len() ==> p(s[j - 1], #[trigger] s[j]) == q(s[j - 1], s[j]),
    ensures
        run_heads_upto(s, p, n) == run_heads_upto(s, q, n),
    decreases n,
{
    if n > 1 {
        lemma_run_heads_upto_congruent(s, p, q, n - 1);
    }
}

} // verus!
