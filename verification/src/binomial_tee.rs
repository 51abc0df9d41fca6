//! The baseline exact sampler: one public iteration bound for every draw.
//!
//! A draw from Binomial(count, num/denom) is found by an inverse-CDF scan
//! that always visits the indices `0..=max_count`, so its running time tells
//! nothing about `count` or about the result. The bound is derived from
//! public protocol parameters. The sampler decides the size and the length
//! of the scan and turns the first hit into the draw; the cumulative
//! probabilities that the masks compare against are the caller's part.

use vstd::prelude::*;
use crate::constant_time::{ct_eq_u64, ct_min_u64, ct_select_u64};
use crate::scan::{first_hit, lemma_first_hit_ignores_tail, lemma_first_hit_in_range, HitScan};

verus! {

/// The draws that public parameters alone decide: 0 when the probability is
/// zero or the fraction has no denominator, `count` when the probability is
/// one or more, and no early answer otherwise.
pub open spec fn edge_case(count: u64, num: u64, denom: u64) -> Option<u64> {
    if denom == 0 || num == 0 {
        Some(0u64)
    } else if num >= denom {
        Some(count)
    } else {
        None
    }
}

/// The smaller of two numbers.
pub open spec fn least(a: int, b: int) -> int {
    if a < b {
        a
    } else {
        b
    }
}

/// The draw that a first hit stands for. When the probability exceeds one
/// half the scan runs over the complement probability, and its hit counts
/// the failures: the draw is then what is left of `size`.
pub open spec fn settle(size: int, complement: bool, hit: int) -> int {
    if complement {
        size - hit
    } else {
        hit
    }
}

/// The draw of an exact sampler with iteration bound `bound`, from the masks
/// `hits` of its scan: the public edge cases first, else the first hit
/// within the clamped count, mirrored within `count` for a complement scan.
pub open spec fn exact_draw(
    bound: u64,
    count: u64,
    num: u64,
    denom: u64,
    complement: bool,
    hits: Seq<u64>,
) -> int {
    match edge_case(count, num, denom) {
        Some(v) => v as int,
        None => settle(count as int, complement, first_hit(hits, least(count as int, bound as int))),
    }
}

/// The draw of an exact fallback scan with iteration bound `bound`: the
/// first hit within the clamped count, mirrored within the clamped count
/// for a complement scan.
pub open spec fn fallback_draw(bound: u64, count: u64, complement: bool, hits: Seq<u64>) -> int {
    let n = least(count as int, bound as int);
    settle(n, complement, first_hit(hits, n))
}

/// A fallback draw never leaves `0..=count`.
pub proof fn lemma_fallback_draw_in_range(
    bound: u64,
    count: u64,
    complement: bool,
    hits: Seq<u64>,
)
    ensures
        0 <= fallback_draw(bound, count, complement, hits) <= least(count as int, bound as int),
{
    lemma_first_hit_in_range(hits, least(count as int, bound as int));
}

/// Two exact samplers agree on every draw that both bounds admit: where
/// `count` exceeds neither bound and the masks agree on the indices
/// `0..=count`, the draws are equal, however long each scan ran.
pub proof fn lemma_exact_draw_any_bound(
    bound_a: u64,
    bound_b: u64,
    count: u64,
    num: u64,
    denom: u64,
    complement: bool,
    hits_a: Seq<u64>,
    hits_b: Seq<u64>,
)
    requires
        count <= bound_a,
        count <= bound_b,
        hits_a.len() == bound_a + 1,
        hits_b.len() == bound_b + 1,
        forall|k: int| 0 <= k <= count ==> hits_a[k] % 2 == hits_b[k] % 2,
    ensures
        exact_draw(bound_a, count, num, denom, complement, hits_a) == exact_draw(
            bound_b,
            count,
            num,
            denom,
            complement,
            hits_b,
        ),
{
    lemma_first_hit_ignores_tail(hits_a, hits_b, count as int);
}

/// The early answer for the public edge cases, if there is one.
pub fn public_edge_case(count: u64, num: u64, denom: u64) -> (early: Option<u64>)
    ensures
        early == edge_case(count, num, denom),
{
    if denom == 0 || num == 0 {
        Some(0)
    } else if num >= denom {
        Some(count)
    } else {
        None
    }
}

/// An exact sampler whose every scan visits `max_count + 1` indices.
pub struct BinomialSamplerTee {
    max_count: u64,
}

impl BinomialSamplerTee {
    /// The public iteration bound.
    pub closed spec fn bound(&self) -> u64 {
        self.max_count
    }

    /// A sampler with the given public iteration bound.
    pub fn new(max_count: u64) -> (sampler: Self)
        ensures
            sampler.bound() == max_count,
    {
        BinomialSamplerTee { max_count }
    }

    /// The public iteration bound.
    pub fn max_count(&self) -> (bound: u64)
        ensures
            bound == self.bound(),
    {
        self.max_count
    }

    /// Starts the scan for a draw of size `count`: the size is clamped to
    /// the bound, and the scan visits `0..=max_count` whatever `count` is.
    pub fn scan(&self, count: u64) -> (scan: HitScan)
        ensures
            scan.count() == least(count as int, self.bound() as int),
            scan.bound() == self.bound(),
            scan.seen() == Seq::<u64>::empty(),
            !scan.finished(),
    {
        HitScan::new(ct_min_u64(count, self.max_count), self.max_count)
    }

    /// The draw from Binomial(count, num/denom) that a finished scan stands
    /// for. `complement` says that the scan ran over the probability
    /// `1 - num/denom`. For the public edge cases the scan is not consulted.
    pub fn sample(&self, count: u64, num: u64, denom: u64, complement: bool, scan: &HitScan) -> (k:
        u64)
        requires
            edge_case(count, num, denom) is None ==> scan.finished() && scan.bound() == self.bound()
                && scan.count() == least(count as int, self.bound() as int),
        ensures
            k == exact_draw(self.bound(), count, num, denom, complement, scan.seen()),
            k <= count,
    {
        if denom == 0 || num == 0 {
            return 0;
        }
        if num >= denom {
            return count;
        }
        let count_is_zero: u64 = ct_eq_u64(count, 0);
        let hit: u64 = scan.outcome();
        let result: u64 = if complement {
            count - hit
        } else {
            hit
        };
        ct_select_u64(count_is_zero, 0, result)
    }
}

} // verus!
