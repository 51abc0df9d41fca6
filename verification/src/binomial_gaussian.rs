//! The Gaussian sampler: a constant-time normal approximation for large
//! draws, with an exact scan as the fallback for small ones.
//!
//! Where both `n * p` and `n * (1 - p)` exceed ten, Binomial(n, p) is close
//! to a normal distribution, whose quantile costs a fixed handful of
//! operations. Both the approximation and the exact fallback are always
//! computed, and a mask picks between them, so that the time does not tell
//! which one was used. The sampler clamps the approximation into the draw's
//! range, settles the fallback scan and makes the selection; the quantile
//! and the cumulative probabilities are the caller's part.

use vstd::prelude::*;
use crate::binomial_tee::{edge_case, fallback_draw, least};
use crate::constant_time::{ct_min_u64, ct_select_u64};
use crate::scan::HitScan;

verus! {

/// The draw of the Gaussian sampler: the public edge cases first; else the
/// rounded approximation clamped to `count` where both masks are 1, and the
/// fallback's draw otherwise.
pub open spec fn gaussian_draw(
    bound: u64,
    count: u64,
    num: u64,
    denom: u64,
    mean_above: u64,
    rest_above: u64,
    rounded: u64,
    complement: bool,
    hits: Seq<u64>,
) -> int {
    match edge_case(count, num, denom) {
        Some(v) => v as int,
        None => if mean_above % 2 == 1 && rest_above % 2 == 1 {
            least(rounded as int, count as int)
        } else {
            fallback_draw(bound, count, complement, hits)
        },
    }
}

/// A sampler that approximates large draws and scans small ones over the
/// indices `0..=fallback_max_count`.
pub struct GaussianBinomialSamplerTee {
    fallback_max_count: u64,
}

impl GaussianBinomialSamplerTee {
    /// The public iteration bound of the exact fallback.
    pub closed spec fn bound(&self) -> u64 {
        self.fallback_max_count
    }

    /// A sampler whose exact fallback has the given public iteration bound.
    pub fn new(fallback_max_count: u64) -> (sampler: Self)
        ensures
            sampler.bound() == fallback_max_count,
    {
        GaussianBinomialSamplerTee { fallback_max_count }
    }

    /// The public iteration bound of the exact fallback.
    pub fn fallback_max_count(&self) -> (bound: u64)
        ensures
            bound == self.bound(),
    {
        self.fallback_max_count
    }

    /// Starts the fallback scan for a draw of size `count`: the size is
    /// clamped to the bound, and the scan visits `0..=fallback_max_count`
    /// whatever `count` is.
    pub fn scan(&self, count: u64) -> (scan: HitScan)
        ensures
            scan.count() == least(count as int, self.bound() as int),
            scan.bound() == self.bound(),
            scan.seen() == Seq::<u64>::empty(),
            !scan.finished(),
    {
        HitScan::new(ct_min_u64(count, self.fallback_max_count), self.fallback_max_count)
    }

    /// The draw of a finished fallback scan.
    pub fn sample_exact(&self, count: u64, complement: bool, scan: &HitScan) -> (k: u64)
        requires
            scan.finished(),
            scan.bound() == self.bound(),
            scan.count() == least(count as int, self.bound() as int),
        ensures
            k == fallback_draw(self.bound(), count, complement, scan.seen()),
            k <= count,
    {
        let n: u64 = ct_min_u64(count, self.fallback_max_count);
        let hit: u64 = scan.outcome();
        if complement {
            n - hit
        } else {
            hit
        }
    }

    /// The draw from Binomial(count, num/denom). `mean_above` and
    /// `rest_above` are the masks of `count * p > 10` and
    /// `count * (1 - p) > 10`; `rounded` is the normal approximation rounded
    /// to the nearest integer, negative values taken as 0; `complement` says
    /// that the fallback scan ran over the probability `1 - num/denom`. For
    /// the public edge cases none of them is consulted.
    pub fn sample(
        &self,
        count: u64,
        num: u64,
        denom: u64,
        mean_above: u64,
        rest_above: u64,
        rounded: u64,
        complement: bool,
        scan: &HitScan,
    ) -> (k: u64)
        requires
            edge_case(count, num, denom) is None ==> scan.finished() && scan.bound() == self.bound()
                && scan.count() == least(count as int, self.bound() as int),
        ensures
            k == gaussian_draw(
                self.bound(),
                count,
                num,
                denom,
                mean_above,
                rest_above,
                rounded,
                complement,
                scan.seen(),
            ),
            k <= count,
    {
        if denom == 0 || num == 0 {
            return 0;
        }
        if num >= denom {
            return count;
        }
        let use_gaussian: u64 = mean_above & rest_above & 1;
        assert(use_gaussian == (if mean_above % 2 == 1 && rest_above % 2 == 1 {
            1u64
        } else {
            0u64
        })) by (bit_vector)
            requires
                use_gaussian == mean_above & rest_above & 1,
        ;
        let gaussian_result: u64 = ct_min_u64(rounded, count);
        let exact_result: u64 = self.sample_exact(count, complement, scan);
        ct_select_u64(use_gaussian, gaussian_result, exact_result)
    }
}

} // verus!
