//! The table sampler for probability one half.
//!
//! For draws of at most `PRECOMPUTE_MAX_N` items at probability exactly one
//! half, the cumulative probabilities come from a table, and the scan visits
//! the indices `0..=PRECOMPUTE_MAX_N` whatever the draw's size. Every other
//! draw falls back to an exact scan under the sampler's own bound. The
//! sampler decides which scan a draw takes and settles it; the table itself
//! and the comparisons against it are the caller's part.

use vstd::prelude::*;
use crate::binomial_tee::{
    edge_case,
    exact_draw,
    fallback_draw,
    least,
    lemma_fallback_draw_in_range,
};
use crate::constant_time::ct_min_u64;
use crate::scan::{first_hit, lemma_first_hit_ignores_tail, HitScan};

verus! {

/// The largest draw that the table covers.
pub const PRECOMPUTE_MAX_N: usize = 256;

/// Whether a draw from Binomial(count, 1/2) is read off the table.
pub open spec fn half_in_table(count: u64) -> bool {
    count <= PRECOMPUTE_MAX_N
}

/// Whether a draw from Binomial(count, num/denom) is read off the table:
/// the probability is exactly one half and the table covers the count.
pub open spec fn in_table(count: u64, num: u64, denom: u64) -> bool {
    2 * num == denom && half_in_table(count)
}

/// The draw from Binomial(count, 1/2): the first hit of the table scan
/// where the table covers the count, else the fallback's draw.
pub open spec fn half_draw(bound: u64, count: u64, hits: Seq<u64>) -> int {
    if half_in_table(count) {
        first_hit(hits, count as int)
    } else {
        fallback_draw(bound, count, false, hits)
    }
}

/// The draw of the table sampler: the public edge cases first; else the
/// table's draw at probability one half within the table's reach, and the
/// fallback's draw otherwise.
pub open spec fn precomputed_draw(
    bound: u64,
    count: u64,
    num: u64,
    denom: u64,
    complement: bool,
    hits: Seq<u64>,
) -> int {
    match edge_case(count, num, denom) {
        Some(v) => v as int,
        None => if in_table(count, num, denom) {
            half_draw(bound, count, hits)
        } else {
            fallback_draw(bound, count, complement, hits)
        },
    }
}

/// Within the table's reach, the table's draw equals the draw of any exact
/// sampler at probability one half whose bound admits the count, provided
/// that the two scans' masks agree on the indices `0..=count`.
pub proof fn lemma_half_draw_matches_exact(
    fallback: u64,
    exact_bound: u64,
    count: u64,
    table_hits: Seq<u64>,
    exact_hits: Seq<u64>,
)
    requires
        half_in_table(count),
        count <= exact_bound,
        table_hits.len() == PRECOMPUTE_MAX_N + 1,
        exact_hits.len() == exact_bound + 1,
        forall|k: int| 0 <= k <= count ==> table_hits[k] % 2 == exact_hits[k] % 2,
    ensures
        half_draw(fallback, count, table_hits) == exact_draw(
            exact_bound,
            count,
            1,
            2,
            false,
            exact_hits,
        ),
{
    lemma_first_hit_ignores_tail(table_hits, exact_hits, count as int);
}

/// A sampler that reads small draws at probability one half off a table and
/// scans every other draw over the indices `0..=fallback_max_count`.
pub struct PrecomputedBinomialSamplerTee {
    fallback_max_count: u64,
}

impl PrecomputedBinomialSamplerTee {
    /// The public iteration bound of the exact fallback.
    pub closed spec fn bound(&self) -> u64 {
        self.fallback_max_count
    }

    /// The scan that a draw takes: over the table's indices for a draw read
    /// off the table, else over the fallback's.
    pub open spec fn scan_fits(&self, table: bool, count: u64, scan: &HitScan) -> bool {
        &&& scan.finished()
        &&& table ==> scan.bound() == PRECOMPUTE_MAX_N && scan.count() == count
        &&& !table ==> scan.bound() == self.bound() && scan.count() == least(
            count as int,
            self.bound() as int,
        )
    }

    /// A sampler whose exact fallback has the given public iteration bound.
    pub fn new(fallback_max_count: u64) -> (sampler: Self)
        ensures
            sampler.bound() == fallback_max_count,
    {
        PrecomputedBinomialSamplerTee { fallback_max_count }
    }

    /// The public iteration bound of the exact fallback.
    pub fn fallback_max_count(&self) -> (bound: u64)
        ensures
            bound == self.bound(),
    {
        self.fallback_max_count
    }

    /// Whether a draw from Binomial(count, num/denom) is read off the table.
    pub fn uses_table(&self, count: u64, num: u64, denom: u64) -> (table: bool)
        ensures
            table == in_table(count, num, denom),
    {
        num <= u64::MAX / 2 && num * 2 == denom && count <= 256
    }

    /// Starts the scan for a draw of size `count`: over the table's indices
    /// `0..=PRECOMPUTE_MAX_N` where `table` is set and the table covers the
    /// count, else over `0..=fallback_max_count` with the size clamped to
    /// that bound.
    pub fn scan(&self, table: bool, count: u64) -> (scan: HitScan)
        ensures
            table && half_in_table(count) ==> scan.bound() == PRECOMPUTE_MAX_N && scan.count()
                == count,
            !(table && half_in_table(count)) ==> scan.bound() == self.bound() && scan.count()
                == least(count as int, self.bound() as int),
            scan.seen() == Seq::<u64>::empty(),
            !scan.finished(),
    {
        if table && count <= 256 {
            HitScan::new(count, 256)
        } else {
            HitScan::new(ct_min_u64(count, self.fallback_max_count), self.fallback_max_count)
        }
    }

    /// The draw from Binomial(count, 1/2) that a finished scan stands for.
    pub fn sample_half(&self, count: u64, scan: &HitScan) -> (k: u64)
        requires
            self.scan_fits(half_in_table(count), count, scan),
        ensures
            k == half_draw(self.bound(), count, scan.seen()),
            k <= count,
    {
        proof {
            lemma_fallback_draw_in_range(self.bound(), count, false, scan.seen());
        }
        scan.outcome()
    }

    /// The draw from Binomial(count, num/denom) that a finished scan stands
    /// for. `complement` says that a fallback scan ran over the probability
    /// `1 - num/denom`. For the public edge cases the scan is not consulted.
    pub fn sample(&self, count: u64, num: u64, denom: u64, complement: bool, scan: &HitScan) -> (k:
        u64)
        requires
            edge_case(count, num, denom) is None ==> self.scan_fits(
                in_table(count, num, denom),
                count,
                scan,
            ),
        ensures
            k == precomputed_draw(self.bound(), count, num, denom, complement, scan.seen()),
            k <= count,
    {
        if denom == 0 || num == 0 {
            return 0;
        }
        if num >= denom {
            return count;
        }
        if self.uses_table(count, num, denom) {
            return self.sample_half(count, scan);
        }
        proof {
            lemma_fallback_draw_in_range(self.bound(), count, complement, scan.seen());
        }
        let n: u64 = ct_min_u64(count, self.fallback_max_count);
        let hit: u64 = scan.outcome();
        if complement {
            n - hit
        } else {
            hit
        }
    }
}

} // verus!
