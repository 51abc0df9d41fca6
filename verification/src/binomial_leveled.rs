//! The leveled exact sampler: one iteration bound per level of the bin tree.
//!
//! At depth `L` of the tree a node holds at most `ceil(n / 2^L)` balls, so a
//! scan at that depth need not run further. The bounds depend on the public
//! domain and range sizes alone, and they shrink geometrically: a whole
//! descent costs about twice the root's scan instead of one root-sized scan
//! per level.

use vstd::prelude::*;
use vstd::arithmetic::div_mod::lemma_fundamental_div_mod_converse;
use vstd::arithmetic::div_mod::lemma_fundamental_div_mod;
use vstd::arithmetic::div_mod::lemma_mod_bound;
use vstd::arithmetic::power2::{lemma_pow2_pos, lemma_pow2_unfold, pow2};
use crate::binomial_tee::{edge_case, exact_draw, least};
use crate::constant_time::{ct_eq_u64, ct_min_u64, ct_select_u64};
use crate::log2::{ceil_half, ceil_half_u64, ceil_log2, ceil_log2_u64};
use crate::scan::HitScan;

verus! {

/// The deepest tree that the sampler keeps bounds for.
pub const MAX_TREE_DEPTH: usize = 32;

/// The most balls that a node at depth `level` can hold when the root holds
/// `n`: `n` halved `level` times, rounding up each time.
pub open spec fn level_bound_of(n: int, level: nat) -> int
    decreases level,
{
    if level == 0 {
        n
    } else {
        ceil_half(level_bound_of(n, (level - 1) as nat))
    }
}

/// The depth of the bin tree over `m` bins: at least one level, else the
/// base-two logarithm of `m`, rounded up.
pub open spec fn tree_depth(m: int) -> nat {
    if m <= 1 {
        1
    } else {
        ceil_log2(m)
    }
}

/// The sum of the bounds of the levels `0..levels`.
pub open spec fn bounds_total(n: int, levels: nat) -> int
    decreases levels,
{
    if levels == 0 {
        0
    } else {
        bounds_total(n, (levels - 1) as nat) + level_bound_of(n, (levels - 1) as nat)
    }
}

/// Halving `level` times with rounding up is dividing by `2^level` with
/// rounding up.
pub proof fn lemma_level_bound_closed_form(n: int, level: nat)
    requires
        0 <= n,
    ensures
        level_bound_of(n, level) == (n + pow2(level) - 1) / (pow2(level) as int),
    decreases level,
{
    lemma_pow2_pos(level);
    if level == 0 {
        lemma_pow2_unfold(1);
        assert(pow2(0) == 1) by {
            vstd::arithmetic::power2::lemma2_to64();
        }
    } else {
        let below = (level - 1) as nat;
        lemma_level_bound_closed_form(n, below);
        lemma_pow2_pos(below);
        lemma_pow2_unfold(level);
        let p = pow2(below) as int;
        let x = n + p - 1;
        let q = x / p;
        let r = x % p;
        lemma_fundamental_div_mod(x, p);
        lemma_mod_bound(x, p);
        let a = (q + 1) / 2;
        let b = (q + 1) % 2;
        assert(n + 2 * p - 1 == (2 * p) * a + (b * p + r)) by (nonlinear_arith)
            requires
                n + p - 1 == p * q + r,
                q + 1 == 2 * a + b,
        ;
        assert(0 <= b * p + r < 2 * p) by (nonlinear_arith)
            requires
                0 <= r < p,
                b == 0 || b == 1,
        ;
        lemma_fundamental_div_mod_converse(n + 2 * p - 1, 2 * p, a, b * p + r);
    }
}

/// A level's bound is never negative and never exceeds the root's.
pub proof fn lemma_level_bound_range(n: int, level: nat)
    requires
        0 <= n,
    ensures
        0 <= level_bound_of(n, level) <= n,
    decreases level,
{
    if level > 0 {
        lemma_level_bound_range(n, (level - 1) as nat);
    }
}

/// The bounds of a whole descent add up to less than twice the root's bound
/// plus one step per level.
pub proof fn lemma_bounds_total_geometric(n: int, levels: nat)
    requires
        0 <= n,
    ensures
        0 <= bounds_total(n, levels),
        bounds_total(n, levels) + 2 * level_bound_of(n, levels) <= 2 * n + levels,
    decreases levels,
{
    if levels > 0 {
        lemma_bounds_total_geometric(n, (levels - 1) as nat);
        lemma_level_bound_range(n, (levels - 1) as nat);
    }
    lemma_level_bound_range(n, levels);
}

/// The sum of the bounds grows with the number of levels.
pub proof fn lemma_bounds_total_monotone(n: int, fewer: nat, more: nat)
    requires
        0 <= n,
        fewer <= more,
    ensures
        0 <= bounds_total(n, fewer) <= bounds_total(n, more),
    decreases more,
{
    lemma_bounds_total_geometric(n, fewer);
    if fewer < more {
        lemma_bounds_total_monotone(n, fewer, (more - 1) as nat);
        lemma_level_bound_range(n, (more - 1) as nat);
    }
}

/// An exact sampler with one public iteration bound per tree level.
pub struct LeveledBinomialSamplerTee {
    level_bounds: [u64; MAX_TREE_DEPTH],
    num_levels: usize,
    balls: Ghost<int>,
}

impl LeveledBinomialSamplerTee {
    #[verifier::type_invariant]
    spec fn well_formed(self) -> bool {
        &&& 1 <= self.num_levels <= MAX_TREE_DEPTH
        &&& 0 <= self.balls@
        &&& forall|level: int|
            0 <= level < self.num_levels ==> self.level_bounds[level] == level_bound_of(
                self.balls@,
                level as nat,
            )
    }

    /// The number of balls at the root.
    pub closed spec fn domain(&self) -> int {
        self.balls@
    }

    /// The number of levels that have a bound of their own.
    pub closed spec fn levels(&self) -> nat {
        self.num_levels as nat
    }

    /// The iteration bound of the scan at `level`; levels past the last use
    /// the last level's bound.
    pub open spec fn bound_at(&self, level: nat) -> int {
        if level < self.levels() {
            level_bound_of(self.domain(), level)
        } else {
            level_bound_of(self.domain(), (self.levels() - 1) as nat)
        }
    }

    /// A sampler for a tree that routes `n` balls into `m` bins.
    pub fn new(n: u64, m: u64) -> (sampler: Self)
        ensures
            sampler.domain() == n,
            sampler.levels() == least(tree_depth(m as int) as int, MAX_TREE_DEPTH as int),
    {
        let depth: u32 = if m <= 1 {
            1
        } else {
            ceil_log2_u64(m)
        };
        let num_levels: usize = if depth < 32 {
            depth as usize
        } else {
            MAX_TREE_DEPTH
        };
        let mut level_bounds: [u64; MAX_TREE_DEPTH] = [0u64; MAX_TREE_DEPTH];
        let mut max_balls: u64 = n;
        let mut level: usize = 0;
        while level < num_levels
            invariant
                level <= num_levels <= MAX_TREE_DEPTH,
                max_balls == level_bound_of(n as int, level as nat),
                forall|l: int|
                    0 <= l < level ==> level_bounds[l] == level_bound_of(n as int, l as nat),
            decreases num_levels - level,
        {
            level_bounds[level] = max_balls;
            max_balls = ceil_half_u64(max_balls);
            level = level + 1;
        }
        LeveledBinomialSamplerTee { level_bounds, num_levels, balls: Ghost(n as int) }
    }

    /// The iteration bound of `level`, or 0 for a level that the tree does
    /// not have.
    pub fn level_bound(&self, level: usize) -> (bound: u64)
        ensures
            bound == (if level < self.levels() {
                level_bound_of(self.domain(), level as nat)
            } else {
                0
            }),
    {
        proof {
            use_type_invariant(self);
        }
        if level < self.num_levels {
            self.level_bounds[level]
        } else {
            0
        }
    }

    /// The number of indices that the scans of one whole descent visit
    /// beyond the first of each: the sum of all the levels' bounds.
    pub fn total_iterations(&self) -> (total: u64)
        requires
            bounds_total(self.domain(), self.levels()) <= u64::MAX,
        ensures
            total == bounds_total(self.domain(), self.levels()),
    {
        proof {
            use_type_invariant(self);
        }
        let mut total: u64 = 0;
        let mut level: usize = 0;
        while level < self.num_levels
            invariant
                level <= self.num_levels <= MAX_TREE_DEPTH,
                0 <= self.balls@,
                total == bounds_total(self.balls@, level as nat),
                bounds_total(self.balls@, self.num_levels as nat) <= u64::MAX,
                forall|l: int|
                    0 <= l < self.num_levels ==> self.level_bounds[l] == level_bound_of(
                        self.balls@,
                        l as nat,
                    ),
            decreases self.num_levels - level,
        {
            proof {
                lemma_bounds_total_monotone(
                    self.balls@,
                    (level + 1) as nat,
                    self.num_levels as nat,
                );
            }
            total = total + self.level_bounds[level];
            level = level + 1;
        }
        total
    }

    /// The public iteration bound for a scan at `level`.
    pub fn max_count(&self, level: usize) -> (bound: u64)
        ensures
            bound == self.bound_at(level as nat),
    {
        proof {
            use_type_invariant(self);
        }
        if level < self.num_levels {
            self.level_bounds[level]
        } else {
            self.level_bounds[self.num_levels - 1]
        }
    }

    /// Starts the scan for a draw of size `count` at `level`: the size is
    /// clamped to the level's bound, and the scan visits every index up to
    /// that bound whatever `count` is.
    pub fn scan(&self, level: usize, count: u64) -> (scan: HitScan)
        ensures
            scan.count() == least(count as int, self.bound_at(level as nat)),
            scan.bound() == self.bound_at(level as nat),
            scan.seen() == Seq::<u64>::empty(),
            !scan.finished(),
    {
        let bound: u64 = self.max_count(level);
        HitScan::new(ct_min_u64(count, bound), bound)
    }

    /// The draw from Binomial(count, num/denom) that a finished scan at
    /// `level` stands for. `complement` says that the scan ran over the
    /// probability `1 - num/denom`. For the public edge cases the scan is
    /// not consulted.
    pub fn sample(
        &self,
        level: usize,
        count: u64,
        num: u64,
        denom: u64,
        complement: bool,
        scan: &HitScan,
    ) -> (k: u64)
        requires
            edge_case(count, num, denom) is None ==> scan.finished() && scan.bound()
                == self.bound_at(level as nat) && scan.count() == least(
                count as int,
                self.bound_at(level as nat),
            ),
        ensures
            k == exact_draw(
                self.bound_at(level as nat) as u64,
                count,
                num,
                denom,
                complement,
                scan.seen(),
            ),
            k <= count,
    {
        if denom == 0 || num == 0 {
            return 0;
        }
        if num >= denom {
            return count;
        }
        let count_is_zero: u64 = ct_eq_u64(count, 0);
        let hit: u64 = scan.outcome();
        let result: u64 = if complement {
            count - hit
        } else {
            hit
        };
        ct_select_u64(count_is_zero, 0, result)
    }
}

} // verus!
