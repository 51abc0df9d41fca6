//! The oblivious first-hit scan at the heart of every exact sampler.
//!
//! An inverse-CDF search wants to stop at the first index whose cumulative
//! probability reaches the uniform input. Stopping there would leak the
//! result through the running time, so the scan instead visits every index
//! up to a public bound and latches the first hit without branching on it.
//! The caller supplies, index by index, the 0/1 mask of the comparison; the
//! scan keeps the latch.

use vstd::prelude::*;
use crate::constant_time::{ct_le_u64, ct_saturating_sub_u64, ct_select_u64, mask_of};

verus! {

/// The mask at index `k` counts as a hit for a draw of size `n`: the index
/// was observed, it lies within `0..=n`, and the low bit of the mask is set.
pub open spec fn hit_at(hits: Seq<u64>, n: int, k: int) -> bool {
    0 <= k < hits.len() && k <= n && hits[k] % 2 == 1
}

/// `k` is a hit and no smaller index is.
pub open spec fn least_hit(hits: Seq<u64>, n: int, k: int) -> bool {
    hit_at(hits, n, k) && forall|j: int| 0 <= j < k ==> !hit_at(hits, n, j)
}

/// The first hit among the observed masks, or `n` where there is none.
pub open spec fn first_hit(hits: Seq<u64>, n: int) -> int {
    if exists|k: int| least_hit(hits, n, k) {
        choose|k: int| least_hit(hits, n, k)
    } else {
        n
    }
}

/// A least hit is the first hit.
pub proof fn lemma_least_hit_is_first(hits: Seq<u64>, n: int, k: int)
    requires
        least_hit(hits, n, k),
    ensures
        first_hit(hits, n) == k,
{
    let c = choose|c: int| least_hit(hits, n, c);
    assert(least_hit(hits, n, c));
    if c < k {
        assert(!hit_at(hits, n, c));
    }
    if k < c {
        assert(!hit_at(hits, n, k));
    }
}

/// Without any hit the scan falls back to `n`.
pub proof fn lemma_no_hit_gives_count(hits: Seq<u64>, n: int)
    requires
        forall|k: int| !hit_at(hits, n, k),
    ensures
        first_hit(hits, n) == n,
{
    assert forall|k: int| !least_hit(hits, n, k) by {
        assert(!hit_at(hits, n, k));
    }
}

/// The outcome of a scan never leaves `0..=n`.
pub proof fn lemma_first_hit_in_range(hits: Seq<u64>, n: int)
    requires
        0 <= n,
    ensures
        0 <= first_hit(hits, n) <= n,
{
    if exists|k: int| least_hit(hits, n, k) {
        let c = choose|c: int| least_hit(hits, n, c);
        assert(hit_at(hits, n, c));
    }
}

/// The outcome depends only on the masks at indices `0..=n`: two scans whose
/// masks agree there give the same result, however far beyond `n` each of
/// them ran. A tighter public bound therefore never changes a draw that it
/// admits.
pub proof fn lemma_first_hit_ignores_tail(a: Seq<u64>, b: Seq<u64>, n: int)
    requires
        0 <= n < a.len(),
        n < b.len(),
        forall|k: int| 0 <= k <= n ==> a[k] % 2 == b[k] % 2,
    ensures
        first_hit(a, n) == first_hit(b, n),
{
    assert forall|k: int| hit_at(a, n, k) == hit_at(b, n, k) by {}
    if exists|k: int| least_hit(a, n, k) {
        let c = choose|c: int| least_hit(a, n, c);
        assert(hit_at(b, n, c));
        assert forall|j: int| 0 <= j < c implies !hit_at(b, n, j) by {
            assert(!hit_at(a, n, j));
        }
        lemma_least_hit_is_first(b, n, c);
    } else {
        assert forall|k: int| !least_hit(b, n, k) by {
            if least_hit(b, n, k) {
                assert(hit_at(a, n, k));
                assert forall|j: int| 0 <= j < k implies !hit_at(a, n, j) by {
                    assert(!hit_at(b, n, j));
                }
                assert(least_hit(a, n, k));
            }
        }
    }
}

/// A scan in progress over the indices `0..=bound` for a draw of size `n`.
pub struct HitScan {
    n: u64,
    bound: u64,
    index: u64,
    done: bool,
    result: u64,
    found: u64,
    seen: Ghost<Seq<u64>>,
}

impl HitScan {
    #[verifier::type_invariant]
    spec fn well_formed(self) -> bool {
        &&& self.index <= self.bound
        &&& self.done ==> self.index == self.bound
        &&& self.seen@.len() == (if self.done {
            self.bound + 1
        } else {
            self.index as int
        })
        &&& self.found == 0 || self.found == 1
        &&& self.found == 1 ==> least_hit(self.seen@, self.n as int, self.result as int)
        &&& self.found == 0 ==> self.result == 0 && forall|k: int|
            !hit_at(self.seen@, self.n as int, k)
    }

    /// The size of the draw.
    pub closed spec fn count(&self) -> u64 {
        self.n
    }

    /// The last index that the scan visits.
    pub closed spec fn bound(&self) -> u64 {
        self.bound
    }

    /// The masks observed so far, in order.
    pub closed spec fn seen(&self) -> Seq<u64> {
        self.seen@
    }

    /// Whether every index up to the bound has been observed.
    pub closed spec fn finished(&self) -> bool {
        self.done
    }

    /// Starts a scan for a draw of size `n` over the indices `0..=bound`.
    pub fn new(n: u64, bound: u64) -> (scan: Self)
        ensures
            scan.count() == n,
            scan.bound() == bound,
            scan.seen() == Seq::<u64>::empty(),
            !scan.finished(),
    {
        HitScan { n, bound, index: 0, done: false, result: 0, found: 0, seen: Ghost(Seq::empty()) }
    }

    /// Whether the scan has visited every index. That is so after exactly
    /// `bound + 1` masks, whatever the draw's size and whatever the masks
    /// were.
    pub fn is_done(&self) -> (done: bool)
        ensures
            done == self.finished(),
            done <==> self.seen().len() == self.bound() + 1,
            self.seen().len() <= self.bound() + 1,
    {
        proof {
            use_type_invariant(self);
        }
        self.done
    }

    /// The size of the draw.
    pub fn draw_size(&self) -> (n: u64)
        ensures
            n == self.count(),
    {
        self.n
    }

    /// The last index that the scan visits.
    pub fn last_index(&self) -> (bound: u64)
        ensures
            bound == self.bound(),
    {
        self.bound
    }

    /// The index whose mask is due next.
    pub fn index(&self) -> (k: u64)
        requires
            !self.finished(),
        ensures
            k == self.seen().len(),
    {
        proof {
            use_type_invariant(self);
        }
        self.index
    }

    /// The mask that tells whether the index due next lies within the draw.
    pub fn in_range(&self) -> (mask: u64)
        requires
            !self.finished(),
        ensures
            mask == mask_of(self.seen().len() <= self.count()),
    {
        proof {
            use_type_invariant(self);
        }
        ct_le_u64(self.index, self.n)
    }

    /// The number of items not yet accounted for before the index due next,
    /// `n - k + 1`, floored at zero: the numerator of the ratio by which the
    /// probability mass grows from index `k - 1` to index `k`.
    pub fn remaining(&self) -> (r: u64)
        requires
            !self.finished(),
            self.seen().len() >= 1,
        ensures
            r == (if self.count() + 1 >= self.seen().len() {
                self.count() + 1 - self.seen().len()
            } else {
                0
            }),
    {
        proof {
            use_type_invariant(self);
        }
        ct_saturating_sub_u64(self.n, self.index - 1)
    }

    /// Records the mask for the index due next. The first mask with its low
    /// bit set at an index within the draw is latched; every later one is
    /// ignored.
    pub fn observe(&mut self, hit: u64)
        requires
            !old(self).finished(),
        ensures
            final(self).count() == old(self).count(),
            final(self).bound() == old(self).bound(),
            final(self).seen() == old(self).seen().push(hit),
            final(self).finished() <==> old(self).seen().len() == old(self).bound(),
    {
        proof {
            use_type_invariant(&*self);
        }
        let k: u64 = self.index;
        let inside: u64 = ct_le_u64(k, self.n);
        let held: u64 = self.found;
        let open: u64 = 1 - held;
        let fresh: u64 = hit & open & inside;
        assert(fresh == (if open == 1 && inside == 1 && hit % 2 == 1 { 1u64 } else { 0u64 }))
            by (bit_vector)
            requires
                fresh == hit & open & inside,
                open == 0 || open == 1,
                inside == 0 || inside == 1,
        ;
        let result: u64 = ct_select_u64(fresh, k, self.result);
        let found: u64 = held | fresh;
        assert(found == (if held == 1 || fresh == 1 { 1u64 } else { 0u64 })) by (bit_vector)
            requires
                found == held | fresh,
                held == 0 || held == 1,
                fresh == 0 || fresh == 1,
        ;
        let last: bool = k == self.bound;
        let next: u64 = if last { k } else { k + 1 };
        let ghost before = self.seen@;
        let ghost after = before.push(hit);
        let ghost n = self.n as int;
        proof {
            assert forall|j: int| j != k implies hit_at(after, n, j) == hit_at(before, n, j) by {}
            assert(hit_at(after, n, k as int) == (inside == 1 && hit % 2 == 1));
            if self.found == 1 {
                assert(least_hit(before, n, self.result as int));
                assert(hit_at(after, n, self.result as int));
                assert forall|j: int| 0 <= j < self.result implies !hit_at(after, n, j) by {
                    assert(!hit_at(before, n, j));
                }
            } else if fresh == 1 {
                assert forall|j: int| 0 <= j < k implies !hit_at(after, n, j) by {
                    assert(!hit_at(before, n, j));
                }
            } else {
                assert forall|j: int| !hit_at(after, n, j) by {
                    assert(!hit_at(before, n, j));
                }
            }
        }
        *self = HitScan {
            n: self.n,
            bound: self.bound,
            index: next,
            done: last,
            result,
            found,
            seen: Ghost(after),
        };
    }

    /// The result of a finished scan: the first index within the draw whose
    /// mask was a hit, or the size of the draw where none was.
    pub fn outcome(&self) -> (k: u64)
        requires
            self.finished(),
        ensures
            k == first_hit(self.seen(), self.count() as int),
            k <= self.count(),
    {
        proof {
            use_type_invariant(self);
            if self.found == 1 {
                lemma_least_hit_is_first(self.seen@, self.n as int, self.result as int);
            } else {
                lemma_no_hit_gives_count(self.seen@, self.n as int);
            }
            lemma_first_hit_in_range(self.seen@, self.n as int);
        }
        ct_select_u64(self.found, self.result, self.n)
    }
}

} // verus!
