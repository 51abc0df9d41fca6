//! The multinomial router: balls into bins through a binary tree of splits.
//!
//! A node of the tree stands for an interval of bins `low..=high` and holds
//! a number of balls. A split rule says how many of a node's balls go to the
//! left half of its bins; the rest go right. Following one ball down the
//! tree gives its bin; following one bin down the tree gives the contiguous
//! run of balls that land in it. The two walks consult the same rule at the
//! same nodes, and that is all it takes for them to agree.
//!
//! The rule itself is a binomial draw and is made outside this module. Here
//! a walk is a small state machine: it names the node it stands on, takes
//! the node's left count, and steps to a child.

use vstd::prelude::*;
use crate::log2::{ceil_half, ceil_log2, lemma_ceil_log2_monotone};

verus! {

/// The bin at which an interval of bins is cut: the last bin of its left
/// half.
pub open spec fn midpoint(low: int, high: int) -> int {
    low + (high - low) / 2
}

/// A split rule never sends more balls left than the node holds, nor fewer
/// than none.
pub open spec fn fair(split: spec_fn(int, int, int) -> int) -> bool {
    forall|low: int, high: int, count: int|
        0 <= count ==> 0 <= #[trigger] split(low, high, count) <= count
}

/// The bin of the ball at position `index` among the `count` balls of the
/// node `low..=high`.
pub open spec fn pmns_forward(
    split: spec_fn(int, int, int) -> int,
    low: int,
    high: int,
    count: int,
    index: int,
) -> int
    decreases high - low,
{
    if low >= high {
        low
    } else {
        let mid = midpoint(low, high);
        let left = split(low, high, count);
        if index < left {
            pmns_forward(split, low, mid, left, index)
        } else {
            pmns_forward(split, mid + 1, high, count - left, index - left)
        }
    }
}

/// The run of balls in bin `y`, as its first ball and its length, where the
/// node `low..=high` holds the `count` balls from `start` on.
pub open spec fn pmns_inverse(
    split: spec_fn(int, int, int) -> int,
    low: int,
    high: int,
    count: int,
    start: int,
    y: int,
) -> (int, int)
    decreases high - low,
{
    if low >= high {
        (start, count)
    } else {
        let mid = midpoint(low, high);
        let left = split(low, high, count);
        if y <= mid {
            pmns_inverse(split, low, mid, left, start, y)
        } else {
            pmns_inverse(split, mid + 1, high, count - left, start + left, y)
        }
    }
}

/// The number of balls in the bins `from..=to`, added up bin by bin.
pub open spec fn balls_in_bins(
    split: spec_fn(int, int, int) -> int,
    low: int,
    high: int,
    count: int,
    from: int,
    to: int,
) -> int
    decreases to - from + 1,
{
    if to < from {
        0
    } else {
        balls_in_bins(split, low, high, count, from, to - 1) + pmns_inverse(
            split,
            low,
            high,
            count,
            0,
            to,
        ).1
    }
}

/// The number of steps that the walk of a ball takes from a node to its
/// bin.
pub open spec fn forward_steps(
    split: spec_fn(int, int, int) -> int,
    low: int,
    high: int,
    count: int,
    index: int,
) -> nat
    decreases high - low,
{
    if low >= high {
        0
    } else {
        let mid = midpoint(low, high);
        let left = split(low, high, count);
        if index < left {
            1 + forward_steps(split, low, mid, left, index)
        } else {
            1 + forward_steps(split, mid + 1, high, count - left, index - left)
        }
    }
}

/// The number of steps that the walk of a bin takes from a node to the
/// bin's run.
pub open spec fn inverse_steps(low: int, high: int, y: int) -> nat
    decreases high - low,
{
    if low >= high {
        0
    } else {
        let mid = midpoint(low, high);
        if y <= mid {
            1 + inverse_steps(low, mid, y)
        } else {
            1 + inverse_steps(mid + 1, high, y)
        }
    }
}

/// A ball's walk takes no more steps than the base-two logarithm of the
/// number of the node's bins, rounded up, whatever the split rule.
pub proof fn lemma_forward_steps_bounded(
    split: spec_fn(int, int, int) -> int,
    low: int,
    high: int,
    count: int,
    index: int,
)
    ensures
        forward_steps(split, low, high, count, index) <= ceil_log2(high - low + 1),
    decreases high - low,
{
    if low < high {
        let mid = midpoint(low, high);
        let left = split(low, high, count);
        let half = ceil_half(high - low + 1);
        if index < left {
            lemma_forward_steps_bounded(split, low, mid, left, index);
            lemma_ceil_log2_monotone(mid - low + 1, half);
        } else {
            lemma_forward_steps_bounded(split, mid + 1, high, count - left, index - left);
            lemma_ceil_log2_monotone(high - mid, half);
        }
    }
}

/// A bin's walk takes no more steps than the base-two logarithm of the
/// number of the node's bins, rounded up.
pub proof fn lemma_inverse_steps_bounded(low: int, high: int, y: int)
    ensures
        inverse_steps(low, high, y) <= ceil_log2(high - low + 1),
    decreases high - low,
{
    if low < high {
        let mid = midpoint(low, high);
        let half = ceil_half(high - low + 1);
        if y <= mid {
            lemma_inverse_steps_bounded(low, mid, y);
            lemma_ceil_log2_monotone(mid - low + 1, half);
        } else {
            lemma_inverse_steps_bounded(mid + 1, high, y);
            lemma_ceil_log2_monotone(high - mid, half);
        }
    }
}

/// A ball's bin lies within its node, and the run of that bin holds the
/// ball: the walk down from a ball and the walk down from its bin agree.
pub proof fn lemma_run_holds_ball(
    split: spec_fn(int, int, int) -> int,
    low: int,
    high: int,
    count: int,
    start: int,
    index: int,
)
    requires
        fair(split),
        low <= high,
        0 <= index < count,
    ensures
        low <= pmns_forward(split, low, high, count, index) <= high,
        ({
            let y = pmns_forward(split, low, high, count, index);
            let run = pmns_inverse(split, low, high, count, start, y);
            run.0 <= start + index < run.0 + run.1
        }),
    decreases high - low,
{
    if low < high {
        let mid = midpoint(low, high);
        let left = split(low, high, count);
        if index < left {
            lemma_run_holds_ball(split, low, mid, left, start, index);
        } else {
            lemma_run_holds_ball(split, mid + 1, high, count - left, start + left, index - left);
        }
    }
}

/// The run of a bin lies within the balls of its node.
pub proof fn lemma_run_within_node(
    split: spec_fn(int, int, int) -> int,
    low: int,
    high: int,
    count: int,
    start: int,
    y: int,
)
    requires
        fair(split),
        0 <= count,
    ensures
        ({
            let run = pmns_inverse(split, low, high, count, start, y);
            start <= run.0 && 0 <= run.1 && run.0 + run.1 <= start + count
        }),
    decreases high - low,
{
    if low < high {
        let mid = midpoint(low, high);
        let left = split(low, high, count);
        if y <= mid {
            lemma_run_within_node(split, low, mid, left, start, y);
        } else {
            lemma_run_within_node(split, mid + 1, high, count - left, start + left, y);
        }
    }
}

/// A ball that lies in the run of a bin lands in that bin: the run of a bin
/// holds nothing but the bin's own balls.
pub proof fn lemma_run_ball_lands_in_bin(
    split: spec_fn(int, int, int) -> int,
    low: int,
    high: int,
    count: int,
    start: int,
    y: int,
    index: int,
)
    requires
        fair(split),
        low <= y <= high,
        0 <= index < count,
        ({
            let run = pmns_inverse(split, low, high, count, start, y);
            run.0 <= start + index < run.0 + run.1
        }),
    ensures
        pmns_forward(split, low, high, count, index) == y,
    decreases high - low,
{
    if low < high {
        let mid = midpoint(low, high);
        let left = split(low, high, count);
        if y <= mid {
            lemma_run_within_node(split, low, mid, left, start, y);
            lemma_run_ball_lands_in_bin(split, low, mid, left, start, y, index);
        } else {
            lemma_run_within_node(split, mid + 1, high, count - left, start + left, y);
            lemma_run_ball_lands_in_bin(
                split,
                mid + 1,
                high,
                count - left,
                start + left,
                y,
                index - left,
            );
        }
    }
}

/// Moving a node's first ball moves every run with it and changes no
/// length.
pub proof fn lemma_run_shifts(
    split: spec_fn(int, int, int) -> int,
    low: int,
    high: int,
    count: int,
    start: int,
    y: int,
)
    ensures
        pmns_inverse(split, low, high, count, start, y).0 == start + pmns_inverse(
            split,
            low,
            high,
            count,
            0,
            y,
        ).0,
        pmns_inverse(split, low, high, count, start, y).1 == pmns_inverse(
            split,
            low,
            high,
            count,
            0,
            y,
        ).1,
    decreases high - low,
{
    if low < high {
        let mid = midpoint(low, high);
        let left = split(low, high, count);
        if y <= mid {
            lemma_run_shifts(split, low, mid, left, start, y);
        } else {
            lemma_run_shifts(split, mid + 1, high, count - left, start + left, y);
            lemma_run_shifts(split, mid + 1, high, count - left, left, y);
        }
    }
}

/// Adding up bins in two stretches gives the same as adding them up in one.
proof fn lemma_bins_concatenate(
    split: spec_fn(int, int, int) -> int,
    low: int,
    high: int,
    count: int,
    from: int,
    cut: int,
    to: int,
)
    requires
        from - 1 <= cut <= to,
    ensures
        balls_in_bins(split, low, high, count, from, to) == balls_in_bins(
            split,
            low,
            high,
            count,
            from,
            cut,
        ) + balls_in_bins(split, low, high, count, cut + 1, to),
    decreases to - cut,
{
    if cut < to {
        lemma_bins_concatenate(split, low, high, count, from, cut, to - 1);
    }
}

/// Over bins of its left half a node counts what its left child counts.
proof fn lemma_bins_of_left_child(
    split: spec_fn(int, int, int) -> int,
    low: int,
    high: int,
    count: int,
    from: int,
    to: int,
)
    requires
        low < high,
        to <= midpoint(low, high),
    ensures
        balls_in_bins(split, low, high, count, from, to) == balls_in_bins(
            split,
            low,
            midpoint(low, high),
            split(low, high, count),
            from,
            to,
        ),
    decreases to - from + 1,
{
    if from <= to {
        lemma_bins_of_left_child(split, low, high, count, from, to - 1);
    }
}

/// Over bins of its right half a node counts what its right child counts.
proof fn lemma_bins_of_right_child(
    split: spec_fn(int, int, int) -> int,
    low: int,
    high: int,
    count: int,
    from: int,
    to: int,
)
    requires
        low < high,
        midpoint(low, high) < from,
    ensures
        balls_in_bins(split, low, high, count, from, to) == balls_in_bins(
            split,
            midpoint(low, high) + 1,
            high,
            count - split(low, high, count),
            from,
            to,
        ),
    decreases to - from + 1,
{
    if from <= to {
        lemma_bins_of_right_child(split, low, high, count, from, to - 1);
        let mid = midpoint(low, high);
        let left = split(low, high, count);
        lemma_run_shifts(split, mid + 1, high, count - left, left, to);
    }
}

/// Every ball of a node lands in exactly one of its bins: the lengths of
/// the runs of all the node's bins add up to the node's ball count.
pub proof fn lemma_balls_conserved(
    split: spec_fn(int, int, int) -> int,
    low: int,
    high: int,
    count: int,
)
    requires
        low <= high,
    ensures
        balls_in_bins(split, low, high, count, low, high) == count,
    decreases high - low,
{
    if low < high {
        let mid = midpoint(low, high);
        let left = split(low, high, count);
        lemma_bins_concatenate(split, low, high, count, low, mid, high);
        lemma_bins_of_left_child(split, low, high, count, low, mid);
        lemma_bins_of_right_child(split, low, high, count, mid + 1, high);
        lemma_balls_conserved(split, low, mid, left);
        lemma_balls_conserved(split, mid + 1, high, count - left);
    } else {
        assert(balls_in_bins(split, low, high, count, low, high - 1) == 0);
    }
}

/// A node of the tree as the walk of a ball sees it.
pub struct BallNode {
    /// The first bin of the node.
    pub low: int,
    /// The last bin of the node.
    pub high: int,
    /// The number of balls that the node holds.
    pub count: int,
    /// The position of the followed ball among the node's balls.
    pub index: int,
}

impl BallNode {
    /// The number of bins of the node.
    pub open spec fn width(self) -> int {
        self.high - self.low + 1
    }

    /// The node is a single bin.
    pub open spec fn is_leaf(self) -> bool {
        self.low >= self.high
    }

    /// The child that holds the ball, given the count of the left child.
    pub open spec fn descended(self, left: int) -> BallNode {
        let mid = midpoint(self.low, self.high);
        if self.index < left {
            BallNode { low: self.low, high: mid, count: left, index: self.index }
        } else {
            BallNode {
                low: mid + 1,
                high: self.high,
                count: self.count - left,
                index: self.index - left,
            }
        }
    }

    /// The bin that a walk from this node ends in under a split rule.
    pub open spec fn bin(self, split: spec_fn(int, int, int) -> int) -> int {
        pmns_forward(split, self.low, self.high, self.count, self.index)
    }

    /// A step that takes the left count from a split rule does not change
    /// the bin that the walk ends in under that rule.
    pub proof fn lemma_step_keeps_bin(self, split: spec_fn(int, int, int) -> int)
        requires
            !self.is_leaf(),
        ensures
            self.descended(split(self.low, self.high, self.count)).bin(split) == self.bin(split),
    {
    }
}

/// The walk that follows one ball down the tree.
pub struct BallTrace {
    low: u64,
    high: u64,
    ball_count: u64,
    ball_index: u64,
}

impl View for BallTrace {
    type V = BallNode;

    closed spec fn view(&self) -> BallNode {
        BallNode {
            low: self.low as int,
            high: self.high as int,
            count: self.ball_count as int,
            index: self.ball_index as int,
        }
    }
}

impl BallTrace {
    #[verifier::type_invariant]
    spec fn well_formed(self) -> bool {
        &&& self.low <= self.high < u64::MAX
        &&& self.low < self.high ==> self.ball_index < self.ball_count
    }

    /// The walk at the root: all `m` bins, all `n` balls, the ball `index`.
    pub fn start(n: u64, m: u64, index: u64) -> (trace: Self)
        requires
            m >= 1,
            index < n,
        ensures
            trace@ == (BallNode { low: 0, high: m - 1, count: n as int, index: index as int }),
    {
        BallTrace { low: 0, high: m - 1, ball_count: n, ball_index: index }
    }

    /// The walk of an index that is not routed: it stands at bin 0 from the
    /// start.
    pub fn rejected() -> (trace: Self)
        ensures
            trace@ == (BallNode { low: 0, high: 0, count: 0, index: 0 }),
    {
        BallTrace { low: 0, high: 0, ball_count: 0, ball_index: 0 }
    }

    /// The first bin of the node.
    pub fn low(&self) -> (low: u64)
        ensures
            low == self@.low,
    {
        self.low
    }

    /// The last bin of the node.
    pub fn high(&self) -> (high: u64)
        ensures
            high == self@.high,
    {
        self.high
    }

    /// The number of balls that the node holds.
    pub fn ball_count(&self) -> (count: u64)
        ensures
            count == self@.count,
    {
        self.ball_count
    }

    /// The position of the followed ball among the node's balls.
    pub fn ball_index(&self) -> (index: u64)
        ensures
            index == self@.index,
    {
        self.ball_index
    }

    /// Whether the node is a single bin.
    pub fn at_leaf(&self) -> (leaf: bool)
        ensures
            leaf == self@.is_leaf(),
            leaf ==> self@.low == self@.high,
    {
        proof {
            use_type_invariant(self);
        }
        self.low >= self.high
    }

    /// The bin that the walk has reached.
    pub fn bin(&self) -> (bin: u64)
        requires
            self@.is_leaf(),
        ensures
            bin == self@.low,
            forall|split: spec_fn(int, int, int) -> int| #[trigger] self@.bin(split) == bin,
    {
        self.low
    }

    /// The number of bins in the left half of the node.
    pub fn left_bins(&self) -> (bins: u64)
        ensures
            bins == midpoint(self@.low, self@.high) - self@.low + 1,
            1 <= bins <= self@.width(),
    {
        proof {
            use_type_invariant(self);
        }
        (self.high - self.low) / 2 + 1
    }

    /// The number of bins of the node.
    pub fn total_bins(&self) -> (bins: u64)
        ensures
            bins == self@.width(),
            bins >= 1,
    {
        proof {
            use_type_invariant(self);
        }
        self.high - self.low + 1
    }

    /// Steps to the child that holds the ball: left where the ball is among
    /// the first `left_count`, else right, past those. The child has at most
    /// half of the node's bins, rounded up.
    pub fn descend(&mut self, left_count: u64)
        requires
            !old(self)@.is_leaf(),
            left_count <= old(self)@.count,
        ensures
            final(self)@ == old(self)@.descended(left_count as int),
            final(self)@.width() <= ceil_half(old(self)@.width()),
            ceil_log2(final(self)@.width()) < ceil_log2(old(self)@.width()),
    {
        proof {
            use_type_invariant(&*self);
        }
        let mid: u64 = self.low + (self.high - self.low) / 2;
        proof {
            let w = self@.width();
            lemma_ceil_log2_monotone(mid - self.low + 1, ceil_half(w));
            lemma_ceil_log2_monotone(self.high - mid, ceil_half(w));
        }
        if self.ball_index < left_count {
            *self = BallTrace {
                low: self.low,
                high: mid,
                ball_count: left_count,
                ball_index: self.ball_index,
            };
        } else {
            *self = BallTrace {
                low: mid + 1,
                high: self.high,
                ball_count: self.ball_count - left_count,
                ball_index: self.ball_index - left_count,
            };
        }
    }
}

/// A node of the tree as the walk of a bin sees it.
pub struct BinNode {
    /// The first bin of the node.
    pub low: int,
    /// The last bin of the node.
    pub high: int,
    /// The number of balls that the node holds.
    pub count: int,
    /// The first of the node's balls.
    pub start: int,
    /// The followed bin.
    pub target: int,
}

impl BinNode {
    /// The number of bins of the node.
    pub open spec fn width(self) -> int {
        self.high - self.low + 1
    }

    /// The node is a single bin.
    pub open spec fn is_leaf(self) -> bool {
        self.low >= self.high
    }

    /// The child that holds the bin, given the count of the left child.
    pub open spec fn descended(self, left: int) -> BinNode {
        let mid = midpoint(self.low, self.high);
        if self.target <= mid {
            BinNode { low: self.low, high: mid, count: left, start: self.start, target: self.target }
        } else {
            BinNode {
                low: mid + 1,
                high: self.high,
                count: self.count - left,
                start: self.start + left,
                target: self.target,
            }
        }
    }

    /// The run that a walk from this node ends with under a split rule.
    pub open spec fn run(self, split: spec_fn(int, int, int) -> int) -> (int, int) {
        pmns_inverse(split, self.low, self.high, self.count, self.start, self.target)
    }

    /// A step that takes the left count from a split rule does not change
    /// the run that the walk ends with under that rule.
    pub proof fn lemma_step_keeps_run(self, split: spec_fn(int, int, int) -> int)
        requires
            !self.is_leaf(),
        ensures
            self.descended(split(self.low, self.high, self.count)).run(split) == self.run(split),
    {
    }
}

/// The walk that follows one bin down the tree.
pub struct BinTrace {
    low: u64,
    high: u64,
    ball_count: u64,
    ball_start: u64,
    target: u64,
    domain: u64,
}

impl View for BinTrace {
    type V = BinNode;

    closed spec fn view(&self) -> BinNode {
        BinNode {
            low: self.low as int,
            high: self.high as int,
            count: self.ball_count as int,
            start: self.ball_start as int,
            target: self.target as int,
        }
    }
}

impl BinTrace {
    #[verifier::type_invariant]
    spec fn well_formed(self) -> bool {
        &&& self.low <= self.target <= self.high < u64::MAX
        &&& self.ball_start + self.ball_count <= self.domain
    }

    /// The number of balls at the root of the tree; the node's balls lie
    /// among them.
    pub closed spec fn total(&self) -> u64 {
        self.domain
    }

    /// The walk at the root: all `m` bins, all `n` balls, the bin `y`.
    pub fn start(n: u64, m: u64, y: u64) -> (trace: Self)
        requires
            y < m,
        ensures
            trace@ == (BinNode {
                low: 0,
                high: m - 1,
                count: n as int,
                start: 0,
                target: y as int,
            }),
            trace.total() == n,
    {
        BinTrace { low: 0, high: m - 1, ball_count: n, ball_start: 0, target: y, domain: n }
    }

    /// The walk of a bin that the tree does not have: it stands at an empty
    /// run from the start.
    pub fn rejected(n: u64) -> (trace: Self)
        ensures
            trace@ == (BinNode { low: 0, high: 0, count: 0, start: 0, target: 0 }),
            trace.total() == n,
    {
        BinTrace { low: 0, high: 0, ball_count: 0, ball_start: 0, target: 0, domain: n }
    }

    /// The first bin of the node.
    pub fn low(&self) -> (low: u64)
        ensures
            low == self@.low,
    {
        self.low
    }

    /// The last bin of the node.
    pub fn high(&self) -> (high: u64)
        ensures
            high == self@.high,
    {
        self.high
    }

    /// The number of balls that the node holds.
    pub fn ball_count(&self) -> (count: u64)
        ensures
            count == self@.count,
            self@.start + count <= self.total(),
    {
        proof {
            use_type_invariant(self);
        }
        self.ball_count
    }

    /// The first of the node's balls.
    pub fn ball_start(&self) -> (start: u64)
        ensures
            start == self@.start,
            start + self@.count <= self.total(),
    {
        proof {
            use_type_invariant(self);
        }
        self.ball_start
    }

    /// The followed bin.
    pub fn target(&self) -> (y: u64)
        ensures
            y == self@.target,
            self@.low <= y <= self@.high,
    {
        proof {
            use_type_invariant(self);
        }
        self.target
    }

    /// The number of balls at the root of the tree.
    pub fn domain(&self) -> (n: u64)
        ensures
            n == self.total(),
    {
        self.domain
    }

    /// Whether the node is a single bin.
    pub fn at_leaf(&self) -> (leaf: bool)
        ensures
            leaf == self@.is_leaf(),
            leaf ==> forall|split: spec_fn(int, int, int) -> int| #[trigger]
                self@.run(split) == (self@.start, self@.count),
    {
        self.low >= self.high
    }

    /// The number of bins in the left half of the node.
    pub fn left_bins(&self) -> (bins: u64)
        ensures
            bins == midpoint(self@.low, self@.high) - self@.low + 1,
            1 <= bins <= self@.width(),
    {
        proof {
            use_type_invariant(self);
        }
        (self.high - self.low) / 2 + 1
    }

    /// The number of bins of the node.
    pub fn total_bins(&self) -> (bins: u64)
        ensures
            bins == self@.width(),
            bins >= 1,
    {
        proof {
            use_type_invariant(self);
        }
        self.high - self.low + 1
    }

    /// Steps to the child that holds the bin: left where the bin lies in the
    /// left half, else right, with the run starting past the left child's
    /// balls. The child's balls lie among the node's, and the child has at
    /// most half of the node's bins, rounded up.
    pub fn descend(&mut self, left_count: u64)
        requires
            !old(self)@.is_leaf(),
            left_count <= old(self)@.count,
        ensures
            final(self)@ == old(self)@.descended(left_count as int),
            final(self).total() == old(self).total(),
            old(self)@.start <= final(self)@.start,
            final(self)@.start + final(self)@.count <= old(self)@.start + old(self)@.count,
            final(self)@.width() <= ceil_half(old(self)@.width()),
            ceil_log2(final(self)@.width()) < ceil_log2(old(self)@.width()),
    {
        proof {
            use_type_invariant(&*self);
        }
        let mid: u64 = self.low + (self.high - self.low) / 2;
        proof {
            let w = self@.width();
            lemma_ceil_log2_monotone(mid - self.low + 1, ceil_half(w));
            lemma_ceil_log2_monotone(self.high - mid, ceil_half(w));
        }
        if self.target <= mid {
            *self = BinTrace {
                low: self.low,
                high: mid,
                ball_count: left_count,
                ball_start: self.ball_start,
                target: self.target,
                domain: self.domain,
            };
        } else {
            *self = BinTrace {
                low: mid + 1,
                high: self.high,
                ball_count: self.ball_count - left_count,
                ball_start: self.ball_start + left_count,
                target: self.target,
                domain: self.domain,
            };
        }
    }
}

} // verus!
