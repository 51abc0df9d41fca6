//! The invertible pseudorandom function: the permutation, then the router.
//!
//! Forward, an index is permuted and the permuted ball is followed down the
//! bin tree. Backward, a bin is followed down the tree to its run of balls,
//! and every ball of the run is taken back through the permutation. The
//! pseudorandom word of a tree node comes from a digest of the node's
//! coordinates, which holds no key, fed through the block cipher under the
//! master key; both directions therefore see the same word at the same
//! node.

use vstd::prelude::*;
use crate::binomial_tee::least;
use crate::bytes::{be_bytes, be_value, block_of, leading_u64, u64_to_be};
use crate::constant_time::{ct_lt_u64, ct_min_u64, ct_select_u64};
use crate::crypto::{aes128_block, aes128_encrypt, sha256, sha256_digest};
use crate::log2::{ceil_log2, ceil_log2_u64};
use crate::pmns::{
    balls_in_bins,
    fair,
    lemma_balls_conserved,
    lemma_run_ball_lands_in_bin,
    lemma_run_holds_ball,
    lemma_run_within_node,
    pmns_forward,
    pmns_inverse,
    BallNode,
    BallTrace,
    BinNode,
    BinTrace,
};
use crate::prp::{
    lemma_prp_forward_undoes_inverse,
    lemma_prp_inverse_undoes_forward,
    prp_forward,
    prp_inverse,
    SwapOrNot,
};

verus! {

/// The bytes of the label that separates the permutation's key from the
/// master key: the ASCII letters `prp`.
pub open spec fn prp_label() -> Seq<u8> {
    seq![0x70u8, 0x72u8, 0x70u8]
}

/// The permutation's key: the first half of the digest of the master key
/// followed by the label.
pub open spec fn prp_subkey(key: Seq<u8>) -> Seq<u8> {
    sha256_digest(key + prp_label()).subrange(0, 16)
}

/// The identifier of the tree node `low..=high` in a tree of `n` balls: the
/// leading word of the digest of the three numbers, each big-endian.
pub open spec fn node_id(low: u64, high: u64, n: u64) -> int {
    be_value(sha256_digest(be_bytes(low) + be_bytes(high) + be_bytes(n)))
}

/// The keyed word of `x`: the leading word of the cipher applied to the
/// block that holds eight zero bytes and then `x`, big-endian.
pub open spec fn prf_word(key: Seq<u8>, x: u64) -> int {
    be_value(aes128_block(key, be_bytes(0) + be_bytes(x)))
}

/// The pseudorandom word of a tree node under the master key.
pub open spec fn node_word(key: Seq<u8>, low: u64, high: u64, n: u64) -> int {
    prf_word(key, node_id(low, high, n) as u64)
}

/// The node at which the walk for index `x` starts: bin 0 alone for an
/// index outside the domain, which is not routed; else the root, with the
/// permuted index as the ball.
pub open spec fn forward_root(key: Seq<u8>, n: u64, m: u64, x: u64) -> BallNode {
    if x >= n {
        BallNode { low: 0, high: 0, count: 0, index: 0 }
    } else {
        BallNode {
            low: 0,
            high: m - 1,
            count: n as int,
            index: prp_forward(prp_subkey(key), n, x) as int,
        }
    }
}

/// The node at which the walk for bin `y` starts: an empty run for a bin
/// outside the range; else the root.
pub open spec fn inverse_root(n: u64, m: u64, y: u64) -> BinNode {
    if y >= m {
        BinNode { low: 0, high: 0, count: 0, start: 0, target: 0 }
    } else {
        BinNode { low: 0, high: m - 1, count: n as int, start: 0, target: y as int }
    }
}

/// The bin of index `x`: 0 for an index outside the domain, else the bin
/// that the permuted ball is routed to.
pub open spec fn iprf_forward(
    split: spec_fn(int, int, int) -> int,
    key: Seq<u8>,
    n: u64,
    m: u64,
    x: u64,
) -> int {
    forward_root(key, n, m, x).bin(split)
}

/// The indices of bin `y`: none for a bin outside the range, else the balls
/// of the bin's run in their order, each taken back through the
/// permutation.
pub open spec fn iprf_inverse(
    split: spec_fn(int, int, int) -> int,
    key: Seq<u8>,
    n: u64,
    m: u64,
    y: u64,
) -> Seq<u64> {
    let run = inverse_root(n, m, y).run(split);
    run_preimages(prp_subkey(key), n, run.0, run.1)
}

/// The balls `start, start + 1, ..` of a run of `count` balls, each taken
/// back through the permutation.
pub open spec fn run_preimages(subkey: Seq<u8>, n: u64, start: int, count: int) -> Seq<u64> {
    Seq::new(count as nat, |i: int| prp_inverse(subkey, n, (start + i) as u64))
}

/// What a slot past the end of a run holds in a buffer of fixed size: the
/// index whose ball is 0, or 0 in an empty domain.
pub open spec fn spare_slot(subkey: Seq<u8>, n: u64) -> u64 {
    if n == 0 {
        0
    } else {
        prp_inverse(subkey, n, 0)
    }
}

/// The number of indices in the bins `0..bins`, added up bin by bin.
pub open spec fn preimages_in_bins(
    split: spec_fn(int, int, int) -> int,
    key: Seq<u8>,
    n: u64,
    m: u64,
    bins: nat,
) -> int
    decreases bins,
{
    if bins == 0 {
        0
    } else {
        preimages_in_bins(split, key, n, m, (bins - 1) as nat) + iprf_inverse(
            split,
            key,
            n,
            m,
            (bins - 1) as u64,
        ).len()
    }
}

/// Every index of the domain is among the indices of its own bin, and that
/// bin lies in the range.
pub proof fn lemma_inverse_contains_preimage(
    split: spec_fn(int, int, int) -> int,
    key: Seq<u8>,
    n: u64,
    m: u64,
    x: u64,
)
    requires
        fair(split),
        m >= 1,
        x < n,
    ensures
        0 <= iprf_forward(split, key, n, m, x) < m,
        iprf_inverse(split, key, n, m, iprf_forward(split, key, n, m, x) as u64).contains(x),
{
    let subkey = prp_subkey(key);
    let ball = prp_forward(subkey, n, x);
    lemma_prp_inverse_undoes_forward(subkey, n, x);
    lemma_run_holds_ball(split, 0, m - 1, n as int, 0, ball as int);
    let y = pmns_forward(split, 0, m - 1, n as int, ball as int);
    let run = pmns_inverse(split, 0, m - 1, n as int, 0, y);
    lemma_run_within_node(split, 0, m - 1, n as int, 0, y);
    let found = run_preimages(subkey, n, run.0, run.1);
    assert(found[ball - run.0] == x);
}

/// Every index among the indices of a bin lies in the domain and has that
/// bin as its own, and no index occurs among them twice.
pub proof fn lemma_inverse_holds_preimages_only(
    split: spec_fn(int, int, int) -> int,
    key: Seq<u8>,
    n: u64,
    m: u64,
    y: u64,
)
    requires
        fair(split),
        y < m,
    ensures
        forall|i: int|
            0 <= i < iprf_inverse(split, key, n, m, y).len() ==> {
                let x = #[trigger] iprf_inverse(split, key, n, m, y)[i];
                x < n && iprf_forward(split, key, n, m, x) == y
            },
        forall|i: int, j: int|
            0 <= i < j < iprf_inverse(split, key, n, m, y).len() ==> iprf_inverse(
                split,
                key,
                n,
                m,
                y,
            )[i] != iprf_inverse(split, key, n, m, y)[j],
{
    let subkey = prp_subkey(key);
    let run = pmns_inverse(split, 0, m - 1, n as int, 0, y as int);
    lemma_run_within_node(split, 0, m - 1, n as int, 0, y as int);
    let found = iprf_inverse(split, key, n, m, y);
    assert forall|i: int| 0 <= i < found.len() implies {
        let x = #[trigger] found[i];
        x < n && iprf_forward(split, key, n, m, x) == y
    } by {
        let ball = (run.0 + i) as u64;
        lemma_prp_forward_undoes_inverse(subkey, n, ball);
        lemma_run_ball_lands_in_bin(split, 0, m - 1, n as int, 0, y as int, ball as int);
    }
    assert forall|i: int, j: int| 0 <= i < j < found.len() implies found[i] != found[j] by {
        lemma_prp_forward_undoes_inverse(subkey, n, (run.0 + i) as u64);
        lemma_prp_forward_undoes_inverse(subkey, n, (run.0 + j) as u64);
    }
}

/// The bins' index lists have as many entries together as the domain has
/// indices.
pub proof fn lemma_preimage_counts_add_up(
    split: spec_fn(int, int, int) -> int,
    key: Seq<u8>,
    n: u64,
    m: u64,
)
    requires
        fair(split),
        m >= 1,
    ensures
        preimages_in_bins(split, key, n, m, m as nat) == n,
{
    lemma_preimages_match_balls(split, key, n, m, m as nat);
    lemma_balls_conserved(split, 0, m - 1, n as int);
}

proof fn lemma_preimages_match_balls(
    split: spec_fn(int, int, int) -> int,
    key: Seq<u8>,
    n: u64,
    m: u64,
    bins: nat,
)
    requires
        fair(split),
        bins <= m,
    ensures
        preimages_in_bins(split, key, n, m, bins) == balls_in_bins(
            split,
            0,
            m - 1,
            n as int,
            0,
            bins - 1,
        ),
    decreases bins,
{
    if bins > 0 {
        lemma_preimages_match_balls(split, key, n, m, (bins - 1) as nat);
        lemma_run_within_node(split, 0, m - 1, n as int, 0, bins - 1);
    }
}

/// The identifier of a tree node: see `node_id`.
pub fn encode_node(low: u64, high: u64, n: u64) -> (id: u64)
    ensures
        id == node_id(low, high, n),
{
    let mut data: Vec<u8> = Vec::new();
    append_word(&mut data, low);
    append_word(&mut data, high);
    append_word(&mut data, n);
    assert(data@ =~= be_bytes(low) + be_bytes(high) + be_bytes(n));
    let digest: [u8; 32] = sha256(&data);
    leading_u64(&digest)
}

/// Appends the big-endian layout of `word`.
fn append_word(data: &mut Vec<u8>, word: u64)
    ensures
        final(data)@ == old(data)@ + be_bytes(word),
{
    let bytes: [u8; 8] = u64_to_be(word);
    let ghost before = data@;
    let mut i: usize = 0;
    while i < 8
        invariant
            i <= 8,
            bytes@ == be_bytes(word),
            data@ == before + bytes@.subrange(0, i as int),
        decreases 8 - i,
    {
        data.push(bytes[i]);
        i = i + 1;
        assert(data@ =~= before + bytes@.subrange(0, i as int));
    }
    assert(bytes@.subrange(0, 8) =~= bytes@);
}

/// The 53 leading bits of a pseudorandom word: the numerator of the uniform
/// value `(numerator + 1/2) / 2^53`, which lies strictly between 0 and 1.
pub fn uniform_numerator(word: u64) -> (numerator: u64)
    ensures
        numerator == word / 0x800,
        numerator < 0x20_0000_0000_0000,
{
    word / 0x800
}

/// An invertible pseudorandom function from `0..n` to `0..m`.
pub struct Iprf {
    key: [u8; 16],
    prp: SwapOrNot,
    domain: u64,
    range: u64,
    tree_depth: usize,
}

impl Iprf {
    #[verifier::type_invariant]
    spec fn well_formed(self) -> bool {
        &&& self.prp.key() == prp_subkey(self.key@)
        &&& self.prp.size() == self.domain
        &&& self.tree_depth == ceil_log2(self.range as int)
    }

    /// The master key.
    pub closed spec fn key(&self) -> Seq<u8> {
        self.key@
    }

    /// The size of the domain: the number of balls.
    pub closed spec fn balls(&self) -> u64 {
        self.domain
    }

    /// The size of the range: the number of bins.
    pub closed spec fn bins(&self) -> u64 {
        self.range
    }

    /// The function from `0..n` to `0..m` under `key`. The permutation runs
    /// under a key of its own, derived from `key`.
    pub fn new(key: [u8; 16], n: u64, m: u64) -> (iprf: Self)
        ensures
            iprf.key() == key@,
            iprf.balls() == n,
            iprf.bins() == m,
    {
        let tree_depth: usize = ceil_log2_u64(m) as usize;
        let mut data: Vec<u8> = Vec::new();
        let mut i: usize = 0;
        while i < 16
            invariant
                i <= 16,
                data@ == key@.subrange(0, i as int),
            decreases 16 - i,
        {
            data.push(key[i]);
            i = i + 1;
            assert(data@ =~= key@.subrange(0, i as int));
        }
        data.push(0x70);
        data.push(0x72);
        data.push(0x70);
        assert(data@ =~= key@ + prp_label());
        let hash: [u8; 32] = sha256(&data);
        let prp_key: [u8; 16] = [
            hash[0],
            hash[1],
            hash[2],
            hash[3],
            hash[4],
            hash[5],
            hash[6],
            hash[7],
            hash[8],
            hash[9],
            hash[10],
            hash[11],
            hash[12],
            hash[13],
            hash[14],
            hash[15],
        ];
        assert(prp_key@ =~= prp_subkey(key@));
        let prp = SwapOrNot::new(prp_key, n);
        Iprf { key, prp, domain: n, range: m, tree_depth }
    }

    /// The size of the domain.
    pub fn domain(&self) -> (n: u64)
        ensures
            n == self.balls(),
    {
        self.domain
    }

    /// The size of the range.
    pub fn range(&self) -> (m: u64)
        ensures
            m == self.bins(),
    {
        self.range
    }

    /// The depth of the bin tree: no walk takes more steps.
    pub fn tree_depth(&self) -> (depth: usize)
        ensures
            depth == ceil_log2(self.bins() as int),
    {
        proof {
            use_type_invariant(self);
        }
        self.tree_depth
    }

    /// The keyed word of `x`: see `prf_word`.
    pub fn prf_eval(&self, x: u64) -> (word: u64)
        ensures
            word == prf_word(self.key(), x),
    {
        let input: [u8; 16] = block_of(0, x);
        let block: [u8; 16] = aes128_encrypt(&self.key, &input);
        leading_u64(&block)
    }

    /// The pseudorandom word of the tree node `low..=high`, the same for a
    /// walk that follows a ball and for one that follows a bin.
    pub fn node_word(&self, low: u64, high: u64) -> (word: u64)
        ensures
            word == node_word(self.key(), low, high, self.balls()),
    {
        self.prf_eval(encode_node(low, high, self.domain))
    }

    /// Starts the walk for index `x`: at the root with the permuted index as
    /// the ball, or, for an index outside the domain, at bin 0 with nothing
    /// left to walk.
    pub fn begin_forward(&self, x: u64) -> (walk: BallTrace)
        requires
            x < self.balls() ==> self.bins() >= 1,
        ensures
            walk@ == forward_root(self.key(), self.balls(), self.bins(), x),
    {
        proof {
            use_type_invariant(self);
        }
        if x >= self.domain {
            return BallTrace::rejected();
        }
        let permuted: u64 = self.prp.forward(x);
        BallTrace::start(self.domain, self.range, permuted)
    }

    /// Starts the walk for bin `y`: at the root, or, for a bin outside the
    /// range, at an empty run with nothing left to walk.
    pub fn begin_inverse(&self, y: u64) -> (walk: BinTrace)
        ensures
            walk@ == inverse_root(self.balls(), self.bins(), y),
            walk.total() == self.balls(),
    {
        if y >= self.range {
            return BinTrace::rejected(self.domain);
        }
        BinTrace::start(self.domain, self.range, y)
    }

    /// The indices of the run that a walk of this function's tree has
    /// reached: the run's balls in their order, each taken back through the
    /// permutation.
    pub fn preimages(&self, walk: &BinTrace) -> (indices: Vec<u64>)
        requires
            walk.total() == self.balls(),
        ensures
            indices@ == run_preimages(
                prp_subkey(self.key()),
                self.balls(),
                walk@.start,
                walk@.count,
            ),
    {
        proof {
            use_type_invariant(self);
        }
        let start: u64 = walk.ball_start();
        let count: u64 = walk.ball_count();
        let mut indices: Vec<u64> = Vec::new();
        let mut i: u64 = 0;
        while i < count
            invariant
                i <= count,
                start + count <= self.domain,
                self.prp.size() == self.domain,
                self.prp.key() == prp_subkey(self.key@),
                indices@ == run_preimages(
                    prp_subkey(self.key@),
                    self.domain,
                    start as int,
                    i as int,
                ),
            decreases count - i,
        {
            let x: u64 = self.prp.inverse(start + i);
            indices.push(x);
            i = i + 1;
            assert(indices@ =~= run_preimages(
                prp_subkey(self.key@),
                self.domain,
                start as int,
                i as int,
            ));
        }
        indices
    }

    /// The indices of the run that a walk of this function's tree has
    /// reached, in a buffer of `CAP` slots whatever the run's length. The
    /// second component says how many slots are valid: the run's length, or
    /// `CAP` where the run is longer. The valid slots hold the run's first
    /// indices in order. Every other slot holds the index whose ball is 0,
    /// so that each slot costs one pass through the permutation and none
    /// tells how long the run was; in an empty domain every slot holds 0.
    pub fn preimages_ct<const CAP: usize>(&self, walk: &BinTrace) -> (out: ([u64; CAP], usize))
        requires
            walk.total() == self.balls(),
        ensures
            out.1 == least(walk@.count, CAP as int),
            forall|i: int|
                0 <= i < out.1 ==> out.0[i] == prp_inverse(
                    prp_subkey(self.key()),
                    self.balls(),
                    (walk@.start + i) as u64,
                ),
            forall|i: int|
                out.1 <= i < CAP ==> out.0[i] == spare_slot(prp_subkey(self.key()), self.balls()),
    {
        proof {
            use_type_invariant(self);
        }
        let start: u64 = walk.ball_start();
        let count: u64 = walk.ball_count();
        let valid: u64 = ct_min_u64(count, CAP as u64);
        let mut slots: [u64; CAP] = [0u64; CAP];
        if self.domain == 0 {
            return (slots, valid as usize);
        }
        let mut i: usize = 0;
        while i < CAP
            invariant
                i <= CAP,
                valid == least(count as int, CAP as int),
                start + count <= self.domain,
                self.domain > 0,
                self.prp.size() == self.domain,
                self.prp.key() == prp_subkey(self.key@),
                forall|j: int|
                    0 <= j < i && j < valid ==> slots[j] == prp_inverse(
                        prp_subkey(self.key@),
                        self.domain,
                        (start + j) as u64,
                    ),
                forall|j: int|
                    valid <= j < i ==> slots[j] == prp_inverse(
                        prp_subkey(self.key@),
                        self.domain,
                        0,
                    ),
            decreases CAP - i,
        {
            let live: u64 = ct_lt_u64(i as u64, valid);
            let ball: u64 = ct_select_u64(live, start.wrapping_add(i as u64), 0);
            slots[i] = self.prp.inverse(ball);
            i = i + 1;
        }
        (slots, valid as usize)
    }
}

} // verus!
