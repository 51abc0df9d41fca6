//! The Swap-or-Not permutation of a small domain `0..N`.
//!
//! A round pairs every point `x` with its partner `K - x mod N` and swaps
//! the two when a keyed bit, taken at the larger of the pair, is set. Both
//! points of a pair see the same bit, so a round undoes itself, and a run of
//! rounds is undone by the same rounds in reverse order.

use vstd::prelude::*;
use vstd::arithmetic::div_mod::{lemma_mod_add_multiples_vanish, lemma_mod_bound, lemma_small_mod};
use crate::bytes::{be_bytes, be_value, block_of, leading_u64};
use crate::crypto::{aes128_block, aes128_encrypt};
use crate::log2::{ceil_log2, ceil_log2_u64};

verus! {

/// The flag that marks a cipher input as a request for a swap bit.
pub const SWAP_BIT_TAG: u64 = 0x8000_0000_0000_0000;

/// The number of rounds for a domain of `domain` points.
pub open spec fn round_count(domain: u64) -> nat {
    6 * ceil_log2(domain as int) + 6
}

/// The key of a round: the cipher applied to the round's index and the
/// domain's size, the leading word of the result reduced into the domain.
pub open spec fn round_key(key: Seq<u8>, domain: u64, round: u64) -> int {
    be_value(aes128_block(key, be_bytes(round) + be_bytes(domain))) % (domain as int)
}

/// The swap decision of a round for the pair whose larger point is
/// `canonical`: the low bit of the first byte of the cipher applied to the
/// tagged round index and the point.
pub open spec fn swap_bit(key: Seq<u8>, round: u64, canonical: u64) -> bool {
    aes128_block(key, be_bytes(round | SWAP_BIT_TAG) + be_bytes(canonical))[0] % 2 == 1
}

/// The point that a round pairs with `x`.
pub open spec fn partner(round_key: int, domain: int, x: int) -> int {
    (round_key + domain - x % domain) % domain
}

/// One round applied to `x`.
pub open spec fn round_map(key: Seq<u8>, domain: u64, round: u64, x: u64) -> u64 {
    let p = partner(round_key(key, domain, round), domain as int, x as int) as u64;
    let canonical = if x >= p {
        x
    } else {
        p
    };
    if swap_bit(key, round, canonical) {
        p
    } else {
        x
    }
}

/// The rounds `0, 1, .., upto - 1` applied to `x` in this order.
pub open spec fn forward_rounds(key: Seq<u8>, domain: u64, upto: nat, x: u64) -> u64
    decreases upto,
{
    if upto == 0 {
        x
    } else {
        round_map(
            key,
            domain,
            (upto - 1) as u64,
            forward_rounds(key, domain, (upto - 1) as nat, x),
        )
    }
}

/// The rounds `upto - 1, .., 1, 0` applied to `y` in this order.
pub open spec fn inverse_rounds(key: Seq<u8>, domain: u64, upto: nat, y: u64) -> u64
    decreases upto,
{
    if upto == 0 {
        y
    } else {
        inverse_rounds(
            key,
            domain,
            (upto - 1) as nat,
            round_map(key, domain, (upto - 1) as u64, y),
        )
    }
}

/// The permutation: all the rounds of the domain, first to last.
pub open spec fn prp_forward(key: Seq<u8>, domain: u64, x: u64) -> u64 {
    forward_rounds(key, domain, round_count(domain), x)
}

/// The inverse permutation: all the rounds of the domain, last to first.
pub open spec fn prp_inverse(key: Seq<u8>, domain: u64, y: u64) -> u64 {
    inverse_rounds(key, domain, round_count(domain), y)
}

/// Within the domain, the partner of a point lies in the domain, and the
/// partner of the partner is the point.
pub proof fn lemma_partner_involution(round_key: int, domain: int, x: int)
    requires
        0 <= round_key < domain,
        0 <= x < domain,
    ensures
        0 <= partner(round_key, domain, x) < domain,
        partner(round_key, domain, partner(round_key, domain, x)) == x,
{
    lemma_small_mod(x as nat, domain as nat);
    let p = partner(round_key, domain, x);
    if round_key >= x {
        lemma_mod_add_multiples_vanish(round_key - x, domain);
        lemma_small_mod((round_key - x) as nat, domain as nat);
        assert(p == round_key - x);
        lemma_small_mod(p as nat, domain as nat);
        lemma_mod_add_multiples_vanish(x, domain);
    } else {
        lemma_small_mod((round_key + domain - x) as nat, domain as nat);
        assert(p == round_key + domain - x);
        lemma_small_mod(p as nat, domain as nat);
        lemma_small_mod(x as nat, domain as nat);
    }
}

/// A round maps the domain into itself and undoes itself.
pub proof fn lemma_round_involution(key: Seq<u8>, domain: u64, round: u64, x: u64)
    requires
        x < domain,
    ensures
        round_map(key, domain, round, x) < domain,
        round_map(key, domain, round, round_map(key, domain, round, x)) == x,
{
    let k = round_key(key, domain, round);
    lemma_mod_bound(
        be_value(aes128_block(key, be_bytes(round) + be_bytes(domain))),
        domain as int,
    );
    lemma_partner_involution(k, domain as int, x as int);
    let p = partner(k, domain as int, x as int);
    lemma_partner_involution(k, domain as int, p);
}

/// Any number of rounds maps the domain into itself, and the same rounds in
/// reverse order lead back.
pub proof fn lemma_rounds_undone(key: Seq<u8>, domain: u64, upto: nat, x: u64)
    requires
        x < domain,
        upto <= u64::MAX,
    ensures
        forward_rounds(key, domain, upto, x) < domain,
        inverse_rounds(key, domain, upto, forward_rounds(key, domain, upto, x)) == x,
    decreases upto,
{
    if upto > 0 {
        let below = (upto - 1) as nat;
        lemma_rounds_undone(key, domain, below, x);
        lemma_round_involution(key, domain, below as u64, forward_rounds(key, domain, below, x));
    }
}

/// The reversed rounds map the domain into itself, and the rounds in their
/// own order lead back.
pub proof fn lemma_rounds_redone(key: Seq<u8>, domain: u64, upto: nat, y: u64)
    requires
        y < domain,
        upto <= u64::MAX,
    ensures
        inverse_rounds(key, domain, upto, y) < domain,
        forward_rounds(key, domain, upto, inverse_rounds(key, domain, upto, y)) == y,
    decreases upto,
{
    if upto > 0 {
        let below = (upto - 1) as nat;
        lemma_round_involution(key, domain, below as u64, y);
        lemma_rounds_redone(key, domain, below, round_map(key, domain, below as u64, y));
    }
}

/// No domain needs more than 390 rounds.
pub proof fn lemma_round_count_small(domain: u64)
    ensures
        6 <= round_count(domain) <= 390,
{
    crate::log2::lemma_ceil_log2_u64(domain as int);
}

/// The inverse permutation undoes the permutation on every point of the
/// domain, and the image of such a point lies in the domain.
pub proof fn lemma_prp_inverse_undoes_forward(key: Seq<u8>, domain: u64, x: u64)
    requires
        x < domain,
    ensures
        prp_forward(key, domain, x) < domain,
        prp_inverse(key, domain, prp_forward(key, domain, x)) == x,
{
    lemma_round_count_small(domain);
    lemma_rounds_undone(key, domain, round_count(domain), x);
}

/// The permutation undoes the inverse permutation on every point of the
/// domain, and the preimage of such a point lies in the domain.
pub proof fn lemma_prp_forward_undoes_inverse(key: Seq<u8>, domain: u64, y: u64)
    requires
        y < domain,
    ensures
        prp_inverse(key, domain, y) < domain,
        prp_forward(key, domain, prp_inverse(key, domain, y)) == y,
{
    lemma_round_count_small(domain);
    lemma_rounds_redone(key, domain, round_count(domain), y);
}

/// Some point of the domain has the image `y`.
pub open spec fn is_image(key: Seq<u8>, domain: u64, y: u64) -> bool {
    exists|x: u64| x < domain && prp_forward(key, domain, x) == y
}

/// The permutation is a bijection of the domain: no two points of the
/// domain share an image, and the images of the domain's points are exactly
/// the domain's points.
pub proof fn lemma_prp_is_bijection(key: Seq<u8>, domain: u64)
    ensures
        forall|a: u64, b: u64|
            a < domain && b < domain && prp_forward(key, domain, a) == prp_forward(key, domain, b)
                ==> a == b,
        forall|y: u64| is_image(key, domain, y) <==> y < domain,
{
    assert forall|a: u64, b: u64|
        a < domain && b < domain && prp_forward(key, domain, a) == prp_forward(
            key,
            domain,
            b,
        ) implies a == b by {
        lemma_prp_inverse_undoes_forward(key, domain, a);
        lemma_prp_inverse_undoes_forward(key, domain, b);
    }
    assert forall|y: u64| is_image(key, domain, y) <==> y < domain by {
        if y < domain {
            lemma_prp_forward_undoes_inverse(key, domain, y);
            let x = prp_inverse(key, domain, y);
            assert(x < domain && prp_forward(key, domain, x) == y);
        }
        if is_image(key, domain, y) {
            let x = choose|x: u64| x < domain && prp_forward(key, domain, x) == y;
            lemma_prp_inverse_undoes_forward(key, domain, x);
        }
    }
}

/// A Swap-or-Not permutation of `0..domain` under a 128-bit key.
pub struct SwapOrNot {
    key: [u8; 16],
    domain: u64,
    num_rounds: usize,
}

impl SwapOrNot {
    #[verifier::type_invariant]
    spec fn well_formed(self) -> bool {
        self.num_rounds == round_count(self.domain)
    }

    /// The key of the permutation.
    pub closed spec fn key(&self) -> Seq<u8> {
        self.key@
    }

    /// The size of the domain.
    pub closed spec fn size(&self) -> u64 {
        self.domain
    }

    /// The permutation of `0..domain` under `key`, with
    /// `6 * ceil(log2(domain)) + 6` rounds.
    pub fn new(key: [u8; 16], domain: u64) -> (prp: Self)
        ensures
            prp.key() == key@,
            prp.size() == domain,
    {
        let log: u32 = ceil_log2_u64(domain);
        let num_rounds: usize = (log as usize) * 6 + 6;
        SwapOrNot { key, domain, num_rounds }
    }

    /// The size of the domain.
    pub fn domain(&self) -> (domain: u64)
        ensures
            domain == self.size(),
    {
        self.domain
    }

    /// The number of rounds.
    pub fn num_rounds(&self) -> (rounds: usize)
        ensures
            rounds == round_count(self.size()),
    {
        proof {
            use_type_invariant(self);
        }
        self.num_rounds
    }

    fn derive_round_key(&self, round: usize) -> (k: u64)
        requires
            self.size() > 0,
        ensures
            k == round_key(self.key(), self.size(), round as u64),
            k < self.size(),
    {
        let input: [u8; 16] = block_of(round as u64, self.domain);
        let block: [u8; 16] = aes128_encrypt(&self.key, &input);
        leading_u64(&block) % self.domain
    }

    fn prf_bit(&self, round: usize, canonical: u64) -> (bit: bool)
        ensures
            bit == swap_bit(self.key(), round as u64, canonical),
    {
        let input: [u8; 16] = block_of(round as u64 | SWAP_BIT_TAG, canonical);
        let block: [u8; 16] = aes128_encrypt(&self.key, &input);
        block[0] % 2 == 1
    }

    /// One round of the permutation applied to `x`.
    pub fn round(&self, round_num: usize, x: u64) -> (y: u64)
        requires
            self.size() > 0,
        ensures
            y == round_map(self.key(), self.size(), round_num as u64, x),
    {
        let k_i: u64 = self.derive_round_key(round_num);
        let reduced: u64 = x % self.domain;
        let wide: u128 = (k_i as u128 + self.domain as u128 - reduced as u128) % (
        self.domain as u128);
        let partner: u64 = wide as u64;
        let canonical: u64 = if x >= partner {
            x
        } else {
            partner
        };
        if self.prf_bit(round_num, canonical) {
            partner
        } else {
            x
        }
    }

    /// The image of `x` under the permutation: the rounds first to last.
    pub fn forward(&self, x: u64) -> (y: u64)
        requires
            self.size() > 0,
        ensures
            y == prp_forward(self.key(), self.size(), x),
            x < self.size() ==> y < self.size(),
    {
        proof {
            use_type_invariant(self);
            if x < self.size() {
                lemma_prp_inverse_undoes_forward(self.key(), self.size(), x);
            }
        }
        let mut val: u64 = x;
        let mut round: usize = 0;
        while round < self.num_rounds
            invariant
                self.size() > 0,
                round <= self.num_rounds,
                val == forward_rounds(self.key(), self.size(), round as nat, x),
            decreases self.num_rounds - round,
        {
            val = self.round(round, val);
            round = round + 1;
        }
        val
    }

    /// The point whose image is `y`: the rounds last to first.
    pub fn inverse(&self, y: u64) -> (x: u64)
        requires
            self.size() > 0,
        ensures
            x == prp_inverse(self.key(), self.size(), y),
            y < self.size() ==> x < self.size(),
    {
        proof {
            use_type_invariant(self);
            if y < self.size() {
                lemma_prp_forward_undoes_inverse(self.key(), self.size(), y);
            }
        }
        let mut val: u64 = y;
        let mut round: usize = self.num_rounds;
        while round > 0
            invariant
                self.size() > 0,
                round <= self.num_rounds,
                inverse_rounds(self.key(), self.size(), round as nat, val) == inverse_rounds(
                    self.key(),
                    self.size(),
                    self.num_rounds as nat,
                    y,
                ),
            decreases round,
        {
            round = round - 1;
            val = self.round(round, val);
        }
        val
    }
}

} // verus!
