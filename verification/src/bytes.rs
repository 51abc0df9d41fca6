//! Big-endian byte layouts of 64-bit words.

use vstd::prelude::*;

verus! {

/// The eight bytes of `x`, most significant first.
pub open spec fn be_bytes(x: u64) -> Seq<u8> {
    seq![
        (x / 0x100_0000_0000_0000) as u8,
        (x / 0x1_0000_0000_0000 % 0x100) as u8,
        (x / 0x100_0000_0000 % 0x100) as u8,
        (x / 0x1_0000_0000 % 0x100) as u8,
        (x / 0x100_0000 % 0x100) as u8,
        (x / 0x1_0000 % 0x100) as u8,
        (x / 0x100 % 0x100) as u8,
        (x % 0x100) as u8,
    ]
}

/// The 64-bit word whose big-endian layout is the first eight bytes of
/// `bytes`.
pub open spec fn be_value(bytes: Seq<u8>) -> int
    recommends
        bytes.len() >= 8,
{
    bytes[0] * 0x100_0000_0000_0000 + bytes[1] * 0x1_0000_0000_0000 + bytes[2] * 0x100_0000_0000
        + bytes[3] * 0x1_0000_0000 + bytes[4] * 0x100_0000 + bytes[5] * 0x1_0000 + bytes[6] * 0x100
        + bytes[7]
}

/// Reading a word's big-endian layout gives the word back.
pub proof fn lemma_be_round_trip(x: u64)
    ensures
        be_bytes(x).len() == 8,
        be_value(be_bytes(x)) == x,
{
    assert(x == (x / 0x100_0000_0000_0000) * 0x100_0000_0000_0000 + (x / 0x1_0000_0000_0000
        % 0x100) * 0x1_0000_0000_0000 + (x / 0x100_0000_0000 % 0x100) * 0x100_0000_0000 + (x
        / 0x1_0000_0000 % 0x100) * 0x1_0000_0000 + (x / 0x100_0000 % 0x100) * 0x100_0000 + (x
        / 0x1_0000 % 0x100) * 0x1_0000 + (x / 0x100 % 0x100) * 0x100 + x % 0x100) by (bit_vector);
}

/// The big-endian layout of `x`.
pub fn u64_to_be(x: u64) -> (out: [u8; 8])
    ensures
        out@ == be_bytes(x),
{
    let out: [u8; 8] = [
        (x / 0x100_0000_0000_0000) as u8,
        (x / 0x1_0000_0000_0000 % 0x100) as u8,
        (x / 0x100_0000_0000 % 0x100) as u8,
        (x / 0x1_0000_0000 % 0x100) as u8,
        (x / 0x100_0000 % 0x100) as u8,
        (x / 0x1_0000 % 0x100) as u8,
        (x / 0x100 % 0x100) as u8,
        (x % 0x100) as u8,
    ];
    assert(out@ =~= be_bytes(x));
    out
}

/// The 16-byte block that holds `first` and then `second`, each big-endian.
pub fn block_of(first: u64, second: u64) -> (out: [u8; 16])
    ensures
        out@ == be_bytes(first) + be_bytes(second),
{
    let a: [u8; 8] = u64_to_be(first);
    let b: [u8; 8] = u64_to_be(second);
    let out: [u8; 16] = [
        a[0],
        a[1],
        a[2],
        a[3],
        a[4],
        a[5],
        a[6],
        a[7],
        b[0],
        b[1],
        b[2],
        b[3],
        b[4],
        b[5],
        b[6],
        b[7],
    ];
    assert(out@ =~= be_bytes(first) + be_bytes(second));
    out
}

/// The word that the first eight bytes of `bytes` encode, big-endian.
pub fn leading_u64<const N: usize>(bytes: &[u8; N]) -> (word: u64)
    requires
        N >= 8,
    ensures
        word == be_value(bytes@),
{
    let mut word: u64 = 0;
    let mut i: usize = 0;
    while i < 8
        invariant
            i <= 8,
            N >= 8,
            bytes@.len() == N,
            word == prefix_value(bytes@, i as int),
        decreases 8 - i,
    {
        proof {
            lemma_prefix_value_range(bytes@, i as int);
        }
        word = word * 0x100 + bytes[i] as u64;
        i = i + 1;
    }
    proof {
        reveal_with_fuel(prefix_value, 9);
    }
    word
}

/// The number that the first `len` bytes encode, big-endian.
pub open spec fn prefix_value(bytes: Seq<u8>, len: int) -> int
    decreases len,
{
    if len <= 0 {
        0
    } else {
        prefix_value(bytes, len - 1) * 0x100 + bytes[len - 1]
    }
}

/// A prefix of `len` bytes encodes a number below `256^len`; for up to
/// seven bytes there is room for one more.
pub proof fn lemma_prefix_value_range(bytes: Seq<u8>, len: int)
    requires
        0 <= len <= 7,
        bytes.len() >= len,
    ensures
        0 <= prefix_value(bytes, len) < 0x100_0000_0000_0000,
{
    reveal_with_fuel(prefix_value, 8);
}

} // verus!
