//! The two primitives that the construction takes from outside: the AES-128
//! block cipher, used as a keyed permutation of 16-byte blocks, and the
//! SHA-256 hash. Their results are functions of their arguments alone, and
//! the rest of the library reasons about them by name only.

use vstd::prelude::*;
use aes::cipher::generic_array::GenericArray;
use aes::cipher::{BlockEncrypt, KeyInit};
use aes::Aes128;
use sha2::{Digest, Sha256};

verus! {

/// The AES-128 encryption of one 16-byte block under a 16-byte key.
pub uninterp spec fn aes128_block(key: Seq<u8>, block: Seq<u8>) -> Seq<u8>;

/// The SHA-256 digest of a byte string.
pub uninterp spec fn sha256_digest(data: Seq<u8>) -> Seq<u8>;

/// Encrypts one block with `aes::Aes128`: the cipher is keyed with
/// `KeyInit::new` and applied with `BlockEncrypt::encrypt_block`. The
/// contract claims only that the 16 bytes that come back are the cipher's
/// output for this key and this block.
#[verifier::external_body]
pub(crate) fn aes128_encrypt(key: &[u8; 16], block: &[u8; 16]) -> (out: [u8; 16])
    ensures
        out@ == aes128_block(key@, block@),
{
    let cipher = Aes128::new(&GenericArray::from(*key));
    let mut buffer = GenericArray::from(*block);
    cipher.encrypt_block(&mut buffer);
    buffer.into()
}

/// Hashes a byte string with `sha2::Sha256` through `Digest::digest`. The
/// contract claims only that the 32 bytes that come back are the digest of
/// exactly these bytes.
#[verifier::external_body]
pub(crate) fn sha256(data: &Vec<u8>) -> (out: [u8; 32])
    ensures
        out@ == sha256_digest(data@),
{
    Sha256::digest(data).into()
}

} // verus!
