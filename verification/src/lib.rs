//! An invertible pseudorandom function for private information retrieval:
//! a small-domain permutation followed by a multinomial router that drops
//! balls into bins through a binary tree of binomial splits, together with
//! the integer core of the constant-time binomial samplers that decide the
//! splits.

pub mod constant_time;
pub mod scan;
pub mod log2;
pub mod binomial_tee;
pub mod binomial_leveled;
pub mod binomial_gaussian;
pub mod binomial_precomputed;
pub mod bytes;
pub mod crypto;
pub mod prp;
pub mod pmns;
pub mod iprf;
