//! Proof-of-work checking by the consensus crate, and the wall clock.

use vstd::prelude::*;

use crate::encoding::{le_bytes, pow256};
use crate::hash::{hash_number, sha256d, Hash256};

verus! {

/// The exponent of compact target bits: their bits 24 to 31.
pub open spec fn compact_exponent(bits: u64) -> int {
    (bits / 0x100_0000) as int % 256
}

/// The 23-bit mantissa of compact target bits.
pub open spec fn compact_mantissa(bits: u64) -> int {
    bits as int % 0x80_0000
}

/// Whether the sign bit (bit 23) of compact target bits is set.
pub open spec fn compact_negative(bits: u64) -> bool {
    (bits / 0x80_0000) as int % 2 == 1
}

/// What the consensus layer's proof-of-work check answers for a header with
/// these fields: `None` (its error) for a target exponent outside 3..=32;
/// `Some(false)` for a negative or zero target; otherwise whether the
/// header's double SHA-256, as a number, is at most the target, the
/// mantissa shifted left by `exponent - 3` bytes.
pub open spec fn consensus_pow(
    version: i64,
    prev_block_hash: Seq<u8>,
    merkle_root: Seq<u8>,
    timestamp: u64,
    bits: u64,
    nonce: u64,
) -> Option<bool> {
    let e = compact_exponent(bits);
    let m = compact_mantissa(bits);
    if compact_negative(bits) {
        Some(false)
    } else if e < 3 || e > 32 {
        None
    } else if m == 0 {
        Some(false)
    } else {
        let header = le_bytes((version as u64) as int, 4) + prev_block_hash + merkle_root + le_bytes(
            timestamp as int,
            4,
        ) + le_bytes(bits as int, 4) + le_bytes(nonce as int, 4);
        Some(hash_number(sha256d(header)) <= m * pow256((e - 3) as nat))
    }
}

/// `blvm_consensus::ConsensusProof::check_proof_of_work` on the header with
/// these fields, its error as `None`: the double SHA-256 of the 80-byte
/// header (integers as their low 4 bytes, little-endian), read as a
/// little-endian number, against the target expanded from the compact
/// bits, as `consensus_pow` states.
#[verifier::external_body]
pub(crate) fn check_proof_of_work(
    version: i64,
    prev_block_hash: &Hash256,
    merkle_root: &Hash256,
    timestamp: u64,
    bits: u64,
    nonce: u64,
) -> (res: Option<bool>)
    ensures
        res == consensus_pow(version, prev_block_hash@, merkle_root@, timestamp, bits, nonce),
{
    let header = blvm_consensus::BlockHeader {
        version,
        prev_block_hash: *prev_block_hash,
        merkle_root: *merkle_root,
        timestamp,
        bits,
        nonce,
    };
    blvm_consensus::ConsensusProof::new().check_proof_of_work(&header).ok()
}

/// Whether `t` is a reading of the wall clock, that is, a value that
/// `unix_time_now` returned.  Any value can be read from the clock, so the
/// definition is `true`; it is closed, so that outside this module a value
/// is known to be a reading only by having come from `unix_time_now`.
/// Contracts of the operations that judge by the current time use it to
/// say that the time they judged by is the one the clock gave them.
pub closed spec fn clock_reading(t: u64) -> bool {
    true
}

/// `std::time::SystemTime::now`, as whole seconds since the Unix epoch
/// (0 for a clock set before the epoch).  Nothing is claimed of the value
/// but that it is a reading of the clock.
#[verifier::external_body]
pub(crate) fn unix_time_now() -> (res: u64)
    ensures
        clock_reading(res),
{
    match std::time::SystemTime::now().duration_since(std::time::UNIX_EPOCH) {
        Ok(d) => d.as_secs(),
        Err(_) => 0,
    }
}

} // verus!
