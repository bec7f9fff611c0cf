//! Tests for share validation and proof-of-work checks.

use blvm_stratum_v2::hash::Hash256;
use blvm_stratum_v2::pool::{JobInfo, ShareData, StratumV2Pool};
use blvm_stratum_v2::types::{Block, BlockHeader};
use std::time::{SystemTime, UNIX_EPOCH};

fn now_secs() -> u64 {
    SystemTime::now().duration_since(UNIX_EPOCH).unwrap().as_secs()
}

fn hex_bytes(s: &str) -> Vec<u8> {
    (0..s.len() / 2)
        .map(|i| u8::from_str_radix(&s[2 * i..2 * i + 2], 16).unwrap())
        .collect()
}

fn reversed_hash(display_hex: &str) -> Hash256 {
    let mut bytes = hex_bytes(display_hex);
    bytes.reverse();
    let mut out = [0u8; 32];
    out.copy_from_slice(&bytes);
    out
}

const GENESIS_MERKLE: &str = "4a5e1e4baab89f3a32518a88c31bc87f618f76673e2cc77ab2127b7afdeda33b";
const GENESIS_HASH: &str = "000000000019d6689c085ae165831e934ff763ae46a2a6c172b3f1b60a8ce26f";
const GENESIS_TIME: u64 = 1231006505;
const GENESIS_NONCE: u32 = 2083236893;

fn genesis_template() -> Block {
    Block {
        header: BlockHeader {
            version: 1,
            prev_block_hash: [0u8; 32],
            merkle_root: reversed_hash(GENESIS_MERKLE),
            timestamp: GENESIS_TIME,
            bits: 0x1d00ffff,
            nonce: GENESIS_NONCE as u64,
        },
        transactions: vec![],
    }
}

fn genesis_job() -> JobInfo {
    JobInfo { job_id: 1, prev_hash: [0u8; 32], bits: 0x1d00ffff, timestamp: GENESIS_TIME }
}

fn genesis_share() -> ShareData {
    ShareData {
        channel_id: 1,
        job_id: 1,
        nonce: GENESIS_NONCE,
        version: 1,
        merkle_root: reversed_hash(GENESIS_MERKLE),
    }
}

#[test]
fn test_validate_share_invalid_job_id() {
    let pool = StratumV2Pool::new();
    let job_info = JobInfo { job_id: 1, prev_hash: [0u8; 32], bits: 0x1d00ffff, timestamp: now_secs() };
    let share = ShareData { channel_id: 1, job_id: 999, nonce: 0, version: 1, merkle_root: [0u8; 32] };
    let target = [0xFFu8; 32];
    let is_valid = pool.validate_share(&share, &job_info, &target);
    assert!(!is_valid);
}

#[test]
fn test_hash_comparison() {
    let pool = StratumV2Pool::new();
    let hash1: Hash256 = [0x00u8; 32];
    let hash2: Hash256 = [0xFFu8; 32];
    assert!(pool.hash_less_than_or_equal(&hash1, &hash2));
    assert!(pool.hash_less_than_or_equal(&hash1, &hash1));
    assert!(!pool.hash_less_than_or_equal(&hash2, &hash1));
}

#[test]
fn test_calculate_block_hash() {
    let pool = StratumV2Pool::new();
    let header = BlockHeader {
        version: 1,
        prev_block_hash: [0u8; 32],
        merkle_root: [0u8; 32],
        timestamp: 1231006505,
        bits: 0x1d00ffff,
        nonce: 0,
    };
    let hash = pool.calculate_block_hash(&header);
    assert_eq!(hash.len(), 32);
    let hash2 = pool.calculate_block_hash(&header);
    assert_eq!(hash, hash2);
}

#[test]
fn test_calculate_channel_target() {
    let pool = StratumV2Pool::new();
    let target1 = pool.calculate_channel_target(1).unwrap();
    let target2 = pool.calculate_channel_target(10).unwrap();
    assert_eq!(target1.len(), 32);
    assert_eq!(target2.len(), 32);
    assert!(pool.hash_less_than_or_equal(&target1, &target2)
        || pool.hash_less_than_or_equal(&target2, &target1));
}

#[test]
fn genesis_header_hash() {
    let pool = StratumV2Pool::new();
    let header = BlockHeader {
        version: 1,
        prev_block_hash: [0u8; 32],
        merkle_root: reversed_hash(GENESIS_MERKLE),
        timestamp: GENESIS_TIME,
        bits: 0x1d00ffff,
        nonce: GENESIS_NONCE as u64,
    };
    assert_eq!(pool.calculate_block_hash(&header), reversed_hash(GENESIS_HASH));
}

#[test]
fn hash_comparison_is_big_endian() {
    let pool = StratumV2Pool::new();
    let mut a = [0u8; 32];
    let mut b = [0u8; 32];
    a[0] = 1;
    b[31] = 0xff;
    assert!(!pool.hash_less_than_or_equal(&a, &b));
    assert!(pool.hash_less_than_or_equal(&b, &a));
}

#[test]
fn genesis_share_meets_easiest_target() {
    let pool = StratumV2Pool::new();
    let target = [0xFFu8; 32];
    assert!(pool.validate_share_at(&genesis_share(), &genesis_job(), &target, GENESIS_TIME));
}

#[test]
fn genesis_share_meets_its_own_hash_as_target() {
    let pool = StratumV2Pool::new();
    // The hash as a number is the displayed hash read big-endian.
    let mut target = [0u8; 32];
    target.copy_from_slice(&hex_bytes(GENESIS_HASH));
    assert!(pool.validate_share_at(&genesis_share(), &genesis_job(), &target, GENESIS_TIME));
    target[31] -= 1;
    assert!(!pool.validate_share_at(&genesis_share(), &genesis_job(), &target, GENESIS_TIME));
}

#[test]
fn share_with_wrong_nonce_meets_easy_target_but_is_no_block() {
    let mut pool = StratumV2Pool::new();
    pool.register_miner("m".to_string());
    pool.open_channel("m", 1, 1).unwrap();
    pool.miners[0].channels[0].target = [0xFF; 32];
    pool.set_template(genesis_template());
    let mut share = genesis_share();
    share.nonce = 0;
    assert_eq!(pool.handle_share_at("m", share, GENESIS_TIME).unwrap(), (true, false));
    assert_eq!(pool.handle_share_at("m", genesis_share(), GENESIS_TIME).unwrap(), (true, true));
    assert_eq!(pool.miners[0].stats.accepted_shares, 2);
}

#[test]
fn share_validity_needs_the_job_within_two_hours() {
    let pool = StratumV2Pool::new();
    let target = [0xFFu8; 32];
    for now in [GENESIS_TIME, GENESIS_TIME - 7200, GENESIS_TIME + 7200] {
        assert!(pool.validate_share_at(&genesis_share(), &genesis_job(), &target, now));
    }
    for now in [GENESIS_TIME - 7201, GENESIS_TIME + 7201, 0] {
        assert!(!pool.validate_share_at(&genesis_share(), &genesis_job(), &target, now));
    }
}

#[test]
fn late_share_is_counted_as_rejected() {
    let mut pool = StratumV2Pool::new();
    pool.register_miner("m".to_string());
    pool.open_channel("m", 1, 0).unwrap();
    pool.set_template(genesis_template());
    assert_eq!(pool.handle_share_at("m", genesis_share(), GENESIS_TIME).unwrap(), (true, true));
    assert_eq!(pool.handle_share_at("m", genesis_share(), GENESIS_TIME + 10_000).unwrap(), (false, false));
    let stats = pool.miners[0].stats;
    assert_eq!((stats.total_shares, stats.accepted_shares, stats.rejected_shares), (2, 1, 1));
    assert_eq!(stats.last_share_time, Some(GENESIS_TIME + 10_000));
}

#[test]
fn test_validate_share_timestamp_too_old() {
    let pool = StratumV2Pool::new();
    let job_info = JobInfo {
        job_id: 1,
        prev_hash: [0u8; 32],
        bits: 0x1d00ffff,
        timestamp: now_secs().saturating_sub(10000),
    };
    let share = ShareData { channel_id: 1, job_id: 1, nonce: 0, version: 1, merkle_root: [0u8; 32] };
    let target = [0xFFu8; 32];
    let is_valid = pool.validate_share(&share, &job_info, &target);
    assert!(!is_valid);
}

#[test]
fn channel_target_exact_values() {
    let pool = StratumV2Pool::new();
    let t1 = pool.calculate_channel_target(1).unwrap();
    // 0xffff * 256^26 * 100: the product sits in the top six bytes.
    let value: u128 = 0xffff * 100;
    let be = value.to_be_bytes();
    let mut want = [0u8; 32];
    want[..6].copy_from_slice(&be[10..16]);
    assert_eq!(t1, want);
    let t10 = pool.calculate_channel_target(10).unwrap();
    let be10 = (0xffffu128 * 1000).to_be_bytes();
    let mut want10 = [0u8; 32];
    want10[..6].copy_from_slice(&be10[10..16]);
    assert_eq!(t10, want10);
    assert!(pool.hash_less_than_or_equal(&t1, &t10));
}
