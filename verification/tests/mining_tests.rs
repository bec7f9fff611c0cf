//! Tests for mining jobs and share handling in the pool.

use blvm_stratum_v2::pool::{ShareData, StratumV2Pool};
use blvm_stratum_v2::types::{Block, BlockHeader};

fn create_test_block() -> Block {
    Block {
        header: BlockHeader {
            version: 1,
            prev_block_hash: [0u8; 32],
            merkle_root: [0u8; 32],
            timestamp: 1231006505,
            bits: 0x1d00ffff,
            nonce: 0,
        },
        transactions: vec![],
    }
}

#[test]
fn mining_tests_test_stratum_v2_pool_new() {
    let pool = StratumV2Pool::new();
    assert!(pool.current_template().is_none());
}

#[test]
fn test_set_template() {
    let mut pool = StratumV2Pool::new();
    let block = create_test_block();
    let (job_id, _) = pool.set_template(block);
    assert!(job_id > 0);
}

#[test]
fn test_handle_share_no_miner() {
    let mut pool = StratumV2Pool::new();
    let share = ShareData {
        channel_id: 1,
        job_id: 1,
        nonce: 0,
        version: 1,
        merkle_root: [0u8; 32],
    };
    let result = pool.handle_share("unknown-miner", share);
    assert!(result.is_err());
}

#[test]
fn test_handle_share_no_channel() {
    let mut pool = StratumV2Pool::new();
    pool.register_miner("test-miner".to_string());
    let share = ShareData {
        channel_id: 999,
        job_id: 1,
        nonce: 0,
        version: 1,
        merkle_root: [0u8; 32],
    };
    let result = pool.handle_share("test-miner", share);
    assert!(result.is_err());
}

#[test]
fn test_handle_share_no_job() {
    let mut pool = StratumV2Pool::new();
    pool.register_miner("test-miner".to_string());
    pool.open_channel("test-miner", 1, 1).unwrap();
    let share = ShareData {
        channel_id: 1,
        job_id: 999,
        nonce: 0,
        version: 1,
        merkle_root: [0u8; 32],
    };
    let result = pool.handle_share("test-miner", share);
    assert!(result.is_err());
}

#[test]
fn handle_share_errors_name_what_is_missing() {
    let mut pool = StratumV2Pool::new();
    let share = ShareData { channel_id: 999, job_id: 77, nonce: 0, version: 1, merkle_root: [0u8; 32] };
    let err = pool.handle_share_at("nobody", share, 0).unwrap_err();
    assert_eq!(err.message(), "Stratum V2 protocol error: Miner not registered: nobody");

    pool.register_miner("m".to_string());
    let err = pool.handle_share_at("m", share, 0).unwrap_err();
    assert_eq!(err.message(), "Stratum V2 protocol error: Channel not found: 999");

    pool.open_channel("m", 999, 1).unwrap();
    let err = pool.handle_share_at("m", share, 0).unwrap_err();
    assert_eq!(err.message(), "Stratum V2 protocol error: Job not found: 77");

    // Every share of a registered miner is counted, found or not.
    assert_eq!(pool.miners[0].stats.total_shares, 2);
    assert_eq!(pool.miners[0].stats.last_share_time, Some(0));
    assert_eq!(pool.miners[0].stats.accepted_shares, 0);
    assert_eq!(pool.miners[0].stats.rejected_shares, 0);
}

#[test]
fn handle_share_rejects_and_counts_invalid_share() {
    let mut pool = StratumV2Pool::new();
    pool.register_miner("m".to_string());
    pool.open_channel("m", 1, 1).unwrap();
    let (job_id, _) = pool.set_template(create_test_block());
    let share = ShareData { channel_id: 1, job_id, nonce: 0, version: 1, merkle_root: [0u8; 32] };
    let (valid, block) = pool.handle_share_at("m", share, 1231006505).unwrap();
    assert!(!valid);
    assert!(!block);
    let stats = pool.miners[0].stats;
    assert_eq!(stats.total_shares, 1);
    assert_eq!(stats.accepted_shares, 0);
    assert_eq!(stats.rejected_shares, 1);
    assert_eq!(stats.last_share_time, Some(1231006505));
}
