//! Tests for the Stratum V2 pool.

use blvm_stratum_v2::pool::{MinerStats, StratumV2Pool};
use blvm_stratum_v2::types::{Block, BlockHeader};

fn create_test_block() -> Block {
    Block {
        header: BlockHeader {
            version: 1,
            prev_block_hash: [0u8; 32],
            merkle_root: [0u8; 32],
            timestamp: 1231006505,
            bits: 0x1d00ffff,
            nonce: 0,
        },
        transactions: vec![],
    }
}

fn has_miner(pool: &StratumV2Pool, endpoint: &str) -> bool {
    pool.miners.iter().any(|m| m.endpoint == endpoint)
}

#[test]
fn pool_tests_test_stratum_v2_pool_new() {
    let pool = StratumV2Pool::new();
    assert!(pool.miners.is_empty());
}

#[test]
fn test_stratum_v2_pool_register_miner() {
    let mut pool = StratumV2Pool::new();
    pool.register_miner("test-miner".to_string());
    assert!(has_miner(&pool, "test-miner"));
}

#[test]
fn test_stratum_v2_pool_open_channel() {
    let mut pool = StratumV2Pool::new();
    pool.register_miner("test-miner".to_string());
    let result = pool.open_channel("test-miner", 1, 1);
    assert!(result.is_ok());
    let target = result.unwrap();
    assert_ne!(target, [0u8; 32]);
}

#[test]
fn test_stratum_v2_pool_open_channel_no_miner() {
    let mut pool = StratumV2Pool::new();
    let result = pool.open_channel("unknown-miner", 1, 1);
    assert!(result.is_err());
}

#[test]
fn test_stratum_v2_pool_set_template() {
    let mut pool = StratumV2Pool::new();
    let block = create_test_block();
    let (job_id, distributions) = pool.set_template(block);
    assert!(job_id > 0);
    assert!(distributions.is_empty());
}

#[test]
fn test_miner_stats_default() {
    let stats = MinerStats::default();
    assert_eq!(stats.total_shares, 0);
    assert_eq!(stats.accepted_shares, 0);
    assert_eq!(stats.rejected_shares, 0);
    assert!(stats.last_share_time.is_none());
}

#[test]
fn register_replaces_existing_miner() {
    let mut pool = StratumV2Pool::new();
    pool.register_miner("m".to_string());
    pool.open_channel("m", 7, 1).unwrap();
    assert_eq!(pool.miners[0].channels.len(), 1);
    pool.register_miner("m".to_string());
    assert_eq!(pool.miners.len(), 1);
    assert!(pool.miners[0].channels.is_empty());
}

#[test]
fn set_template_hands_job_to_every_channel() {
    let mut pool = StratumV2Pool::new();
    pool.register_miner("a".to_string());
    pool.register_miner("b".to_string());
    pool.open_channel("a", 1, 1).unwrap();
    pool.open_channel("a", 2, 1).unwrap();
    pool.open_channel("b", 5, 1).unwrap();
    let (job_id, distributions) = pool.set_template(create_test_block());
    assert_eq!(job_id, 1);
    assert_eq!(
        distributions,
        vec![("a".to_string(), 1), ("a".to_string(), 2), ("b".to_string(), 5)]
    );
    for miner in &pool.miners {
        for channel in &miner.channels {
            assert_eq!(channel.current_job_id, Some(1));
            assert_eq!(channel.jobs.len(), 1);
            assert_eq!(channel.jobs[0].job_id, 1);
            assert_eq!(channel.jobs[0].bits, 0x1d00ffff);
            assert_eq!(channel.jobs[0].timestamp, 1231006505);
        }
    }
    let (job_id2, _) = pool.set_template(create_test_block());
    assert_eq!(job_id2, 2);
    assert!(pool.current_template().is_some());
}

#[test]
fn default_difficulty_is_kept() {
    let mut pool = StratumV2Pool::new();
    assert_eq!(pool.default_min_difficulty(), 1);
    pool.set_default_difficulty(42);
    assert_eq!(pool.default_min_difficulty(), 42);
}

#[test]
fn share_totals_sum_over_miners() {
    let mut pool = StratumV2Pool::new();
    pool.register_miner("a".to_string());
    pool.register_miner("b".to_string());
    pool.miners[0].stats.total_shares = 3;
    pool.miners[0].stats.accepted_shares = 2;
    pool.miners[0].stats.rejected_shares = 1;
    pool.miners[1].stats.total_shares = 4;
    pool.miners[1].stats.rejected_shares = 4;
    assert_eq!(pool.share_totals(), (2, 7, 2, 5));
}
