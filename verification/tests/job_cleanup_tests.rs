//! Tests for job cleanup and for dropping idle miners.

use blvm_stratum_v2::pool::StratumV2Pool;
use blvm_stratum_v2::types::{Block, BlockHeader};
use std::time::{SystemTime, UNIX_EPOCH};

fn now_secs() -> u64 {
    SystemTime::now().duration_since(UNIX_EPOCH).unwrap().as_secs()
}

fn create_test_block() -> Block {
    Block {
        header: BlockHeader {
            version: 1,
            prev_block_hash: [0u8; 32],
            merkle_root: [0u8; 32],
            timestamp: now_secs(),
            bits: 0x1d00ffff,
            nonce: 0,
        },
        transactions: vec![],
    }
}

fn miner_index(pool: &StratumV2Pool, endpoint: &str) -> Option<usize> {
    pool.miners.iter().position(|m| m.endpoint == endpoint)
}

#[test]
fn test_cleanup_old_jobs() {
    let mut pool = StratumV2Pool::new();
    pool.register_miner("test-miner".to_string());
    pool.open_channel("test-miner", 1, 1).unwrap();

    let i = miner_index(&pool, "test-miner").unwrap();
    pool.miners[i].channels[0].max_jobs = 3;

    for _ in 0..5 {
        pool.set_template(create_test_block());
    }
    assert_eq!(pool.miners[i].channels[0].jobs.len(), 5);

    pool.cleanup_old_jobs();
    assert_eq!(pool.miners[i].channels[0].jobs.len(), 3);
}

#[test]
fn test_cleanup_disconnected_miners() {
    let mut pool = StratumV2Pool::new();
    pool.register_miner("active-miner".to_string());
    pool.register_miner("inactive-miner".to_string());
    pool.open_channel("active-miner", 1, 1).unwrap();
    pool.open_channel("inactive-miner", 1, 1).unwrap();

    let a = miner_index(&pool, "active-miner").unwrap();
    pool.miners[a].stats.last_share_time = Some(now_secs());
    let b = miner_index(&pool, "inactive-miner").unwrap();
    pool.miners[b].stats.last_share_time = Some(now_secs().saturating_sub(600));

    pool.cleanup_disconnected_miners(300);

    assert!(miner_index(&pool, "active-miner").is_some());
    assert!(miner_index(&pool, "inactive-miner").is_none());
}

#[test]
fn test_cleanup_miner_with_no_shares() {
    let mut pool = StratumV2Pool::new();
    pool.register_miner("no-channel-miner".to_string());
    pool.cleanup_disconnected_miners(300);
    assert!(miner_index(&pool, "no-channel-miner").is_none());
}

#[test]
fn test_cleanup_preserves_active_miners() {
    let mut pool = StratumV2Pool::new();
    pool.register_miner("active".to_string());
    pool.open_channel("active", 1, 1).unwrap();
    let i = miner_index(&pool, "active").unwrap();
    pool.miners[i].stats.last_share_time = Some(now_secs());

    pool.cleanup_disconnected_miners(300);
    assert!(miner_index(&pool, "active").is_some());
}

#[test]
fn cleanup_keeps_the_newest_jobs_in_order() {
    let mut pool = StratumV2Pool::new();
    pool.register_miner("m".to_string());
    pool.open_channel("m", 1, 1).unwrap();
    pool.miners[0].channels[0].max_jobs = 2;
    for _ in 0..4 {
        pool.set_template(create_test_block());
    }
    pool.cleanup_old_jobs();
    let ids: Vec<u32> = pool.miners[0].channels[0].jobs.iter().map(|j| j.job_id).collect();
    assert_eq!(ids, vec![3, 4]);
    // A second cleanup changes nothing.
    pool.cleanup_old_jobs();
    let again: Vec<u32> = pool.miners[0].channels[0].jobs.iter().map(|j| j.job_id).collect();
    assert_eq!(again, vec![3, 4]);
}

#[test]
fn cleanup_leaves_channels_under_the_limit() {
    let mut pool = StratumV2Pool::new();
    pool.register_miner("m".to_string());
    pool.open_channel("m", 1, 1).unwrap();
    for _ in 0..3 {
        pool.set_template(create_test_block());
    }
    pool.cleanup_old_jobs();
    assert_eq!(pool.miners[0].channels[0].jobs.len(), 3);
}

#[test]
fn cleanup_at_fixed_time_uses_the_timeout_bound() {
    let mut pool = StratumV2Pool::new();
    for name in ["edge", "late", "never", "fresh"] {
        pool.register_miner(name.to_string());
        pool.open_channel(name, 1, 1).unwrap();
    }
    let now = 10_000u64;
    let e = miner_index(&pool, "edge").unwrap();
    pool.miners[e].stats.last_share_time = Some(now - 300);
    let l = miner_index(&pool, "late").unwrap();
    pool.miners[l].stats.last_share_time = Some(now - 301);
    let f = miner_index(&pool, "fresh").unwrap();
    pool.miners[f].stats.last_share_time = Some(now);

    pool.cleanup_disconnected_miners_at(300, now);

    let left: Vec<&str> = pool.miners.iter().map(|m| m.endpoint.as_str()).collect();
    // A miner with channels and no share yet stays.
    assert_eq!(left, vec!["edge", "never", "fresh"]);
}
