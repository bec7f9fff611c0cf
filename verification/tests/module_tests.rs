//! Tests for configuration, merge-mining chains, templates and the module API.

use blvm_stratum_v2::config::{default_difficulty_target, default_listen_addr, default_max_connections};
use blvm_stratum_v2::decimal::decimal_string;
use blvm_stratum_v2::merge_mining::{chains_named, MergeMiningCoordinator, SecondaryChain};
use blvm_stratum_v2::module_api::{method_names, API_VERSION};
use blvm_stratum_v2::template::{
    coinbase_payout_from_reply, coinbase_payout_from_script, coinbase_payout_from_scripts, template_block,
};
use blvm_stratum_v2::types::{BlockHeader, OutPoint, Transaction, TransactionInput};
use blvm_stratum_v2::{
    StratumConfig, API_METHOD_GET_BLOCK_MERGE_MINING_REWARDS, API_METHOD_GET_MERGE_MINING_TEMPLATE,
    API_METHOD_REGISTER_MERGE_MINING_CHANNEL, API_METHOD_SUBMIT_MERGE_MINING_SHARE,
};
use std::collections::HashMap;

fn chain_names(c: &MergeMiningCoordinator) -> Vec<String> {
    c.get_secondary_chains().iter().map(|s| s.name.clone()).collect()
}

fn tx(tag: u8) -> Transaction {
    Transaction {
        version: 1,
        inputs: vec![TransactionInput {
            prevout: OutPoint { hash: [tag; 32], index: 0 },
            sequence: 0xffff_ffff,
            script_sig: vec![tag],
        }],
        outputs: vec![],
        lock_time: 0,
    }
}

#[test]
fn config_defaults() {
    assert_eq!(default_max_connections(), 100);
    assert_eq!(default_listen_addr(), "0.0.0.0:3333");
    assert_eq!(default_difficulty_target(), 1);
    let c = StratumConfig::default();
    assert!(c.listen_addr.is_empty());
    assert_eq!(c.difficulty_target, 0);
    assert_eq!(c.max_connections, 0);
    assert!(c.pool_name.is_none());
    assert!(c.extra_extranonce.is_none());
}

#[test]
fn config_context_keys() {
    let c = StratumConfig {
        listen_addr: "127.0.0.1:4444".to_string(),
        difficulty_target: 12345,
        max_connections: 7,
        pool_name: Some("p".to_string()),
        extra_extranonce: None,
    };
    let map: HashMap<String, String> = c.to_context_map().into_iter().collect();
    assert_eq!(map.len(), 2);
    assert_eq!(map["stratum_v2.listen_addr"], "127.0.0.1:4444");
    assert_eq!(map["stratum_v2.difficulty_target"], "12345");
}

#[test]
fn decimal_text() {
    assert_eq!(decimal_string(0), "0");
    assert_eq!(decimal_string(7), "7");
    assert_eq!(decimal_string(1000), "1000");
    assert_eq!(decimal_string(u64::MAX), "18446744073709551615");
}

#[test]
fn merge_mining_chains_from_config_text() {
    let c = MergeMiningCoordinator::new(None, Some(" namecoin, rsk,, ,syscoin "));
    assert_eq!(chain_names(&c), vec!["namecoin", "rsk", "syscoin"]);
    assert!(c.get_secondary_chains().iter().all(|s| s.config.is_empty()));
}

#[test]
fn merge_mining_prefers_stored_chains() {
    let stored = vec![SecondaryChain { name: "stored".to_string(), config: HashMap::new() }];
    let c = MergeMiningCoordinator::new(Some(stored), Some("a,b"));
    assert_eq!(chain_names(&c), vec!["stored"]);
    let c = MergeMiningCoordinator::new(Some(vec![]), Some("a,b"));
    assert_eq!(chain_names(&c), vec!["a", "b"]);
    let c = MergeMiningCoordinator::new(None, None);
    assert!(c.get_secondary_chains().is_empty());
    let c = MergeMiningCoordinator::new(None, Some(""));
    assert!(c.get_secondary_chains().is_empty());
}

#[test]
fn merge_mining_add_chain_appends() {
    let mut c = MergeMiningCoordinator::new(None, Some("a"));
    let mut cfg = HashMap::new();
    cfg.insert("rpc".to_string(), "x".to_string());
    c.add_secondary_chain(SecondaryChain { name: "b".to_string(), config: cfg });
    assert_eq!(chain_names(&c), vec!["a", "b"]);
    assert_eq!(c.get_secondary_chains()[1].config["rpc"], "x");
}

#[test]
fn coinbase_payout_address_from_hex_script() {
    let script = "76a9141234567890abcdef1234567890abcdef123456789088ac";
    let (coinbase_script, address) = coinbase_payout_from_script(Some(script));
    assert!(coinbase_script.is_none());
    assert_eq!(address, Some(format!("hex:{}", script)));
    assert_eq!(coinbase_payout_from_script(Some("76A9")).1, Some("hex:76A9".to_string()));
    assert_eq!(coinbase_payout_from_script(Some("zz")), (None, None));
    assert_eq!(coinbase_payout_from_script(Some("abc")), (None, None));
    assert_eq!(coinbase_payout_from_script(None), (None, None));
}

#[test]
fn template_block_puts_coinbase_first() {
    let header = BlockHeader {
        version: 0x2000_0000,
        prev_block_hash: [9u8; 32],
        merkle_root: [0u8; 32],
        timestamp: 1_700_000_000,
        bits: 0x1703_0000,
        nonce: 0,
    };
    let block = template_block(header, tx(0), vec![tx(1), tx(2)]);
    assert_eq!(block.header, header);
    let tags: Vec<u8> = block.transactions.iter().map(|t| t.inputs[0].script_sig[0]).collect();
    assert_eq!(tags, vec![0, 1, 2]);
}

#[test]
fn module_api_methods() {
    assert_eq!(API_VERSION, 1);
    let names = method_names();
    assert_eq!(names.len(), 7);
    assert_eq!(names[0], API_METHOD_REGISTER_MERGE_MINING_CHANNEL);
    assert_eq!(names[1], API_METHOD_GET_MERGE_MINING_TEMPLATE);
    assert_eq!(names[2], API_METHOD_SUBMIT_MERGE_MINING_SHARE);
    assert_eq!(names[3], API_METHOD_GET_BLOCK_MERGE_MINING_REWARDS);
    assert_eq!(&names[4..], &["get_template", "get_connected_miners", "get_pool_stats"]);
}

use blvm_stratum_v2::commands::{list_miners, list_pools, set_difficulty, status};
use blvm_stratum_v2::module_api::{handle_raw_request, handle_request, ApiError, ApiParams, ApiReply, TemplateSummary};
use blvm_stratum_v2::pool::StratumV2Pool;
use blvm_stratum_v2::server::PoolStats;
use blvm_stratum_v2::types::Block;

fn no_params() -> ApiParams {
    ApiParams { parse_error: None, chain_id: None, min_difficulty: None }
}

#[test]
fn status_report_text() {
    let stats = PoolStats { miner_count: 2, total_shares: 10, accepted_shares: 7, rejected_shares: 3 };
    assert_eq!(
        status("0.0.0.0:3333", 4, &stats),
        "Stratum V2 server\nListen: 0.0.0.0:3333\nDefault difficulty: 4\nMiners: 2\nTotal shares: 10\nAccepted: 7\nRejected: 3"
    );
}

#[test]
fn list_pools_text() {
    let mut pool = StratumV2Pool::new();
    assert_eq!(list_pools("addr", &pool), "Pool: addr\nConnected miners (0):\n  (none)");
    pool.register_miner("a".to_string());
    pool.register_miner("b".to_string());
    assert_eq!(list_pools("addr", &pool), "Pool: addr\nConnected miners (2):\n  1. a\n  2. b");
}

#[test]
fn list_miners_text() {
    let mut pool = StratumV2Pool::new();
    assert_eq!(list_miners(&pool), "Connected miners (0):\n  (none)");
    pool.register_miner("a".to_string());
    pool.open_channel("a", 1, 1).unwrap();
    pool.open_channel("a", 2, 1).unwrap();
    pool.miners[0].stats.total_shares = 5;
    pool.miners[0].stats.accepted_shares = 4;
    pool.miners[0].stats.rejected_shares = 1;
    pool.register_miner("b".to_string());
    assert_eq!(
        list_miners(&pool),
        "Connected miners (2):\n  a: channels=2 shares=5 accepted=4 rejected=1\n  b: channels=0 shares=0 accepted=0 rejected=0"
    );
}

#[test]
fn set_difficulty_command() {
    let mut pool = StratumV2Pool::new();
    assert_eq!(
        set_difficulty(&mut pool, 0),
        Err("Usage: set-difficulty <value> (positive integer)".to_string())
    );
    assert_eq!(pool.default_min_difficulty(), 1);
    assert_eq!(
        set_difficulty(&mut pool, 16),
        Ok("Default difficulty set to 16 for new channels".to_string())
    );
    assert_eq!(pool.default_min_difficulty(), 16);
}

#[test]
fn module_api_register_channel() {
    let pool = StratumV2Pool::new();
    let params = ApiParams { parse_error: None, chain_id: Some("nmc".to_string()), min_difficulty: None };
    assert_eq!(
        handle_request(&pool, "register_merge_mining_channel", &params),
        Ok(ApiReply::ChannelRegistered { chain_id: "nmc".to_string(), min_difficulty: 1 })
    );
    let params = ApiParams {
        parse_error: None,
        chain_id: Some("nmc".to_string()),
        min_difficulty: Some(0x1_0000_0005),
    };
    assert_eq!(
        handle_request(&pool, "register_merge_mining_channel", &params),
        Ok(ApiReply::ChannelRegistered { chain_id: "nmc".to_string(), min_difficulty: 5 })
    );
    assert_eq!(
        handle_request(&pool, "register_merge_mining_channel", &no_params()),
        Err(ApiError::MissingChainId)
    );
    let bad = ApiParams { parse_error: Some("bad json".to_string()), chain_id: None, min_difficulty: None };
    assert_eq!(handle_request(&pool, "register_merge_mining_channel", &bad), Err(ApiError::InvalidParams("bad json".to_string())));
    assert_eq!(handle_request(&pool, "submit_merge_mining_share", &bad), Err(ApiError::InvalidParams("bad json".to_string())));
    assert_eq!(handle_request(&pool, "submit_merge_mining_share", &no_params()), Ok(ApiReply::ShareSubmitted));
    assert_eq!(
        handle_request(&pool, "get_block_merge_mining_rewards", &bad),
        Ok(ApiReply::MergeMiningRewards)
    );
    assert_eq!(
        handle_request(&pool, "get_merge_mining_template", &no_params()),
        Ok(ApiReply::MergeMiningTemplate)
    );
    assert_eq!(handle_request(&pool, "nope", &no_params()), Err(ApiError::UnknownMethod("nope".to_string())));
    assert_eq!(ApiError::UnknownMethod("nope".to_string()).message(), "Unknown method: nope");
    assert_eq!(ApiError::MissingChainId.message(), "missing chain_id");
    assert_eq!(ApiError::InvalidParams("x".to_string()).message(), "x");
}

#[test]
fn module_api_pool_queries() {
    let mut pool = StratumV2Pool::new();
    assert_eq!(handle_request(&pool, "get_template", &no_params()), Ok(ApiReply::Template(None)));
    pool.register_miner("x".to_string());
    pool.register_miner("y".to_string());
    pool.miners[1].stats.total_shares = 3;
    pool.miners[1].stats.accepted_shares = 2;
    pool.miners[1].stats.rejected_shares = 1;
    let mut header = BlockHeader {
        version: 1,
        prev_block_hash: [0u8; 32],
        merkle_root: [0u8; 32],
        timestamp: 77,
        bits: 0x1d00ffff,
        nonce: 0,
    };
    header.prev_block_hash[0] = 0xab;
    header.merkle_root[31] = 0x0f;
    pool.set_template(Block { header, transactions: vec![tx(1), tx(2)] });
    let mut prev = "ab".to_string();
    prev.push_str(&"00".repeat(31));
    let mut root = "00".repeat(31);
    root.push_str("0f");
    assert_eq!(
        handle_request(&pool, "get_template", &no_params()),
        Ok(ApiReply::Template(Some(TemplateSummary {
            prev_hash: prev,
            merkle_root: root,
            timestamp: 77,
            bits: 0x1d00ffff,
            tx_count: 2,
        })))
    );
    assert_eq!(
        handle_request(&pool, "get_connected_miners", &no_params()),
        Ok(ApiReply::ConnectedMiners(vec!["x".to_string(), "y".to_string()]))
    );
    assert_eq!(
        handle_request(&pool, "get_pool_stats", &no_params()),
        Ok(ApiReply::PoolStats(PoolStats { miner_count: 2, total_shares: 3, accepted_shares: 2, rejected_shares: 1 }))
    );
}

#[test]
fn chains_named_skips_empty_names() {
    let chains = chains_named(&vec!["a", "", "b c", ""]);
    let names: Vec<&str> = chains.iter().map(|c| c.name.as_str()).collect();
    assert_eq!(names, vec!["a", "b c"]);
    assert!(chains.iter().all(|c| c.config.is_empty()));
    assert!(chains_named(&vec![]).is_empty());
}

#[test]
fn coinbase_payout_from_datum_reply() {
    let reply = br#"{"outputs":[{"script":"76a91400","value":1},{"script":"zz"}]}"#;
    assert_eq!(coinbase_payout_from_reply(reply), (None, Some("hex:76a91400".to_string())));
    assert_eq!(coinbase_payout_from_reply(br#"{"outputs":[{"script":"zz"}]}"#), (None, None));
    assert_eq!(coinbase_payout_from_reply(br#"{"outputs":[{"script":7}]}"#), (None, None));
    assert_eq!(coinbase_payout_from_reply(br#"{"outputs":[{"value":7}]}"#), (None, None));
    assert_eq!(coinbase_payout_from_reply(br#"{"outputs":[]}"#), (None, None));
    assert_eq!(coinbase_payout_from_reply(br#"{"payout":1}"#), (None, None));
    assert_eq!(coinbase_payout_from_reply(b"not json"), (None, None));
    assert_eq!(coinbase_payout_from_reply(b""), (None, None));
}

#[test]
fn chain_names_are_trimmed_of_unicode_white_space() {
    let c = MergeMiningCoordinator::new(None, Some("\u{3000}a\t,\u{a0}b c\u{2009},\u{85}"));
    assert_eq!(chain_names(&c), vec!["a", "b c"]);
}

#[test]
fn module_api_reads_raw_json_params() {
    let pool = StratumV2Pool::new();
    assert_eq!(
        handle_raw_request(&pool, "register_merge_mining_channel", br#"{"chain_id":"nmc","min_difficulty":7}"#),
        Ok(ApiReply::ChannelRegistered { chain_id: "nmc".to_string(), min_difficulty: 7 })
    );
    assert_eq!(
        handle_raw_request(&pool, "register_merge_mining_channel", br#"{"chain_id":5}"#),
        Err(ApiError::MissingChainId)
    );
    assert_eq!(
        handle_raw_request(&pool, "register_merge_mining_channel", br#"{"chain_id":"x","min_difficulty":-1}"#),
        Ok(ApiReply::ChannelRegistered { chain_id: "x".to_string(), min_difficulty: 1 })
    );
    assert!(matches!(
        handle_raw_request(&pool, "submit_merge_mining_share", b"{"),
        Err(ApiError::InvalidParams(_))
    ));
    assert!(matches!(
        handle_raw_request(&pool, "submit_merge_mining_share", &[0xff, 0xfe]),
        Err(ApiError::InvalidParams(_))
    ));
    assert_eq!(handle_raw_request(&pool, "submit_merge_mining_share", b"{}"), Ok(ApiReply::ShareSubmitted));
    assert_eq!(handle_raw_request(&pool, "get_block_merge_mining_rewards", b"{"), Ok(ApiReply::MergeMiningRewards));
    assert_eq!(
        handle_raw_request(&pool, "bogus", b"{}"),
        Err(ApiError::UnknownMethod("bogus".to_string()))
    );
}

#[test]
fn coinbase_payout_from_parsed_scripts() {
    assert_eq!(coinbase_payout_from_scripts(None), (None, None));
    assert_eq!(coinbase_payout_from_scripts(Some(vec![])), (None, None));
    assert_eq!(coinbase_payout_from_scripts(Some(vec![None, Some("00".to_string())])), (None, None));
    assert_eq!(
        coinbase_payout_from_scripts(Some(vec![Some("a0B1".to_string()), None])),
        (None, Some("hex:a0B1".to_string()))
    );
    assert_eq!(coinbase_payout_from_scripts(Some(vec![Some("a0B".to_string())])), (None, None));
}
