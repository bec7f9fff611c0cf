//! Tests of the Stratum V2 request flow through the server.

use blvm_consensus::opcodes;
use blvm_stratum_v2::message_types;
use blvm_stratum_v2::messages::{
    OpenMiningChannelMessage, RequestKind, SetupConnectionMessage, ShareData, StratumRequest,
    StratumResponse, SubmitSharesMessage,
};
use blvm_stratum_v2::server::StratumV2Server;
use blvm_stratum_v2::StratumV2Error;
use blvm_stratum_v2::types::{Block, BlockHeader, OutPoint, Transaction, TransactionInput, TransactionOutput};
use std::time::{SystemTime, UNIX_EPOCH};

fn now_secs() -> u64 {
    SystemTime::now().duration_since(UNIX_EPOCH).unwrap().as_secs()
}

fn create_test_block() -> Block {
    Block {
        header: BlockHeader {
            version: 1,
            prev_block_hash: [0u8; 32],
            merkle_root: [0u8; 32],
            timestamp: now_secs(),
            bits: 0x1d00ffff,
            nonce: 0,
        },
        transactions: vec![Transaction {
            version: 1,
            inputs: vec![TransactionInput {
                prevout: OutPoint { hash: [0u8; 32], index: 0xFFFFFFFF },
                script_sig: vec![opcodes::PUSH_1_BYTE, 0x00],
                sequence: 0xFFFFFFFF,
            }],
            outputs: vec![TransactionOutput {
                value: 5000000000,
                script_pubkey: vec![opcodes::OP_DUP, opcodes::OP_HASH160, opcodes::PUSH_20_BYTES],
            }],
            lock_time: 0,
        }],
    }
}

fn setup_message(version: u16) -> SetupConnectionMessage {
    SetupConnectionMessage {
        protocol_version: version,
        endpoint: "test-miner".to_string(),
        capabilities: vec!["mining".to_string()],
    }
}

#[test]
fn test_setup_connection_flow() {
    let mut server = StratumV2Server::new("test".to_string());
    let response = server.handle_setup_connection(setup_message(2), "test-miner");
    assert!(response.is_ok());
    let success = response.unwrap();
    assert_eq!(success.supported_versions, vec![2]);
    assert!(success.capabilities.contains(&"mining".to_string()));
}

#[test]
fn test_setup_connection_invalid_version() {
    let mut server = StratumV2Server::new("test".to_string());
    let response = server.handle_setup_connection(setup_message(1), "test-miner");
    assert!(response.is_err());
}

#[test]
fn test_open_channel_flow() {
    let mut server = StratumV2Server::new("test".to_string());
    server.handle_setup_connection(setup_message(2), "test-miner").unwrap();
    let open_msg = OpenMiningChannelMessage { channel_id: 1, request_id: 1, min_difficulty: 1 };
    let response = server.handle_open_channel("test-miner", open_msg);
    assert!(response.is_ok());
    let success = response.unwrap();
    assert_eq!(success.channel_id, 1);
    assert_eq!(success.request_id, 1);
    assert_eq!(success.max_jobs, 10);
}

#[test]
fn test_open_channel_without_setup() {
    let mut server = StratumV2Server::new("test".to_string());
    let open_msg = OpenMiningChannelMessage { channel_id: 1, request_id: 1, min_difficulty: 1 };
    let response = server.handle_open_channel("unknown-miner", open_msg);
    assert!(response.is_err());
}

#[test]
fn test_submit_shares_flow() {
    let mut server = StratumV2Server::new("test".to_string());
    server.handle_setup_connection(setup_message(2), "test-miner").unwrap();
    let open_msg = OpenMiningChannelMessage { channel_id: 1, request_id: 1, min_difficulty: 1 };
    server.handle_open_channel("test-miner", open_msg).unwrap();

    server.get_pool_mut().set_template(create_test_block());

    let submit_msg = SubmitSharesMessage {
        channel_id: 1,
        shares: vec![ShareData { channel_id: 1, job_id: 1, nonce: 0, version: 1, merkle_root: [0u8; 32] }],
    };
    let (response, blocks) = server.handle_submit_shares("test-miner", submit_msg);
    assert!(response.is_ok());
    let success = response.unwrap();
    assert_eq!(success.channel_id, 1);
    assert_eq!(success.last_job_id, 1);
    assert!(blocks.is_empty());
}

#[test]
fn test_error_responses() {
    let mut server = StratumV2Server::new("test".to_string());
    let request = StratumRequest::SetupConnection(setup_message(1));
    let (response, blocks) = server.handle_request("test-miner", request, now_secs());
    assert!(blocks.is_empty());
    match response {
        StratumResponse::SetupConnectionError(e) => {
            assert_eq!(e.error_code, 1);
            assert_eq!(
                e.error_message,
                "Setup connection failed: Stratum V2 protocol error: Unsupported protocol version: 1. Only version 2 is supported."
            );
        }
        other => panic!("unexpected response {:?}", other),
    }
}

#[test]
fn response_tags_match_the_message_kind() {
    let mut server = StratumV2Server::new("test".to_string());
    let (ok, _) = server.handle_request("m", StratumRequest::SetupConnection(setup_message(2)), 0);
    assert_eq!(ok.message_type(), message_types::SETUP_CONNECTION_SUCCESS);
    let open = OpenMiningChannelMessage { channel_id: 4, request_id: 9, min_difficulty: 1 };
    let (resp, _) = server.handle_request("nobody", StratumRequest::OpenMiningChannel(open), 0);
    match &resp {
        StratumResponse::OpenMiningChannelError(e) => {
            assert_eq!(e.channel_id, 4);
            assert_eq!(e.request_id, 9);
            assert_eq!(e.error_code, 2);
        }
        other => panic!("unexpected response {:?}", other),
    }
    assert_eq!(resp.message_type(), message_types::OPEN_MINING_CHANNEL_ERROR);
    let submit = SubmitSharesMessage {
        channel_id: 4,
        shares: vec![ShareData { channel_id: 4, job_id: 6, nonce: 0, version: 1, merkle_root: [0u8; 32] }],
    };
    let (resp, _) = server.handle_request("nobody", StratumRequest::SubmitShares(submit), 0);
    match &resp {
        StratumResponse::SubmitSharesError(e) => {
            assert_eq!(e.channel_id, 4);
            assert_eq!(e.job_id, 6);
            assert_eq!(e.error_code, 3);
        }
        other => panic!("unexpected response {:?}", other),
    }
    assert_eq!(resp.message_type(), message_types::SUBMIT_SHARES_ERROR);
}

#[test]
fn request_tags_are_recognised() {
    assert_eq!(RequestKind::from_tag(message_types::SETUP_CONNECTION), Some(RequestKind::SetupConnection));
    assert_eq!(RequestKind::from_tag(message_types::OPEN_MINING_CHANNEL), Some(RequestKind::OpenMiningChannel));
    assert_eq!(RequestKind::from_tag(message_types::SUBMIT_SHARES), Some(RequestKind::SubmitShares));
    assert_eq!(RequestKind::from_tag(message_types::SETUP_CONNECTION_SUCCESS), None);
    assert_eq!(setup_message(2).message_type(), message_types::SETUP_CONNECTION);
}

#[test]
fn update_template_sends_a_job_to_every_channel() {
    let mut server = StratumV2Server::new("test".to_string());
    server.handle_setup_connection(setup_message(2), "a").unwrap();
    server.handle_setup_connection(setup_message(2), "b").unwrap();
    server.handle_open_channel("a", OpenMiningChannelMessage { channel_id: 1, request_id: 1, min_difficulty: 1 }).unwrap();
    server.handle_open_channel("b", OpenMiningChannelMessage { channel_id: 2, request_id: 1, min_difficulty: 1 }).unwrap();
    let block = create_test_block();
    let (prefix, suffix, path) = server.extract_template_parts(&block);
    let jobs = server.update_block_template(block);
    assert_eq!(jobs.len(), 2);
    assert_eq!(jobs[0].0, "a");
    assert_eq!(jobs[0].1.channel_id, 1);
    assert_eq!(jobs[1].0, "b");
    assert_eq!(jobs[1].1.channel_id, 2);
    for (_, job) in &jobs {
        assert_eq!(job.job_id, 1);
        assert_eq!(job.prev_hash, [0u8; 32]);
        assert_eq!(job.coinbase_prefix, prefix);
        assert_eq!(job.coinbase_suffix, suffix);
        assert_eq!(job.merkle_path, path);
    }
}

#[test]
fn block_mined_notifies_every_channel() {
    let mut server = StratumV2Server::new("test".to_string());
    server.handle_setup_connection(setup_message(2), "a").unwrap();
    server.handle_open_channel("a", OpenMiningChannelMessage { channel_id: 3, request_id: 1, min_difficulty: 1 }).unwrap();
    server.get_pool_mut().set_template(create_test_block());
    let block = create_test_block();
    let notices = server.block_mined(block, [7u8; 32]);
    assert_eq!(notices.len(), 1);
    assert_eq!(notices[0].0, "a");
    assert_eq!(notices[0].1.channel_id, 3);
    assert_eq!(notices[0].1.prev_hash, [7u8; 32]);
}

#[test]
fn server_start_stop() {
    let mut server = StratumV2Server::new("0.0.0.0:3333".to_string());
    assert_eq!(server.listen_addr(), "0.0.0.0:3333");
    assert!(!server.is_running());
    assert!(server.start().is_ok());
    assert!(server.is_running());
    assert!(server.start().is_err());
    assert!(server.stop().is_ok());
    assert!(!server.is_running());
}

#[test]
fn pool_stats_sum_the_miners() {
    let mut server = StratumV2Server::new("test".to_string());
    server.handle_setup_connection(setup_message(2), "a").unwrap();
    server.handle_setup_connection(setup_message(2), "b").unwrap();
    server.get_pool_mut().miners[0].stats.total_shares = 5;
    server.get_pool_mut().miners[0].stats.accepted_shares = 3;
    server.get_pool_mut().miners[0].stats.rejected_shares = 2;
    server.get_pool_mut().miners[1].stats.total_shares = 1;
    server.get_pool_mut().miners[1].stats.rejected_shares = 1;
    let stats = server.get_pool_stats();
    assert_eq!(stats.miner_count, 2);
    assert_eq!(stats.total_shares, 6);
    assert_eq!(stats.accepted_shares, 3);
    assert_eq!(stats.rejected_shares, 3);
}

fn genesis_template() -> Block {
    Block {
        header: BlockHeader {
            version: 1,
            prev_block_hash: [0u8; 32],
            merkle_root: [0u8; 32],
            timestamp: 1231006505,
            bits: 0x1d00ffff,
            nonce: 0,
        },
        transactions: vec![],
    }
}

fn genesis_share() -> ShareData {
    let display = "4a5e1e4baab89f3a32518a88c31bc87f618f76673e2cc77ab2127b7afdeda33b";
    let mut root = [0u8; 32];
    for i in 0..32 {
        root[31 - i] = u8::from_str_radix(&display[2 * i..2 * i + 2], 16).unwrap();
    }
    ShareData { channel_id: 1, job_id: 1, nonce: 2083236893, version: 1, merkle_root: root }
}

#[test]
fn block_found_before_a_failing_share_is_still_returned() {
    let mut server = StratumV2Server::new("test".to_string());
    server.handle_setup_connection(setup_message(2), "m").unwrap();
    server.handle_open_channel("m", OpenMiningChannelMessage { channel_id: 1, request_id: 1, min_difficulty: 1 }).unwrap();
    server.get_pool_mut().set_template(genesis_template());
    server.get_pool_mut().miners[0].channels[0].target = [0xff; 32];
    let mut bad = genesis_share();
    bad.job_id = 999;
    let msg = SubmitSharesMessage { channel_id: 1, shares: vec![genesis_share(), bad] };
    let (result, blocks) = server.handle_submit_shares_at("m", msg, 1231006505);
    assert!(result.is_err());
    assert_eq!(blocks.len(), 1);
    assert_eq!(blocks[0].header.nonce, 2083236893);
    assert_eq!(blocks[0].header.merkle_root, genesis_share().merkle_root);
    let stats = server.get_pool().miners[0].stats;
    assert_eq!(stats.total_shares, 2);
    assert_eq!(stats.accepted_shares, 1);
}

#[test]
fn valid_block_share_through_handle_request() {
    let mut server = StratumV2Server::new("test".to_string());
    server.handle_setup_connection(setup_message(2), "m").unwrap();
    server.handle_open_channel("m", OpenMiningChannelMessage { channel_id: 1, request_id: 1, min_difficulty: 1 }).unwrap();
    server.get_pool_mut().set_template(genesis_template());
    server.get_pool_mut().miners[0].channels[0].target = [0xff; 32];
    let msg = SubmitSharesMessage { channel_id: 1, shares: vec![genesis_share()] };
    let (response, blocks) = server.handle_request("m", StratumRequest::SubmitShares(msg), 1231006505);
    match response {
        StratumResponse::SubmitSharesSuccess(s) => {
            assert_eq!(s.channel_id, 1);
            assert_eq!(s.last_job_id, 1);
        }
        other => panic!("unexpected response {:?}", other),
    }
    assert_eq!(blocks.len(), 1);
    assert_eq!(blocks[0].header.prev_block_hash, [0u8; 32]);
    assert_eq!(blocks[0].header.timestamp, 1231006505);
}

#[test]
fn block_fetched_outcomes() {
    let mut server = StratumV2Server::new("test".to_string());
    server.handle_setup_connection(setup_message(2), "a").unwrap();
    server.handle_open_channel("a", OpenMiningChannelMessage { channel_id: 5, request_id: 1, min_difficulty: 1 }).unwrap();

    let err = server.block_fetched(Err("no node".to_string()), [1u8; 32]).unwrap_err();
    assert_eq!(err.message(), "Server error: Failed to get block: no node");
    assert!(server.get_pool().current_template().is_none());

    assert!(server.block_fetched(Ok(None), [1u8; 32]).unwrap().is_empty());
    assert!(server.get_pool().current_template().is_none());

    let notices = server.block_fetched(Ok(Some(genesis_template())), [1u8; 32]).unwrap();
    assert_eq!(notices.len(), 1);
    assert_eq!(notices[0].0, "a");
    assert_eq!(notices[0].1.channel_id, 5);
    assert_eq!(notices[0].1.min_ntime, 1231006505);
    assert!(server.get_pool().current_template().is_some());
    // The mined block took job id 1; the next template gets 2.
    let (job_id, _) = server.get_pool_mut().set_template(genesis_template());
    assert_eq!(job_id, 2);
}

#[test]
fn submit_pow_request_carries_the_header() {
    let server = StratumV2Server::new("test".to_string());
    let block = genesis_template();
    let (method, params) = server.submit_pow_request(&block);
    assert_eq!(method, "submit_pow");
    assert_eq!(params.len(), 80);
    assert_eq!(&params[0..4], &[1, 0, 0, 0]);
    assert_eq!(&params[76..80], &(block.header.nonce as u32).to_le_bytes());
    assert_eq!(&params[68..72], &1231006505u32.to_le_bytes());
    let hash = server.get_pool().calculate_block_hash(&block.header);
    let mut expected = [0u8; 32];
    let first = <sha2::Sha256 as sha2::Digest>::digest(&params);
    let second = <sha2::Sha256 as sha2::Digest>::digest(first);
    expected.copy_from_slice(&second);
    assert_eq!(hash, expected);
}

#[test]
fn start_twice_reports_already_running() {
    let mut server = StratumV2Server::new("x".to_string());
    server.start().unwrap();
    assert_eq!(server.start().unwrap_err().message(), "Configuration error: Server already running");
    assert!(server.is_running());
}

#[test]
fn other_miners_counters_do_not_matter() {
    let mut server = StratumV2Server::new("test".to_string());
    server.handle_setup_connection(setup_message(2), "full").unwrap();
    server.handle_setup_connection(setup_message(2), "m").unwrap();
    server.handle_open_channel("m", OpenMiningChannelMessage { channel_id: 1, request_id: 1, min_difficulty: 1 }).unwrap();
    server.get_pool_mut().miners[0].stats.total_shares = u64::MAX;
    server.get_pool_mut().set_template(genesis_template());
    let msg = SubmitSharesMessage { channel_id: 1, shares: vec![genesis_share()] };
    let (response, blocks) = server.handle_request("m", StratumRequest::SubmitShares(msg), 1231006505);
    assert!(matches!(response, StratumResponse::SubmitSharesSuccess(_)));
    assert_eq!(blocks.len(), 1);
    // Shares from an unknown endpoint are refused with code 3 and count nothing.
    let msg = SubmitSharesMessage { channel_id: 9, shares: vec![genesis_share()] };
    let (response, _) = server.handle_request("nobody", StratumRequest::SubmitShares(msg), 0);
    match response {
        StratumResponse::SubmitSharesError(e) => {
            assert_eq!(e.channel_id, 9);
            assert_eq!(e.job_id, 1);
            assert_eq!(e.error_code, 3);
            assert_eq!(
                e.error_message,
                "Failed to process shares: Stratum V2 protocol error: Miner not registered: nobody"
            );
        }
        other => panic!("unexpected response {:?}", other),
    }
    assert_eq!(server.get_pool().miners[0].stats.total_shares, u64::MAX);
}

#[test]
fn request_errors_carry_their_detail() {
    let mut server = StratumV2Server::new("test".to_string());
    match server.handle_setup_connection(setup_message(3), "m").unwrap_err() {
        StratumV2Error::ProtocolError(m) => {
            assert_eq!(m, "Unsupported protocol version: 3. Only version 2 is supported.")
        }
        other => panic!("unexpected error {:?}", other),
    }
    let open = OpenMiningChannelMessage { channel_id: 1, request_id: 2, min_difficulty: 1 };
    let (resp, _) = server.handle_request("ghost", StratumRequest::OpenMiningChannel(open), 0);
    match resp {
        StratumResponse::OpenMiningChannelError(e) => assert_eq!(
            e.error_message,
            "Failed to open channel: Stratum V2 protocol error: Miner not registered: ghost"
        ),
        other => panic!("unexpected response {:?}", other),
    }
    server.handle_setup_connection(setup_message(2), "m").unwrap();
    let submit = SubmitSharesMessage {
        channel_id: 4,
        shares: vec![ShareData { channel_id: 4, job_id: 6, nonce: 0, version: 1, merkle_root: [0u8; 32] }],
    };
    let (resp, _) = server.handle_request("m", StratumRequest::SubmitShares(submit), 0);
    match resp {
        StratumResponse::SubmitSharesError(e) => assert_eq!(
            e.error_message,
            "Failed to process shares: Stratum V2 protocol error: Channel not found: 4"
        ),
        other => panic!("unexpected response {:?}", other),
    }
}

#[test]
fn unknown_request_tag_is_named() {
    assert_eq!(RequestKind::of_tag(message_types::SUBMIT_SHARES).unwrap(), RequestKind::SubmitShares);
    match RequestKind::of_tag(0x99).unwrap_err() {
        StratumV2Error::ProtocolError(m) => assert_eq!(m, "Unknown message type: 153"),
        other => panic!("unexpected error {:?}", other),
    }
}
