//! Tests for the Merkle branch, the coinbase split and the wire encodings.

use blvm_consensus::opcodes;
use blvm_stratum_v2::hash::Hash256;
use blvm_stratum_v2::server::StratumV2Server;
use blvm_stratum_v2::types::{Block, BlockHeader, OutPoint, Transaction, TransactionInput, TransactionOutput};
use sha2::{Digest, Sha256};

fn test_server() -> StratumV2Server {
    StratumV2Server::new("test".to_string())
}

fn sha256d(data: &[u8]) -> Hash256 {
    let first = Sha256::digest(data);
    let second = Sha256::digest(first);
    let mut out = [0u8; 32];
    out.copy_from_slice(&second);
    out
}

fn p2pkh_script() -> Vec<u8> {
    let mut s = vec![opcodes::OP_DUP, opcodes::OP_HASH160, opcodes::PUSH_20_BYTES];
    s.extend_from_slice(&[0u8; 20]);
    s.push(opcodes::OP_EQUALVERIFY);
    s.push(opcodes::OP_CHECKSIG);
    s
}

fn create_test_block_with_transactions(tx_count: usize) -> Block {
    let mut transactions = Vec::new();
    transactions.push(Transaction {
        version: 1,
        inputs: vec![TransactionInput {
            prevout: OutPoint { hash: [0u8; 32], index: 0xFFFFFFFF },
            script_sig: vec![opcodes::PUSH_1_BYTE, 0x01],
            sequence: 0xFFFFFFFF,
        }],
        outputs: vec![TransactionOutput { value: 5000000000, script_pubkey: p2pkh_script() }],
        lock_time: 0,
    });
    for k in 0..tx_count {
        transactions.push(Transaction {
            version: 1,
            inputs: vec![TransactionInput {
                prevout: OutPoint { hash: [0x01u8; 32], index: k as u32 },
                script_sig: vec![0x01, 0x02],
                sequence: 0xFFFFFFFF,
            }],
            outputs: vec![TransactionOutput { value: 1000000, script_pubkey: p2pkh_script() }],
            lock_time: 0,
        });
    }
    Block {
        header: BlockHeader {
            version: 1,
            prev_block_hash: [0u8; 32],
            merkle_root: [0u8; 32],
            timestamp: 1231006505,
            bits: 0x1d00ffff,
            nonce: 0,
        },
        transactions,
    }
}

fn merkle_root_of(mut level: Vec<Hash256>) -> Hash256 {
    while level.len() > 1 {
        let mut next = Vec::new();
        let mut i = 0;
        while i < level.len() {
            let left = level[i];
            let right = if i + 1 < level.len() { level[i + 1] } else { level[i] };
            let mut pair = left.to_vec();
            pair.extend_from_slice(&right);
            next.push(sha256d(&pair));
            i += 2;
        }
        level = next;
    }
    level[0]
}

#[test]
fn test_extract_template_parts_empty_block() {
    let server = test_server();
    let block = Block {
        header: BlockHeader {
            version: 1,
            prev_block_hash: [0u8; 32],
            merkle_root: [0u8; 32],
            timestamp: 1231006505,
            bits: 0x1d00ffff,
            nonce: 0,
        },
        transactions: vec![],
    };
    let (prefix, suffix, path) = server.extract_template_parts(&block);
    assert!(prefix.is_empty());
    assert!(suffix.is_empty());
    assert!(path.is_empty());
}

#[test]
fn test_extract_template_parts_single_transaction() {
    let server = test_server();
    let block = create_test_block_with_transactions(0);
    let (prefix, suffix, path) = server.extract_template_parts(&block);
    assert!(!prefix.is_empty());
    assert!(!suffix.is_empty());
    assert!(path.is_empty());
}

#[test]
fn test_extract_template_parts_multiple_transactions() {
    let server = test_server();
    let block = create_test_block_with_transactions(3);
    let (prefix, suffix, path) = server.extract_template_parts(&block);
    assert!(!prefix.is_empty());
    assert!(!suffix.is_empty());
    assert!(!path.is_empty());
    let mut reconstructed = prefix.clone();
    reconstructed.extend_from_slice(&suffix);
    assert!(!reconstructed.is_empty());
}

#[test]
fn test_serialize_transaction() {
    let server = test_server();
    let tx = Transaction {
        version: 1,
        inputs: vec![TransactionInput {
            prevout: OutPoint { hash: [0u8; 32], index: 0 },
            script_sig: vec![0x01, 0x02],
            sequence: 0xFFFFFFFF,
        }],
        outputs: vec![TransactionOutput {
            value: 1000000,
            script_pubkey: vec![opcodes::OP_DUP, opcodes::OP_HASH160],
        }],
        lock_time: 0,
    };
    let serialized = server.serialize_transaction(&tx);
    assert!(!serialized.is_empty());
    assert!(serialized.len() >= 4);
}

#[test]
fn test_varint_encoding() {
    let server = test_server();
    let encoded = server.encode_varint(100);
    assert_eq!(encoded.len(), 1);
    assert_eq!(encoded[0], 100);
    let encoded = server.encode_varint(1000);
    assert_eq!(encoded.len(), 3);
    assert_eq!(encoded[0], 0xfd);
    let encoded = server.encode_varint(100000);
    assert_eq!(encoded.len(), 5);
    assert_eq!(encoded[0], 0xfe);
}

#[test]
fn test_varint_decoding() {
    let server = test_server();
    let data = vec![100u8];
    let (value, bytes_read) = server.read_varint(&data);
    assert_eq!(value, 100);
    assert_eq!(bytes_read, 1);
    let data = vec![0xfd, 0xe8, 0x03];
    let (value, bytes_read) = server.read_varint(&data);
    assert_eq!(value, 1000);
    assert_eq!(bytes_read, 3);
}

#[test]
fn serialize_transaction_exact_bytes() {
    let server = test_server();
    let tx = Transaction {
        version: 1,
        inputs: vec![TransactionInput {
            prevout: OutPoint { hash: [0u8; 32], index: 0 },
            script_sig: vec![0x01, 0x02],
            sequence: 0xFFFFFFFF,
        }],
        outputs: vec![TransactionOutput {
            value: 1000000,
            script_pubkey: vec![opcodes::OP_DUP, opcodes::OP_HASH160],
        }],
        lock_time: 0,
    };
    let mut want = vec![1, 0, 0, 0, 1];
    want.extend_from_slice(&[0u8; 32]);
    want.extend_from_slice(&[0, 0, 0, 0, 2, 1, 2, 0xff, 0xff, 0xff, 0xff, 1]);
    want.extend_from_slice(&[0x40, 0x42, 0x0f, 0, 0, 0, 0, 0, 2, 0x76, 0xa9, 0, 0, 0, 0]);
    assert_eq!(server.serialize_transaction(&tx), want);
}

#[test]
fn varint_edges_round_trip() {
    let server = test_server();
    for value in [0u64, 0xfc, 0xfd, 0xffff, 0x1_0000, 0xffff_ffff, 0x1_0000_0000, u64::MAX] {
        let bytes = server.encode_varint(value);
        assert_eq!(server.read_varint(&bytes), (value, bytes.len()));
    }
    assert_eq!(server.encode_varint(0xfc), vec![0xfc]);
    assert_eq!(server.encode_varint(0xfd), vec![0xfd, 0xfd, 0x00]);
    assert_eq!(server.encode_varint(0x1_0000_0000), vec![0xff, 0, 0, 0, 0, 1, 0, 0, 0]);
}

#[test]
fn read_varint_short_input() {
    let server = test_server();
    assert_eq!(server.read_varint(&[]), (0, 0));
    assert_eq!(server.read_varint(&[0xfd, 0x01]), (0, 0));
    assert_eq!(server.read_varint(&[0xfe, 1, 2, 3]), (0, 0));
    assert_eq!(server.read_varint(&[0xff, 1, 2, 3, 4, 5, 6, 7]), (0, 0));
}

#[test]
fn coinbase_split_follows_the_script_length() {
    let server = test_server();
    let block = create_test_block_with_transactions(0);
    let coinbase = server.serialize_transaction(&block.transactions[0]);
    let (prefix, suffix, _) = server.extract_template_parts(&block);
    // version (4) + input count (1) + outpoint (36) + script length (1)
    assert_eq!(prefix.len(), 42);
    let mut joined = prefix.clone();
    joined.extend_from_slice(&suffix);
    assert_eq!(joined, coinbase);
}

#[test]
fn merkle_branch_folds_to_the_root() {
    let server = test_server();
    for extra in 1..6 {
        let block = create_test_block_with_transactions(extra);
        let txids: Vec<Hash256> = block
            .transactions
            .iter()
            .map(|tx| sha256d(&server.serialize_transaction(tx)))
            .collect();
        let (_, _, path) = server.extract_template_parts(&block);
        let mut acc = txids[0];
        for sibling in &path {
            let mut pair = acc.to_vec();
            pair.extend_from_slice(sibling);
            acc = sha256d(&pair);
        }
        assert_eq!(acc, merkle_root_of(txids.clone()));
    }
}

#[test]
fn merkle_branch_of_two_transactions_is_the_second_txid() {
    let server = test_server();
    let block = create_test_block_with_transactions(1);
    let second = sha256d(&server.serialize_transaction(&block.transactions[1]));
    let (_, _, path) = server.extract_template_parts(&block);
    assert_eq!(path, vec![second]);
}
