//! Tests for the TLV framing of Stratum V2 messages.

use blvm_stratum_v2::protocol::{TlvDecoder, TlvEncoder};
use blvm_stratum_v2::StratumV2Error;

#[test]
fn test_tlv_encode_decode() {
    let tag = 0x0001u16;
    let payload = b"test payload";

    let mut encoder = TlvEncoder::new();
    let encoded = encoder.encode(tag, payload).unwrap();

    let mut decoder = TlvDecoder::new(encoded);
    let (decoded_tag, decoded_payload) = decoder.decode().unwrap();

    assert_eq!(tag, decoded_tag);
    assert_eq!(payload, decoded_payload.as_slice());
}

#[test]
fn test_tlv_decode_raw() {
    let tag = 0x0002u16;
    let payload = b"raw payload";

    let mut raw = Vec::new();
    raw.extend_from_slice(&tag.to_le_bytes());
    raw.extend_from_slice(&(payload.len() as u32).to_le_bytes());
    raw.extend_from_slice(payload);

    let (decoded_tag, decoded_payload) = TlvDecoder::decode_raw(&raw).unwrap();

    assert_eq!(tag, decoded_tag);
    assert_eq!(payload, decoded_payload.as_slice());
}

#[test]
fn test_tlv_encode_decode_large_payload() {
    let tag = 0x0003u16;
    let payload: Vec<u8> = (0..1000).map(|i| (i % 256) as u8).collect();

    let mut encoder = TlvEncoder::new();
    let encoded = encoder.encode(tag, &payload).unwrap();

    let mut decoder = TlvDecoder::new(encoded);
    let (decoded_tag, decoded_payload) = decoder.decode().unwrap();

    assert_eq!(tag, decoded_tag);
    assert_eq!(payload, decoded_payload);
}

#[test]
fn test_tlv_decode_raw_insufficient_data() {
    let insufficient_data = vec![0u8; 5];

    let result = TlvDecoder::decode_raw(&insufficient_data);
    assert!(result.is_err());
}

#[test]
fn encode_writes_frame_length_then_tlv() {
    let mut encoder = TlvEncoder::new();
    let encoded = encoder.encode(0x0102, &[0xaa, 0xbb]).unwrap();
    assert_eq!(
        encoded,
        vec![8, 0, 0, 0, 0x02, 0x01, 2, 0, 0, 0, 0xaa, 0xbb]
    );
}

#[test]
fn encode_empty_payload() {
    let mut encoder = TlvEncoder::new();
    let encoded = encoder.encode(7, &[]).unwrap();
    assert_eq!(encoded, vec![6, 0, 0, 0, 7, 0, 0, 0, 0, 0]);
    let (tag, payload) = TlvDecoder::new(encoded).decode().unwrap();
    assert_eq!(tag, 7);
    assert!(payload.is_empty());
}

#[test]
fn decode_raw_truncated_payload_is_error() {
    let raw = vec![1, 0, 5, 0, 0, 0, 1, 2, 3];
    assert!(TlvDecoder::decode_raw(&raw).is_err());
}

#[test]
fn decode_raw_ignores_trailing_bytes() {
    let raw = vec![9, 0, 2, 0, 0, 0, 4, 5, 6, 7];
    let (tag, payload) = TlvDecoder::decode_raw(&raw).unwrap();
    assert_eq!(tag, 9);
    assert_eq!(payload, vec![4, 5]);
}

#[test]
fn decode_reads_consecutive_frames() {
    let mut encoder = TlvEncoder::new();
    let mut data = encoder.encode(1, &[10]).unwrap();
    data.extend(encoder.encode(2, &[20, 21]).unwrap());
    let mut decoder = TlvDecoder::new(data);
    assert_eq!(decoder.decode().unwrap(), (1, vec![10]));
    assert_eq!(decoder.decode().unwrap(), (2, vec![20, 21]));
    assert!(decoder.decode().is_err());
}

#[test]
fn decode_short_frame_prefix_is_error() {
    let mut decoder = TlvDecoder::new(vec![3, 0, 0]);
    assert!(decoder.decode().is_err());
}

#[test]
fn decode_frame_longer_than_data_is_error() {
    let mut decoder = TlvDecoder::new(vec![20, 0, 0, 0, 1, 0, 0, 0, 0, 0]);
    assert!(decoder.decode().is_err());
}

#[test]
fn decode_error_details() {
    let detail = |e: StratumV2Error| match e {
        StratumV2Error::ProtocolError(m) => m,
        other => panic!("unexpected error {:?}", other),
    };
    assert_eq!(detail(TlvDecoder::decode_raw(&[0u8; 5]).unwrap_err()), "Insufficient data for TLV header");
    assert_eq!(detail(TlvDecoder::decode_raw(&[1, 0, 5, 0, 0, 0, 1]).unwrap_err()), "Insufficient data for TLV payload");
    assert_eq!(detail(TlvDecoder::new(vec![1, 0]).decode().unwrap_err()), "Insufficient data for frame length");
    assert_eq!(detail(TlvDecoder::new(vec![9, 0, 0, 0, 1]).decode().unwrap_err()), "Insufficient data for frame");
    assert_eq!(detail(TlvDecoder::new(vec![2, 0, 0, 0, 1, 0]).decode().unwrap_err()), "Insufficient data for TLV header");
}
