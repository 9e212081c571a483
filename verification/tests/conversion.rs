//! End-to-end checks of the block-hash converter against real bincode input.

use std::collections::BTreeMap;

use alloy_primitives::B256;
use convert_to_json::blockhash::convert_block_hashes;
use convert_to_json::ConvertError;

fn encode_map(entries: &[(u64, [u8; 32])]) -> Vec<u8> {
    let mut map: BTreeMap<u64, B256> = BTreeMap::new();
    for (k, v) in entries {
        map.insert(*k, B256::from(*v));
    }
    bincode::serialize(&map).unwrap()
}

#[test]
fn end_to_end_two_entries() {
    let data = encode_map(&[(1, [0xaa; 32]), (2, [0xbb; 32])]);
    let out = convert_block_hashes(&data).unwrap();
    let expected = format!(
        "{{\n  \"1\": \"0x{}\",\n  \"2\": \"0x{}\"\n}}",
        "aa".repeat(32),
        "bb".repeat(32)
    );
    assert_eq!(out, expected.into_bytes());
}

#[test]
fn deterministic_output() {
    let data = encode_map(&[(7, [0x01; 32]), (8, [0xfe; 32]), (1000, [0x00; 32])]);
    let first = convert_block_hashes(&data).unwrap();
    let second = convert_block_hashes(&data).unwrap();
    assert_eq!(first, second);
}

#[test]
fn key_order_preserved() {
    // Numeric source order: 1, 2, 10 — not the lexicographic order of the keys.
    let data = encode_map(&[(10, [0x10; 32]), (2, [0x02; 32]), (1, [0x01; 32])]);
    let out = convert_block_hashes(&data).unwrap();
    let value: serde_json::Value = serde_json::from_slice(&out).unwrap();
    let keys: Vec<&String> = value.as_object().unwrap().keys().collect();
    assert_eq!(keys, vec!["1", "2", "10"]);
}

#[test]
fn round_trip_recovers_entries() {
    let entries: Vec<(u64, [u8; 32])> = vec![
        (0, [0x00; 32]),
        (1, [0x7f; 32]),
        (42, {
            let mut v = [0u8; 32];
            for (i, b) in v.iter_mut().enumerate() {
                *b = i as u8;
            }
            v
        }),
        (u64::MAX, [0xff; 32]),
    ];
    let data = encode_map(&entries);
    let out = convert_block_hashes(&data).unwrap();

    let value: serde_json::Value = serde_json::from_slice(&out).unwrap();
    let object = value.as_object().unwrap();
    assert_eq!(object.len(), entries.len());
    for ((key, val), (num, hash)) in object.iter().zip(entries.iter()) {
        assert_eq!(key.parse::<u64>().unwrap(), *num);
        let text = val.as_str().unwrap();
        assert!(text.starts_with("0x"));
        let digits = &text[2..];
        assert_eq!(digits.len(), 64);
        let mut decoded = [0u8; 32];
        for (i, b) in decoded.iter_mut().enumerate() {
            *b = u8::from_str_radix(&digits[2 * i..2 * i + 2], 16).unwrap();
        }
        assert_eq!(&decoded, hash);
    }
}

#[test]
fn empty_map_renders_empty_object() {
    let data = encode_map(&[]);
    let out = convert_block_hashes(&data).unwrap();
    assert_eq!(out, b"{}".to_vec());
}

#[test]
fn garbage_input_is_a_decode_error() {
    let data = vec![0xff, 0x00, 0x13, 0x37];
    assert!(matches!(convert_block_hashes(&data), Err(ConvertError::Decode)));
}

#[test]
fn wrong_value_width_is_a_decode_error() {
    // The same wire shape as a hash map, but with 16-byte values: the schema
    // asks for exactly 32 bytes, so the payload must be refused.
    let mut map: BTreeMap<u64, Vec<u8>> = BTreeMap::new();
    map.insert(1, vec![0xaa; 16]);
    let data = bincode::serialize(&map).unwrap();
    assert!(matches!(convert_block_hashes(&data), Err(ConvertError::Decode)));
}

#[test]
fn truncated_input_is_a_decode_error() {
    let mut data = encode_map(&[(1, [0xaa; 32]), (2, [0xbb; 32])]);
    data.truncate(data.len() - 7);
    assert!(matches!(convert_block_hashes(&data), Err(ConvertError::Decode)));
}
