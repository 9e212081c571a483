//! Checks of the bytecode converter: hexadecimal keys, spliced record JSON,
//! and the per-entry failure sentinel.

use std::io::Write;

use convert_to_json::bytecode::{convert_bytecodes, decompress_bytecodes};
use convert_to_json::ConvertError;

#[test]
fn decompression_round_trips() {
    let payload: Vec<u8> = (0u8..=255).cycle().take(3000).collect();
    let mut encoder =
        flate2::write::GzEncoder::new(Vec::new(), flate2::Compression::default());
    encoder.write_all(&payload).unwrap();
    let compressed = encoder.finish().unwrap();
    assert_ne!(compressed, payload);
    assert_eq!(decompress_bytecodes(&compressed).unwrap(), payload);
}

#[test]
fn garbage_stream_is_a_decode_error() {
    let data = vec![0x00, 0x01, 0x02, 0x03];
    assert!(matches!(decompress_bytecodes(&data), Err(ConvertError::Decode)));
}

#[test]
fn one_failing_record_is_isolated() {
    let entries: Vec<(Vec<u8>, Option<Vec<u8>>)> = vec![
        (vec![0x01; 32], Some(b"{\"code\": \"0x6001\"}".to_vec())),
        (vec![0x02; 32], None),
        (vec![0x03; 32], Some(b"7".to_vec())),
    ];
    let out = convert_bytecodes(&entries);
    let expected = format!(
        "{{\n  \"0x{}\": {{\"code\": \"0x6001\"}},\n  \"0x{}\": \"Failed to serialize code\",\n  \"0x{}\": 7\n}}",
        "01".repeat(32),
        "02".repeat(32),
        "03".repeat(32)
    );
    assert_eq!(out, expected.into_bytes());
}

#[test]
fn all_records_failing_still_renders_every_key() {
    let entries: Vec<(Vec<u8>, Option<Vec<u8>>)> =
        vec![(vec![0xaa; 32], None), (vec![0xbb; 32], None)];
    let out = convert_bytecodes(&entries);
    let expected = format!(
        "{{\n  \"0x{}\": \"Failed to serialize code\",\n  \"0x{}\": \"Failed to serialize code\"\n}}",
        "aa".repeat(32),
        "bb".repeat(32)
    );
    assert_eq!(out, expected.into_bytes());
}

#[test]
fn empty_bytecode_map_renders_empty_object() {
    let entries: Vec<(Vec<u8>, Option<Vec<u8>>)> = Vec::new();
    assert_eq!(convert_bytecodes(&entries), b"{}".to_vec());
}

#[test]
fn hash_keys_render_as_lowercase_hex() {
    let mut hash = vec![0u8; 32];
    for (i, b) in hash.iter_mut().enumerate() {
        *b = (8 * i) as u8;
    }
    let entries: Vec<(Vec<u8>, Option<Vec<u8>>)> = vec![(hash.clone(), Some(b"null".to_vec()))];
    let out = convert_bytecodes(&entries);
    let mut digits = String::new();
    for b in &hash {
        digits.push_str(&format!("{:02x}", b));
    }
    let expected = format!("{{\n  \"0x{}\": null\n}}", digits);
    assert_eq!(out, expected.into_bytes());
}

#[test]
fn output_is_valid_json_with_ordered_keys() {
    let entries: Vec<(Vec<u8>, Option<Vec<u8>>)> = vec![
        (vec![0xff; 32], Some(b"{\"a\": [1, 2]}".to_vec())),
        (vec![0x00; 32], None),
    ];
    let out = convert_bytecodes(&entries);
    let value: serde_json::Value = serde_json::from_slice(&out).unwrap();
    let object = value.as_object().unwrap();
    let keys: Vec<&String> = object.keys().collect();
    assert_eq!(
        keys,
        vec![
            &format!("0x{}", "ff".repeat(32)),
            &format!("0x{}", "00".repeat(32)),
        ]
    );
    assert_eq!(
        object[&format!("0x{}", "00".repeat(32))],
        serde_json::Value::String("Failed to serialize code".to_string())
    );
}
