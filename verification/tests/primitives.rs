//! Checks of the text primitives and the driver's flag handling.

use convert_to_json::bytecode::failure_sentinel_bytes;
use convert_to_json::dec::decimal_bytes;
use convert_to_json::driver::conversion_plan;
use convert_to_json::hex::hex_literal_bytes;

#[test]
fn decimal_rendering() {
    assert_eq!(decimal_bytes(0), b"0".to_vec());
    assert_eq!(decimal_bytes(9), b"9".to_vec());
    assert_eq!(decimal_bytes(10), b"10".to_vec());
    assert_eq!(decimal_bytes(1000), b"1000".to_vec());
    assert_eq!(decimal_bytes(u64::MAX), b"18446744073709551615".to_vec());
}

#[test]
fn hex_literal_rendering() {
    assert_eq!(hex_literal_bytes(&Vec::new()), b"0x".to_vec());
    assert_eq!(hex_literal_bytes(&vec![0x00]), b"0x00".to_vec());
    assert_eq!(hex_literal_bytes(&vec![0x0f, 0xa0, 0xff]), b"0x0fa0ff".to_vec());
    assert_eq!(
        hex_literal_bytes(&vec![0x01, 0x23, 0x45, 0x67, 0x89, 0xab, 0xcd, 0xef]),
        b"0x0123456789abcdef".to_vec()
    );
}

#[test]
fn failure_sentinel_text() {
    assert_eq!(failure_sentinel_bytes(), b"Failed to serialize code".to_vec());
}

#[test]
fn flag_combinations_select_converters() {
    assert_eq!(conversion_plan(false, false), (true, true));
    assert_eq!(conversion_plan(true, false), (true, false));
    assert_eq!(conversion_plan(false, true), (false, true));
    // Both flags together select neither converter.
    assert_eq!(conversion_plan(true, true), (false, false));
}
