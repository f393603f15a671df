//! Canonical rendering of identities.

use indexer_core::types::ObjectId;

#[test]
fn canonical_string_is_zero_padded_hex() {
    let id = ObjectId::from_u64(0x1234_abcd);
    let s = id.to_canonical_string();
    assert_eq!(s.len(), 66);
    let expected = format!("0x{}{:016x}", "0".repeat(48), 0x1234_abcdu64);
    assert_eq!(s, expected);
}

#[test]
fn canonical_string_renders_all_limbs() {
    let id = ObjectId::new(1, 0xffff_ffff_ffff_ffff, 0, 2);
    let s = id.to_canonical_string();
    assert_eq!(
        s,
        "0x0000000000000001ffffffffffffffff00000000000000000000000000000002"
    );
}

#[test]
fn zero_identity_renders_as_zeros() {
    let id = ObjectId::new(0, 0, 0, 0);
    let s = id.to_canonical_string();
    assert_eq!(s, format!("0x{}", "0".repeat(64)));
}
