use evm_rust::address::Address;
use evm_rust::bytes::Bytes;

#[test]
fn test_address_hex_roundtrip() {
    let addr = Address::new([
        0x01, 0x23, 0x45, 0x67, 0x89, 0xab, 0xcd, 0xef, 0x01, 0x23, 0x45, 0x67, 0x89, 0xab,
        0xcd, 0xef, 0x01, 0x23, 0x45, 0x67,
    ]);
    let hex = addr.to_hex();
    assert_eq!(hex, "0x0123456789abcdef0123456789abcdef01234567");
    assert_eq!(Address::from_hex(&hex).unwrap(), addr);
}

#[test]
fn test_address_from_hex_errors() {
    assert!(Address::from_hex("0x123").is_err());
    assert!(Address::from_hex("0xzz00000000000000000000000000000000000000").is_err());
    assert!(Address::from_hex("0000000000000000000000000000000000000000").is_ok());
}

#[test]
fn test_hash_hex_roundtrip() {
    let hash = evm_rust::hash::Hash::new([0xab; 32]);
    let hex = hash.to_hex();
    assert_eq!(evm_rust::hash::Hash::from_hex(&hex).unwrap(), hash);
    assert!(evm_rust::hash::Hash::from_hex("0xab").is_err());
}

#[test]
fn test_bytes_hex_roundtrip() {
    let bytes = Bytes::from(vec![0x12, 0x34, 0xff]);
    assert_eq!(bytes.to_hex(), "0x1234ff");
    assert_eq!(Bytes::from_hex("0x1234ff").unwrap(), bytes);
    assert_eq!(Bytes::from_hex("1234FF").unwrap(), bytes);
    assert!(Bytes::from_hex("0x123").is_err());
    assert!(Bytes::from_hex("xy").is_err());
}

#[test]
fn test_bytes_pad_and_truncate() {
    let bytes = Bytes::from(vec![1, 2, 3]);
    let padded = bytes.pad_to(5);
    assert_eq!(padded.as_slice(), &[1, 2, 3, 0, 0]);
    let same = bytes.pad_to(2);
    assert_eq!(same.as_slice(), &[1, 2, 3]);
    let cut = bytes.truncate_to(2);
    assert_eq!(cut.as_slice(), &[1, 2]);
}

#[test]
fn test_keccak_reference_digest() {
    // The Keccak-256 digest of the empty string, a published reference value.
    let digest = evm_rust::crypto::keccak256(&[]);
    let expected =
        evm_rust::hash::Hash::from_hex("0xc5d2460186f7233c927e7db2dcc703c0e500b653ca82273b7bfad8045d85a470")
            .unwrap();
    assert_eq!(evm_rust::hash::Hash::from_vec(&digest), expected);
}
