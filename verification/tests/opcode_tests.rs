use evm_rust::opcodes::Opcode;

#[test]
fn test_opcode_from_byte() {
    assert_eq!(Opcode::from_byte(0x00).unwrap(), Opcode::Stop);
    assert_eq!(Opcode::from_byte(0x01).unwrap(), Opcode::Add);
    assert_eq!(Opcode::from_byte(0x60).unwrap(), Opcode::Push1);
    assert_eq!(Opcode::from_byte(0x7f).unwrap(), Opcode::Push32);
    assert!(Opcode::from_byte(0xff).is_ok());
    assert!(Opcode::from_byte(0xfe).is_err());
}

#[test]
fn test_opcode_roundtrip() {
    // Decoding keeps the exact width and depth, so encoding inverts it.
    assert_eq!(Opcode::from_byte(0x61).unwrap(), Opcode::Push2);
    assert_eq!(Opcode::from_byte(0x61).unwrap().to_byte(), 0x61);
    assert_eq!(Opcode::from_byte(0x61).unwrap().get_push_size(), 2);
    assert_eq!(Opcode::from_byte(0x8f).unwrap(), Opcode::Dup16);
    assert_eq!(Opcode::from_byte(0x8f).unwrap().dup_depth(), 15);
    assert_eq!(Opcode::from_byte(0x9f).unwrap(), Opcode::Swap16);
    assert_eq!(Opcode::from_byte(0x9f).unwrap().swap_depth(), 15);
    for b in 0u16..=255u16 {
        if let Ok(op) = Opcode::from_byte(b as u8) {
            assert_eq!(op.to_byte(), b as u8);
        }
    }
}

#[test]
fn test_opcode_properties() {
    assert_eq!(Opcode::Add.pop_count(), 2);
    assert_eq!(Opcode::Iszero.pop_count(), 1);
    assert_eq!(Opcode::Pop.pop_count(), 1);
    assert_eq!(Opcode::Push1.pop_count(), 0);
    assert_eq!(Opcode::Dup1.pop_count(), 0);
    assert_eq!(Opcode::Swap1.pop_count(), 0);
}

#[test]
fn test_push_opcodes() {
    assert!(Opcode::Push1.is_push());
    assert!(Opcode::Push32.is_push());
    assert!(!Opcode::Add.is_push());

    assert_eq!(Opcode::Push1.get_push_size(), 1);
    assert_eq!(Opcode::Push32.get_push_size(), 32);
}

#[test]
fn test_dup_swap_opcodes() {
    assert!(Opcode::Dup1.is_dup());
    assert!(Opcode::Dup16.is_dup());
    assert!(!Opcode::Add.is_dup());

    assert!(Opcode::Swap1.is_swap());
    assert!(Opcode::Swap16.is_swap());
    assert!(!Opcode::Add.is_swap());

    assert_eq!(Opcode::Dup1.dup_depth(), 0);
    assert_eq!(Opcode::Dup16.dup_depth(), 15);

    assert_eq!(Opcode::Swap1.swap_depth(), 0);
    assert_eq!(Opcode::Swap16.swap_depth(), 15);
}

#[test]
fn test_push_count_matches_family() {
    assert_eq!(Opcode::Add.push_count(), 1);
    assert_eq!(Opcode::Stop.push_count(), 0);
    assert_eq!(Opcode::Push32.push_count(), 1);
    assert_eq!(Opcode::Dup1.push_count(), 1);
    assert_eq!(Opcode::Swap1.push_count(), 0);
    assert_eq!(Opcode::Mstore.push_count(), 0);
    assert_eq!(Opcode::Mload.push_count(), 1);
}
