use evm_rust::validation::Validator;

#[test]
fn test_validator_creation() {
    let validator = Validator::new();
    assert_eq!(validator.max_code_size, 24576);
    assert_eq!(validator.max_stack_depth, 1024);
}

#[test]
fn test_bytecode_validation() {
    let validator = Validator::new();

    let valid_code = vec![0x60, 0x02, 0x60, 0x03, 0x01, 0x00];
    assert!(validator.validate_bytecode(&valid_code).is_ok());

    let invalid_code = vec![0xfe, 0x00];
    assert!(validator.validate_bytecode(&invalid_code).is_err());
}

#[test]
fn test_address_validation() {
    let validator = Validator::new();

    let valid_addr = "0x0000000000000000000000000000000000000000";
    assert!(validator.validate_address(valid_addr).is_ok());

    let invalid_addr = "0x123";
    assert!(validator.validate_address(invalid_addr).is_err());
}

#[test]
fn test_gas_limit_validation() {
    let validator = Validator::new();

    assert!(validator.validate_gas_limit(1000000).is_ok());

    assert!(validator.validate_gas_limit(50_000_000).is_err());

    assert!(validator.validate_gas_limit(10000).is_err());
}

#[test]
fn test_truncated_push_rejected() {
    let validator = Validator::new();
    // PUSH2 with only one immediate byte left.
    assert!(validator.validate_bytecode(&[0x61, 0x01]).is_err());
    // PUSH2 with both immediate bytes present.
    assert!(validator.validate_bytecode(&[0x61, 0x01, 0x02]).is_ok());
}

#[test]
fn test_security_gate_flags_heavy_code() {
    let validator = Validator::new();
    // Ten SSTOREs in ten bytes: far over a tenth of the bytes.
    let heavy = vec![0x55; 10];
    assert!(validator.validate_bytecode(&heavy).is_err());
}

#[test]
fn test_jumpdest_set_collection() {
    // JUMPDEST at 0; the 0x5b at position 2 hides inside a push immediate.
    let code = vec![0x5b, 0x60, 0x5b, 0x5b];
    let dests = evm_rust::validation::compute_jumpdests(&code);
    assert!(dests.contains(&0));
    assert!(!dests.contains(&2));
    assert!(dests.contains(&3));
}

#[test]
fn test_input_data_validation() {
    let validator = Validator::new();
    assert!(validator.validate_input_data("0x1234").is_ok());
    assert!(validator.validate_input_data("").is_ok());
    assert!(validator.validate_input_data("0x123").is_err());
    assert!(validator.validate_input_data("zz").is_err());
}

#[test]
fn test_validate_value() {
    let validator = Validator::new();
    let v = validator.validate_value("1000").unwrap();
    assert_eq!(v, evm_rust::uint256::Uint256::from_u32(1000));
    let h = validator.validate_value("0x2a").unwrap();
    assert_eq!(h, evm_rust::uint256::Uint256::from_u32(42));
    assert!(validator.validate_value("").is_err());
    assert!(validator.validate_value("12x4").is_err());
    assert!(validator.validate_value("0x").is_err());
    // One wei over the total supply of ether is rejected.
    assert!(validator.validate_value("21000000000000000000000001").is_err());
    assert!(validator.validate_value("21000000000000000000000000").is_ok());
}

#[test]
fn test_gas_limit_error_payload() {
    let validator = Validator::new();
    match validator.validate_gas_limit(7) {
        Err(evm_rust::validation::ValidationError::InvalidGasLimit { limit }) => {
            assert_eq!(limit, 7);
        }
        other => panic!("expected a gas-limit error, got {:?}", other),
    }
}

#[test]
fn test_code_size_cap() {
    let validator = Validator::new();
    let oversized = vec![0x00u8; 24577];
    assert!(validator.validate_bytecode(&oversized).is_err());
    let at_cap = vec![0x00u8; 24576];
    assert!(validator.validate_bytecode(&at_cap).is_ok());
}

#[test]
fn test_validate_execution_context() {
    let validator = Validator::new();
    let good = evm_rust::executor::ExecutionContext::new(
        evm_rust::address::Address::zero(),
        evm_rust::address::Address::zero(),
        evm_rust::uint256::Uint256::zero(),
        evm_rust::bytes::Bytes::empty(),
        evm_rust::bytes::Bytes::new(vec![0x60, 0x01, 0x00]),
        1_000_000,
    );
    assert!(validator.validate_execution_context(&good).is_ok());
    let low_gas = evm_rust::executor::ExecutionContext::new(
        evm_rust::address::Address::zero(),
        evm_rust::address::Address::zero(),
        evm_rust::uint256::Uint256::zero(),
        evm_rust::bytes::Bytes::empty(),
        evm_rust::bytes::Bytes::empty(),
        10,
    );
    assert!(validator.validate_execution_context(&low_gas).is_err());
}

#[test]
fn test_security_gate_walks_instructions() {
    let validator = Validator::new();
    // A tenth exactly fires: one SSTORE among ten instructions.
    let mut at_boundary = vec![0x55];
    at_boundary.extend(std::iter::repeat(0x00).take(9));
    assert!(validator.validate_bytecode(&at_boundary).is_err());
    // One more instruction puts the share under a tenth.
    let mut under = vec![0x55];
    under.extend(std::iter::repeat(0x00).take(10));
    assert!(validator.validate_bytecode(&under).is_ok());
    // A dear byte inside a push immediate is data, not an instruction.
    let data_only = vec![0x60, 0x55, 0x00];
    assert!(validator.validate_bytecode(&data_only).is_ok());
}
