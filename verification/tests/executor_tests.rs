use evm_rust::address::Address;
use evm_rust::bytes::Bytes;
use evm_rust::executor::{ExecutionContext, ExecutionError, Executor};
use evm_rust::opcodes::OpcodeError;
use evm_rust::gas::GasError;
use evm_rust::uint256::Uint256;

fn run_code(code: Vec<u8>, gas_limit: u64) -> (Executor, Result<evm_rust::executor::ExecutionResult, ExecutionError>) {
    let context = ExecutionContext::new(
        Address::zero(),
        Address::zero(),
        Uint256::zero(),
        Bytes::empty(),
        Bytes::new(code),
        gas_limit,
    );
    let mut executor = Executor::new(context);
    let result = executor.execute();
    (executor, result)
}

#[test]
fn test_simple_arithmetic() {
    let code = Bytes::from(vec![0x60, 0x02, 0x60, 0x03, 0x01, 0x00]);
    let context = ExecutionContext::new(
        Address::zero(),
        Address::zero(),
        Uint256::zero(),
        Bytes::empty(),
        code,
        1000,
    );
    let mut executor = Executor::new(context);
    let result = executor.execute().unwrap();

    assert!(result.success);
    assert_eq!(result.return_data.len(), 0);
}

#[test]
fn test_stack_operations() {
    let code = Bytes::from(vec![0x60, 0x01, 0x60, 0x02, 0x80, 0x01, 0x00]);
    let context = ExecutionContext::new(
        Address::zero(),
        Address::zero(),
        Uint256::zero(),
        Bytes::empty(),
        code,
        1000,
    );
    let mut executor = Executor::new(context);
    let result = executor.execute().unwrap();

    assert!(result.success);
}

#[test]
fn test_memory_operations() {
    let code = Bytes::from(vec![0x60, 0x00, 0x60, 0x42, 0x53, 0x60, 0x00, 0x51, 0x00]);
    let context = ExecutionContext::new(
        Address::zero(),
        Address::zero(),
        Uint256::zero(),
        Bytes::empty(),
        code,
        1000,
    );
    let mut executor = Executor::new(context);
    let result = executor.execute().unwrap();

    assert!(result.success);
}

#[test]
fn test_add_program_gas_and_result() {
    // PUSH1 2, PUSH1 3, ADD, STOP: the stack holds 5, the gas used is 9.
    let (executor, result) = run_code(vec![0x60, 0x02, 0x60, 0x03, 0x01, 0x00], 1000);
    let result = result.unwrap();
    assert!(result.success);
    assert_eq!(result.gas_used, 9);
    assert_eq!(result.return_data.len(), 0);
    assert_eq!(*executor.context().stack.peek().unwrap(), Uint256::from_u32(5));
}

#[test]
fn test_div_by_zero_yields_zero() {
    // PUSH1 0, PUSH1 5, DIV, STOP: five divided by zero is zero; gas 11.
    let (executor, result) = run_code(vec![0x60, 0x00, 0x60, 0x05, 0x04, 0x00], 1000);
    let result = result.unwrap();
    assert!(result.success);
    assert_eq!(result.gas_used, 11);
    assert_eq!(*executor.context().stack.peek().unwrap(), Uint256::zero());
}

#[test]
fn test_sstore_then_sload() {
    // PUSH1 42, PUSH1 1, SSTORE, PUSH1 1, SLOAD, STOP.
    let (executor, result) = run_code(
        vec![0x60, 0x2a, 0x60, 0x01, 0x55, 0x60, 0x01, 0x54, 0x00],
        30000,
    );
    let result = result.unwrap();
    assert!(result.success);
    let addr = Address::zero();
    let key = Uint256::from_u32(1);
    assert_eq!(
        executor.context().storage.get_storage(&addr, &key),
        Uint256::from_u32(42)
    );
    assert_eq!(*executor.context().stack.peek().unwrap(), Uint256::from_u32(42));
    // gas: push 3 + push 3 + sstore 20000 + push 3 + sload 100 + stop 0
    assert_eq!(result.gas_used, 3 + 3 + 20000 + 3 + 100);
}

#[test]
fn test_bad_jump_traps() {
    // PUSH1 5, JUMP, STOP: offset 5 is past the code, no JUMPDEST there.
    let (_executor, result) = run_code(vec![0x60, 0x05, 0x56, 0x00], 1000);
    let err = result.unwrap_err();
    assert!(matches!(
        err,
        ExecutionError::Opcode(OpcodeError::InvalidJumpDestination)
    ));
}

#[test]
fn test_valid_jump_skips_first_stop() {
    // PUSH1 4, JUMP, STOP, JUMPDEST, STOP: lands on the JUMPDEST.
    let (_executor, result) = run_code(vec![0x60, 0x04, 0x56, 0x00, 0x5b, 0x00], 1000);
    let result = result.unwrap();
    assert!(result.success);
    assert_eq!(result.gas_used, 3 + 8 + 1);
}

#[test]
fn test_log0_captures_memory_window() {
    // PUSH1 0x20, PUSH1 0, MSTORE, PUSH1 0x20, PUSH1 0, LOG0, STOP.
    let (_executor, result) = run_code(
        vec![0x60, 0x20, 0x60, 0x00, 0x52, 0x60, 0x20, 0x60, 0x00, 0xa0, 0x00],
        1000,
    );
    let result = result.unwrap();
    assert!(result.success);
    assert_eq!(result.logs.len(), 1);
    assert_eq!(result.logs[0].topics.len(), 0);
    assert_eq!(result.logs[0].data.len(), 32);
    assert_eq!(result.logs[0].data.as_slice()[31], 0x20);
    // gas: 4 pushes, MSTORE with one word of expansion, LOG0 with 32 data bytes
    assert_eq!(result.gas_used, 3 + 3 + 3 + 3 + 3 + 3 + 375 + 8 * 32);
}

#[test]
fn test_out_of_gas_consumes_everything() {
    // The ADD program needs 9 gas; one less must trap with the whole limit used.
    let (executor, result) = run_code(vec![0x60, 0x02, 0x60, 0x03, 0x01, 0x00], 8);
    let err = result.unwrap_err();
    match err {
        ExecutionError::Gas(GasError::OutOfGas { required, available }) => {
            // The third push wants 3 gas with 2 left.
            assert_eq!(required, 3);
            assert_eq!(available, 2);
        }
        other => panic!("expected an out-of-gas trap, got {:?}", other),
    }
    assert_eq!(executor.context().gas_meter.used(), 8);
    assert_eq!(executor.context().gas_meter.available(), 0);
}

#[test]
fn test_jumpi_taken_and_not_taken() {
    // PUSH1 1, PUSH1 6, JUMPI, STOP, 0, 0, JUMPDEST, STOP: condition 1 jumps.
    let (_e, taken) = run_code(vec![0x60, 0x01, 0x60, 0x06, 0x57, 0x00, 0x5b, 0x00], 1000);
    assert!(taken.unwrap().success);
    // PUSH1 0, PUSH1 6, JUMPI, STOP...: condition 0 falls through to STOP.
    let (_e2, skipped) = run_code(vec![0x60, 0x00, 0x60, 0x06, 0x57, 0x00, 0x5b, 0x00], 1000);
    assert!(skipped.unwrap().success);
}

#[test]
fn test_depth_change_matches_arity() {
    // PUSH1 1, PUSH1 2, PUSH1 3, ADD: two popped, one pushed, depth ends at 2.
    let (executor, result) = run_code(vec![0x60, 0x01, 0x60, 0x02, 0x60, 0x03, 0x01, 0x00], 1000);
    assert!(result.unwrap().success);
    assert_eq!(executor.context().stack.size(), 2);
}

#[test]
fn test_invalid_opcode_traps() {
    let (_executor, result) = run_code(vec![0xfe], 1000);
    let err = result.unwrap_err();
    assert!(matches!(
        err,
        ExecutionError::Opcode(OpcodeError::InvalidOpcode { opcode: 0xfe })
    ));
}

#[test]
fn test_stack_underflow_traps() {
    let (_executor, result) = run_code(vec![0x01], 1000);
    let err = result.unwrap_err();
    assert!(matches!(
        err,
        ExecutionError::Stack(evm_rust::stack::StackError::Underflow)
    ));
}

#[test]
fn test_return_captures_memory() {
    // PUSH1 0x2a, PUSH1 0, MSTORE8, PUSH1 1, PUSH1 0, RETURN
    let (_executor, result) = run_code(
        vec![0x60, 0x2a, 0x60, 0x00, 0x53, 0x60, 0x01, 0x60, 0x00, 0xf3],
        1000,
    );
    let result = result.unwrap();
    assert!(result.success);
    assert_eq!(result.return_data.as_slice(), &[0x2a]);
}

#[test]
fn test_revert_fails_with_data() {
    // PUSH1 0, PUSH1 0, REVERT: empty return data, success is false.
    let (_executor, result) = run_code(vec![0x60, 0x00, 0x60, 0x00, 0xfd], 1000);
    let result = result.unwrap();
    assert!(!result.success);
    assert_eq!(result.return_data.len(), 0);
}

#[test]
fn test_truncated_push_traps() {
    // PUSH2 with a single immediate byte runs off the code.
    let (_executor, result) = run_code(vec![0x61, 0x01], 1000);
    let err = result.unwrap_err();
    assert!(matches!(err, ExecutionError::InvalidInstruction(_)));
}

#[test]
fn test_sha3_of_empty_range() {
    // PUSH1 0, PUSH1 0, KECCAK256, STOP: the digest of the empty string.
    let (executor, result) = run_code(vec![0x60, 0x00, 0x60, 0x00, 0x20, 0x00], 1000);
    assert!(result.unwrap().success);
    let expected = Uint256::from_bytes_be(
        evm_rust::crypto::keccak256(&[]).as_slice(),
    );
    assert_eq!(*executor.context().stack.peek().unwrap(), expected);
}

#[test]
fn test_gas_accounting_after_every_run() {
    for code in [
        vec![0x60, 0x02, 0x60, 0x03, 0x01, 0x00],
        vec![0x60, 0x00, 0x60, 0x05, 0x04, 0x00],
        vec![0x60, 0x04, 0x56, 0x00, 0x5b, 0x00],
    ] {
        let (_e, result) = run_code(code, 1000);
        let result = result.unwrap();
        assert_eq!(result.gas_used + result.gas_remaining, 1000);
    }
}
