use evm_rust::memory::Memory;
use evm_rust::uint256::Uint256;

#[test]
fn test_memory_read_write_byte() {
    let mut memory = Memory::new();

    assert_eq!(memory.read_byte(0).unwrap(), 0);
    assert!(memory.write_byte(0, 42).is_ok());
    assert_eq!(memory.read_byte(0).unwrap(), 42);
}

#[test]
fn test_memory_read_write_word() {
    let mut memory = Memory::new();
    let value = Uint256::from_u32(0x12345678);

    assert!(memory.write_word(0, value).is_ok());
    assert_eq!(memory.read_word(0).unwrap(), value);
}

#[test]
fn test_memory_uninitialized_read() {
    let memory = Memory::new();

    assert_eq!(memory.read_byte(100).unwrap(), 0);
    assert_eq!(memory.read_word(100).unwrap(), Uint256::zero());
}

#[test]
fn test_memory_copy() {
    let mut memory = Memory::new();

    let data = b"Hello, World!";
    memory.write_bytes(0, data).unwrap();

    memory.copy(20, 0, data.len()).unwrap();

    let copied = memory.read_bytes(20, data.len()).unwrap();
    assert_eq!(copied, data);
}

#[test]
fn mod_test_memory_expansion_cost() {
    let memory = Memory::new();

    let cost = memory.expansion_cost(32);
    assert_eq!(cost, 3);

    let cost = memory.expansion_cost(64);
    assert_eq!(cost, 6);
}

#[test]
fn test_memory_read_len_matches_request() {
    let memory = Memory::new();
    let out = memory.read_bytes(1000, 77).unwrap();
    assert_eq!(out.len(), 77);
    assert!(out.iter().all(|&b| b == 0));
}
