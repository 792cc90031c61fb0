use evm_rust::block::{BlockContext, TransactionContext};
use evm_rust::address::Address;
use evm_rust::uint256::Uint256;

#[test]
fn test_block_context_creation() {
    let block = BlockContext::new();
    assert_eq!(block.number, Uint256::from_u32(1));
    assert_eq!(block.chain_id, Uint256::from_u32(1));
}

#[test]
fn test_transaction_context_creation() {
    let tx = TransactionContext::new();
    assert_eq!(tx.gas_price, Uint256::from_u64(20_000_000_000));
    assert_eq!(tx.origin, Address::zero());
}

#[test]
fn test_block_hash_generation() {
    let block = BlockContext::new();
    let hash = block.get_block_hash(&Uint256::from_u32(1));
    assert_eq!(hash, block.block_hash);
}
