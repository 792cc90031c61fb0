use vstd::prelude::*;
use crate::address::Address;
use crate::uint256::Uint256;

verus! {

/// Block-level context carried into a frame; the interpreter treats every
/// field as an opaque input from the host.
#[derive(Debug, Clone, PartialEq, Eq)]
pub struct BlockContext {
    pub number: Uint256,
    pub timestamp: Uint256,
    pub difficulty: Uint256,
    pub gas_limit: Uint256,
    pub coinbase: Address,
    pub chain_id: Uint256,
    pub block_hash: Uint256,
    pub base_fee: Uint256,
}

impl BlockContext {
    /// A context with host-style default values.
    pub fn new() -> (r: BlockContext)
        ensures
            r.number.as_nat() == 1,
            r.timestamp.as_nat() == 1640995200,
            r.difficulty.as_nat() == 0x200000,
            r.gas_limit.as_nat() == 30000000,
            r.coinbase@.len() == 20 && forall|i: int| 0 <= i < 20 ==> r.coinbase@[i] == 0,
            r.chain_id.as_nat() == 1,
            r.block_hash.as_nat() == 0,
            r.base_fee.as_nat() == 20000000000,
    {
        BlockContext {
            number: Uint256::from_u32(1),
            timestamp: Uint256::from_u32(1640995200),
            difficulty: Uint256::from_u32(0x200000),
            gas_limit: Uint256::from_u32(30000000),
            coinbase: Address::zero(),
            chain_id: Uint256::from_u32(1),
            block_hash: Uint256::zero(),
            base_fee: Uint256::from_u64(20_000_000_000),
        }
    }

    /// A context with the given values.
    pub fn with_values(
        number: Uint256,
        timestamp: Uint256,
        difficulty: Uint256,
        gas_limit: Uint256,
        coinbase: Address,
        chain_id: Uint256,
        block_hash: Uint256,
        base_fee: Uint256,
    ) -> (r: BlockContext)
        ensures
            r == (BlockContext {
                number,
                timestamp,
                difficulty,
                gas_limit,
                coinbase,
                chain_id,
                block_hash,
                base_fee,
            }),
    {
        BlockContext {
            number,
            timestamp,
            difficulty,
            gas_limit,
            coinbase,
            chain_id,
            block_hash,
            base_fee,
        }
    }

    /// The hash reported for a block number. For the current block this is
    /// the configured hash; for any other number it is a stand-in value
    /// derived from the number itself, standing in for a host callback, and
    /// explicitly not cryptographic.
    pub fn get_block_hash(&self, block_number: &Uint256) -> (r: Uint256)
        ensures
            r.as_nat() == if block_number.as_nat() == self.number.as_nat() {
                self.block_hash.as_nat()
            } else {
                block_number.as_nat()
            },
    {
        proof {
            Uint256::lemma_as_nat_injective(*block_number, self.number);
        }
        if block_number == &self.number {
            self.block_hash
        } else {
            *block_number
        }
    }
}

impl Default for BlockContext {
    /// A context with host-style default values.
    fn default() -> (r: BlockContext)
        ensures
            r.number.as_nat() == 1,
            r.chain_id.as_nat() == 1,
    {
        BlockContext::new()
    }
}

/// Transaction-level context carried into a frame.
#[derive(Debug, Clone, PartialEq, Eq)]
pub struct TransactionContext {
    pub gas_price: Uint256,
    pub origin: Address,
    pub gas_limit: Uint256,
    pub tx_hash: Uint256,
    pub nonce: Uint256,
}

impl TransactionContext {
    /// A context with host-style default values.
    pub fn new() -> (r: TransactionContext)
        ensures
            r.gas_price.as_nat() == 20000000000,
            r.origin@.len() == 20 && forall|i: int| 0 <= i < 20 ==> r.origin@[i] == 0,
            r.gas_limit.as_nat() == 1000000,
            r.tx_hash.as_nat() == 0,
            r.nonce.as_nat() == 0,
    {
        TransactionContext {
            gas_price: Uint256::from_u64(20_000_000_000),
            origin: Address::zero(),
            gas_limit: Uint256::from_u32(1000000),
            tx_hash: Uint256::zero(),
            nonce: Uint256::zero(),
        }
    }

    /// A context with the given values.
    pub fn with_values(
        gas_price: Uint256,
        origin: Address,
        gas_limit: Uint256,
        tx_hash: Uint256,
        nonce: Uint256,
    ) -> (r: TransactionContext)
        ensures
            r == (TransactionContext { gas_price, origin, gas_limit, tx_hash, nonce }),
    {
        TransactionContext { gas_price, origin, gas_limit, tx_hash, nonce }
    }
}

impl Default for TransactionContext {
    /// A context with host-style default values.
    fn default() -> (r: TransactionContext)
        ensures
            r.gas_price.as_nat() == 20000000000,
    {
        TransactionContext::new()
    }
}

} // verus!
