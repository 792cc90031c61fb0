use vstd::prelude::*;
use crate::uint256::Uint256;
use crate::memory::{expansion_cost_spec, expansion_cost_saturated, word_count};

verus! {

/// Failure modes of the gas meter.
#[derive(Debug, Clone, Copy, PartialEq, Eq, Structural)]
pub enum GasError {
    /// A consumption was requested that exceeds the remaining gas.
    OutOfGas { required: u64, available: u64 },
    /// A limit outside the accepted range was supplied.
    GasLimitExceeded { limit: u64 },
}

/// The static gas price of each operation.
#[derive(Debug, Clone, Copy, PartialEq, Eq, Structural)]
pub struct GasCosts {
    pub base: u64,
    pub very_low: u64,
    pub low: u64,
    pub mid: u64,
    pub high: u64,
    pub add: u64,
    pub mul: u64,
    pub sub: u64,
    pub div: u64,
    pub sdiv: u64,
    pub mod_: u64,
    pub smod: u64,
    pub addmod: u64,
    pub mulmod: u64,
    pub exp: u64,
    pub signextend: u64,
    pub lt: u64,
    pub gt: u64,
    pub slt: u64,
    pub sgt: u64,
    pub eq: u64,
    pub iszero: u64,
    pub and: u64,
    pub or: u64,
    pub xor: u64,
    pub not: u64,
    pub byte: u64,
    pub shl: u64,
    pub shr: u64,
    pub sar: u64,
    pub keccak256: u64,
    pub keccak256_word: u64,
    pub address: u64,
    pub balance: u64,
    pub origin: u64,
    pub caller: u64,
    pub callvalue: u64,
    pub calldataload: u64,
    pub calldatasize: u64,
    pub calldatacopy: u64,
    pub codesize: u64,
    pub codecopy: u64,
    pub gasprice: u64,
    pub extcodesize: u64,
    pub extcodecopy: u64,
    pub returndatasize: u64,
    pub returndatacopy: u64,
    pub extcodehash: u64,
    pub blockhash: u64,
    pub coinbase: u64,
    pub timestamp: u64,
    pub number: u64,
    pub difficulty: u64,
    pub gaslimit: u64,
    pub chainid: u64,
    pub selfbalance: u64,
    pub sload: u64,
    pub sstore: u64,
    pub sstore_set: u64,
    pub sstore_reset: u64,
    pub sstore_clear: u64,
    pub mload: u64,
    pub mstore: u64,
    pub mstore8: u64,
    pub msize: u64,
    pub push: u64,
    pub dup: u64,
    pub swap: u64,
    pub pop: u64,
    pub jump: u64,
    pub jumpi: u64,
    pub pc: u64,
    pub jumpdest: u64,
    pub log0: u64,
    pub log1: u64,
    pub log2: u64,
    pub log3: u64,
    pub log4: u64,
    pub log_topic: u64,
    pub log_data: u64,
    pub create: u64,
    pub call: u64,
    pub callcode: u64,
    pub delegatecall: u64,
    pub staticcall: u64,
    pub return_: u64,
    pub revert: u64,
    pub selfdestruct: u64,
    pub selfdestruct_refund: u64,
    pub warm_storage_read: u64,
    pub cold_storage_read: u64,
    pub access_list_storage_key: u64,
    pub access_list_address: u64,
}

/// The standard cost table.
pub open spec fn default_costs() -> GasCosts {
    GasCosts {
        base: 2,
        very_low: 3,
        low: 5,
        mid: 8,
        high: 10,
        add: 3,
        mul: 5,
        sub: 3,
        div: 5,
        sdiv: 5,
        mod_: 5,
        smod: 5,
        addmod: 8,
        mulmod: 8,
        exp: 10,
        signextend: 5,
        lt: 3,
        gt: 3,
        slt: 3,
        sgt: 3,
        eq: 3,
        iszero: 3,
        and: 3,
        or: 3,
        xor: 3,
        not: 3,
        byte: 3,
        shl: 3,
        shr: 3,
        sar: 3,
        keccak256: 30,
        keccak256_word: 6,
        address: 2,
        balance: 100,
        origin: 2,
        caller: 2,
        callvalue: 2,
        calldataload: 3,
        calldatasize: 2,
        calldatacopy: 3,
        codesize: 2,
        codecopy: 3,
        gasprice: 2,
        extcodesize: 100,
        extcodecopy: 100,
        returndatasize: 2,
        returndatacopy: 3,
        extcodehash: 100,
        blockhash: 20,
        coinbase: 2,
        timestamp: 2,
        number: 2,
        difficulty: 2,
        gaslimit: 2,
        chainid: 2,
        selfbalance: 5,
        sload: 100,
        sstore: 100,
        sstore_set: 20000,
        sstore_reset: 5000,
        sstore_clear: 15000,
        mload: 3,
        mstore: 3,
        mstore8: 3,
        msize: 2,
        push: 3,
        dup: 3,
        swap: 3,
        pop: 2,
        jump: 8,
        jumpi: 10,
        pc: 2,
        jumpdest: 1,
        log0: 375,
        log1: 750,
        log2: 1125,
        log3: 1500,
        log4: 1875,
        log_topic: 375,
        log_data: 8,
        create: 32000,
        call: 100,
        callcode: 100,
        delegatecall: 100,
        staticcall: 100,
        return_: 0,
        revert: 0,
        selfdestruct: 5000,
        selfdestruct_refund: 24000,
        warm_storage_read: 100,
        cold_storage_read: 2100,
        access_list_storage_key: 1900,
        access_list_address: 2400,
    }
}

impl Default for GasCosts {
    /// The standard cost table.
    fn default() -> (r: GasCosts)
        ensures
            r == default_costs(),
    {
        GasCosts {
        base: 2,
        very_low: 3,
        low: 5,
        mid: 8,
        high: 10,
        add: 3,
        mul: 5,
        sub: 3,
        div: 5,
        sdiv: 5,
        mod_: 5,
        smod: 5,
        addmod: 8,
        mulmod: 8,
        exp: 10,
        signextend: 5,
        lt: 3,
        gt: 3,
        slt: 3,
        sgt: 3,
        eq: 3,
        iszero: 3,
        and: 3,
        or: 3,
        xor: 3,
        not: 3,
        byte: 3,
        shl: 3,
        shr: 3,
        sar: 3,
        keccak256: 30,
        keccak256_word: 6,
        address: 2,
        balance: 100,
        origin: 2,
        caller: 2,
        callvalue: 2,
        calldataload: 3,
        calldatasize: 2,
        calldatacopy: 3,
        codesize: 2,
        codecopy: 3,
        gasprice: 2,
        extcodesize: 100,
        extcodecopy: 100,
        returndatasize: 2,
        returndatacopy: 3,
        extcodehash: 100,
        blockhash: 20,
        coinbase: 2,
        timestamp: 2,
        number: 2,
        difficulty: 2,
        gaslimit: 2,
        chainid: 2,
        selfbalance: 5,
        sload: 100,
        sstore: 100,
        sstore_set: 20000,
        sstore_reset: 5000,
        sstore_clear: 15000,
        mload: 3,
        mstore: 3,
        mstore8: 3,
        msize: 2,
        push: 3,
        dup: 3,
        swap: 3,
        pop: 2,
        jump: 8,
        jumpi: 10,
        pc: 2,
        jumpdest: 1,
        log0: 375,
        log1: 750,
        log2: 1125,
        log3: 1500,
        log4: 1875,
        log_topic: 375,
        log_data: 8,
        create: 32000,
        call: 100,
        callcode: 100,
        delegatecall: 100,
        staticcall: 100,
        return_: 0,
        revert: 0,
        selfdestruct: 5000,
        selfdestruct_refund: 24000,
        warm_storage_read: 100,
        cold_storage_read: 2100,
        access_list_storage_key: 1900,
        access_list_address: 2400,
        }
    }
}

/// The gas charged for one storage write, from the current and new values.
pub open spec fn sstore_cost_spec(current: nat, new: nat, costs: GasCosts) -> u64 {
    if current == new {
        if current == 0 {
            costs.sstore_clear
        } else {
            costs.sstore_reset
        }
    } else {
        if current == 0 {
            costs.sstore_set
        } else if new == 0 {
            costs.sstore_clear
        } else {
            costs.sstore_reset
        }
    }
}

/// The gas charged for one log append, from the topic count and data size.
pub open spec fn log_cost_spec(topic_count: nat, data_size: nat, costs: GasCosts) -> nat {
    if topic_count > 4 {
        0nat
    } else {
        let base: nat = if topic_count == 0 {
            costs.log0 as nat
        } else if topic_count == 1 {
            costs.log1 as nat
        } else if topic_count == 2 {
            costs.log2 as nat
        } else if topic_count == 3 {
            costs.log3 as nat
        } else {
            costs.log4 as nat
        };
        (base + data_size * costs.log_data) as nat
    }
}

/// The gas meter: a budget fixed at creation, drawn down by consumption.
/// The available gas never exceeds the limit, so the gas used and the gas
/// remaining always add up to the limit exactly.
pub struct GasMeter {
    available: u64,
    limit: u64,
    costs: GasCosts,
}

impl GasMeter {
    /// The remaining gas, as a mathematical value.
    pub closed spec fn spec_available(&self) -> nat {
        self.available as nat
    }

    /// The budget fixed at creation, as a mathematical value.
    pub closed spec fn spec_limit(&self) -> nat {
        self.limit as nat
    }

    /// The cost table in force.
    pub closed spec fn spec_costs(&self) -> GasCosts {
        self.costs
    }

    /// The remaining gas never exceeds the budget.
    pub open spec fn well_formed(&self) -> bool {
        self.spec_available() <= self.spec_limit()
    }

    /// Create a meter with the standard cost table.
    pub fn new(gas_limit: u64) -> (r: GasMeter)
        ensures
            r.spec_available() == gas_limit,
            r.spec_limit() == gas_limit,
            r.spec_costs() == default_costs(),
            r.well_formed(),
    {
        GasMeter { available: gas_limit, limit: gas_limit, costs: Default::default() }
    }

    /// Create a meter with a custom cost table.
    pub fn with_costs(gas_limit: u64, costs: GasCosts) -> (r: GasMeter)
        ensures
            r.spec_available() == gas_limit,
            r.spec_limit() == gas_limit,
            r.spec_costs() == costs,
            r.well_formed(),
    {
        GasMeter { available: gas_limit, limit: gas_limit, costs }
    }

    /// The remaining gas.
    pub fn available(&self) -> (r: u64)
        ensures
            r == self.spec_available(),
    {
        self.available
    }

    /// The budget fixed at creation.
    pub fn limit(&self) -> (r: u64)
        ensures
            r == self.spec_limit(),
    {
        self.limit
    }

    /// The gas consumed so far: always the limit minus the remaining gas.
    pub fn used(&self) -> (r: u64)
        requires
            self.well_formed(),
        ensures
            r == self.spec_limit() - self.spec_available(),
            r + self.spec_available() == self.spec_limit(),
    {
        self.limit - self.available
    }

    /// Draw gas down; fails with OutOfGas exactly when the request exceeds
    /// what remains, and then changes nothing.
    pub fn consume(&mut self, amount: u64) -> (r: Result<(), GasError>)
        requires
            old(self).well_formed(),
        ensures
            final(self).spec_limit() == old(self).spec_limit(),
            final(self).spec_costs() == old(self).spec_costs(),
            final(self).well_formed(),
            match r {
                Ok(()) => amount <= old(self).spec_available() && final(self).spec_available()
                    == old(self).spec_available() - amount,
                Err(e) => amount > old(self).spec_available() && final(self).spec_available()
                    == old(self).spec_available() && e == (GasError::OutOfGas {
                    required: amount,
                    available: old(self).spec_available() as u64,
                }),
            },
    {
        if amount > self.available {
            return Err(GasError::OutOfGas { required: amount, available: self.available });
        }
        self.available = self.available - amount;
        Ok(())
    }

    /// Return gas, capped at half of what has been used so far.
    pub fn refund(&mut self, amount: u64)
        requires
            old(self).well_formed(),
        ensures
            final(self).spec_limit() == old(self).spec_limit(),
            final(self).spec_costs() == old(self).spec_costs(),
            final(self).well_formed(),
            final(self).spec_available() == old(self).spec_available() + (if amount
                <= (old(self).spec_limit() - old(self).spec_available()) / 2 {
                amount as nat
            } else {
                ((old(self).spec_limit() - old(self).spec_available()) / 2) as nat
            }),
    {
        let max_refund = (self.limit - self.available) / 2;
        let refund = if amount < max_refund {
            amount
        } else {
            max_refund
        };
        self.available = self.available + refund;
    }

    /// Whether at least the given gas remains.
    pub fn has_gas(&self, amount: u64) -> (r: bool)
        ensures
            r == (self.spec_available() >= amount),
    {
        self.available >= amount
    }

    /// The cost table in force.
    pub fn costs(&self) -> (r: &GasCosts)
        ensures
            *r == self.spec_costs(),
    {
        &self.costs
    }

    /// The quadratic price of growing memory between two sizes, saturating at
    /// the largest 64-bit value.
    pub fn memory_expansion_cost(&self, current_size: usize, new_size: usize) -> (r: u64)
        ensures
            r == if expansion_cost_spec(current_size as nat, new_size as nat) > u64::MAX {
                u64::MAX as nat
            } else {
                expansion_cost_spec(current_size as nat, new_size as nat)
            },
    {
        expansion_cost_saturated(current_size, new_size)
    }

    /// The price of hashing a byte range: a base charge plus one word charge
    /// for each 32-byte word covered.
    pub fn keccak256_cost(&self, data_size: usize) -> (r: u64)
        requires
            self.spec_costs() == default_costs(),
        ensures
            r == self.spec_costs().keccak256 + word_count(data_size as nat)
                * self.spec_costs().keccak256_word,
    {
        let words = (data_size as u128 + 31) / 32;
        let cost = self.costs.keccak256 as u128 + words * self.costs.keccak256_word as u128;
        proof {
            assert(words * 6 + 30 < 0x10000000000000000) by (nonlinear_arith)
                requires
                    words == (data_size as u128 + 31) / 32,
                    data_size <= u64::MAX,
            ;
        }
        cost as u64
    }

    /// The price of one storage read, by warmth.
    pub fn sload_cost(&self, is_warm: bool) -> (r: u64)
        ensures
            r == if is_warm {
                self.spec_costs().warm_storage_read
            } else {
                self.spec_costs().cold_storage_read
            },
    {
        if is_warm {
            self.costs.warm_storage_read
        } else {
            self.costs.cold_storage_read
        }
    }

    /// The price of one storage write, decided by the current and new values:
    /// writing over an equal value is a no-op write, setting a zero slot is
    /// dearest, clearing a slot is priced for a refund path, and any other
    /// change is a reset.
    pub fn sstore_cost(&self, current_value: &Uint256, new_value: &Uint256, original_value:
        &Uint256) -> (r: u64)
        ensures
            r == sstore_cost_spec(current_value.as_nat(), new_value.as_nat(), self.spec_costs()),
    {
        let _ = original_value;
        proof {
            Uint256::lemma_as_nat_injective(*current_value, *new_value);
        }
        if current_value == new_value {
            if current_value.is_zero() {
                self.costs.sstore_clear
            } else {
                self.costs.sstore_reset
            }
        } else {
            if current_value.is_zero() {
                self.costs.sstore_set
            } else if new_value.is_zero() {
                self.costs.sstore_clear
            } else {
                self.costs.sstore_reset
            }
        }
    }

    /// The price of one log append: a base charge by topic count plus a per-
    /// byte charge, saturating at the largest 64-bit value. Topic counts over
    /// four price at zero; the executor never requests them.
    pub fn log_cost(&self, topic_count: usize, data_size: usize) -> (r: u64)
        ensures
            r == if log_cost_spec(topic_count as nat, data_size as nat, self.spec_costs())
                > u64::MAX {
                u64::MAX as nat
            } else {
                log_cost_spec(topic_count as nat, data_size as nat, self.spec_costs())
            },
    {
        let base: u64 = if topic_count == 0 {
            self.costs.log0
        } else if topic_count == 1 {
            self.costs.log1
        } else if topic_count == 2 {
            self.costs.log2
        } else if topic_count == 3 {
            self.costs.log3
        } else if topic_count == 4 {
            self.costs.log4
        } else {
            return 0;
        };
        proof {
            assert(data_size as u128 * (self.spec_costs().log_data as u128)
                <= 0xffffffffffffffffu128 * 0xffffffffffffffffu128) by (nonlinear_arith)
                requires
                    data_size as u128 <= 0xffffffffffffffffu128,
                    self.spec_costs().log_data as u128 <= 0xffffffffffffffffu128,
            ;
        }
        let cost: u128 = base as u128 + data_size as u128 * self.costs.log_data as u128;
        if cost > 0xffffffffffffffff {
            u64::MAX
        } else {
            cost as u64
        }
    }
}

} // verus!
