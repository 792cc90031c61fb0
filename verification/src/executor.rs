use vstd::prelude::*;
use crate::address::Address;
use crate::uint256::{Uint256, p256, sdiv_int, smod_int, signext_nat, nat_byte_len};
use crate::bytes::Bytes;
use crate::stack::{Stack, StackError};
use crate::memory::{Memory, MemoryError, read_spec, expansion_cost_spec};
use crate::storage::{Storage, StorageError, prior_slots, prior_balance, updated_at};
use crate::gas::{GasMeter, GasError, GasCosts, default_costs, sstore_cost_spec};
use crate::opcodes::{
    Opcode, OpcodeError, is_valid_opcode_byte, is_push_byte, is_dup_byte, is_swap_byte,
    push_width, spec_pop_count, spec_push_count, byte_pop_count, byte_push_count,
};
use crate::events::{EventLogger, EventLog};
use crate::block::{BlockContext, TransactionContext};
use crate::numbytes::be_val;
use crate::crypto::keccak256_of;
use vstd::arithmetic::power::pow;
use vstd::arithmetic::power2::pow2;

verus! {

/// A fault that terminates the frame at once.
#[derive(Debug)]
pub enum ExecutionError {
    Stack(StackError),
    Memory(MemoryError),
    Storage(StorageError),
    Gas(GasError),
    Opcode(OpcodeError),
    InvalidInstruction(String),
    Halted { reason: String },
}

/// What one finished frame reports to the host.
#[derive(Debug, Clone)]
pub struct ExecutionResult {
    pub success: bool,
    pub return_data: Bytes,
    pub gas_used: u64,
    pub gas_remaining: u64,
    pub logs: Vec<EventLog>,
}

/// The whole state of one frame: program counter, stack, memory, the world
/// of accounts, the gas meter, the log list, the call parameters, and the
/// halt flags.
pub struct ExecutionContext {
    pub pc: usize,
    pub stack: Stack,
    pub memory: Memory,
    pub storage: Storage,
    pub gas_meter: GasMeter,
    pub event_logger: EventLogger,
    pub block_context: BlockContext,
    pub transaction_context: TransactionContext,
    pub address: Address,
    pub caller: Address,
    pub call_value: Uint256,
    pub input_data: Bytes,
    pub code: Bytes,
    pub return_data: Bytes,
    pub should_continue: bool,
    pub success: bool,
}

impl ExecutionContext {
    /// The structural invariant of a frame: the stack respects the standard
    /// capacity, the gas meter never exceeds its limit, and the account
    /// world is canonical.
    pub open spec fn well_formed(&self) -> bool {
        &&& self.stack.well_formed()
        &&& self.stack.capacity() == 1024
        &&& self.gas_meter.well_formed()
        &&& self.storage.well_formed()
    }

    /// Create a frame over the given code with an empty machine state.
    pub fn new(
        address: Address,
        caller: Address,
        call_value: Uint256,
        input_data: Bytes,
        code: Bytes,
        gas_limit: u64,
    ) -> (r: ExecutionContext)
        ensures
            r.well_formed(),
            r.pc == 0,
            r.stack@.len() == 0,
            r.memory@.len() == 0,
            r.storage.world() == Map::<Seq<u8>, crate::storage::Account>::empty(),
            r.gas_meter.spec_limit() == gas_limit,
            r.gas_meter.spec_available() == gas_limit,
            r.gas_meter.spec_costs() == default_costs(),
            r.event_logger@.len() == 0,
            r.address == address,
            r.caller == caller,
            r.call_value == call_value,
            r.input_data == input_data,
            r.code == code,
            r.return_data@.len() == 0,
            r.should_continue,
            !r.success,
    {
        ExecutionContext {
            pc: 0,
            stack: Stack::new(),
            memory: Memory::new(),
            storage: Storage::new(),
            gas_meter: GasMeter::new(gas_limit),
            event_logger: EventLogger::new(),
            block_context: BlockContext::new(),
            transaction_context: TransactionContext::new(),
            address,
            caller,
            call_value,
            input_data,
            code,
            return_data: Bytes::empty(),
            should_continue: true,
            success: false,
        }
    }

    /// The byte at the program counter; fails when the counter has run off
    /// the end of the code.
    pub fn current_instruction(&self) -> (r: Result<u8, ExecutionError>)
        ensures
            match r {
                Ok(b) => self.pc < self.code@.len() && b == self.code@[self.pc as int],
                Err(e) => self.pc >= self.code@.len() && e is InvalidInstruction,
            },
    {
        if self.pc >= self.code.len() {
            return Err(
                ExecutionError::InvalidInstruction("Program counter out of bounds".to_owned()),
            );
        }
        let slice = self.code.as_slice();
        Ok(slice[self.pc])
    }

    /// Advance the program counter.
    pub fn advance_pc(&mut self, steps: usize)
        requires
            old(self).pc + steps <= usize::MAX,
        ensures
            *final(self) == (ExecutionContext { pc: (old(self).pc + steps) as usize, ..*old(self) }),
    {
        self.pc = self.pc + steps;
    }

    /// Point the program counter at a position inside the code; fails when
    /// the target lies outside.
    pub fn set_pc(&mut self, pc: usize) -> (r: Result<(), ExecutionError>)
        ensures
            match r {
                Ok(()) => pc < old(self).code@.len() && *final(self) == (ExecutionContext {
                    pc,
                    ..*old(self)
                }),
                Err(e) => pc >= old(self).code@.len() && *final(self) == *old(self) && e
                    is InvalidInstruction,
            },
    {
        if pc >= self.code.len() {
            return Err(
                ExecutionError::InvalidInstruction("Jump destination out of bounds".to_owned()),
            );
        }
        self.pc = pc;
        Ok(())
    }

    /// Stop the frame, recording whether it succeeded.
    pub fn halt(&mut self, success: bool, reason: String)
        ensures
            *final(self) == (ExecutionContext {
                should_continue: false,
                success,
                ..*old(self)
            }),
    {
        let _ = reason;
        self.should_continue = false;
        self.success = success;
    }
}

/// A value clipped to the 64-bit range, the silent saturation used when a
/// word is taken as an offset, size or jump target.
pub open spec fn sat64(n: nat) -> nat {
    if n > u64::MAX {
        u64::MAX as nat
    } else {
        n
    }
}

/// Whether a byte is a two-operand value opcode.
pub open spec fn is_alu2_byte(b: u8) -> bool {
    (0x01 <= b <= 0x07) || b == 0x0a || b == 0x0b || (0x10 <= b <= 0x14) || (0x16 <= b <= 0x18)
        || (0x1a <= b <= 0x1d)
}

/// Whether a byte is a one-operand value opcode.
pub open spec fn is_alu1_byte(b: u8) -> bool {
    b == 0x15 || b == 0x19
}

/// The value a two-operand opcode pushes; x is the first word popped (the
/// old top of stack) and y the second.
pub open spec fn alu2_result(b: u8, x: Uint256, y: Uint256) -> nat {
    if b == 0x01 {
        (x.as_nat() + y.as_nat()) % p256()
    } else if b == 0x02 {
        (x.as_nat() * y.as_nat()) % p256()
    } else if b == 0x03 {
        ((x.as_nat() - y.as_nat()) % (p256() as int)) as nat
    } else if b == 0x04 {
        if y.as_nat() == 0 {
            0nat
        } else {
            x.as_nat() / y.as_nat()
        }
    } else if b == 0x05 {
        (sdiv_int(x.as_int(), y.as_int()) % (p256() as int)) as nat
    } else if b == 0x06 {
        if y.as_nat() == 0 {
            0nat
        } else {
            x.as_nat() % y.as_nat()
        }
    } else if b == 0x07 {
        (smod_int(x.as_int(), y.as_int()) % (p256() as int)) as nat
    } else if b == 0x0a {
        (pow(x.as_nat() as int, y.as_nat()) % (p256() as int)) as nat
    } else if b == 0x0b {
        signext_nat(y.as_nat(), x.as_nat())
    } else if b == 0x10 {
        if x.as_nat() < y.as_nat() {
            1nat
        } else {
            0nat
        }
    } else if b == 0x11 {
        if x.as_nat() > y.as_nat() {
            1nat
        } else {
            0nat
        }
    } else if b == 0x12 {
        if x.as_int() < y.as_int() {
            1nat
        } else {
            0nat
        }
    } else if b == 0x13 {
        if x.as_int() > y.as_int() {
            1nat
        } else {
            0nat
        }
    } else if b == 0x14 {
        if x.as_nat() == y.as_nat() {
            1nat
        } else {
            0nat
        }
    } else if b == 0x16 {
        ((x.limb0 & y.limb0) + (x.limb1 & y.limb1) * 0x10000000000000000 + (x.limb2 & y.limb2)
            * 0x100000000000000000000000000000000nat + (x.limb3 & y.limb3)
            * 0x1000000000000000000000000000000000000000000000000nat) as nat
    } else if b == 0x17 {
        ((x.limb0 | y.limb0) + (x.limb1 | y.limb1) * 0x10000000000000000 + (x.limb2 | y.limb2)
            * 0x100000000000000000000000000000000nat + (x.limb3 | y.limb3)
            * 0x1000000000000000000000000000000000000000000000000nat) as nat
    } else if b == 0x18 {
        ((x.limb0 ^ y.limb0) + (x.limb1 ^ y.limb1) * 0x10000000000000000 + (x.limb2 ^ y.limb2)
            * 0x100000000000000000000000000000000nat + (x.limb3 ^ y.limb3)
            * 0x1000000000000000000000000000000000000000000000000nat) as nat
    } else if b == 0x1a {
        if x.as_nat() >= 32 {
            0nat
        } else {
            (((y.as_nat() as int) / (pow(256, (31 - x.as_nat()) as nat) as int)) % 256) as nat
        }
    } else if b == 0x1b {
        if x.as_nat() >= 256 {
            0nat
        } else {
            (y.as_nat() * pow2(x.as_nat())) % p256()
        }
    } else if b == 0x1c {
        if x.as_nat() >= 256 {
            0nat
        } else {
            y.as_nat() / pow2(x.as_nat())
        }
    } else if b == 0x1d {
        if x.as_nat() >= 256 {
            if y.as_int() < 0 {
                (p256() - 1) as nat
            } else {
                0nat
            }
        } else {
            ((y.as_int() / (pow2(x.as_nat()) as int)) % (p256() as int)) as nat
        }
    } else {
        0nat
    }
}

/// The value a one-operand opcode pushes.
pub open spec fn alu1_result(b: u8, x: Uint256) -> nat {
    if b == 0x15 {
        if x.as_nat() == 0 {
            1nat
        } else {
            0nat
        }
    } else {
        (p256() - 1 - x.as_nat()) as nat
    }
}

/// Only the stack differs between the two frames.
pub open spec fn only_stack_changed(c0: ExecutionContext, c1: ExecutionContext) -> bool {
    c1 == (ExecutionContext { stack: c1.stack, ..c0 })
}

/// A word's unsigned reading is its signed reading modulo 2^256.
proof fn lemma_as_int_mod(v: Uint256)
    ensures
        v.as_nat() as int == v.as_int() % (p256() as int),
{
    if v.as_int() >= 0 {
        vstd::arithmetic::div_mod::lemma_small_mod(v.as_nat(), p256());
    } else {
        vstd::arithmetic::div_mod::lemma_mod_add_multiples_vanish(
            v.as_int(),
            p256() as int,
        );
        vstd::arithmetic::div_mod::lemma_small_mod(v.as_nat(), p256());
    }
}

/// Run a two-operand value opcode: pop x then y, push the result.
fn exec_alu2(ctx: &mut ExecutionContext, b: u8) -> (r: Result<(), ExecutionError>)
    requires
        old(ctx).well_formed(),
        is_alu2_byte(b),
        old(ctx).stack@.len() >= 2,
    ensures
        final(ctx).well_formed(),
        r is Ok,
        only_stack_changed(*old(ctx), *final(ctx)),
        final(ctx).stack@.len() == old(ctx).stack@.len() - 1,
        final(ctx).stack@ == old(ctx).stack@.drop_last().drop_last().push(
            final(ctx).stack@.last(),
        ),
        final(ctx).stack@.last().as_nat() == alu2_result(
            b,
            old(ctx).stack@.last(),
            old(ctx).stack@[old(ctx).stack@.len() - 2],
        ),
{
    let x = match ctx.stack.pop() {
        Ok(v) => v,
        Err(_) => {
            return Err(ExecutionError::Stack(StackError::Underflow));
        },
    };
    let y = match ctx.stack.pop() {
        Ok(v) => v,
        Err(_) => {
            return Err(ExecutionError::Stack(StackError::Underflow));
        },
    };
    let v: Uint256 = if b == 0x01 {
        x.add(&y)
    } else if b == 0x02 {
        x.mul(&y)
    } else if b == 0x03 {
        x.sub(&y)
    } else if b == 0x04 {
        x.div(&y)
    } else if b == 0x05 {
        x.sdiv(&y)
    } else if b == 0x06 {
        x.rem(&y)
    } else if b == 0x07 {
        x.smod(&y)
    } else if b == 0x0a {
        x.exp(&y)
    } else if b == 0x0b {
        y.signextend(&x)
    } else if b == 0x10 {
        if x.lt(&y) {
            Uint256::one()
        } else {
            Uint256::zero()
        }
    } else if b == 0x11 {
        if x.gt(&y) {
            Uint256::one()
        } else {
            Uint256::zero()
        }
    } else if b == 0x12 {
        if x.slt(&y) {
            Uint256::one()
        } else {
            Uint256::zero()
        }
    } else if b == 0x13 {
        if x.sgt(&y) {
            Uint256::one()
        } else {
            Uint256::zero()
        }
    } else if b == 0x14 {
        proof {
            Uint256::lemma_as_nat_injective(x, y);
        }
        if x == y {
            Uint256::one()
        } else {
            Uint256::zero()
        }
    } else if b == 0x16 {
        x.bitand(&y)
    } else if b == 0x17 {
        x.bitor(&y)
    } else if b == 0x18 {
        x.bitxor(&y)
    } else if b == 0x1a {
        y.byte(&x)
    } else if b == 0x1b {
        y.shl(&x)
    } else if b == 0x1c {
        y.shr(&x)
    } else {
        let res = y.sar(&x);
        proof {
            if x.as_nat() < 256 {
                lemma_as_int_mod(res);
            }
        }
        res
    };
    match ctx.stack.push(v) {
        Ok(()) => Ok(()),
        Err(_) => Err(ExecutionError::Stack(StackError::Overflow)),
    }
}

/// Run a one-operand value opcode: pop x, push the result.
fn exec_alu1(ctx: &mut ExecutionContext, b: u8) -> (r: Result<(), ExecutionError>)
    requires
        old(ctx).well_formed(),
        is_alu1_byte(b),
        old(ctx).stack@.len() >= 1,
    ensures
        final(ctx).well_formed(),
        r is Ok,
        only_stack_changed(*old(ctx), *final(ctx)),
        final(ctx).stack@.len() == old(ctx).stack@.len(),
        final(ctx).stack@ == old(ctx).stack@.drop_last().push(final(ctx).stack@.last()),
        final(ctx).stack@.last().as_nat() == alu1_result(b, old(ctx).stack@.last()),
{
    let x = match ctx.stack.pop() {
        Ok(v) => v,
        Err(_) => {
            return Err(ExecutionError::Stack(StackError::Underflow));
        },
    };
    let v: Uint256 = if b == 0x15 {
        if x.is_zero() {
            Uint256::one()
        } else {
            Uint256::zero()
        }
    } else {
        x.not()
    };
    match ctx.stack.push(v) {
        Ok(()) => Ok(()),
        Err(_) => Err(ExecutionError::Stack(StackError::Overflow)),
    }
}

/// Run a three-operand modular opcode: pop x, y and the modulus, push the
/// full-precision result reduced by the modulus; a zero modulus gives zero.
fn exec_alu3(ctx: &mut ExecutionContext, b: u8) -> (r: Result<(), ExecutionError>)
    requires
        old(ctx).well_formed(),
        b == 0x08 || b == 0x09,
        old(ctx).stack@.len() >= 3,
    ensures
        final(ctx).well_formed(),
        r is Ok,
        only_stack_changed(*old(ctx), *final(ctx)),
        final(ctx).stack@.len() == old(ctx).stack@.len() - 2,
        final(ctx).stack@ == old(ctx).stack@.drop_last().drop_last().drop_last().push(
            final(ctx).stack@.last(),
        ),
        final(ctx).stack@.last().as_nat() == ({
            let x = old(ctx).stack@.last().as_nat();
            let y = old(ctx).stack@[old(ctx).stack@.len() - 2].as_nat();
            let m = old(ctx).stack@[old(ctx).stack@.len() - 3].as_nat();
            if m == 0 {
                0nat
            } else if b == 0x08 {
                (x + y) % m
            } else {
                (x * y) % m
            }
        }),
{
    let x = match ctx.stack.pop() {
        Ok(v) => v,
        Err(_) => {
            return Err(ExecutionError::Stack(StackError::Underflow));
        },
    };
    let y = match ctx.stack.pop() {
        Ok(v) => v,
        Err(_) => {
            return Err(ExecutionError::Stack(StackError::Underflow));
        },
    };
    let m = match ctx.stack.pop() {
        Ok(v) => v,
        Err(_) => {
            return Err(ExecutionError::Stack(StackError::Underflow));
        },
    };
    let v = if b == 0x08 {
        x.addmod(&y, &m)
    } else {
        x.mulmod(&y, &m)
    };
    match ctx.stack.push(v) {
        Ok(()) => Ok(()),
        Err(_) => Err(ExecutionError::Stack(StackError::Overflow)),
    }
}

/// Only the stack and the program counter differ between the two frames.
pub open spec fn only_stack_pc_changed(c0: ExecutionContext, c1: ExecutionContext) -> bool {
    c1 == (ExecutionContext { stack: c1.stack, pc: c1.pc, ..c0 })
}

/// Whether a byte is an information opcode that pushes one value read from
/// the frame without touching anything else.
pub open spec fn is_info_byte(b: u8) -> bool {
    b == 0x30 || b == 0x32 || b == 0x33 || b == 0x34 || b == 0x36 || b == 0x38 || b == 0x3a || (
    0x41 <= b <= 0x47) || b == 0x58 || b == 0x59
}

/// The value an information opcode pushes, read from the frame after its
/// program counter has advanced past the opcode byte.
pub open spec fn info_value(b: u8, c: ExecutionContext) -> nat {
    if b == 0x30 {
        be_val(c.address@)
    } else if b == 0x32 {
        be_val(c.transaction_context.origin@)
    } else if b == 0x33 {
        be_val(c.caller@)
    } else if b == 0x34 {
        c.call_value.as_nat()
    } else if b == 0x36 {
        c.input_data@.len()
    } else if b == 0x38 {
        c.code@.len()
    } else if b == 0x3a {
        c.transaction_context.gas_price.as_nat()
    } else if b == 0x41 {
        be_val(c.block_context.coinbase@)
    } else if b == 0x42 {
        c.block_context.timestamp.as_nat()
    } else if b == 0x43 {
        c.block_context.number.as_nat()
    } else if b == 0x44 {
        c.block_context.difficulty.as_nat()
    } else if b == 0x45 {
        c.block_context.gas_limit.as_nat()
    } else if b == 0x46 {
        c.block_context.chain_id.as_nat()
    } else if b == 0x47 {
        prior_balance(c.storage.world(), c.address@).as_nat()
    } else if b == 0x58 {
        c.pc as nat
    } else {
        c.memory@.len()
    }
}

/// Run an information opcode: push one value read from the frame.
fn exec_info(ctx: &mut ExecutionContext, b: u8) -> (r: Result<(), ExecutionError>)
    requires
        old(ctx).well_formed(),
        is_info_byte(b),
        old(ctx).stack@.len() < 1024,
    ensures
        final(ctx).well_formed(),
        r is Ok,
        only_stack_changed(*old(ctx), *final(ctx)),
        final(ctx).stack@ == old(ctx).stack@.push(final(ctx).stack@.last()),
        final(ctx).stack@.last().as_nat() == info_value(b, *old(ctx)),
{
    let v: Uint256 = if b == 0x30 {
        Uint256::from_bytes_be(ctx.address.as_bytes().as_slice())
    } else if b == 0x32 {
        Uint256::from_bytes_be(ctx.transaction_context.origin.as_bytes().as_slice())
    } else if b == 0x33 {
        Uint256::from_bytes_be(ctx.caller.as_bytes().as_slice())
    } else if b == 0x34 {
        ctx.call_value
    } else if b == 0x36 {
        Uint256::from_u64(ctx.input_data.len() as u64)
    } else if b == 0x38 {
        Uint256::from_u64(ctx.code.len() as u64)
    } else if b == 0x3a {
        ctx.transaction_context.gas_price
    } else if b == 0x41 {
        Uint256::from_bytes_be(ctx.block_context.coinbase.as_bytes().as_slice())
    } else if b == 0x42 {
        ctx.block_context.timestamp
    } else if b == 0x43 {
        ctx.block_context.number
    } else if b == 0x44 {
        ctx.block_context.difficulty
    } else if b == 0x45 {
        ctx.block_context.gas_limit
    } else if b == 0x46 {
        ctx.block_context.chain_id
    } else if b == 0x47 {
        ctx.storage.get_balance(&ctx.address)
    } else if b == 0x58 {
        Uint256::from_u64(ctx.pc as u64)
    } else {
        Uint256::from_u64(ctx.memory.size() as u64)
    };
    match ctx.stack.push(v) {
        Ok(()) => Ok(()),
        Err(_) => Err(ExecutionError::Stack(StackError::Overflow)),
    }
}

/// The twenty address bytes held in the low end of a word.
pub open spec fn addr_bytes_of(w: Uint256) -> Seq<u8> {
    Seq::new(
        20,
        |i: int| (((w.as_nat() as int) / (pow(256, (19 - i) as nat) as int)) % 256) as u8,
    )
}

/// Run BALANCE: pop a word, read the balance of the address held in its low
/// twenty bytes.
fn exec_balance(ctx: &mut ExecutionContext) -> (r: Result<(), ExecutionError>)
    requires
        old(ctx).well_formed(),
        old(ctx).stack@.len() >= 1,
    ensures
        final(ctx).well_formed(),
        r is Ok,
        only_stack_changed(*old(ctx), *final(ctx)),
        final(ctx).stack@.len() == old(ctx).stack@.len(),
        final(ctx).stack@ == old(ctx).stack@.drop_last().push(final(ctx).stack@.last()),
        final(ctx).stack@.last() == prior_balance(
            old(ctx).storage.world(),
            addr_bytes_of(old(ctx).stack@.last()),
        ),
{
    let w = match ctx.stack.pop() {
        Ok(v) => v,
        Err(_) => {
            return Err(ExecutionError::Stack(StackError::Underflow));
        },
    };
    let bytes = w.to_bytes_be();
    let mut arr = [0u8; 20];
    let mut i: usize = 0;
    while i < 20
        invariant
            i <= 20,
            bytes@.len() == 32,
            arr@.len() == 20,
            forall|j: int| 0 <= j < i ==> arr@[j] == bytes@[j + 12],
        decreases 20 - i,
    {
        arr[i] = bytes[i + 12];
        i += 1;
    }
    let addr = Address::new(arr);
    proof {
        assert forall|j: int| 0 <= j < 20 implies arr@[j] == addr_bytes_of(w)[j] by {
            crate::numbytes::lemma_be_byte(bytes@, j + 12);
        }
        assert(arr@ =~= addr_bytes_of(w));
    }
    let balance = ctx.storage.get_balance(&addr);
    match ctx.stack.push(balance) {
        Ok(()) => Ok(()),
        Err(_) => Err(ExecutionError::Stack(StackError::Overflow)),
    }
}

/// Run BLOCKHASH: pop a block number, push the hash the block context
/// reports for it.
fn exec_blockhash(ctx: &mut ExecutionContext) -> (r: Result<(), ExecutionError>)
    requires
        old(ctx).well_formed(),
        old(ctx).stack@.len() >= 1,
    ensures
        final(ctx).well_formed(),
        r is Ok,
        only_stack_changed(*old(ctx), *final(ctx)),
        final(ctx).stack@.len() == old(ctx).stack@.len(),
        final(ctx).stack@ == old(ctx).stack@.drop_last().push(final(ctx).stack@.last()),
        final(ctx).stack@.last().as_nat() == ({
            let n = old(ctx).stack@.last().as_nat();
            if n == old(ctx).block_context.number.as_nat() {
                old(ctx).block_context.block_hash.as_nat()
            } else {
                n
            }
        }),
{
    let n = match ctx.stack.pop() {
        Ok(v) => v,
        Err(_) => {
            return Err(ExecutionError::Stack(StackError::Underflow));
        },
    };
    let h = ctx.block_context.get_block_hash(&n);
    match ctx.stack.push(h) {
        Ok(()) => Ok(()),
        Err(_) => Err(ExecutionError::Stack(StackError::Overflow)),
    }
}

/// Run CALLDATALOAD: pop an offset, push the 32 bytes of input data from
/// there, zero-padded past the end.
fn exec_calldataload(ctx: &mut ExecutionContext) -> (r: Result<(), ExecutionError>)
    requires
        old(ctx).well_formed(),
        old(ctx).stack@.len() >= 1,
    ensures
        final(ctx).well_formed(),
        r is Ok,
        only_stack_changed(*old(ctx), *final(ctx)),
        final(ctx).stack@.len() == old(ctx).stack@.len(),
        final(ctx).stack@ == old(ctx).stack@.drop_last().push(final(ctx).stack@.last()),
        final(ctx).stack@.last().as_nat() == be_val(
            read_spec(old(ctx).input_data@, sat64(old(ctx).stack@.last().as_nat()), 32),
        ),
{
    let off_word = match ctx.stack.pop() {
        Ok(v) => v,
        Err(_) => {
            return Err(ExecutionError::Stack(StackError::Underflow));
        },
    };
    let off64 = off_word.to_u64();
    let data = ctx.input_data.as_slice();
    let len = data.len();
    let v: Uint256;
    if off64 >= len as u64 {
        v = Uint256::zero();
        proof {
            let rs = read_spec(old(ctx).input_data@, sat64(off_word.as_nat()), 32);
            assert(forall|j: int| 0 <= j < 32 ==> rs[j] == 0);
            crate::numbytes::lemma_zero_val(rs);
        }
    } else {
        let off = off64 as usize;
        let mut buf: Vec<u8> = Vec::new();
        let mut i: usize = 0;
        while i < 32
            invariant
                i <= 32,
                off < len,
                len == ctx.input_data@.len(),
                data@ == ctx.input_data@,
                buf@.len() == i,
                forall|j: int|
                    0 <= j < i ==> buf@[j] == read_spec(ctx.input_data@, off as nat, 32)[j],
            decreases 32 - i,
        {
            let byte = if i < len - off {
                data[off + i]
            } else {
                0
            };
            buf.push(byte);
            i += 1;
        }
        proof {
            assert(buf@ =~= read_spec(ctx.input_data@, off as nat, 32));
        }
        v = Uint256::from_bytes_be(buf.as_slice());
    }
    match ctx.stack.push(v) {
        Ok(()) => Ok(()),
        Err(_) => Err(ExecutionError::Stack(StackError::Overflow)),
    }
}

/// Run a push opcode: read the immediate bytes that follow it, zero-extend
/// them on the left, and push the word; a truncated immediate is a fault.
fn exec_push(ctx: &mut ExecutionContext, b: u8) -> (r: Result<(), ExecutionError>)
    requires
        old(ctx).well_formed(),
        is_push_byte(b),
        old(ctx).pc < old(ctx).code@.len(),
        old(ctx).code@[old(ctx).pc as int] == b,
        old(ctx).stack@.len() < 1024,
    ensures
        final(ctx).well_formed(),
        match r {
            Ok(()) => {
                &&& old(ctx).pc + 1 + push_width(b) <= old(ctx).code@.len()
                &&& only_stack_pc_changed(*old(ctx), *final(ctx))
                &&& final(ctx).pc == old(ctx).pc + 1 + push_width(b)
                &&& final(ctx).stack@ == old(ctx).stack@.push(final(ctx).stack@.last())
                &&& final(ctx).stack@.last().as_nat() == be_val(
                    old(ctx).code@.subrange(
                        old(ctx).pc + 1,
                        old(ctx).pc + 1 + push_width(b),
                    ),
                )
            },
            Err(e) => {
                &&& old(ctx).pc + 1 + push_width(b) > old(ctx).code@.len()
                &&& e is InvalidInstruction
                &&& *final(ctx) == *old(ctx)
            },
        },
{
    let width = (b - 0x5f) as usize;
    let code = ctx.code.as_slice();
    let n = code.len();
    if n - ctx.pc - 1 < width {
        return Err(
            ExecutionError::InvalidInstruction("Push data extends beyond code".to_owned()),
        );
    }
    let start = ctx.pc + 1;
    let mut buf: Vec<u8> = Vec::new();
    let mut i: usize = 0;
    while i < width
        invariant
            i <= width,
            start + width <= n,
            n == ctx.code@.len(),
            code@ == ctx.code@,
            start == ctx.pc + 1,
            buf@ =~= ctx.code@.subrange(start as int, start + i),
        decreases width - i,
    {
        buf.push(code[start + i]);
        i += 1;
    }
    let v = Uint256::from_bytes_be(buf.as_slice());
    match ctx.stack.push(v) {
        Ok(()) => {},
        Err(_) => {
            return Err(ExecutionError::Stack(StackError::Overflow));
        },
    }
    ctx.advance_pc(1 + width);
    Ok(())
}

/// Run POP: discard the top word.
fn exec_pop(ctx: &mut ExecutionContext) -> (r: Result<(), ExecutionError>)
    requires
        old(ctx).well_formed(),
        old(ctx).stack@.len() >= 1,
    ensures
        final(ctx).well_formed(),
        r is Ok,
        only_stack_changed(*old(ctx), *final(ctx)),
        final(ctx).stack@ == old(ctx).stack@.drop_last(),
{
    match ctx.stack.pop() {
        Ok(_) => Ok(()),
        Err(_) => Err(ExecutionError::Stack(StackError::Underflow)),
    }
}

/// Run a duplicate opcode: push a copy of the word at the given depth.
fn exec_dup(ctx: &mut ExecutionContext, depth: usize) -> (r: Result<(), ExecutionError>)
    requires
        old(ctx).well_formed(),
        old(ctx).stack@.len() < 1024,
    ensures
        final(ctx).well_formed(),
        only_stack_changed(*old(ctx), *final(ctx)),
        match r {
            Ok(()) => depth < old(ctx).stack@.len() && final(ctx).stack@ == old(ctx).stack@.push(old(ctx).stack@[old(ctx).stack@.len() - 1 - depth]),
            Err(e) => depth >= old(ctx).stack@.len() && final(ctx).stack@ == old(ctx).stack@
                && e == ExecutionError::Stack(StackError::Underflow),
        },
{
    match ctx.stack.dup(depth) {
        Ok(()) => Ok(()),
        Err(StackError::Underflow) => Err(ExecutionError::Stack(StackError::Underflow)),
        Err(StackError::Overflow) => Err(ExecutionError::Stack(StackError::Overflow)),
    }
}

/// Run an exchange opcode: swap the top word with the one at the given
/// depth.
fn exec_swap(ctx: &mut ExecutionContext, depth: usize) -> (r: Result<(), ExecutionError>)
    requires
        old(ctx).well_formed(),
    ensures
        final(ctx).well_formed(),
        only_stack_changed(*old(ctx), *final(ctx)),
        match r {
            Ok(()) => depth < old(ctx).stack@.len() && final(ctx).stack@ == old(ctx).stack@.update(
                old(ctx).stack@.len() - 1,
                old(ctx).stack@[old(ctx).stack@.len() - 1 - depth],
            ).update(old(ctx).stack@.len() - 1 - depth, old(ctx).stack@.last()),
            Err(e) => depth >= old(ctx).stack@.len() && final(ctx).stack@ == old(ctx).stack@
                && e == ExecutionError::Stack(StackError::Underflow),
        },
{
    match ctx.stack.swap(depth) {
        Ok(()) => Ok(()),
        Err(_) => Err(ExecutionError::Stack(StackError::Underflow)),
    }
}

/// Run JUMP: pop the target and move the program counter there exactly when
/// the target is one of the collected jump destinations; any other target
/// is the InvalidJumpDestination fault.
fn exec_jump(ctx: &mut ExecutionContext, dests: &Vec<u64>) -> (r: Result<(), ExecutionError>)
    requires
        old(ctx).well_formed(),
        old(ctx).stack@.len() >= 1,
        crate::validation::u64_set(dests@) == crate::validation::jumpdest_set(
            old(ctx).code@,
            0,
        ),
    ensures
        final(ctx).well_formed(),
        only_stack_pc_changed(*old(ctx), *final(ctx)),
        final(ctx).stack@ == old(ctx).stack@.drop_last(),
        match r {
            Ok(()) => crate::validation::jumpdest_set(old(ctx).code@, 0).contains(
                sat64(old(ctx).stack@.last().as_nat()),
            ) && final(ctx).pc == sat64(old(ctx).stack@.last().as_nat()),
            Err(e) => !crate::validation::jumpdest_set(old(ctx).code@, 0).contains(
                sat64(old(ctx).stack@.last().as_nat()),
            ) && e == ExecutionError::Opcode(OpcodeError::InvalidJumpDestination) && final(ctx).pc == old(ctx).pc,
        },
{
    let target = match ctx.stack.pop() {
        Ok(v) => v,
        Err(_) => {
            return Err(ExecutionError::Stack(StackError::Underflow));
        },
    };
    let t = target.to_u64();
    if !crate::validation::jumpdest_listed(dests, t) {
        return Err(ExecutionError::Opcode(OpcodeError::InvalidJumpDestination));
    }
    let n = ctx.code.len();
    proof {
        crate::validation::lemma_jumpdest_in_bounds(ctx.code@, 0);
        assert((t as nat) < (n as nat));
    }
    ctx.pc = t as usize;
    Ok(())
}

/// Run JUMPI: pop the target and then the condition; a non-zero condition
/// jumps under the same rule as JUMP, a zero condition falls through.
fn exec_jumpi(ctx: &mut ExecutionContext, dests: &Vec<u64>) -> (r: Result<(), ExecutionError>)
    requires
        old(ctx).well_formed(),
        old(ctx).stack@.len() >= 2,
        crate::validation::u64_set(dests@) == crate::validation::jumpdest_set(
            old(ctx).code@,
            0,
        ),
    ensures
        final(ctx).well_formed(),
        only_stack_pc_changed(*old(ctx), *final(ctx)),
        final(ctx).stack@ == old(ctx).stack@.drop_last().drop_last(),
        ({
            let target = sat64(old(ctx).stack@.last().as_nat());
            let cond = old(ctx).stack@[old(ctx).stack@.len() - 2].as_nat();
            if cond == 0 {
                r is Ok && final(ctx).pc == old(ctx).pc
            } else {
                match r {
                    Ok(()) => crate::validation::jumpdest_set(old(ctx).code@, 0).contains(
                        target,
                    ) && final(ctx).pc == target,
                    Err(e) => !crate::validation::jumpdest_set(old(ctx).code@, 0).contains(
                        target,
                    ) && e == ExecutionError::Opcode(OpcodeError::InvalidJumpDestination)
                        && final(ctx).pc == old(ctx).pc,
                }
            }
        }),
{
    let target = match ctx.stack.pop() {
        Ok(v) => v,
        Err(_) => {
            return Err(ExecutionError::Stack(StackError::Underflow));
        },
    };
    let cond = match ctx.stack.pop() {
        Ok(v) => v,
        Err(_) => {
            return Err(ExecutionError::Stack(StackError::Underflow));
        },
    };
    if cond.is_zero() {
        return Ok(());
    }
    let t = target.to_u64();
    if !crate::validation::jumpdest_listed(dests, t) {
        return Err(ExecutionError::Opcode(OpcodeError::InvalidJumpDestination));
    }
    let n = ctx.code.len();
    proof {
        crate::validation::lemma_jumpdest_in_bounds(ctx.code@, 0);
        assert((t as nat) < (n as nat));
    }
    ctx.pc = t as usize;
    Ok(())
}

/// Whether a recognized opcode byte is one the dispatcher implements; the
/// recognized-but-unimplemented set is the inter-contract and external-state
/// family together with CALLDATACOPY.
pub open spec fn is_implemented_byte(b: u8) -> bool {
    is_valid_opcode_byte(b) && !(b == 0x37 || (0x3b <= b <= 0x3f) || (0xf0 <= b <= 0xf2) || b
        == 0xf4 || b == 0xf5 || b == 0xfa || b == 0xff)
}

/// Whether an opcode reads or writes a memory range named by its operands.
pub open spec fn is_mem_touch_byte(b: u8) -> bool {
    b == 0x20 || b == 0x39 || b == 0x51 || b == 0x52 || b == 0x53 || (0xa0 <= b <= 0xa4) || b
        == 0xf3 || b == 0xfd
}

/// The memory expansion gas an opcode is charged beside its base price,
/// from the operands it peeks: zero for every opcode that does not touch a
/// memory range it must pay to grow.
pub open spec fn step_expansion_cost(b: u8, c: ExecutionContext) -> nat {
    let len = c.stack@.len();
    if b == 0x51 || b == 0x52 {
        expansion_cost_spec(c.memory@.len(), sat64(c.stack@[len - 1].as_nat()) + 32)
    } else if b == 0x53 {
        expansion_cost_spec(c.memory@.len(), sat64(c.stack@[len - 1].as_nat()) + 1)
    } else if b == 0x20 || (0xa0 <= b <= 0xa4) {
        expansion_cost_spec(
            c.memory@.len(),
            sat64(c.stack@[len - 1].as_nat()) + sat64(c.stack@[len - 2].as_nat()),
        )
    } else if b == 0x39 {
        expansion_cost_spec(
            c.memory@.len(),
            sat64(c.stack@[len - 1].as_nat()) + sat64(c.stack@[len - 3].as_nat()),
        )
    } else {
        0nat
    }
}

/// Whether the memory range an opcode names fits the address space; true
/// for every opcode that names none.
pub open spec fn step_addr_ok(b: u8, c: ExecutionContext) -> bool {
    let len = c.stack@.len();
    if b == 0x51 || b == 0x52 {
        sat64(c.stack@[len - 1].as_nat()) + 32 <= usize::MAX
    } else if b == 0x53 {
        sat64(c.stack@[len - 1].as_nat()) + 1 <= usize::MAX
    } else if b == 0x20 || (0xa0 <= b <= 0xa4) || b == 0xf3 || b == 0xfd {
        sat64(c.stack@[len - 1].as_nat()) + sat64(c.stack@[len - 2].as_nat()) <= usize::MAX
    } else if b == 0x39 {
        sat64(c.stack@[len - 1].as_nat()) + sat64(c.stack@[len - 3].as_nat()) <= usize::MAX
    } else {
        true
    }
}

/// The arity a byte really needs before it runs: the table's consumed count,
/// and for duplicates and exchanges the reached depth as well.
pub open spec fn step_arity_ok(b: u8, c: ExecutionContext) -> bool {
    let len = c.stack@.len();
    &&& len >= spec_pop_count(b)
    &&& (is_dup_byte(b) ==> len >= b - 0x7f)
    &&& (is_swap_byte(b) ==> len >= b - 0x8f + 1)
}

/// A fault, witnessed by the frame the failing step leaves behind: the
/// checks that run before dispatch leave the frame unchanged with the
/// program counter on the opcode byte, and a fault inside an instruction
/// leaves the counter just past it.
pub open spec fn trap_condition(e: ExecutionError, c: ExecutionContext) -> bool {
    ||| (e matches ExecutionError::Opcode(OpcodeError::InvalidOpcode { opcode }) && c.pc
        < c.code@.len() && c.code@[c.pc as int] == opcode && !is_valid_opcode_byte(opcode))
    ||| (e == ExecutionError::Stack(StackError::Underflow) && ((c.pc < c.code@.len()
        && c.stack@.len() < spec_pop_count(c.code@[c.pc as int])) || (1 <= c.pc
        <= c.code@.len() && !step_arity_ok(c.code@[c.pc - 1], c))))
    ||| (e == ExecutionError::Stack(StackError::Overflow) && c.pc < c.code@.len()
        && c.stack@.len() >= spec_pop_count(c.code@[c.pc as int]) && c.stack@.len()
        - spec_pop_count(c.code@[c.pc as int]) + spec_push_count(c.code@[c.pc as int]) > 1024)
    ||| (e matches ExecutionError::Gas(GasError::OutOfGas { required, available }) && required
        > available && ((c.pc < c.code@.len() && required == sat64(
        step_base_cost(c.code@[c.pc as int], c),
    )) || (1 <= c.pc <= c.code@.len() && is_mem_touch_byte(c.code@[c.pc - 1]))))
    ||| (e == ExecutionError::Opcode(OpcodeError::InvalidJumpDestination) && 1 <= c.pc
        <= c.code@.len() && (c.code@[c.pc - 1] == 0x56 || c.code@[c.pc - 1] == 0x57))
    ||| (e is InvalidInstruction && ((c.pc < c.code@.len() && is_push_byte(
        c.code@[c.pc as int],
    ) && c.pc + 1 + push_width(c.code@[c.pc as int]) > c.code@.len()) || (1 <= c.pc
        <= c.code@.len() && is_valid_opcode_byte(c.code@[c.pc - 1]) && !is_implemented_byte(
        c.code@[c.pc - 1],
    ))))
    ||| (e matches ExecutionError::Memory(MemoryError::OutOfBounds { .. }) && 1 <= c.pc
        <= c.code@.len() && is_mem_touch_byte(c.code@[c.pc - 1]))
}

/// Only the stack and the gas meter differ between the two frames.
pub open spec fn only_stack_gas_changed(c0: ExecutionContext, c1: ExecutionContext) -> bool {
    c1 == (ExecutionContext { stack: c1.stack, gas_meter: c1.gas_meter, ..c0 })
}

/// Only the stack, the memory and the gas meter differ.
pub open spec fn only_stack_mem_gas_changed(c0: ExecutionContext, c1: ExecutionContext) -> bool {
    c1 == (ExecutionContext {
        stack: c1.stack,
        memory: c1.memory,
        gas_meter: c1.gas_meter,
        ..c0
    })
}

/// Run MLOAD: pop an offset, charge the expansion price of the touched
/// range, and push the 32 bytes read there; the memory itself is not grown
/// by a read.
fn exec_mload(ctx: &mut ExecutionContext) -> (r: Result<(), ExecutionError>)
    requires
        old(ctx).well_formed(),
        old(ctx).stack@.len() >= 1,
    ensures
        final(ctx).well_formed(),
        only_stack_gas_changed(*old(ctx), *final(ctx)),
        final(ctx).gas_meter.spec_limit() == old(ctx).gas_meter.spec_limit(),
        final(ctx).gas_meter.spec_costs() == old(ctx).gas_meter.spec_costs(),
        final(ctx).gas_meter.spec_available() <= old(ctx).gas_meter.spec_available(),
        ({
            let exp = expansion_cost_spec(
                old(ctx).memory@.len(),
                sat64(old(ctx).stack@.last().as_nat()) + 32,
            );
            let avail0 = old(ctx).gas_meter.spec_available();
            match r {
                Ok(()) => final(ctx).stack@.len() == old(ctx).stack@.len() && final(ctx).stack@
                    == old(ctx).stack@.drop_last().push(final(ctx).stack@.last()) && final(ctx).stack@.last().as_nat() == be_val(
                    read_spec(old(ctx).memory@, sat64(old(ctx).stack@.last().as_nat()), 32),
                ) && sat64(exp) <= avail0 && sat64(old(ctx).stack@.last().as_nat()) + 32
                    <= usize::MAX && final(ctx).gas_meter.spec_available() == avail0 - sat64(
                    exp,
                ),
                Err(e) => (e matches ExecutionError::Gas(
                    GasError::OutOfGas { required, available },
                ) && required == sat64(exp) && available == avail0 && required > available
                    && final(ctx).gas_meter.spec_available() == avail0) || (e matches
                    ExecutionError::Memory(MemoryError::OutOfBounds { .. }) && sat64(exp)
                    <= avail0 && sat64(old(ctx).stack@.last().as_nat()) + 32 > usize::MAX
                    && final(ctx).gas_meter.spec_available() == avail0 - sat64(exp)),
            }
        }),
{
    let off_word = match ctx.stack.pop() {
        Ok(v) => v,
        Err(_) => {
            return Err(ExecutionError::Stack(StackError::Underflow));
        },
    };
    let off = off_word.to_u64();
    let cost = crate::memory::expansion_cost_checked(ctx.memory.size(), off, 32);
    match ctx.gas_meter.consume(cost) {
        Ok(()) => {},
        Err(e) => {
            return Err(ExecutionError::Gas(e));
        },
    }
    if (off as u128) + 32 > (usize::MAX as u128) {
        return Err(
            ExecutionError::Memory(MemoryError::OutOfBounds { offset: 0, size: 32 }),
        );
    }
    let v = match ctx.memory.read_word(off as usize) {
        Ok(v) => v,
        Err(e) => {
            return Err(ExecutionError::Memory(e));
        },
    };
    match ctx.stack.push(v) {
        Ok(()) => Ok(()),
        Err(_) => Err(ExecutionError::Stack(StackError::Overflow)),
    }
}

/// Run MSTORE: pop an offset and a word, charge the expansion price, grow
/// the memory to cover the write, and store the word in big-endian order.
fn exec_mstore(ctx: &mut ExecutionContext) -> (r: Result<(), ExecutionError>)
    requires
        old(ctx).well_formed(),
        old(ctx).stack@.len() >= 2,
    ensures
        final(ctx).well_formed(),
        only_stack_mem_gas_changed(*old(ctx), *final(ctx)),
        final(ctx).gas_meter.spec_limit() == old(ctx).gas_meter.spec_limit(),
        final(ctx).gas_meter.spec_costs() == old(ctx).gas_meter.spec_costs(),
        final(ctx).gas_meter.spec_available() <= old(ctx).gas_meter.spec_available(),
        final(ctx).stack@ == old(ctx).stack@.drop_last().drop_last(),
        ({
            let off = sat64(old(ctx).stack@.last().as_nat());
            let exp = expansion_cost_spec(old(ctx).memory@.len(), (off + 32) as nat);
            let avail0 = old(ctx).gas_meter.spec_available();
            match r {
                Ok(()) => ({
                    let value = old(ctx).stack@[old(ctx).stack@.len() - 2];
                    &&& final(ctx).memory@.len() == crate::memory::grown(
                        old(ctx).memory@,
                        (off + 32) as nat,
                    ).len()
                    &&& be_val(final(ctx).memory@.subrange(off as int, off as int + 32))
                        == value.as_nat()
                    &&& forall|i: int|
                        0 <= i < final(ctx).memory@.len() && !(off <= i < off + 32) ==> final(ctx).memory@[i] == crate::memory::grown(
                            old(ctx).memory@,
                            (off + 32) as nat,
                        )[i]
                    &&& sat64(exp) <= avail0
                    &&& off + 32 <= usize::MAX
                    &&& final(ctx).gas_meter.spec_available() == avail0 - sat64(exp)
                }),
                Err(e) => final(ctx).memory@ == old(ctx).memory@ && ((e matches
                    ExecutionError::Gas(GasError::OutOfGas { required, available }) && required
                    == sat64(exp) && available == avail0 && required > available && final(ctx).gas_meter.spec_available() == avail0) || (e matches ExecutionError::Memory(
                    MemoryError::OutOfBounds { .. },
                ) && sat64(exp) <= avail0 && off + 32 > usize::MAX && final(ctx).gas_meter.spec_available() == avail0 - sat64(exp))),
            }
        }),
{
    let off_word = match ctx.stack.pop() {
        Ok(v) => v,
        Err(_) => {
            return Err(ExecutionError::Stack(StackError::Underflow));
        },
    };
    let value = match ctx.stack.pop() {
        Ok(v) => v,
        Err(_) => {
            return Err(ExecutionError::Stack(StackError::Underflow));
        },
    };
    let off = off_word.to_u64();
    let cost = crate::memory::expansion_cost_checked(ctx.memory.size(), off, 32);
    match ctx.gas_meter.consume(cost) {
        Ok(()) => {},
        Err(e) => {
            return Err(ExecutionError::Gas(e));
        },
    }
    if (off as u128) + 32 > (usize::MAX as u128) {
        return Err(
            ExecutionError::Memory(MemoryError::OutOfBounds { offset: 0, size: 32 }),
        );
    }
    match ctx.memory.write_word(off as usize, value) {
        Ok(()) => Ok(()),
        Err(e) => Err(ExecutionError::Memory(e)),
    }
}

/// Run MSTORE8: pop an offset and a word, charge the expansion price, and
/// store the word's lowest byte.
fn exec_mstore8(ctx: &mut ExecutionContext) -> (r: Result<(), ExecutionError>)
    requires
        old(ctx).well_formed(),
        old(ctx).stack@.len() >= 2,
    ensures
        final(ctx).well_formed(),
        only_stack_mem_gas_changed(*old(ctx), *final(ctx)),
        final(ctx).gas_meter.spec_limit() == old(ctx).gas_meter.spec_limit(),
        final(ctx).gas_meter.spec_costs() == old(ctx).gas_meter.spec_costs(),
        final(ctx).gas_meter.spec_available() <= old(ctx).gas_meter.spec_available(),
        final(ctx).stack@ == old(ctx).stack@.drop_last().drop_last(),
        ({
            let off = sat64(old(ctx).stack@.last().as_nat());
            let exp = expansion_cost_spec(old(ctx).memory@.len(), (off + 1) as nat);
            let avail0 = old(ctx).gas_meter.spec_available();
            match r {
                Ok(()) => ({
                    let value = old(ctx).stack@[old(ctx).stack@.len() - 2];
                    &&& final(ctx).memory@ == crate::memory::write_spec(
                        old(ctx).memory@,
                        off,
                        seq![(value.as_nat() % 256) as u8],
                    )
                    &&& sat64(exp) <= avail0
                    &&& off + 1 <= usize::MAX
                    &&& final(ctx).gas_meter.spec_available() == avail0 - sat64(exp)
                }),
                Err(e) => final(ctx).memory@ == old(ctx).memory@ && ((e matches
                    ExecutionError::Gas(GasError::OutOfGas { required, available }) && required
                    == sat64(exp) && available == avail0 && required > available && final(ctx).gas_meter.spec_available() == avail0) || (e matches ExecutionError::Memory(
                    MemoryError::OutOfBounds { .. },
                ) && sat64(exp) <= avail0 && off + 1 > usize::MAX && final(ctx).gas_meter.spec_available() == avail0 - sat64(exp))),
            }
        }),
{
    let off_word = match ctx.stack.pop() {
        Ok(v) => v,
        Err(_) => {
            return Err(ExecutionError::Stack(StackError::Underflow));
        },
    };
    let value = match ctx.stack.pop() {
        Ok(v) => v,
        Err(_) => {
            return Err(ExecutionError::Stack(StackError::Underflow));
        },
    };
    let off = off_word.to_u64();
    let cost = crate::memory::expansion_cost_checked(ctx.memory.size(), off, 1);
    match ctx.gas_meter.consume(cost) {
        Ok(()) => {},
        Err(e) => {
            return Err(ExecutionError::Gas(e));
        },
    }
    if (off as u128) + 1 > (usize::MAX as u128) {
        return Err(ExecutionError::Memory(MemoryError::OutOfBounds { offset: 0, size: 1 }));
    }
    let byte = value.low_u8();
    match ctx.memory.write_byte(off as usize, byte) {
        Ok(()) => Ok(()),
        Err(e) => Err(ExecutionError::Memory(e)),
    }
}

/// Run SLOAD: pop a key and push the callee account's storage value for it;
/// absent keys read as zero.
fn exec_sload(ctx: &mut ExecutionContext) -> (r: Result<(), ExecutionError>)
    requires
        old(ctx).well_formed(),
        old(ctx).stack@.len() >= 1,
    ensures
        final(ctx).well_formed(),
        r is Ok,
        only_stack_changed(*old(ctx), *final(ctx)),
        final(ctx).stack@ == old(ctx).stack@.drop_last().push(final(ctx).stack@.last()),
        final(ctx).stack@.last().as_nat() == ({
            let slots = prior_slots(old(ctx).storage.world(), old(ctx).address@);
            let k = old(ctx).stack@.last().as_nat();
            if slots.contains_key(k) {
                slots[k]
            } else {
                0nat
            }
        }),
{
    let key = match ctx.stack.pop() {
        Ok(v) => v,
        Err(_) => {
            return Err(ExecutionError::Stack(StackError::Underflow));
        },
    };
    let value = ctx.storage.get_storage(&ctx.address, &key);
    match ctx.stack.push(value) {
        Ok(()) => Ok(()),
        Err(_) => Err(ExecutionError::Stack(StackError::Overflow)),
    }
}

/// Run SSTORE: pop a key and a value and write the callee account's slot;
/// writing zero removes the key.
fn exec_sstore(ctx: &mut ExecutionContext) -> (r: Result<(), ExecutionError>)
    requires
        old(ctx).well_formed(),
        old(ctx).stack@.len() >= 2,
    ensures
        final(ctx).well_formed(),
        r is Ok,
        *final(ctx) == (ExecutionContext {
            stack: final(ctx).stack,
            storage: final(ctx).storage,
            ..*old(ctx)
        }),
        final(ctx).stack@ == old(ctx).stack@.drop_last().drop_last(),
        updated_at(old(ctx).storage.world(), final(ctx).storage.world(), old(ctx).address@),
        final(ctx).storage.world()[old(ctx).address@].storage_map() == ({
            let k = old(ctx).stack@.last().as_nat();
            let v = old(ctx).stack@[old(ctx).stack@.len() - 2].as_nat();
            if v == 0 {
                prior_slots(old(ctx).storage.world(), old(ctx).address@).remove(k)
            } else {
                prior_slots(old(ctx).storage.world(), old(ctx).address@).insert(k, v)
            }
        }),
        final(ctx).storage.world()[old(ctx).address@].balance == prior_balance(
            old(ctx).storage.world(),
            old(ctx).address@,
        ),
{
    let key = match ctx.stack.pop() {
        Ok(v) => v,
        Err(_) => {
            return Err(ExecutionError::Stack(StackError::Underflow));
        },
    };
    let value = match ctx.stack.pop() {
        Ok(v) => v,
        Err(_) => {
            return Err(ExecutionError::Stack(StackError::Underflow));
        },
    };
    let addr = ctx.address;
    ctx.storage.set_storage(addr, key, value);
    Ok(())
}

/// Run SHA3: pop an offset and a size, charge the expansion price, and push
/// the Keccak-256 digest of that memory range; reads do not grow memory.
fn exec_sha3(ctx: &mut ExecutionContext) -> (r: Result<(), ExecutionError>)
    requires
        old(ctx).well_formed(),
        old(ctx).stack@.len() >= 2,
    ensures
        final(ctx).well_formed(),
        only_stack_gas_changed(*old(ctx), *final(ctx)),
        final(ctx).gas_meter.spec_limit() == old(ctx).gas_meter.spec_limit(),
        final(ctx).gas_meter.spec_costs() == old(ctx).gas_meter.spec_costs(),
        final(ctx).gas_meter.spec_available() <= old(ctx).gas_meter.spec_available(),
        ({
            let off = sat64(old(ctx).stack@.last().as_nat());
            let size = sat64(old(ctx).stack@[old(ctx).stack@.len() - 2].as_nat());
            let exp = expansion_cost_spec(old(ctx).memory@.len(), off + size);
            let avail0 = old(ctx).gas_meter.spec_available();
            match r {
                Ok(()) => final(ctx).stack@.len() == old(ctx).stack@.len() - 1 && final(ctx).stack@ == old(ctx).stack@.drop_last().drop_last().push(
                    final(ctx).stack@.last(),
                ) && final(ctx).stack@.last().as_nat() == be_val(
                    keccak256_of(read_spec(old(ctx).memory@, off, size)),
                ) && sat64(exp) <= avail0 && off + size <= usize::MAX && final(ctx).gas_meter.spec_available() == avail0 - sat64(exp),
                Err(e) => (e matches ExecutionError::Gas(
                    GasError::OutOfGas { required, available },
                ) && required == sat64(exp) && available == avail0 && required > available
                    && final(ctx).gas_meter.spec_available() == avail0) || (e matches
                    ExecutionError::Memory(MemoryError::OutOfBounds { .. }) && sat64(exp)
                    <= avail0 && off + size > usize::MAX && final(ctx).gas_meter.spec_available() == avail0 - sat64(exp)),
            }
        }),
{
    let off_word = match ctx.stack.pop() {
        Ok(v) => v,
        Err(_) => {
            return Err(ExecutionError::Stack(StackError::Underflow));
        },
    };
    let size_word = match ctx.stack.pop() {
        Ok(v) => v,
        Err(_) => {
            return Err(ExecutionError::Stack(StackError::Underflow));
        },
    };
    let off = off_word.to_u64();
    let size = size_word.to_u64();
    let cost = crate::memory::expansion_cost_checked(ctx.memory.size(), off, size);
    match ctx.gas_meter.consume(cost) {
        Ok(()) => {},
        Err(e) => {
            return Err(ExecutionError::Gas(e));
        },
    }
    if (off as u128) + (size as u128) > (usize::MAX as u128) {
        return Err(ExecutionError::Memory(MemoryError::OutOfBounds { offset: 0, size: 0 }));
    }
    let data = match ctx.memory.read_bytes(off as usize, size as usize) {
        Ok(d) => d,
        Err(e) => {
            return Err(ExecutionError::Memory(e));
        },
    };
    let digest = crate::crypto::keccak256(data.as_slice());
    let v = Uint256::from_bytes_be(digest.as_slice());
    match ctx.stack.push(v) {
        Ok(()) => Ok(()),
        Err(_) => Err(ExecutionError::Stack(StackError::Overflow)),
    }
}

/// Run CODECOPY: pop a destination, a source and a size, charge the
/// expansion price, and copy that range of the code into memory with zeros
/// past the end of the code.
fn exec_codecopy(ctx: &mut ExecutionContext) -> (r: Result<(), ExecutionError>)
    requires
        old(ctx).well_formed(),
        old(ctx).stack@.len() >= 3,
    ensures
        final(ctx).well_formed(),
        only_stack_mem_gas_changed(*old(ctx), *final(ctx)),
        final(ctx).gas_meter.spec_limit() == old(ctx).gas_meter.spec_limit(),
        final(ctx).gas_meter.spec_costs() == old(ctx).gas_meter.spec_costs(),
        final(ctx).gas_meter.spec_available() <= old(ctx).gas_meter.spec_available(),
        final(ctx).stack@ == old(ctx).stack@.drop_last().drop_last().drop_last(),
        ({
            let dst = sat64(old(ctx).stack@.last().as_nat());
            let size = sat64(old(ctx).stack@[old(ctx).stack@.len() - 3].as_nat());
            let exp = expansion_cost_spec(old(ctx).memory@.len(), dst + size);
            let avail0 = old(ctx).gas_meter.spec_available();
            match r {
                Ok(()) => final(ctx).memory@ == crate::memory::write_spec(
                    old(ctx).memory@,
                    dst,
                    read_spec(
                        old(ctx).code@,
                        sat64(old(ctx).stack@[old(ctx).stack@.len() - 2].as_nat()),
                        size,
                    ),
                ) && sat64(exp) <= avail0 && dst + size <= usize::MAX && final(ctx).gas_meter.spec_available() == avail0 - sat64(exp),
                Err(e) => final(ctx).memory@ == old(ctx).memory@ && ((e matches
                    ExecutionError::Gas(GasError::OutOfGas { required, available }) && required
                    == sat64(exp) && available == avail0 && required > available && final(ctx).gas_meter.spec_available() == avail0) || (e matches ExecutionError::Memory(
                    MemoryError::OutOfBounds { .. },
                ) && sat64(exp) <= avail0 && dst + size > usize::MAX && final(ctx).gas_meter.spec_available() == avail0 - sat64(exp))),
            }
        }),
{
    let dst_word = match ctx.stack.pop() {
        Ok(v) => v,
        Err(_) => {
            return Err(ExecutionError::Stack(StackError::Underflow));
        },
    };
    let src_word = match ctx.stack.pop() {
        Ok(v) => v,
        Err(_) => {
            return Err(ExecutionError::Stack(StackError::Underflow));
        },
    };
    let size_word = match ctx.stack.pop() {
        Ok(v) => v,
        Err(_) => {
            return Err(ExecutionError::Stack(StackError::Underflow));
        },
    };
    let dst = dst_word.to_u64();
    let src = src_word.to_u64();
    let size = size_word.to_u64();
    let cost = crate::memory::expansion_cost_checked(ctx.memory.size(), dst, size);
    match ctx.gas_meter.consume(cost) {
        Ok(()) => {},
        Err(e) => {
            return Err(ExecutionError::Gas(e));
        },
    }
    if (dst as u128) + (size as u128) > (usize::MAX as u128) {
        return Err(ExecutionError::Memory(MemoryError::OutOfBounds { offset: 0, size: 0 }));
    }
    let size_us = size as usize;
    let code = ctx.code.as_slice();
    let n = code.len();
    let mut buf: Vec<u8> = Vec::new();
    let mut i: usize = 0;
    while i < size_us
        invariant
            i <= size_us,
            n == ctx.code@.len(),
            code@ == ctx.code@,
            buf@.len() == i,
            forall|j: int|
                0 <= j < i ==> buf@[j] == read_spec(ctx.code@, src as nat, size_us as nat)[j],
        decreases size_us - i,
    {
        let byte = if (src as u128) + (i as u128) < (n as u128) {
            code[src as usize + i]
        } else {
            0
        };
        buf.push(byte);
        i += 1;
    }
    proof {
        assert(buf@ =~= read_spec(ctx.code@, src as nat, size_us as nat));
    }
    match ctx.memory.write_bytes(dst as usize, buf.as_slice()) {
        Ok(()) => Ok(()),
        Err(e) => Err(ExecutionError::Memory(e)),
    }
}

/// Run a LOG opcode: pop an offset and a size, then as many topic words as
/// the opcode names, charge the expansion price, and append one entry whose
/// data is the memory range and whose address is the callee.
fn exec_log(ctx: &mut ExecutionContext, topic_count: usize) -> (r: Result<(), ExecutionError>)
    requires
        old(ctx).well_formed(),
        topic_count <= 4,
        old(ctx).stack@.len() >= 2 + topic_count,
    ensures
        final(ctx).well_formed(),
        *final(ctx) == (ExecutionContext {
            stack: final(ctx).stack,
            gas_meter: final(ctx).gas_meter,
            event_logger: final(ctx).event_logger,
            ..*old(ctx)
        }),
        final(ctx).gas_meter.spec_limit() == old(ctx).gas_meter.spec_limit(),
        final(ctx).gas_meter.spec_costs() == old(ctx).gas_meter.spec_costs(),
        final(ctx).gas_meter.spec_available() <= old(ctx).gas_meter.spec_available(),
        final(ctx).stack@ == old(ctx).stack@.subrange(
            0,
            old(ctx).stack@.len() - 2 - topic_count,
        ),
        ({
            let off = sat64(old(ctx).stack@.last().as_nat());
            let size = sat64(old(ctx).stack@[old(ctx).stack@.len() - 2].as_nat());
            let exp = expansion_cost_spec(old(ctx).memory@.len(), off + size);
            let avail0 = old(ctx).gas_meter.spec_available();
            match r {
                Ok(()) => ({
                    let entry = final(ctx).event_logger@.last();
                    &&& final(ctx).event_logger@.len() == old(ctx).event_logger@.len() + 1
                    &&& final(ctx).event_logger@.drop_last() == old(ctx).event_logger@
                    &&& entry.address == old(ctx).address
                    &&& entry.topics@.len() == topic_count
                    &&& forall|k: int|
                        0 <= k < topic_count ==> be_val(#[trigger] entry.topics@[k]@) == old(ctx).stack@[old(ctx).stack@.len() - 3 - k].as_nat()
                    &&& entry.data@ == read_spec(old(ctx).memory@, off, size)
                    &&& sat64(exp) <= avail0
                    &&& off + size <= usize::MAX
                    &&& final(ctx).gas_meter.spec_available() == avail0 - sat64(exp)
                }),
                Err(e) => final(ctx).event_logger@ == old(ctx).event_logger@ && ((e matches
                    ExecutionError::Gas(GasError::OutOfGas { required, available }) && required
                    == sat64(exp) && available == avail0 && required > available && final(ctx).gas_meter.spec_available() == avail0) || (e matches ExecutionError::Memory(
                    MemoryError::OutOfBounds { .. },
                ) && sat64(exp) <= avail0 && off + size > usize::MAX && final(ctx).gas_meter.spec_available() == avail0 - sat64(exp))),
            }
        }),
{
    let off_word = match ctx.stack.pop() {
        Ok(v) => v,
        Err(_) => {
            return Err(ExecutionError::Stack(StackError::Underflow));
        },
    };
    let size_word = match ctx.stack.pop() {
        Ok(v) => v,
        Err(_) => {
            return Err(ExecutionError::Stack(StackError::Underflow));
        },
    };
    let mut topics: Vec<crate::hash::Hash> = Vec::new();
    let mut k: usize = 0;
    while k < topic_count
        invariant
            k <= topic_count,
            topic_count <= 4,
            old(ctx).stack@.len() >= 2 + topic_count,
            ctx.stack@ == old(ctx).stack@.subrange(0, old(ctx).stack@.len() - 2 - k),
            ctx.stack.capacity() == old(ctx).stack.capacity(),
            *ctx == (ExecutionContext { stack: ctx.stack, ..*old(ctx) }),
            topics@.len() == k,
            forall|j: int|
                0 <= j < k ==> be_val(#[trigger] topics@[j]@) == old(ctx).stack@[old(ctx).stack@.len() - 3 - j].as_nat(),
        decreases topic_count - k,
    {
        let t = match ctx.stack.pop() {
            Ok(v) => v,
            Err(_) => {
                return Err(ExecutionError::Stack(StackError::Underflow));
            },
        };
        let tb = t.to_bytes_be();
        let h = crate::hash::Hash::from_vec(&tb);
        topics.push(h);
        k += 1;
    }
    let off = off_word.to_u64();
    let size = size_word.to_u64();
    let cost = crate::memory::expansion_cost_checked(ctx.memory.size(), off, size);
    match ctx.gas_meter.consume(cost) {
        Ok(()) => {},
        Err(e) => {
            return Err(ExecutionError::Gas(e));
        },
    }
    if (off as u128) + (size as u128) > (usize::MAX as u128) {
        return Err(ExecutionError::Memory(MemoryError::OutOfBounds { offset: 0, size: 0 }));
    }
    let data = match ctx.memory.read_bytes(off as usize, size as usize) {
        Ok(d) => d,
        Err(e) => {
            return Err(ExecutionError::Memory(e));
        },
    };
    let addr = ctx.address;
    ctx.event_logger.log(addr, topics, Bytes::new(data));
    Ok(())
}

/// Run RETURN or REVERT: pop an offset and a size, capture that memory
/// range as the frame's return data, and halt; RETURN halts successfully,
/// REVERT halts with failure.
fn exec_halt_with_data(ctx: &mut ExecutionContext, success: bool) -> (r: Result<
    (),
    ExecutionError,
>)
    requires
        old(ctx).well_formed(),
        old(ctx).stack@.len() >= 2,
    ensures
        final(ctx).well_formed(),
        *final(ctx) == (ExecutionContext {
            stack: final(ctx).stack,
            return_data: final(ctx).return_data,
            should_continue: final(ctx).should_continue,
            success: final(ctx).success,
            ..*old(ctx)
        }),
        final(ctx).stack@ == old(ctx).stack@.drop_last().drop_last(),
        ({
            let off = sat64(old(ctx).stack@.last().as_nat());
            let size = sat64(old(ctx).stack@[old(ctx).stack@.len() - 2].as_nat());
            match r {
                Ok(()) => !final(ctx).should_continue && final(ctx).success == success && final(ctx).return_data@ == read_spec(old(ctx).memory@, off, size) && off + size
                    <= usize::MAX,
                Err(e) => e matches ExecutionError::Memory(MemoryError::OutOfBounds { .. })
                    && off + size > usize::MAX && final(ctx).should_continue == old(ctx).should_continue && final(ctx).success == old(ctx).success && final(ctx).return_data == old(ctx).return_data,
            }
        }),
{
    let off_word = match ctx.stack.pop() {
        Ok(v) => v,
        Err(_) => {
            return Err(ExecutionError::Stack(StackError::Underflow));
        },
    };
    let size_word = match ctx.stack.pop() {
        Ok(v) => v,
        Err(_) => {
            return Err(ExecutionError::Stack(StackError::Underflow));
        },
    };
    let off = off_word.to_u64();
    let size = size_word.to_u64();
    if (off as u128) + (size as u128) > (usize::MAX as u128) {
        return Err(ExecutionError::Memory(MemoryError::OutOfBounds { offset: 0, size: 0 }));
    }
    let data = match ctx.memory.read_bytes(off as usize, size as usize) {
        Ok(d) => d,
        Err(e) => {
            return Err(ExecutionError::Memory(e));
        },
    };
    ctx.return_data = Bytes::new(data);
    let reason = if success {
        "RETURN instruction".to_owned()
    } else {
        "REVERT instruction".to_owned()
    };
    ctx.halt(success, reason);
    Ok(())
}

/// The fixed gas price of an opcode, read from the cost table; opcodes with
/// a dynamic component are priced separately.
pub open spec fn static_cost(b: u8, c: GasCosts) -> nat {
    if b == 0x00 {
        0nat
    } else if b == 0x01 {
        c.add as nat
    } else if b == 0x02 {
        c.mul as nat
    } else if b == 0x03 {
        c.sub as nat
    } else if b == 0x04 {
        c.div as nat
    } else if b == 0x05 {
        c.sdiv as nat
    } else if b == 0x06 {
        c.mod_ as nat
    } else if b == 0x07 {
        c.smod as nat
    } else if b == 0x08 {
        c.addmod as nat
    } else if b == 0x09 {
        c.mulmod as nat
    } else if b == 0x0b {
        c.signextend as nat
    } else if 0x10 <= b <= 0x19 {
        c.lt as nat
    } else if b == 0x1a {
        c.byte as nat
    } else if b == 0x1b {
        c.shl as nat
    } else if b == 0x1c {
        c.shr as nat
    } else if b == 0x1d {
        c.sar as nat
    } else if b == 0x30 {
        c.address as nat
    } else if b == 0x31 {
        c.balance as nat
    } else if b == 0x32 {
        c.origin as nat
    } else if b == 0x33 {
        c.caller as nat
    } else if b == 0x34 {
        c.callvalue as nat
    } else if b == 0x35 {
        c.calldataload as nat
    } else if b == 0x36 {
        c.calldatasize as nat
    } else if b == 0x37 {
        c.calldatacopy as nat
    } else if b == 0x38 {
        c.codesize as nat
    } else if b == 0x39 {
        c.codecopy as nat
    } else if b == 0x3a {
        c.gasprice as nat
    } else if b == 0x3b {
        c.extcodesize as nat
    } else if b == 0x3c {
        c.extcodecopy as nat
    } else if b == 0x3d {
        c.returndatasize as nat
    } else if b == 0x3e {
        c.returndatacopy as nat
    } else if b == 0x3f {
        c.extcodehash as nat
    } else if b == 0x40 {
        c.blockhash as nat
    } else if 0x41 <= b <= 0x46 {
        c.coinbase as nat
    } else if b == 0x47 {
        c.selfbalance as nat
    } else if b == 0x50 {
        c.pop as nat
    } else if b == 0x51 {
        c.mload as nat
    } else if b == 0x52 {
        c.mstore as nat
    } else if b == 0x53 {
        c.mstore8 as nat
    } else if b == 0x54 {
        c.sload as nat
    } else if b == 0x56 {
        c.jump as nat
    } else if b == 0x57 {
        c.jumpi as nat
    } else if b == 0x58 {
        c.pc as nat
    } else if b == 0x59 {
        c.msize as nat
    } else if b == 0x5b {
        c.jumpdest as nat
    } else if is_push_byte(b) {
        c.push as nat
    } else if is_dup_byte(b) {
        c.dup as nat
    } else if is_swap_byte(b) {
        c.swap as nat
    } else if b == 0xf0 || b == 0xf5 {
        c.create as nat
    } else if b == 0xf1 || b == 0xf2 || b == 0xf4 || b == 0xfa {
        c.call as nat
    } else if b == 0xf3 {
        c.return_ as nat
    } else if b == 0xfd {
        c.revert as nat
    } else if b == 0xff {
        c.selfdestruct as nat
    } else {
        c.base as nat
    }
}

/// The gas charged before an opcode is dispatched: the fixed table price,
/// plus the operand-dependent part for EXP, KECCAK256, SSTORE and the LOG
/// family, read by peeking at the stack. Memory expansion is charged inside
/// the opcodes that touch memory.
pub open spec fn step_base_cost(b: u8, ctx: ExecutionContext) -> nat {
    let c = ctx.gas_meter.spec_costs();
    let len = ctx.stack@.len();
    if b == 0x0a {
        (c.exp + 10 * nat_byte_len(ctx.stack@[len - 2].as_nat())) as nat
    } else if b == 0x20 {
        (c.keccak256 + crate::memory::word_count(sat64(ctx.stack@[len - 2].as_nat()))
            * c.keccak256_word) as nat
    } else if b == 0x55 {
        let slots = prior_slots(ctx.storage.world(), ctx.address@);
        let k = ctx.stack@[len - 1].as_nat();
        let cur: nat = if slots.contains_key(k) {
            slots[k]
        } else {
            0nat
        };
        sstore_cost_spec(cur, ctx.stack@[len - 2].as_nat(), c) as nat
    } else if 0xa0 <= b <= 0xa4 {
        let base: nat = if b == 0xa0 {
            c.log0 as nat
        } else if b == 0xa1 {
            c.log1 as nat
        } else if b == 0xa2 {
            c.log2 as nat
        } else if b == 0xa3 {
            c.log3 as nat
        } else {
            c.log4 as nat
        };
        (base + sat64(ctx.stack@[len - 2].as_nat()) * c.log_data) as nat
    } else {
        static_cost(b, c)
    }
}

/// Read the fixed gas price of an opcode from a cost table.
fn static_cost_of(b: u8, c: &GasCosts) -> (r: u64)
    ensures
        r == static_cost(b, *c),
{
    if b == 0x00 {
        0
    } else if b == 0x01 {
        c.add
    } else if b == 0x02 {
        c.mul
    } else if b == 0x03 {
        c.sub
    } else if b == 0x04 {
        c.div
    } else if b == 0x05 {
        c.sdiv
    } else if b == 0x06 {
        c.mod_
    } else if b == 0x07 {
        c.smod
    } else if b == 0x08 {
        c.addmod
    } else if b == 0x09 {
        c.mulmod
    } else if b == 0x0b {
        c.signextend
    } else if 0x10 <= b && b <= 0x19 {
        c.lt
    } else if b == 0x1a {
        c.byte
    } else if b == 0x1b {
        c.shl
    } else if b == 0x1c {
        c.shr
    } else if b == 0x1d {
        c.sar
    } else if b == 0x30 {
        c.address
    } else if b == 0x31 {
        c.balance
    } else if b == 0x32 {
        c.origin
    } else if b == 0x33 {
        c.caller
    } else if b == 0x34 {
        c.callvalue
    } else if b == 0x35 {
        c.calldataload
    } else if b == 0x36 {
        c.calldatasize
    } else if b == 0x37 {
        c.calldatacopy
    } else if b == 0x38 {
        c.codesize
    } else if b == 0x39 {
        c.codecopy
    } else if b == 0x3a {
        c.gasprice
    } else if b == 0x3b {
        c.extcodesize
    } else if b == 0x3c {
        c.extcodecopy
    } else if b == 0x3d {
        c.returndatasize
    } else if b == 0x3e {
        c.returndatacopy
    } else if b == 0x3f {
        c.extcodehash
    } else if b == 0x40 {
        c.blockhash
    } else if 0x41 <= b && b <= 0x46 {
        c.coinbase
    } else if b == 0x47 {
        c.selfbalance
    } else if b == 0x50 {
        c.pop
    } else if b == 0x51 {
        c.mload
    } else if b == 0x52 {
        c.mstore
    } else if b == 0x53 {
        c.mstore8
    } else if b == 0x54 {
        c.sload
    } else if b == 0x56 {
        c.jump
    } else if b == 0x57 {
        c.jumpi
    } else if b == 0x58 {
        c.pc
    } else if b == 0x59 {
        c.msize
    } else if b == 0x5b {
        c.jumpdest
    } else if 0x60 <= b && b <= 0x7f {
        c.push
    } else if 0x80 <= b && b <= 0x8f {
        c.dup
    } else if 0x90 <= b && b <= 0x9f {
        c.swap
    } else if b == 0xf0 || b == 0xf5 {
        c.create
    } else if b == 0xf1 || b == 0xf2 || b == 0xf4 || b == 0xfa {
        c.call
    } else if b == 0xf3 {
        c.return_
    } else if b == 0xfd {
        c.revert
    } else if b == 0xff {
        c.selfdestruct
    } else {
        c.base
    }
}

/// Compute the gas charged before dispatching an opcode, peeking at the
/// operands that price EXP, KECCAK256, SSTORE and the LOG family; the
/// result saturates at the largest 64-bit value.
fn gas_cost_for(ctx: &ExecutionContext, b: u8) -> (r: u64)
    requires
        ctx.well_formed(),
        ctx.stack@.len() >= spec_pop_count(b),
        ctx.gas_meter.spec_costs() == default_costs(),
    ensures
        r as nat == sat64(step_base_cost(b, *ctx)),
{
    let costs = *ctx.gas_meter.costs();
    if b == 0x0a {
        let e = match ctx.stack.peek_at(1) {
            Ok(v) => *v,
            Err(_) => {
                return 0;
            },
        };
        let bl = e.byte_len();
        proof {
            crate::numbytes::lemma_pow256_limbs();
            crate::uint256::lemma_byte_len_le(e.as_nat(), 32);
        }
        costs.exp + 10 * (bl as u64)
    } else if b == 0x20 {
        let size_word = match ctx.stack.peek_at(1) {
            Ok(v) => *v,
            Err(_) => {
                return 0;
            },
        };
        let size = size_word.to_u64();
        let words: u128 = (size as u128 + 31) / 32;
        proof {
            assert(words * 6 + 30 < 0xffffffffffffffff) by (nonlinear_arith)
                requires
                    words == (size as u128 + 31) / 32,
                    size <= u64::MAX,
            ;
        }
        let cost: u128 = costs.keccak256 as u128 + words * costs.keccak256_word as u128;
        cost as u64
    } else if b == 0x55 {
        let key = match ctx.stack.peek_at(0) {
            Ok(v) => *v,
            Err(_) => {
                return 0;
            },
        };
        let new_value = match ctx.stack.peek_at(1) {
            Ok(v) => *v,
            Err(_) => {
                return 0;
            },
        };
        let current = ctx.storage.get_storage(&ctx.address, &key);
        ctx.gas_meter.sstore_cost(&current, &new_value, &current)
    } else if 0xa0 <= b && b <= 0xa4 {
        let size_word = match ctx.stack.peek_at(1) {
            Ok(v) => *v,
            Err(_) => {
                return 0;
            },
        };
        let size = size_word.to_u64();
        let base: u64 = if b == 0xa0 {
            costs.log0
        } else if b == 0xa1 {
            costs.log1
        } else if b == 0xa2 {
            costs.log2
        } else if b == 0xa3 {
            costs.log3
        } else {
            costs.log4
        };
        proof {
            assert(size as u128 * (costs.log_data as u128) <= 0xffffffffffffffffu128
                * 0xffffffffffffffffu128) by (nonlinear_arith)
                requires
                    size as u128 <= 0xffffffffffffffffu128,
                    costs.log_data as u128 <= 0xffffffffffffffffu128,
            ;
        }
        let cost: u128 = base as u128 + size as u128 * costs.log_data as u128;
        if cost > 0xffffffffffffffff {
            u64::MAX
        } else {
            cost as u64
        }
    } else {
        static_cost_of(b, &costs)
    }
}

/// Everything that a step never touches: the code, the call parameters, the
/// block and transaction context, and the gas meter's budget and table.
pub open spec fn frame_params_kept(c0: ExecutionContext, c1: ExecutionContext) -> bool {
    &&& c1.code == c0.code
    &&& c1.address == c0.address
    &&& c1.caller == c0.caller
    &&& c1.call_value == c0.call_value
    &&& c1.input_data == c0.input_data
    &&& c1.block_context == c0.block_context
    &&& c1.transaction_context == c0.transaction_context
    &&& c1.gas_meter.spec_limit() == c0.gas_meter.spec_limit()
    &&& c1.gas_meter.spec_costs() == c0.gas_meter.spec_costs()
}

/// One successful instruction: how a running frame moves to its successor.
/// This is the machine's transition relation, written over frames alone.
/// Executor::step ensures it of every step that returns Ok, and the frame
/// execute ends with is reachable from the starting frame by a chain of
/// these, so a report can only come from a run that really took the steps.
pub open spec fn step_ok_rel(c0: ExecutionContext, c1: ExecutionContext) -> bool {
    let b = c0.code@[c0.pc as int];
    let len0 = c0.stack@.len();
    &&& c0.pc < c0.code@.len()
    &&& c0.should_continue
    &&& frame_params_kept(c0, c1)
    &&& is_valid_opcode_byte(b)
    &&& c1.stack@.len() == len0 - spec_pop_count(b) + spec_push_count(b)
    &&& c0.gas_meter.spec_available() - c1.gas_meter.spec_available() == sat64(
        step_base_cost(b, c0),
    ) + sat64(step_expansion_cost(b, c0))
    &&& (c1.gas_meter.spec_available() < c0.gas_meter.spec_available() || !c1.should_continue)
    &&& (is_alu2_byte(b) ==> c1.stack@ == c0.stack@.drop_last().drop_last().push(
        c1.stack@.last(),
    ) && c1.stack@.last().as_nat() == alu2_result(b, c0.stack@.last(), c0.stack@[len0 - 2]))
    &&& (is_alu1_byte(b) ==> c1.stack@ == c0.stack@.drop_last().push(c1.stack@.last())
        && c1.stack@.last().as_nat() == alu1_result(b, c0.stack@.last()))
    &&& (is_push_byte(b) ==> c1.stack@ == c0.stack@.push(c1.stack@.last())
        && c1.stack@.last().as_nat() == be_val(
        c0.code@.subrange(c0.pc + 1, c0.pc + 1 + push_width(b)),
    ) && c1.pc == c0.pc + 1 + push_width(b))
    &&& (is_dup_byte(b) ==> c1.stack@ == c0.stack@.push(c0.stack@[len0 - 1 - (b - 0x80)]))
    &&& (b == 0x50 ==> c1.stack@ == c0.stack@.drop_last())
    &&& (is_info_byte(b) ==> c1.stack@ == c0.stack@.push(c1.stack@.last())
        && c1.stack@.last().as_nat() == info_value(
        b,
        ExecutionContext { pc: (c0.pc + 1) as usize, ..c0 },
    ))
    &&& (b == 0x54 ==> c1.stack@.last().as_nat() == ({
        let slots = prior_slots(c0.storage.world(), c0.address@);
        let k = c0.stack@.last().as_nat();
        if slots.contains_key(k) {
            slots[k]
        } else {
            0nat
        }
    }))
    &&& (b == 0x55 ==> updated_at(c0.storage.world(), c1.storage.world(), c0.address@)
        && c1.storage.world()[c0.address@].storage_map() == ({
        let k = c0.stack@.last().as_nat();
        let v = c0.stack@[len0 - 2].as_nat();
        if v == 0 {
            prior_slots(c0.storage.world(), c0.address@).remove(k)
        } else {
            prior_slots(c0.storage.world(), c0.address@).insert(k, v)
        }
    }))
    &&& (b == 0x56 ==> crate::validation::jumpdest_set(c0.code@, 0).contains(
        sat64(c0.stack@.last().as_nat()),
    ) && c1.pc == sat64(c0.stack@.last().as_nat()))
    &&& (b == 0x57 ==> c1.stack@ == c0.stack@.drop_last().drop_last() && (
    c0.stack@[len0 - 2].as_nat() == 0 && c1.pc == c0.pc + 1
        || c0.stack@[len0 - 2].as_nat() != 0 && crate::validation::jumpdest_set(
        c0.code@,
        0,
    ).contains(sat64(c0.stack@.last().as_nat())) && c1.pc == sat64(
        c0.stack@.last().as_nat(),
    )))
    &&& (b == 0x00 ==> !c1.should_continue && c1.success)
    &&& ((b == 0xf3 || b == 0xfd) ==> !c1.should_continue && c1.success == (b == 0xf3)
        && c1.return_data@ == read_spec(
        c0.memory@,
        sat64(c0.stack@.last().as_nat()),
        sat64(c0.stack@[len0 - 2].as_nat()),
    ))
    &&& (b == 0x51 ==> c1.stack@.last().as_nat() == be_val(
        read_spec(c0.memory@, sat64(c0.stack@.last().as_nat()), 32),
    ))
    &&& (b == 0x52 ==> be_val(
        c1.memory@.subrange(
            sat64(c0.stack@.last().as_nat()) as int,
            sat64(c0.stack@.last().as_nat()) as int + 32,
        ),
    ) == c0.stack@[len0 - 2].as_nat())
    &&& (b == 0x20 ==> c1.stack@.last().as_nat() == be_val(
        keccak256_of(
            read_spec(
                c0.memory@,
                sat64(c0.stack@.last().as_nat()),
                sat64(c0.stack@[len0 - 2].as_nat()),
            ),
        ),
    ))
    &&& (0xa0 <= b <= 0xa4 ==> c1.event_logger@.len() == c0.event_logger@.len() + 1
        && c1.event_logger@.last().address == c0.address && c1.event_logger@.last().data@
        == read_spec(
        c0.memory@,
        sat64(c0.stack@.last().as_nat()),
        sat64(c0.stack@[len0 - 2].as_nat()),
    ))
    &&& (c1.should_continue ==> c1.return_data == c0.return_data && c1.success == c0.success)
    &&& c0.event_logger@.len() <= c1.event_logger@.len()
    &&& c0.event_logger@ == c1.event_logger@.subrange(0, c0.event_logger@.len() as int)
}

/// One faulting instruction: the frame left behind witnesses the fault and
/// keeps the observables; Executor::step ensures it of every failing step.
pub open spec fn step_err_rel(c0: ExecutionContext, c1: ExecutionContext, e: ExecutionError) -> bool {
    &&& c0.pc < c0.code@.len()
    &&& c0.should_continue
    &&& frame_params_kept(c0, c1)
    &&& c1.gas_meter.spec_available() <= c0.gas_meter.spec_available()
    &&& trap_condition(e, c1)
    &&& c1.return_data == c0.return_data
    &&& c1.event_logger@ == c0.event_logger@
    &&& c1.should_continue
    &&& c1.success == c0.success
    &&& c1.memory@ == c0.memory@
    &&& c1.storage.world() == c0.storage.world()
}

/// A frame reached from another by a chain of n successful instructions.
pub open spec fn steps_reach(c0: ExecutionContext, c1: ExecutionContext, n: nat) -> bool
    decreases n,
{
    if n == 0 {
        c1 == c0
    } else {
        exists|mid: ExecutionContext|
            steps_reach(c0, mid, (n - 1) as nat) && step_ok_rel(mid, c1)
    }
}

/// The frame after the meter is drained on a gas fault: nothing but the
/// remaining gas changed, and it is zero.
pub open spec fn gas_drained(c0: ExecutionContext, c1: ExecutionContext) -> bool {
    &&& c1 == (ExecutionContext { gas_meter: c1.gas_meter, ..c0 })
    &&& c1.gas_meter.spec_limit() == c0.gas_meter.spec_limit()
    &&& c1.gas_meter.spec_costs() == c0.gas_meter.spec_costs()
    &&& c1.gas_meter.spec_available() == 0
}

/// Prefix preservation chains: a list that keeps one list as its prefix,

/// Prefix preservation chains: a list that keeps one list as its prefix,
/// kept in turn as a prefix of a third, leaves the first a prefix of the
/// third.
proof fn lemma_log_prefix_chain(base: Seq<EventLog>, mid: Seq<EventLog>, cur: Seq<EventLog>)
    requires
        base == mid.subrange(0, base.len() as int),
        base.len() <= mid.len(),
        mid == cur.subrange(0, mid.len() as int),
        mid.len() <= cur.len(),
    ensures
        base == cur.subrange(0, base.len() as int),
        base.len() <= cur.len(),
{
    assert forall|i: int| 0 <= i < base.len() implies cur[i] == base[i] by {
        assert(base[i] == mid[i]);
        assert(mid[i] == cur[i]);
    }
    assert(base =~= cur.subrange(0, base.len() as int));
}

/// A fault witness does not depend on how much gas remains: draining the
/// meter after a gas fault keeps the witness true.
proof fn lemma_trap_condition_gas_stable(e: ExecutionError, c0: ExecutionContext, c1: ExecutionContext)
    requires
        trap_condition(e, c0),
        c1 == (ExecutionContext { gas_meter: c1.gas_meter, ..c0 }),
        c1.gas_meter.spec_costs() == c0.gas_meter.spec_costs(),
    ensures
        trap_condition(e, c1),
{
    if c0.pc < c0.code@.len() {
        let b = c0.code@[c0.pc as int];
        assert(step_base_cost(b, c0) == step_base_cost(b, c1));
    }
}

/// Copy the logs out of a logger, entry by entry.
fn snapshot_logs(logger: &EventLogger) -> (r: Vec<EventLog>)
    ensures
        crate::events::logs_match(r@, logger@),
{
    let entries = logger.logs();
    let n = entries.len();
    let mut out: Vec<EventLog> = Vec::new();
    let mut i: usize = 0;
    while i < n
        invariant
            i <= n,
            n == logger@.len(),
            entries@ == logger@,
            out@.len() == i,
            crate::events::logs_match(out@, logger@.subrange(0, i as int)),
        decreases n - i,
    {
        out.push(entries[i].duplicate());
        i += 1;
    }
    proof {
        assert(logger@.subrange(0, n as int) =~= logger@);
    }
    out
}

/// The interpreter of one frame: it walks the code one instruction at a
/// time, against the jump destinations collected from that code.
pub struct Executor {
    context: ExecutionContext,
    jumpdests: Vec<u64>,
}

impl Executor {
    /// The frame being run.
    pub closed spec fn ctx(&self) -> ExecutionContext {
        self.context
    }

    /// The collected jump destinations.
    pub closed spec fn dests(&self) -> Seq<u64> {
        self.jumpdests@
    }

    /// The frame is well formed and the collected destinations are exactly
    /// the jump destinations of its code.
    pub open spec fn wf(&self) -> bool {
        &&& self.ctx().well_formed()
        &&& crate::validation::u64_set(self.dests()) == crate::validation::jumpdest_set(
            self.ctx().code@,
            0,
        )
    }

    /// Create an executor over a frame, collecting the jump destinations of
    /// its code.
    pub fn new(context: ExecutionContext) -> (r: Executor)
        requires
            context.well_formed(),
        ensures
            r.wf(),
            r.ctx() == context,
    {
        let jumpdests = crate::validation::compute_jumpdests(context.code.as_slice());
        Executor { context, jumpdests }
    }

    /// The frame being run, for the host to read results and state from.
    pub fn context(&self) -> (r: &ExecutionContext)
        ensures
            *r == self.ctx(),
    {
        &self.context
    }

    /// The dispatcher behind step: it performs the instruction and states
    /// every effect clause by clause; step repackages these as the machine's
    /// transition relation.
    #[verifier::rlimit(100)]
    #[verifier::spinoff_prover]
    fn step_inner(&mut self) -> (r: Result<(), ExecutionError>)
        requires
            old(self).wf(),
            old(self).ctx().pc < old(self).ctx().code@.len(),
            old(self).ctx().should_continue,
            old(self).ctx().gas_meter.spec_costs() == default_costs(),
        ensures
            final(self).wf(),
            final(self).dests() == old(self).dests(),
            frame_params_kept(old(self).ctx(), final(self).ctx()),
            final(self).ctx().gas_meter.spec_available() <= old(self).ctx().gas_meter.spec_available(),
            r is Ok ==> (final(self).ctx().gas_meter.spec_available() < old(self).ctx().gas_meter.spec_available() || !final(self).ctx().should_continue),
            ({
                let b = old(self).ctx().code@[old(self).ctx().pc as int];
                let len0 = old(self).ctx().stack@.len();
                &&& (!is_valid_opcode_byte(b) ==> r == Err::<(), ExecutionError>(
                    ExecutionError::Opcode(OpcodeError::InvalidOpcode { opcode: b }),
                ))
                &&& (is_valid_opcode_byte(b) && len0 < spec_pop_count(b) ==> r == Err::<
                    (),
                    ExecutionError,
                >(ExecutionError::Stack(StackError::Underflow)))
                &&& (is_valid_opcode_byte(b) && len0 >= spec_pop_count(b) && len0
                    - spec_pop_count(b) + spec_push_count(b) > 1024 ==> r == Err::<
                    (),
                    ExecutionError,
                >(ExecutionError::Stack(StackError::Overflow)))
                &&& (b == 0x56 && len0 >= 1 && default_costs().jump <= old(self).ctx().gas_meter.spec_available() ==> ({
                    let target = sat64(old(self).ctx().stack@.last().as_nat());
                    match r {
                        Ok(()) => crate::validation::jumpdest_set(
                            old(self).ctx().code@,
                            0,
                        ).contains(target) && final(self).ctx().pc == target,
                        Err(e) => !crate::validation::jumpdest_set(
                            old(self).ctx().code@,
                            0,
                        ).contains(target) && e == ExecutionError::Opcode(
                            OpcodeError::InvalidJumpDestination,
                        ),
                    }
                }))
                &&& (b == 0x57 && len0 >= 2 && default_costs().jumpi <= old(self).ctx().gas_meter.spec_available() ==> ({
                    let target = sat64(old(self).ctx().stack@.last().as_nat());
                    let cond = old(self).ctx().stack@[len0 - 2].as_nat();
                    match r {
                        Ok(()) => cond == 0 || (crate::validation::jumpdest_set(
                            old(self).ctx().code@,
                            0,
                        ).contains(target) && final(self).ctx().pc == target),
                        Err(e) => cond != 0 && !crate::validation::jumpdest_set(
                            old(self).ctx().code@,
                            0,
                        ).contains(target) && e == ExecutionError::Opcode(
                            OpcodeError::InvalidJumpDestination,
                        ),
                    }
                }))
                &&& ((is_implemented_byte(b) && step_arity_ok(b, old(self).ctx()) && len0
                    - spec_pop_count(b) + spec_push_count(b) <= 1024 && sat64(
                    step_base_cost(b, old(self).ctx()),
                ) + sat64(step_expansion_cost(b, old(self).ctx())) <= old(self).ctx().gas_meter.spec_available() && step_addr_ok(b, old(self).ctx()) && (
                is_push_byte(b) ==> old(self).ctx().pc + 1 + push_width(b) <= old(self).ctx().code@.len()) && (b == 0x56
                    ==> crate::validation::jumpdest_set(old(self).ctx().code@, 0).contains(
                    sat64(old(self).ctx().stack@.last().as_nat()),
                )) && (b == 0x57 ==> old(self).ctx().stack@[len0 - 2].as_nat() == 0
                    || crate::validation::jumpdest_set(old(self).ctx().code@, 0).contains(
                    sat64(old(self).ctx().stack@.last().as_nat()),
                ))) ==> r is Ok)
                &&& (r is Ok ==> final(self).ctx().stack@.len() == len0 - spec_pop_count(b)
                    + spec_push_count(b))
                &&& (r is Ok && is_alu2_byte(b) ==> final(self).ctx().stack@ == old(self).ctx().stack@.drop_last().drop_last().push(final(self).ctx().stack@.last())
                    && final(self).ctx().stack@.last().as_nat() == alu2_result(
                    b,
                    old(self).ctx().stack@.last(),
                    old(self).ctx().stack@[len0 - 2],
                ))
                &&& (r is Ok && is_alu1_byte(b) ==> final(self).ctx().stack@ == old(self).ctx().stack@.drop_last().push(final(self).ctx().stack@.last()) && final(self).ctx().stack@.last().as_nat() == alu1_result(b, old(self).ctx().stack@.last()))
                &&& (r is Ok && is_push_byte(b) ==> final(self).ctx().stack@ == old(self).ctx().stack@.push(final(self).ctx().stack@.last()) && final(self).ctx().stack@.last().as_nat() == be_val(
                    old(self).ctx().code@.subrange(
                        old(self).ctx().pc + 1,
                        old(self).ctx().pc + 1 + push_width(b),
                    ),
                ) && final(self).ctx().pc == old(self).ctx().pc + 1 + push_width(b))
                &&& (r is Ok && is_dup_byte(b) ==> final(self).ctx().stack@ == old(self).ctx().stack@.push(old(self).ctx().stack@[len0 - 1 - (b - 0x80)]))
                &&& (r is Ok && b == 0x50 ==> final(self).ctx().stack@ == old(self).ctx().stack@.drop_last())
                &&& (r is Ok && (b == 0x56 || b == 0x57) ==> final(self).ctx().stack@ == old(self).ctx().stack@.subrange(0, len0 - spec_pop_count(b)))
                &&& (r is Ok && b == 0x57 && old(self).ctx().stack@[len0 - 2].as_nat() == 0
                    ==> final(self).ctx().pc == old(self).ctx().pc + 1)
                &&& (r is Ok && is_info_byte(b) ==> final(self).ctx().stack@ == old(self).ctx().stack@.push(final(self).ctx().stack@.last()) && final(self).ctx().stack@.last().as_nat() == info_value(
                    b,
                    ExecutionContext { pc: (old(self).ctx().pc + 1) as usize, ..old(self).ctx() },
                ))
                &&& (r is Ok && b == 0x54 ==> final(self).ctx().stack@.last().as_nat() == ({
                    let slots = prior_slots(
                        old(self).ctx().storage.world(),
                        old(self).ctx().address@,
                    );
                    let k = old(self).ctx().stack@.last().as_nat();
                    if slots.contains_key(k) {
                        slots[k]
                    } else {
                        0nat
                    }
                }))
                &&& (r is Ok && b == 0x55 ==> updated_at(
                    old(self).ctx().storage.world(),
                    final(self).ctx().storage.world(),
                    old(self).ctx().address@,
                ) && final(self).ctx().storage.world()[old(self).ctx().address@].storage_map() == ({
                    let k = old(self).ctx().stack@.last().as_nat();
                    let v = old(self).ctx().stack@[len0 - 2].as_nat();
                    if v == 0 {
                        prior_slots(
                            old(self).ctx().storage.world(),
                            old(self).ctx().address@,
                        ).remove(k)
                    } else {
                        prior_slots(
                            old(self).ctx().storage.world(),
                            old(self).ctx().address@,
                        ).insert(k, v)
                    }
                }))
                &&& (r is Ok && b == 0x00 ==> !final(self).ctx().should_continue && final(self).ctx().success)
                &&& (r is Ok && (b == 0xf3 || b == 0xfd) ==> !final(self).ctx().should_continue && final(self).ctx().success == (b == 0xf3) && final(self).ctx().return_data@ == read_spec(
                    old(self).ctx().memory@,
                    sat64(old(self).ctx().stack@.last().as_nat()),
                    sat64(old(self).ctx().stack@[len0 - 2].as_nat()),
                ))
                &&& (r is Ok && b == 0x51 ==> final(self).ctx().stack@.last().as_nat() == be_val(
                    read_spec(
                        old(self).ctx().memory@,
                        sat64(old(self).ctx().stack@.last().as_nat()),
                        32,
                    ),
                ))
                &&& (r is Ok && b == 0x52 ==> be_val(
                    final(self).ctx().memory@.subrange(
                        sat64(old(self).ctx().stack@.last().as_nat()) as int,
                        sat64(old(self).ctx().stack@.last().as_nat()) as int + 32,
                    ),
                ) == old(self).ctx().stack@[len0 - 2].as_nat())
                &&& (r is Ok && b == 0x20 ==> final(self).ctx().stack@.last().as_nat() == be_val(
                    keccak256_of(
                        read_spec(
                            old(self).ctx().memory@,
                            sat64(old(self).ctx().stack@.last().as_nat()),
                            sat64(old(self).ctx().stack@[len0 - 2].as_nat()),
                        ),
                    ),
                ))
                &&& (r is Ok && 0xa0 <= b <= 0xa4 ==> final(self).ctx().event_logger@.len()
                    == old(self).ctx().event_logger@.len() + 1 && final(self).ctx().event_logger@.last().address == old(self).ctx().address && final(self).ctx().event_logger@.last().data@ == read_spec(
                    old(self).ctx().memory@,
                    sat64(old(self).ctx().stack@.last().as_nat()),
                    sat64(old(self).ctx().stack@[len0 - 2].as_nat()),
                ))
                &&& (r is Ok ==> old(self).ctx().gas_meter.spec_available() - final(self).ctx().gas_meter.spec_available() == sat64(step_base_cost(b, old(self).ctx()))
                    + sat64(step_expansion_cost(b, old(self).ctx())))
                &&& (r matches Err(e) ==> trap_condition(e, final(self).ctx()))
                &&& (r is Err ==> final(self).ctx().return_data == old(self).ctx().return_data
                    && final(self).ctx().event_logger@ == old(self).ctx().event_logger@
                    && final(self).ctx().should_continue && final(self).ctx().success == old(self).ctx().success && final(self).ctx().memory@ == old(self).ctx().memory@
                    && final(self).ctx().storage.world() == old(self).ctx().storage.world())
                &&& (r is Ok && final(self).ctx().should_continue ==> final(self).ctx().return_data == old(self).ctx().return_data && final(self).ctx().success
                    == old(self).ctx().success)
                &&& old(self).ctx().event_logger@.len() <= final(self).ctx().event_logger@.len()
                &&& (old(self).ctx().event_logger@ == final(self).ctx().event_logger@.subrange(0, old(self).ctx().event_logger@.len() as int))
            }),
    {
        let pc = self.context.pc;
        let b = {
            let s = self.context.code.as_slice();
            s[pc]
        };
        match Opcode::from_byte(b) {
            Ok(_) => {},
            Err(e) => {
                return Err(ExecutionError::Opcode(e));
            },
        }
        let pops = byte_pop_count(b);
        let pushes = byte_push_count(b);
        let depth = self.context.stack.size();
        if depth < pops {
            return Err(ExecutionError::Stack(StackError::Underflow));
        }
        if depth - pops + pushes > 1024 {
            return Err(ExecutionError::Stack(StackError::Overflow));
        }
        let cost = gas_cost_for(&self.context, b);
        match self.context.gas_meter.consume(cost) {
            Ok(()) => {},
            Err(e) => {
                return Err(ExecutionError::Gas(e));
            },
        }
        if 0x60 <= b && b <= 0x7f {
            return exec_push(&mut self.context, b);
        }
        self.context.advance_pc(1);
        if b == 0x00 {
            self.context.halt(true, "STOP instruction".to_owned());
            Ok(())
        } else if b == 0x08 || b == 0x09 {
            exec_alu3(&mut self.context, b)
        } else if (0x01 <= b && b <= 0x07) || b == 0x0a || b == 0x0b || (0x10 <= b && b <= 0x14)
            || (0x16 <= b && b <= 0x18) || (0x1a <= b && b <= 0x1d) {
            exec_alu2(&mut self.context, b)
        } else if b == 0x15 || b == 0x19 {
            exec_alu1(&mut self.context, b)
        } else if b == 0x20 {
            exec_sha3(&mut self.context)
        } else if b == 0x30 || b == 0x32 || b == 0x33 || b == 0x34 || b == 0x36 || b == 0x38 || b
            == 0x3a || (0x41 <= b && b <= 0x47) || b == 0x58 || b == 0x59 {
            exec_info(&mut self.context, b)
        } else if b == 0x31 {
            exec_balance(&mut self.context)
        } else if b == 0x35 {
            exec_calldataload(&mut self.context)
        } else if b == 0x39 {
            exec_codecopy(&mut self.context)
        } else if b == 0x40 {
            exec_blockhash(&mut self.context)
        } else if b == 0x50 {
            exec_pop(&mut self.context)
        } else if b == 0x51 {
            exec_mload(&mut self.context)
        } else if b == 0x52 {
            exec_mstore(&mut self.context)
        } else if b == 0x53 {
            exec_mstore8(&mut self.context)
        } else if b == 0x54 {
            exec_sload(&mut self.context)
        } else if b == 0x55 {
            exec_sstore(&mut self.context)
        } else if b == 0x56 {
            exec_jump(&mut self.context, &self.jumpdests)
        } else if b == 0x57 {
            exec_jumpi(&mut self.context, &self.jumpdests)
        } else if b == 0x5b {
            Ok(())
        } else if 0x80 <= b && b <= 0x8f {
            exec_dup(&mut self.context, (b - 0x80) as usize)
        } else if 0x90 <= b && b <= 0x9f {
            exec_swap(&mut self.context, (b - 0x8f) as usize)
        } else if 0xa0 <= b && b <= 0xa4 {
            exec_log(&mut self.context, (b - 0xa0) as usize)
        } else if b == 0xf3 {
            exec_halt_with_data(&mut self.context, true)
        } else if b == 0xfd {
            exec_halt_with_data(&mut self.context, false)
        } else {
            Err(ExecutionError::InvalidInstruction("unimplemented opcode".to_owned()))
        }
    }


    /// Run one instruction: decode the byte under the program counter,
    /// check the stack arity, charge gas, and dispatch. Success is owed: an
    /// implemented opcode whose arity, capacity, charge, address range,
    /// immediate and jump target are all in order runs, drawing exactly its
    /// base price plus its memory expansion price, and moves the stack depth
    /// by exactly the opcode's produced minus consumed words. Every fault is
    /// an error whose kind and condition the frame left behind witnesses,
    /// with the logs, the return data and the halt flags untouched. The
    /// standard cost table is demanded because it prices every non-halting
    /// instruction at one gas or more, which is what makes the gas budget
    /// the guard against endless runs.
    pub fn step(&mut self) -> (r: Result<(), ExecutionError>)
        requires
            old(self).wf(),
            old(self).ctx().pc < old(self).ctx().code@.len(),
            old(self).ctx().should_continue,
            old(self).ctx().gas_meter.spec_costs() == default_costs(),
        ensures
            final(self).wf(),
            final(self).dests() == old(self).dests(),
            frame_params_kept(old(self).ctx(), final(self).ctx()),
            final(self).ctx().gas_meter.spec_available() <= old(self).ctx().gas_meter.spec_available(),
            r is Ok ==> (final(self).ctx().gas_meter.spec_available() < old(self).ctx().gas_meter.spec_available() || !final(self).ctx().should_continue),
            ({
                let b = old(self).ctx().code@[old(self).ctx().pc as int];
                let len0 = old(self).ctx().stack@.len();
                &&& (!is_valid_opcode_byte(b) ==> r == Err::<(), ExecutionError>(
                    ExecutionError::Opcode(OpcodeError::InvalidOpcode { opcode: b }),
                ))
                &&& (is_valid_opcode_byte(b) && len0 < spec_pop_count(b) ==> r == Err::<
                    (),
                    ExecutionError,
                >(ExecutionError::Stack(StackError::Underflow)))
                &&& (is_valid_opcode_byte(b) && len0 >= spec_pop_count(b) && len0
                    - spec_pop_count(b) + spec_push_count(b) > 1024 ==> r == Err::<
                    (),
                    ExecutionError,
                >(ExecutionError::Stack(StackError::Overflow)))
                &&& (b == 0x56 && len0 >= 1 && default_costs().jump <= old(self).ctx().gas_meter.spec_available() ==> ({
                    let target = sat64(old(self).ctx().stack@.last().as_nat());
                    match r {
                        Ok(()) => crate::validation::jumpdest_set(
                            old(self).ctx().code@,
                            0,
                        ).contains(target) && final(self).ctx().pc == target,
                        Err(e) => !crate::validation::jumpdest_set(
                            old(self).ctx().code@,
                            0,
                        ).contains(target) && e == ExecutionError::Opcode(
                            OpcodeError::InvalidJumpDestination,
                        ),
                    }
                }))
                &&& (b == 0x57 && len0 >= 2 && default_costs().jumpi <= old(self).ctx().gas_meter.spec_available() ==> ({
                    let target = sat64(old(self).ctx().stack@.last().as_nat());
                    let cond = old(self).ctx().stack@[len0 - 2].as_nat();
                    match r {
                        Ok(()) => cond == 0 || (crate::validation::jumpdest_set(
                            old(self).ctx().code@,
                            0,
                        ).contains(target) && final(self).ctx().pc == target),
                        Err(e) => cond != 0 && !crate::validation::jumpdest_set(
                            old(self).ctx().code@,
                            0,
                        ).contains(target) && e == ExecutionError::Opcode(
                            OpcodeError::InvalidJumpDestination,
                        ),
                    }
                }))
                &&& ((is_implemented_byte(b) && step_arity_ok(b, old(self).ctx()) && len0
                    - spec_pop_count(b) + spec_push_count(b) <= 1024 && sat64(
                    step_base_cost(b, old(self).ctx()),
                ) + sat64(step_expansion_cost(b, old(self).ctx())) <= old(self).ctx().gas_meter.spec_available() && step_addr_ok(b, old(self).ctx()) && (
                is_push_byte(b) ==> old(self).ctx().pc + 1 + push_width(b) <= old(self).ctx().code@.len()) && (b == 0x56
                    ==> crate::validation::jumpdest_set(old(self).ctx().code@, 0).contains(
                    sat64(old(self).ctx().stack@.last().as_nat()),
                )) && (b == 0x57 ==> old(self).ctx().stack@[len0 - 2].as_nat() == 0
                    || crate::validation::jumpdest_set(old(self).ctx().code@, 0).contains(
                    sat64(old(self).ctx().stack@.last().as_nat()),
                ))) ==> r is Ok)
                &&& (r is Ok ==> step_ok_rel(old(self).ctx(), final(self).ctx()))
                &&& (r matches Err(e) ==> step_err_rel(old(self).ctx(), final(self).ctx(), e))
            }),
    {
        let ghost pre = self.ctx();
        let r = self.step_inner();
        proof {
            let b = pre.code@[pre.pc as int];
            if r is Ok {
                if b == 0x56 || b == 0x57 {
                    assert(pre.stack@.len() >= spec_pop_count(b));
                    assert(pre.gas_meter.spec_available() - self.ctx().gas_meter.spec_available()
                        == sat64(step_base_cost(b, pre)) + sat64(step_expansion_cost(b, pre)));
                    assert(self.ctx().stack@ =~= pre.stack@.subrange(
                        0,
                        pre.stack@.len() - spec_pop_count(b),
                    ));
                }
                if b == 0x57 {
                    assert(self.ctx().stack@ =~= pre.stack@.drop_last().drop_last());
                }
                assert(step_ok_rel(pre, self.ctx()));
            }
        }
        r
    }

    /// Run the frame to its end: step until it halts, runs off the end of
    /// the code, or faults. The returned report always satisfies the gas
    /// accounting law: the gas used plus the gas remaining equal the gas
    /// limit. A fault ends the run with an error whose kind and condition
    /// are witnessed by the frame left behind, with the accrued logs kept,
    /// the return data untouched, and the success flag still clear; a run
    /// that never faults ends in a report. When the frame runs out of gas,
    /// everything remaining is consumed, so the gas used equals the whole
    /// limit.
    pub fn execute(&mut self) -> (r: Result<ExecutionResult, ExecutionError>)
        requires
            old(self).wf(),
            old(self).ctx().gas_meter.spec_costs() == default_costs(),
        ensures
            final(self).wf(),
            final(self).ctx().gas_meter.spec_limit() == old(self).ctx().gas_meter.spec_limit(),
            final(self).ctx().gas_meter.spec_available() <= old(self).ctx().gas_meter.spec_available(),
            old(self).ctx().event_logger@.len() <= final(self).ctx().event_logger@.len(),
            old(self).ctx().event_logger@ == final(self).ctx().event_logger@.subrange(
                0,
                old(self).ctx().event_logger@.len() as int,
            ),
            match r {
                Ok(res) => {
                    &&& res.gas_used + res.gas_remaining == old(self).ctx().gas_meter.spec_limit()
                    &&& res.gas_remaining == final(self).ctx().gas_meter.spec_available()
                    &&& res.return_data@ == final(self).ctx().return_data@
                    &&& res.success == final(self).ctx().success
                    &&& crate::events::logs_match(res.logs@, final(self).ctx().event_logger@)
                    &&& (!final(self).ctx().should_continue || final(self).ctx().pc >= final(self).ctx().code@.len())
                    &&& (final(self).ctx().should_continue ==> res.success)
                    &&& exists|n: nat, c: ExecutionContext|
                        steps_reach(old(self).ctx(), c, n) && (final(self).ctx() == c || (
                        c.should_continue && c.pc >= c.code@.len() && final(self).ctx() == (
                        ExecutionContext { success: true, ..c })))
                },
                Err(e) => {
                    &&& trap_condition(e, final(self).ctx())
                    &&& (e is Opcode || e is Stack || e is Gas || e is Memory || e
                        is InvalidInstruction)
                    &&& (e is Gas ==> final(self).ctx().gas_meter.spec_available() == 0)
                    &&& final(self).ctx().should_continue
                    &&& final(self).ctx().success == old(self).ctx().success
                    &&& final(self).ctx().return_data == old(self).ctx().return_data
                    &&& exists|n: nat, c0x: ExecutionContext, c1x: ExecutionContext|
                        steps_reach(old(self).ctx(), c0x, n) && step_err_rel(c0x, c1x, e) && (
                        final(self).ctx() == c1x || gas_drained(c1x, final(self).ctx()))
                },
            },
    {
        proof {
            assert(steps_reach(old(self).ctx(), self.ctx(), 0));
        }
        while self.context.should_continue && self.context.pc < self.context.code.len()
            invariant
                self.wf(),
                self.ctx().gas_meter.spec_costs() == default_costs(),
                self.ctx().gas_meter.spec_limit() == old(self).ctx().gas_meter.spec_limit(),
                self.ctx().gas_meter.spec_available() <= old(self).ctx().gas_meter.spec_available(),
                old(self).ctx().event_logger@.len() <= self.ctx().event_logger@.len(),
                old(self).ctx().event_logger@ == self.ctx().event_logger@.subrange(
                    0,
                    old(self).ctx().event_logger@.len() as int,
                ),
                self.ctx().should_continue ==> self.ctx().return_data == old(self).ctx().return_data,
                self.ctx().should_continue ==> self.ctx().success == old(self).ctx().success,
                exists|n: nat| steps_reach(old(self).ctx(), self.ctx(), n),
            decreases
                    self.context.gas_meter.spec_available(),
                    (if self.context.should_continue {
                        1int
                    } else {
                        0int
                    }),
        {
            let ghost pre = self.ctx();
            let ghost logs_before = self.ctx().event_logger@;
            let ghost logs_base = old(self).ctx().event_logger@;
            match self.step() {
                Ok(()) => {
                    proof {
                        assert(step_ok_rel(pre, self.ctx()));
                        lemma_log_prefix_chain(logs_base, logs_before, self.ctx().event_logger@);
                        let n = choose|n: nat| steps_reach(old(self).ctx(), pre, n);
                        assert(steps_reach(old(self).ctx(), pre, n) && step_ok_rel(
                            pre,
                            self.ctx(),
                        ));
                        assert(steps_reach(old(self).ctx(), self.ctx(), n + 1));
                    }
                },
                Err(e) => {
                    proof {
                        assert(self.ctx().event_logger@ == logs_before);
                        assert(logs_before =~= self.ctx().event_logger@.subrange(
                            0,
                            logs_before.len() as int,
                        ));
                        lemma_log_prefix_chain(logs_base, logs_before, self.ctx().event_logger@);
                    }
                    let ghost n0 = choose|n: nat| steps_reach(old(self).ctx(), pre, n);
                    match e {
                        ExecutionError::Gas(g) => {
                            let ghost pre_drain = self.ctx();
                            let avail = self.context.gas_meter.available();
                            match self.context.gas_meter.consume(avail) {
                                Ok(()) => {},
                                Err(_) => {},
                            }
                            proof {
                                lemma_trap_condition_gas_stable(
                                    ExecutionError::Gas(g),
                                    pre_drain,
                                    self.ctx(),
                                );
                                assert(gas_drained(pre_drain, self.ctx()));
                                assert(steps_reach(old(self).ctx(), pre, n0) && step_err_rel(
                                    pre,
                                    pre_drain,
                                    ExecutionError::Gas(g),
                                ));
                            }
                            return Err(ExecutionError::Gas(g));
                        },
                        other => {
                            proof {
                                assert(steps_reach(old(self).ctx(), pre, n0) && step_err_rel(
                                    pre,
                                    self.ctx(),
                                    other,
                                ));
                            }
                            return Err(other);
                        },
                    }
                },
            }
        }
        let ghost at_exit = self.ctx();
        if self.context.should_continue {
            self.context.success = true;
            proof {
                assert(self.ctx() == (ExecutionContext { success: true, ..at_exit }));
            }
        }
        let gas_used = self.context.gas_meter.used();
        let gas_remaining = self.context.gas_meter.available();
        let return_data = Bytes(self.context.return_data.0.clone());
        let logs = snapshot_logs(&self.context.event_logger);
        let success = self.context.success;
        Ok(ExecutionResult { success, return_data, gas_used, gas_remaining, logs })
    }
}

} // verus!
