use vstd::prelude::*;

verus! {

/// Failure modes of decoding and of opcode-level checks.
#[derive(Debug, Clone, Copy, PartialEq, Eq, Structural)]
pub enum OpcodeError {
    InvalidOpcode { opcode: u8 },
    StackUnderflow,
    StackOverflow,
    InvalidJumpDestination,
    DivisionByZero,
    ModuloByZero,
}

/// Whether a byte is a recognized opcode.
pub open spec fn is_valid_opcode_byte(b: u8) -> bool {
    (b <= 0x0b) || (0x10 <= b <= 0x1d) || b == 0x20 || (0x30 <= b <= 0x3f) || (0x40 <= b <= 0x47)
        || (0x50 <= b <= 0x59) || b == 0x5b || (0x60 <= b <= 0xa4) || (0xf0 <= b <= 0xf5)
        || b == 0xfa || b == 0xfd || b == 0xff
}

/// Whether a byte is one of the push opcodes.
pub open spec fn is_push_byte(b: u8) -> bool {
    0x60 <= b <= 0x7f
}

/// The immediate width of a push opcode byte.
pub open spec fn push_width(b: u8) -> nat {
    if is_push_byte(b) {
        (b - 0x5f) as nat
    } else {
        0nat
    }
}

/// Whether a byte is one of the duplicate opcodes.
pub open spec fn is_dup_byte(b: u8) -> bool {
    0x80 <= b <= 0x8f
}

/// Whether a byte is one of the exchange opcodes.
pub open spec fn is_swap_byte(b: u8) -> bool {
    0x90 <= b <= 0x9f
}

/// How many words an opcode consumes from the stack before it runs.
pub open spec fn spec_pop_count(b: u8) -> nat {
    if 0x01 <= b <= 0x07 {
        2nat
    } else if b == 0x08 || b == 0x09 {
        3nat
    } else if b == 0x0a || b == 0x0b {
        2nat
    } else if 0x10 <= b <= 0x14 {
        2nat
    } else if b == 0x15 {
        1nat
    } else if 0x16 <= b <= 0x18 {
        2nat
    } else if b == 0x19 {
        1nat
    } else if 0x1a <= b <= 0x1d {
        2nat
    } else if b == 0x20 {
        2nat
    } else if b == 0x31 || b == 0x35 || b == 0x3b || b == 0x3f || b == 0x40 {
        1nat
    } else if b == 0x37 || b == 0x39 || b == 0x3e {
        3nat
    } else if b == 0x3c {
        4nat
    } else if b == 0x50 || b == 0x51 || b == 0x54 {
        1nat
    } else if b == 0x52 || b == 0x53 || b == 0x55 {
        2nat
    } else if b == 0x56 {
        1nat
    } else if b == 0x57 {
        2nat
    } else if 0xa0 <= b <= 0xa4 {
        (b - 0xa0 + 2) as nat
    } else if b == 0xf0 || b == 0xf5 {
        3nat
    } else if b == 0xf1 || b == 0xf2 || b == 0xf4 || b == 0xfa {
        7nat
    } else if b == 0xf3 || b == 0xfd {
        2nat
    } else if b == 0xff {
        1nat
    } else {
        0nat
    }
}

/// How many words an opcode leaves on the stack when it completes.
pub open spec fn spec_push_count(b: u8) -> nat {
    if b == 0x00 {
        0nat
    } else if 0x01 <= b <= 0x0b {
        1nat
    } else if 0x10 <= b <= 0x1d {
        1nat
    } else if b == 0x20 {
        1nat
    } else if 0x30 <= b <= 0x36 {
        1nat
    } else if b == 0x37 {
        0nat
    } else if b == 0x38 {
        1nat
    } else if b == 0x39 {
        0nat
    } else if b == 0x3a || b == 0x3b {
        1nat
    } else if b == 0x3c {
        0nat
    } else if b == 0x3d {
        1nat
    } else if b == 0x3e {
        0nat
    } else if b == 0x3f {
        1nat
    } else if 0x40 <= b <= 0x47 {
        1nat
    } else if b == 0x50 {
        0nat
    } else if b == 0x51 {
        1nat
    } else if b == 0x52 || b == 0x53 {
        0nat
    } else if b == 0x54 {
        1nat
    } else if b == 0x55 || b == 0x56 || b == 0x57 {
        0nat
    } else if b == 0x58 || b == 0x59 {
        1nat
    } else if b == 0x5b {
        0nat
    } else if is_push_byte(b) || is_dup_byte(b) {
        1nat
    } else if is_swap_byte(b) {
        0nat
    } else if 0xa0 <= b <= 0xa4 {
        0nat
    } else if 0xf0 <= b <= 0xf5 || b == 0xfa {
        if b == 0xf3 {
            0nat
        } else {
            1nat
        }
    } else {
        0nat
    }
}

/// Check a byte for being a recognized opcode.
pub fn valid_opcode(b: u8) -> (r: bool)
    ensures
        r == is_valid_opcode_byte(b),
{
    (b <= 0x0b) || (0x10 <= b && b <= 0x1d) || b == 0x20 || (0x30 <= b && b <= 0x3f) || (0x40 <= b
        && b <= 0x47) || (0x50 <= b && b <= 0x59) || b == 0x5b || (0x60 <= b && b <= 0xa4) || (0xf0
        <= b && b <= 0xf5) || b == 0xfa || b == 0xfd || b == 0xff
}

/// The number of words an opcode byte consumes from the stack.
pub fn byte_pop_count(b: u8) -> (r: usize)
    ensures
        r == spec_pop_count(b),
{
    if 0x01 <= b && b <= 0x07 {
        2
    } else if b == 0x08 || b == 0x09 {
        3
    } else if b == 0x0a || b == 0x0b {
        2
    } else if 0x10 <= b && b <= 0x14 {
        2
    } else if b == 0x15 {
        1
    } else if 0x16 <= b && b <= 0x18 {
        2
    } else if b == 0x19 {
        1
    } else if 0x1a <= b && b <= 0x1d {
        2
    } else if b == 0x20 {
        2
    } else if b == 0x31 || b == 0x35 || b == 0x3b || b == 0x3f || b == 0x40 {
        1
    } else if b == 0x37 || b == 0x39 || b == 0x3e {
        3
    } else if b == 0x3c {
        4
    } else if b == 0x50 || b == 0x51 || b == 0x54 {
        1
    } else if b == 0x52 || b == 0x53 || b == 0x55 {
        2
    } else if b == 0x56 {
        1
    } else if b == 0x57 {
        2
    } else if 0xa0 <= b && b <= 0xa4 {
        (b - 0xa0 + 2) as usize
    } else if b == 0xf0 || b == 0xf5 {
        3
    } else if b == 0xf1 || b == 0xf2 || b == 0xf4 || b == 0xfa {
        7
    } else if b == 0xf3 || b == 0xfd {
        2
    } else if b == 0xff {
        1
    } else {
        0
    }
}

/// The number of words an opcode byte leaves on the stack.
pub fn byte_push_count(b: u8) -> (r: usize)
    ensures
        r == spec_push_count(b),
{
    if b == 0x00 {
        0
    } else if 0x01 <= b && b <= 0x0b {
        1
    } else if 0x10 <= b && b <= 0x1d {
        1
    } else if b == 0x20 {
        1
    } else if 0x30 <= b && b <= 0x36 {
        1
    } else if b == 0x38 || b == 0x3a || b == 0x3b || b == 0x3d || b == 0x3f {
        1
    } else if 0x40 <= b && b <= 0x47 {
        1
    } else if b == 0x51 || b == 0x54 || b == 0x58 || b == 0x59 {
        1
    } else if 0x60 <= b && b <= 0x8f {
        1
    } else if (0xf0 <= b && b <= 0xf5 && b != 0xf3) || b == 0xfa {
        1
    } else {
        0
    }
}

/// The recognized instructions of the machine. Every push, duplicate and
/// exchange width has a variant of its own, and decoding returns the exact
/// variant, so encoding is the inverse of decoding on every recognized
/// byte.
#[derive(Debug, Clone, Copy, PartialEq, Eq, Structural, Hash)]
pub enum Opcode {
    Stop,
    Add,
    Mul,
    Sub,
    Div,
    Sdiv,
    Mod,
    Smod,
    Addmod,
    Mulmod,
    Exp,
    Signextend,
    Lt,
    Gt,
    Slt,
    Sgt,
    Eq,
    Iszero,
    And,
    Or,
    Xor,
    Not,
    Byte,
    Shl,
    Shr,
    Sar,
    Sha3,
    Address,
    Balance,
    Origin,
    Caller,
    Callvalue,
    Calldataload,
    Calldatasize,
    Calldatacopy,
    Codesize,
    Codecopy,
    Gasprice,
    Extcodesize,
    Extcodecopy,
    Returndatasize,
    Returndatacopy,
    Extcodehash,
    Blockhash,
    Coinbase,
    Timestamp,
    Number,
    Difficulty,
    Gaslimit,
    Chainid,
    Selfbalance,
    Pop,
    Mload,
    Mstore,
    Mstore8,
    Sload,
    Sstore,
    Jump,
    Jumpi,
    Pc,
    Msize,
    Jumpdest,
    Push1,
    Push2,
    Push3,
    Push4,
    Push5,
    Push6,
    Push7,
    Push8,
    Push9,
    Push10,
    Push11,
    Push12,
    Push13,
    Push14,
    Push15,
    Push16,
    Push17,
    Push18,
    Push19,
    Push20,
    Push21,
    Push22,
    Push23,
    Push24,
    Push25,
    Push26,
    Push27,
    Push28,
    Push29,
    Push30,
    Push31,
    Push32,
    Dup1,
    Dup2,
    Dup3,
    Dup4,
    Dup5,
    Dup6,
    Dup7,
    Dup8,
    Dup9,
    Dup10,
    Dup11,
    Dup12,
    Dup13,
    Dup14,
    Dup15,
    Dup16,
    Swap1,
    Swap2,
    Swap3,
    Swap4,
    Swap5,
    Swap6,
    Swap7,
    Swap8,
    Swap9,
    Swap10,
    Swap11,
    Swap12,
    Swap13,
    Swap14,
    Swap15,
    Swap16,
    Log0,
    Log1,
    Log2,
    Log3,
    Log4,
    Create,
    Call,
    Callcode,
    Return,
    Delegatecall,
    Create2,
    Staticcall,
    Revert,
    Selfdestruct,
}

/// The byte that encodes each instruction.
pub open spec fn opcode_byte(op: Opcode) -> u8 {
    match op {
        Opcode::Stop => 0x00,
        Opcode::Add => 0x01,
        Opcode::Mul => 0x02,
        Opcode::Sub => 0x03,
        Opcode::Div => 0x04,
        Opcode::Sdiv => 0x05,
        Opcode::Mod => 0x06,
        Opcode::Smod => 0x07,
        Opcode::Addmod => 0x08,
        Opcode::Mulmod => 0x09,
        Opcode::Exp => 0x0a,
        Opcode::Signextend => 0x0b,
        Opcode::Lt => 0x10,
        Opcode::Gt => 0x11,
        Opcode::Slt => 0x12,
        Opcode::Sgt => 0x13,
        Opcode::Eq => 0x14,
        Opcode::Iszero => 0x15,
        Opcode::And => 0x16,
        Opcode::Or => 0x17,
        Opcode::Xor => 0x18,
        Opcode::Not => 0x19,
        Opcode::Byte => 0x1a,
        Opcode::Shl => 0x1b,
        Opcode::Shr => 0x1c,
        Opcode::Sar => 0x1d,
        Opcode::Sha3 => 0x20,
        Opcode::Address => 0x30,
        Opcode::Balance => 0x31,
        Opcode::Origin => 0x32,
        Opcode::Caller => 0x33,
        Opcode::Callvalue => 0x34,
        Opcode::Calldataload => 0x35,
        Opcode::Calldatasize => 0x36,
        Opcode::Calldatacopy => 0x37,
        Opcode::Codesize => 0x38,
        Opcode::Codecopy => 0x39,
        Opcode::Gasprice => 0x3a,
        Opcode::Extcodesize => 0x3b,
        Opcode::Extcodecopy => 0x3c,
        Opcode::Returndatasize => 0x3d,
        Opcode::Returndatacopy => 0x3e,
        Opcode::Extcodehash => 0x3f,
        Opcode::Blockhash => 0x40,
        Opcode::Coinbase => 0x41,
        Opcode::Timestamp => 0x42,
        Opcode::Number => 0x43,
        Opcode::Difficulty => 0x44,
        Opcode::Gaslimit => 0x45,
        Opcode::Chainid => 0x46,
        Opcode::Selfbalance => 0x47,
        Opcode::Pop => 0x50,
        Opcode::Mload => 0x51,
        Opcode::Mstore => 0x52,
        Opcode::Mstore8 => 0x53,
        Opcode::Sload => 0x54,
        Opcode::Sstore => 0x55,
        Opcode::Jump => 0x56,
        Opcode::Jumpi => 0x57,
        Opcode::Pc => 0x58,
        Opcode::Msize => 0x59,
        Opcode::Jumpdest => 0x5b,
        Opcode::Push1 => 0x60,
        Opcode::Push2 => 0x61,
        Opcode::Push3 => 0x62,
        Opcode::Push4 => 0x63,
        Opcode::Push5 => 0x64,
        Opcode::Push6 => 0x65,
        Opcode::Push7 => 0x66,
        Opcode::Push8 => 0x67,
        Opcode::Push9 => 0x68,
        Opcode::Push10 => 0x69,
        Opcode::Push11 => 0x6a,
        Opcode::Push12 => 0x6b,
        Opcode::Push13 => 0x6c,
        Opcode::Push14 => 0x6d,
        Opcode::Push15 => 0x6e,
        Opcode::Push16 => 0x6f,
        Opcode::Push17 => 0x70,
        Opcode::Push18 => 0x71,
        Opcode::Push19 => 0x72,
        Opcode::Push20 => 0x73,
        Opcode::Push21 => 0x74,
        Opcode::Push22 => 0x75,
        Opcode::Push23 => 0x76,
        Opcode::Push24 => 0x77,
        Opcode::Push25 => 0x78,
        Opcode::Push26 => 0x79,
        Opcode::Push27 => 0x7a,
        Opcode::Push28 => 0x7b,
        Opcode::Push29 => 0x7c,
        Opcode::Push30 => 0x7d,
        Opcode::Push31 => 0x7e,
        Opcode::Push32 => 0x7f,
        Opcode::Dup1 => 0x80,
        Opcode::Dup2 => 0x81,
        Opcode::Dup3 => 0x82,
        Opcode::Dup4 => 0x83,
        Opcode::Dup5 => 0x84,
        Opcode::Dup6 => 0x85,
        Opcode::Dup7 => 0x86,
        Opcode::Dup8 => 0x87,
        Opcode::Dup9 => 0x88,
        Opcode::Dup10 => 0x89,
        Opcode::Dup11 => 0x8a,
        Opcode::Dup12 => 0x8b,
        Opcode::Dup13 => 0x8c,
        Opcode::Dup14 => 0x8d,
        Opcode::Dup15 => 0x8e,
        Opcode::Dup16 => 0x8f,
        Opcode::Swap1 => 0x90,
        Opcode::Swap2 => 0x91,
        Opcode::Swap3 => 0x92,
        Opcode::Swap4 => 0x93,
        Opcode::Swap5 => 0x94,
        Opcode::Swap6 => 0x95,
        Opcode::Swap7 => 0x96,
        Opcode::Swap8 => 0x97,
        Opcode::Swap9 => 0x98,
        Opcode::Swap10 => 0x99,
        Opcode::Swap11 => 0x9a,
        Opcode::Swap12 => 0x9b,
        Opcode::Swap13 => 0x9c,
        Opcode::Swap14 => 0x9d,
        Opcode::Swap15 => 0x9e,
        Opcode::Swap16 => 0x9f,
        Opcode::Log0 => 0xa0,
        Opcode::Log1 => 0xa1,
        Opcode::Log2 => 0xa2,
        Opcode::Log3 => 0xa3,
        Opcode::Log4 => 0xa4,
        Opcode::Create => 0xf0,
        Opcode::Call => 0xf1,
        Opcode::Callcode => 0xf2,
        Opcode::Return => 0xf3,
        Opcode::Delegatecall => 0xf4,
        Opcode::Create2 => 0xf5,
        Opcode::Staticcall => 0xfa,
        Opcode::Revert => 0xfd,
        Opcode::Selfdestruct => 0xff,
    }
}

impl Opcode {
    /// Decode one byte; unrecognized bytes fail with InvalidOpcode.
    pub fn from_byte(byte: u8) -> (r: Result<Opcode, OpcodeError>)
        ensures
            match r {
                Ok(op) => is_valid_opcode_byte(byte) && opcode_byte(op) == byte,
                Err(e) => !is_valid_opcode_byte(byte) && e == (OpcodeError::InvalidOpcode {
                    opcode: byte,
                }),
            },
    {
        match byte {
            0x60 => Ok(Opcode::Push1),
            0x61 => Ok(Opcode::Push2),
            0x62 => Ok(Opcode::Push3),
            0x63 => Ok(Opcode::Push4),
            0x64 => Ok(Opcode::Push5),
            0x65 => Ok(Opcode::Push6),
            0x66 => Ok(Opcode::Push7),
            0x67 => Ok(Opcode::Push8),
            0x68 => Ok(Opcode::Push9),
            0x69 => Ok(Opcode::Push10),
            0x6a => Ok(Opcode::Push11),
            0x6b => Ok(Opcode::Push12),
            0x6c => Ok(Opcode::Push13),
            0x6d => Ok(Opcode::Push14),
            0x6e => Ok(Opcode::Push15),
            0x6f => Ok(Opcode::Push16),
            0x70 => Ok(Opcode::Push17),
            0x71 => Ok(Opcode::Push18),
            0x72 => Ok(Opcode::Push19),
            0x73 => Ok(Opcode::Push20),
            0x74 => Ok(Opcode::Push21),
            0x75 => Ok(Opcode::Push22),
            0x76 => Ok(Opcode::Push23),
            0x77 => Ok(Opcode::Push24),
            0x78 => Ok(Opcode::Push25),
            0x79 => Ok(Opcode::Push26),
            0x7a => Ok(Opcode::Push27),
            0x7b => Ok(Opcode::Push28),
            0x7c => Ok(Opcode::Push29),
            0x7d => Ok(Opcode::Push30),
            0x7e => Ok(Opcode::Push31),
            0x7f => Ok(Opcode::Push32),
            0x80 => Ok(Opcode::Dup1),
            0x81 => Ok(Opcode::Dup2),
            0x82 => Ok(Opcode::Dup3),
            0x83 => Ok(Opcode::Dup4),
            0x84 => Ok(Opcode::Dup5),
            0x85 => Ok(Opcode::Dup6),
            0x86 => Ok(Opcode::Dup7),
            0x87 => Ok(Opcode::Dup8),
            0x88 => Ok(Opcode::Dup9),
            0x89 => Ok(Opcode::Dup10),
            0x8a => Ok(Opcode::Dup11),
            0x8b => Ok(Opcode::Dup12),
            0x8c => Ok(Opcode::Dup13),
            0x8d => Ok(Opcode::Dup14),
            0x8e => Ok(Opcode::Dup15),
            0x8f => Ok(Opcode::Dup16),
            0x90 => Ok(Opcode::Swap1),
            0x91 => Ok(Opcode::Swap2),
            0x92 => Ok(Opcode::Swap3),
            0x93 => Ok(Opcode::Swap4),
            0x94 => Ok(Opcode::Swap5),
            0x95 => Ok(Opcode::Swap6),
            0x96 => Ok(Opcode::Swap7),
            0x97 => Ok(Opcode::Swap8),
            0x98 => Ok(Opcode::Swap9),
            0x99 => Ok(Opcode::Swap10),
            0x9a => Ok(Opcode::Swap11),
            0x9b => Ok(Opcode::Swap12),
            0x9c => Ok(Opcode::Swap13),
            0x9d => Ok(Opcode::Swap14),
            0x9e => Ok(Opcode::Swap15),
            0x9f => Ok(Opcode::Swap16),
            0x00 => Ok(Opcode::Stop),
            0x01 => Ok(Opcode::Add),
            0x02 => Ok(Opcode::Mul),
            0x03 => Ok(Opcode::Sub),
            0x04 => Ok(Opcode::Div),
            0x05 => Ok(Opcode::Sdiv),
            0x06 => Ok(Opcode::Mod),
            0x07 => Ok(Opcode::Smod),
            0x08 => Ok(Opcode::Addmod),
            0x09 => Ok(Opcode::Mulmod),
            0x0a => Ok(Opcode::Exp),
            0x0b => Ok(Opcode::Signextend),
            0x10 => Ok(Opcode::Lt),
            0x11 => Ok(Opcode::Gt),
            0x12 => Ok(Opcode::Slt),
            0x13 => Ok(Opcode::Sgt),
            0x14 => Ok(Opcode::Eq),
            0x15 => Ok(Opcode::Iszero),
            0x16 => Ok(Opcode::And),
            0x17 => Ok(Opcode::Or),
            0x18 => Ok(Opcode::Xor),
            0x19 => Ok(Opcode::Not),
            0x1a => Ok(Opcode::Byte),
            0x1b => Ok(Opcode::Shl),
            0x1c => Ok(Opcode::Shr),
            0x1d => Ok(Opcode::Sar),
            0x20 => Ok(Opcode::Sha3),
            0x30 => Ok(Opcode::Address),
            0x31 => Ok(Opcode::Balance),
            0x32 => Ok(Opcode::Origin),
            0x33 => Ok(Opcode::Caller),
            0x34 => Ok(Opcode::Callvalue),
            0x35 => Ok(Opcode::Calldataload),
            0x36 => Ok(Opcode::Calldatasize),
            0x37 => Ok(Opcode::Calldatacopy),
            0x38 => Ok(Opcode::Codesize),
            0x39 => Ok(Opcode::Codecopy),
            0x3a => Ok(Opcode::Gasprice),
            0x3b => Ok(Opcode::Extcodesize),
            0x3c => Ok(Opcode::Extcodecopy),
            0x3d => Ok(Opcode::Returndatasize),
            0x3e => Ok(Opcode::Returndatacopy),
            0x3f => Ok(Opcode::Extcodehash),
            0x40 => Ok(Opcode::Blockhash),
            0x41 => Ok(Opcode::Coinbase),
            0x42 => Ok(Opcode::Timestamp),
            0x43 => Ok(Opcode::Number),
            0x44 => Ok(Opcode::Difficulty),
            0x45 => Ok(Opcode::Gaslimit),
            0x46 => Ok(Opcode::Chainid),
            0x47 => Ok(Opcode::Selfbalance),
            0x50 => Ok(Opcode::Pop),
            0x51 => Ok(Opcode::Mload),
            0x52 => Ok(Opcode::Mstore),
            0x53 => Ok(Opcode::Mstore8),
            0x54 => Ok(Opcode::Sload),
            0x55 => Ok(Opcode::Sstore),
            0x56 => Ok(Opcode::Jump),
            0x57 => Ok(Opcode::Jumpi),
            0x58 => Ok(Opcode::Pc),
            0x59 => Ok(Opcode::Msize),
            0x5b => Ok(Opcode::Jumpdest),
            0xa0 => Ok(Opcode::Log0),
            0xa1 => Ok(Opcode::Log1),
            0xa2 => Ok(Opcode::Log2),
            0xa3 => Ok(Opcode::Log3),
            0xa4 => Ok(Opcode::Log4),
            0xf0 => Ok(Opcode::Create),
            0xf1 => Ok(Opcode::Call),
            0xf2 => Ok(Opcode::Callcode),
            0xf3 => Ok(Opcode::Return),
            0xf4 => Ok(Opcode::Delegatecall),
            0xf5 => Ok(Opcode::Create2),
            0xfa => Ok(Opcode::Staticcall),
            0xfd => Ok(Opcode::Revert),
            0xff => Ok(Opcode::Selfdestruct),
            _ => Err(OpcodeError::InvalidOpcode { opcode: byte }),
        }
    }

    /// The byte this instruction encodes to.
    pub fn to_byte(self) -> (r: u8)
        ensures
            r == opcode_byte(self),
    {
        match self {
        Opcode::Stop => 0x00,
        Opcode::Add => 0x01,
        Opcode::Mul => 0x02,
        Opcode::Sub => 0x03,
        Opcode::Div => 0x04,
        Opcode::Sdiv => 0x05,
        Opcode::Mod => 0x06,
        Opcode::Smod => 0x07,
        Opcode::Addmod => 0x08,
        Opcode::Mulmod => 0x09,
        Opcode::Exp => 0x0a,
        Opcode::Signextend => 0x0b,
        Opcode::Lt => 0x10,
        Opcode::Gt => 0x11,
        Opcode::Slt => 0x12,
        Opcode::Sgt => 0x13,
        Opcode::Eq => 0x14,
        Opcode::Iszero => 0x15,
        Opcode::And => 0x16,
        Opcode::Or => 0x17,
        Opcode::Xor => 0x18,
        Opcode::Not => 0x19,
        Opcode::Byte => 0x1a,
        Opcode::Shl => 0x1b,
        Opcode::Shr => 0x1c,
        Opcode::Sar => 0x1d,
        Opcode::Sha3 => 0x20,
        Opcode::Address => 0x30,
        Opcode::Balance => 0x31,
        Opcode::Origin => 0x32,
        Opcode::Caller => 0x33,
        Opcode::Callvalue => 0x34,
        Opcode::Calldataload => 0x35,
        Opcode::Calldatasize => 0x36,
        Opcode::Calldatacopy => 0x37,
        Opcode::Codesize => 0x38,
        Opcode::Codecopy => 0x39,
        Opcode::Gasprice => 0x3a,
        Opcode::Extcodesize => 0x3b,
        Opcode::Extcodecopy => 0x3c,
        Opcode::Returndatasize => 0x3d,
        Opcode::Returndatacopy => 0x3e,
        Opcode::Extcodehash => 0x3f,
        Opcode::Blockhash => 0x40,
        Opcode::Coinbase => 0x41,
        Opcode::Timestamp => 0x42,
        Opcode::Number => 0x43,
        Opcode::Difficulty => 0x44,
        Opcode::Gaslimit => 0x45,
        Opcode::Chainid => 0x46,
        Opcode::Selfbalance => 0x47,
        Opcode::Pop => 0x50,
        Opcode::Mload => 0x51,
        Opcode::Mstore => 0x52,
        Opcode::Mstore8 => 0x53,
        Opcode::Sload => 0x54,
        Opcode::Sstore => 0x55,
        Opcode::Jump => 0x56,
        Opcode::Jumpi => 0x57,
        Opcode::Pc => 0x58,
        Opcode::Msize => 0x59,
        Opcode::Jumpdest => 0x5b,
        Opcode::Push1 => 0x60,
        Opcode::Push2 => 0x61,
        Opcode::Push3 => 0x62,
        Opcode::Push4 => 0x63,
        Opcode::Push5 => 0x64,
        Opcode::Push6 => 0x65,
        Opcode::Push7 => 0x66,
        Opcode::Push8 => 0x67,
        Opcode::Push9 => 0x68,
        Opcode::Push10 => 0x69,
        Opcode::Push11 => 0x6a,
        Opcode::Push12 => 0x6b,
        Opcode::Push13 => 0x6c,
        Opcode::Push14 => 0x6d,
        Opcode::Push15 => 0x6e,
        Opcode::Push16 => 0x6f,
        Opcode::Push17 => 0x70,
        Opcode::Push18 => 0x71,
        Opcode::Push19 => 0x72,
        Opcode::Push20 => 0x73,
        Opcode::Push21 => 0x74,
        Opcode::Push22 => 0x75,
        Opcode::Push23 => 0x76,
        Opcode::Push24 => 0x77,
        Opcode::Push25 => 0x78,
        Opcode::Push26 => 0x79,
        Opcode::Push27 => 0x7a,
        Opcode::Push28 => 0x7b,
        Opcode::Push29 => 0x7c,
        Opcode::Push30 => 0x7d,
        Opcode::Push31 => 0x7e,
        Opcode::Push32 => 0x7f,
        Opcode::Dup1 => 0x80,
        Opcode::Dup2 => 0x81,
        Opcode::Dup3 => 0x82,
        Opcode::Dup4 => 0x83,
        Opcode::Dup5 => 0x84,
        Opcode::Dup6 => 0x85,
        Opcode::Dup7 => 0x86,
        Opcode::Dup8 => 0x87,
        Opcode::Dup9 => 0x88,
        Opcode::Dup10 => 0x89,
        Opcode::Dup11 => 0x8a,
        Opcode::Dup12 => 0x8b,
        Opcode::Dup13 => 0x8c,
        Opcode::Dup14 => 0x8d,
        Opcode::Dup15 => 0x8e,
        Opcode::Dup16 => 0x8f,
        Opcode::Swap1 => 0x90,
        Opcode::Swap2 => 0x91,
        Opcode::Swap3 => 0x92,
        Opcode::Swap4 => 0x93,
        Opcode::Swap5 => 0x94,
        Opcode::Swap6 => 0x95,
        Opcode::Swap7 => 0x96,
        Opcode::Swap8 => 0x97,
        Opcode::Swap9 => 0x98,
        Opcode::Swap10 => 0x99,
        Opcode::Swap11 => 0x9a,
        Opcode::Swap12 => 0x9b,
        Opcode::Swap13 => 0x9c,
        Opcode::Swap14 => 0x9d,
        Opcode::Swap15 => 0x9e,
        Opcode::Swap16 => 0x9f,
        Opcode::Log0 => 0xa0,
        Opcode::Log1 => 0xa1,
        Opcode::Log2 => 0xa2,
        Opcode::Log3 => 0xa3,
        Opcode::Log4 => 0xa4,
        Opcode::Create => 0xf0,
        Opcode::Call => 0xf1,
        Opcode::Callcode => 0xf2,
        Opcode::Return => 0xf3,
        Opcode::Delegatecall => 0xf4,
        Opcode::Create2 => 0xf5,
        Opcode::Staticcall => 0xfa,
        Opcode::Revert => 0xfd,
        Opcode::Selfdestruct => 0xff,
        }
    }

    /// The push immediate width, from the variant's own byte.
    pub fn push_size(self) -> (r: usize)
        ensures
            r == push_width(opcode_byte(self)),
    {
        let byte = self.to_byte();
        if 0x60 <= byte && byte <= 0x7f {
            (byte - 0x60 + 1) as usize
        } else {
            0
        }
    }

    /// How many words this instruction consumes from the stack.
    pub fn pop_count(self) -> (r: usize)
        ensures
            r == spec_pop_count(opcode_byte(self)),
    {
        byte_pop_count(self.to_byte())
    }

    /// How many words this instruction leaves on the stack.
    pub fn push_count(self) -> (r: usize)
        ensures
            r == spec_push_count(opcode_byte(self)),
    {
        byte_push_count(self.to_byte())
    }

    /// Whether this is a push instruction.
    pub fn is_push(self) -> (r: bool)
        ensures
            r == is_push_byte(opcode_byte(self)),
    {
        let byte = self.to_byte();
        0x60 <= byte && byte <= 0x7f
    }

    /// Whether this is a duplicate instruction.
    pub fn is_dup(self) -> (r: bool)
        ensures
            r == is_dup_byte(opcode_byte(self)),
    {
        let byte = self.to_byte();
        0x80 <= byte && byte <= 0x8f
    }

    /// Whether this is an exchange instruction.
    pub fn is_swap(self) -> (r: bool)
        ensures
            r == is_swap_byte(opcode_byte(self)),
    {
        let byte = self.to_byte();
        0x90 <= byte && byte <= 0x9f
    }

    /// The duplicate depth, counted from zero.
    pub fn dup_depth(self) -> (r: usize)
        ensures
            r == if is_dup_byte(opcode_byte(self)) {
                (opcode_byte(self) - 0x80) as nat
            } else {
                0nat
            },
    {
        let byte = self.to_byte();
        if 0x80 <= byte && byte <= 0x8f {
            (byte - 0x80) as usize
        } else {
            0
        }
    }

    /// The exchange depth, counted from zero.
    pub fn swap_depth(self) -> (r: usize)
        ensures
            r == if is_swap_byte(opcode_byte(self)) {
                (opcode_byte(self) - 0x90) as nat
            } else {
                0nat
            },
    {
        let byte = self.to_byte();
        if 0x90 <= byte && byte <= 0x9f {
            (byte - 0x90) as usize
        } else {
            0
        }
    }

    /// The push immediate width, or zero for other instructions.
    pub fn get_push_size(self) -> (r: usize)
        ensures
            r == push_width(opcode_byte(self)),
    {
        let byte = self.to_byte();
        if 0x60 <= byte && byte <= 0x7f {
            (byte - 0x60 + 1) as usize
        } else {
            0
        }
    }
}

} // verus!
