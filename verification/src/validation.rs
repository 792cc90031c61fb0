use vstd::prelude::*;
use vstd::string::StringSliceAdditionalSpecFns;
use crate::address::{Address, valid_address_hex};
use crate::bytes::Bytes;
use crate::hexstr::{hex_parse, is_hex_body, strip_0x, parse_hex_body, strip_hex_prefix};
use crate::opcodes::{is_valid_opcode_byte, is_push_byte, push_width, valid_opcode};
use crate::uint256::Uint256;

verus! {

/// Failure modes of pre-execution validation.
#[derive(Debug, Clone)]
pub enum ValidationError {
    InvalidBytecode { message: String },
    InvalidAddress { address: String },
    InvalidGasLimit { limit: u64 },
    InvalidValue { value: String },
    CodeSizeTooLarge { size: usize, max: usize },
    InvalidJumpDestination { pc: usize },
    StackDepthValidation { message: String },
    MemoryBoundsValidation { message: String },
    SecurityValidation { message: String },
}

/// The set of positions where a JUMPDEST byte stands outside any push
/// immediate: the walk steps over each instruction and skips the immediate
/// bytes that follow a push.
pub open spec fn jumpdest_set(code: Seq<u8>, i: nat) -> Set<nat>
    decreases code.len() - i,
    when i <= code.len()
{
    if i >= code.len() {
        Set::empty()
    } else if code[i as int] == 0x5b {
        jumpdest_set(code, i + 1).insert(i)
    } else if is_push_byte(code[i as int]) {
        let next = i + 1 + push_width(code[i as int]);
        if next > code.len() {
            Set::empty()
        } else {
            jumpdest_set(code, next)
        }
    } else {
        jumpdest_set(code, i + 1)
    }
}

/// Whether the linear walk accepts the code from position i on: every byte
/// at an instruction position is a recognized opcode and no push immediate
/// runs past the end of the code.
pub open spec fn code_walk_ok(code: Seq<u8>, i: nat) -> bool
    decreases code.len() - i,
    when i <= code.len()
{
    if i >= code.len() {
        true
    } else if !is_valid_opcode_byte(code[i as int]) {
        false
    } else if is_push_byte(code[i as int]) {
        let next = i + 1 + push_width(code[i as int]);
        next < code.len() + 1 && code_walk_ok(code, next)
    } else {
        code_walk_ok(code, i + 1)
    }
}

/// The positions collected in a jumpdest list, as a set.
pub open spec fn u64_set(s: Seq<u64>) -> Set<nat> {
    Set::new(|t: nat| exists|k: int| 0 <= k < s.len() && s[k] as nat == t)
}

/// Walk the code and collect every JUMPDEST position that stands outside a
/// push immediate. This list is the one set that run-time jumps are checked
/// against.
pub fn compute_jumpdests(code: &[u8]) -> (r: Vec<u64>)
    ensures
        u64_set(r@) == jumpdest_set(code@, 0),
{
    let n = code.len();
    let mut out: Vec<u64> = Vec::new();
    let mut i: usize = 0;
    while i < n
        invariant
            i <= n,
            n == code@.len(),
            n <= u64::MAX,
            jumpdest_set(code@, 0) =~= u64_set(out@).union(jumpdest_set(code@, i as nat)),
            forall|k: int| 0 <= k < out@.len() ==> out@[k] < i,
        decreases n - i,
    {
        let ghost out0 = out@;
        let ghost i0 = i as nat;
        let b = code[i];
        let mut next: usize = i + 1;
        if b == 0x5b {
            out.push(i as u64);
        } else if 0x60 <= b && b <= 0x7f {
            let width = (b - 0x5f) as usize;
            if n - i - 1 < width {
                proof {
                    assert(jumpdest_set(code@, i0) =~= Set::<nat>::empty());
                    assert(jumpdest_set(code@, 0) =~= u64_set(out@).union(
                        jumpdest_set(code@, n as nat),
                    ));
                }
                return out;
            }
            next = i + 1 + width;
        }
        proof {
            if b == 0x5b {
                assert forall|t: nat| u64_set(out0).insert(i0).contains(t) implies u64_set(
                    out@,
                ).contains(t) by {
                    if t == i0 {
                        assert(out@[out0.len() as int] as nat == t);
                    } else {
                        let k = choose|k: int| 0 <= k < out0.len() && out0[k] as nat == t;
                        assert(out@[k] as nat == t);
                    }
                }
                assert forall|t: nat| u64_set(out@).contains(t) implies u64_set(out0).insert(
                    i0,
                ).contains(t) by {
                    let k = choose|k: int| 0 <= k < out@.len() && out@[k] as nat == t;
                    if k < out0.len() {
                        assert(out0[k] as nat == t);
                    }
                }
                assert(u64_set(out@) =~= u64_set(out0).insert(i0));
                assert(jumpdest_set(code@, i0) == jumpdest_set(code@, i0 + 1).insert(i0));
                assert(u64_set(out@).union(jumpdest_set(code@, next as nat)) =~= u64_set(
                    out0,
                ).union(jumpdest_set(code@, i0)));
            } else if is_push_byte(b) {
                assert(jumpdest_set(code@, i0) == jumpdest_set(code@, next as nat));
            } else {
                assert(jumpdest_set(code@, i0) == jumpdest_set(code@, next as nat));
            }
        }
        i = next;
    }
    proof {
        assert(jumpdest_set(code@, n as nat) =~= Set::<nat>::empty());
        assert(jumpdest_set(code@, 0) =~= u64_set(out@));
    }
    out
}

/// Every collected jump destination lies inside the code.
pub proof fn lemma_jumpdest_in_bounds(code: Seq<u8>, i: nat)
    requires
        i <= code.len(),
    ensures
        forall|t: nat| jumpdest_set(code, i).contains(t) ==> i <= t < code.len(),
    decreases code.len() - i,
{
    if i >= code.len() {
    } else if code[i as int] == 0x5b {
        lemma_jumpdest_in_bounds(code, i + 1);
        assert forall|t: nat| jumpdest_set(code, i).contains(t) implies i <= t
            < code.len() by {
            if t != i {
                assert(jumpdest_set(code, i + 1).contains(t));
            }
        }
    } else if is_push_byte(code[i as int]) {
        let next = i + 1 + push_width(code[i as int]);
        if next <= code.len() {
            lemma_jumpdest_in_bounds(code, next);
            assert forall|t: nat| jumpdest_set(code, i).contains(t) implies i <= t
                < code.len() by {
                assert(jumpdest_set(code, next).contains(t));
            }
        }
    } else {
        lemma_jumpdest_in_bounds(code, i + 1);
        assert forall|t: nat| jumpdest_set(code, i).contains(t) implies i <= t
            < code.len() by {
            assert(jumpdest_set(code, i + 1).contains(t));
        }
    }
}

/// The number of instructions the linear walk visits from a position: each
/// visited byte counts as one instruction and a push skips its immediate,
/// so immediate bytes are never counted.
pub open spec fn insn_count(code: Seq<u8>, i: nat) -> nat
    decreases code.len() - i,
    when i <= code.len()
{
    if i >= code.len() {
        0nat
    } else if is_push_byte(code[i as int]) {
        let next = i + 1 + push_width(code[i as int]);
        if next > code.len() {
            1nat
        } else {
            1 + insn_count(code, next)
        }
    } else {
        1 + insn_count(code, i + 1)
    }
}

/// The number of visited instructions that are EXP, SSTORE or KECCAK256.
pub open spec fn expensive_count(code: Seq<u8>, i: nat) -> nat
    decreases code.len() - i,
    when i <= code.len()
{
    if i >= code.len() {
        0nat
    } else {
        let here: nat = if code[i as int] == 0x0a || code[i as int] == 0x55 || code[i as int]
            == 0x20 {
            1nat
        } else {
            0nat
        };
        if is_push_byte(code[i as int]) {
            let next = i + 1 + push_width(code[i as int]);
            if next > code.len() {
                here
            } else {
                (here + expensive_count(code, next)) as nat
            }
        } else {
            (here + expensive_count(code, i + 1)) as nat
        }
    }
}

/// The number of visited instructions that are JUMP or JUMPI.
pub open spec fn jump_count(code: Seq<u8>, i: nat) -> nat
    decreases code.len() - i,
    when i <= code.len()
{
    if i >= code.len() {
        0nat
    } else {
        let here: nat = if code[i as int] == 0x56 || code[i as int] == 0x57 {
            1nat
        } else {
            0nat
        };
        if is_push_byte(code[i as int]) {
            let next = i + 1 + push_width(code[i as int]);
            if next > code.len() {
                here
            } else {
                (here + jump_count(code, next)) as nat
            }
        } else {
            (here + jump_count(code, i + 1)) as nat
        }
    }
}

/// The heuristic safety gate over the instruction walk: code fails it when
/// a tenth or more of its instructions are the dear EXP, SSTORE or
/// KECCAK256, or when a fifth or more are jumps; empty code passes.
pub open spec fn security_ok(s: Seq<u8>) -> bool {
    let t = insn_count(s, 0);
    &&& !(t > 0 && 10 * expensive_count(s, 0) >= t)
    &&& !(t > 0 && 5 * jump_count(s, 0) >= t)
}

/// Whether an ASCII byte is a decimal digit.
pub open spec fn is_dec_digit(c: u8) -> bool {
    0x30 <= c <= 0x39
}

/// Whether a whole ASCII string is decimal digits.
pub open spec fn all_dec_digits(s: Seq<u8>) -> bool {
    forall|i: int| 0 <= i < s.len() ==> is_dec_digit(s[i])
}

/// Whether a whole ASCII string is hex digits.
pub open spec fn all_hex_digits(s: Seq<u8>) -> bool {
    forall|i: int| 0 <= i < s.len() ==> crate::hexstr::is_hex_digit_byte(s[i])
}

/// The number an ASCII string spells in decimal; bytes that are not digits
/// count as zero.
pub open spec fn dec_val(s: Seq<u8>) -> nat
    decreases s.len(),
{
    if s.len() == 0 {
        0nat
    } else {
        (dec_val(s.drop_last()) * 10 + (if is_dec_digit(s.last()) {
            (s.last() - 0x30) as nat
        } else {
            0nat
        })) as nat
    }
}

/// The number an ASCII string spells in hex; bytes that are not hex digits
/// count as zero.
pub open spec fn hexnum_val(s: Seq<u8>) -> nat
    decreases s.len(),
{
    if s.len() == 0 {
        0nat
    } else {
        (hexnum_val(s.drop_last()) * 16 + (if crate::hexstr::is_hex_digit_byte(s.last()) {
            crate::hexstr::hex_digit_val(s.last())
        } else {
            0nat
        })) as nat
    }
}

/// The largest accepted wei amount: the total supply of ether.
pub open spec fn max_wei_value() -> nat {
    21000000000000000000000000nat
}

/// Every prefix of a decimal string spells at most the whole string's value.
proof fn lemma_dec_prefix_le(s: Seq<u8>, i: int)
    requires
        0 <= i <= s.len(),
    ensures
        dec_val(s.subrange(0, i)) <= dec_val(s),
    decreases s.len() - i,
{
    if i == s.len() {
        assert(s.subrange(0, i) =~= s);
    } else {
        assert(s.subrange(0, i + 1).drop_last() =~= s.subrange(0, i));
        lemma_dec_prefix_le(s, i + 1);
    }
}

/// Every prefix of a hex string spells at most the whole string's value.
proof fn lemma_hexnum_prefix_le(s: Seq<u8>, i: int)
    requires
        0 <= i <= s.len(),
    ensures
        hexnum_val(s.subrange(0, i)) <= hexnum_val(s),
    decreases s.len() - i,
{
    if i == s.len() {
        assert(s.subrange(0, i) =~= s);
    } else {
        assert(s.subrange(0, i + 1).drop_last() =~= s.subrange(0, i));
        lemma_hexnum_prefix_le(s, i + 1);
    }
}

/// Parse a decimal amount; amounts that cannot be under the wei cap are cut
/// off early, so the result fits comfortably in 128 bits.
fn parse_bounded_dec(s: &[u8]) -> (r: Option<u128>)
    ensures
        match r {
            Some(acc) => s@.len() >= 1 && all_dec_digits(s@) && acc == dec_val(s@),
            None => !(s@.len() >= 1 && all_dec_digits(s@) && dec_val(s@) <= max_wei_value()),
        },
{
    let n = s.len();
    if n == 0 {
        return None;
    }
    let mut acc: u128 = 0;
    let mut i: usize = 0;
    while i < n
        invariant
            i <= n,
            n == s@.len(),
            acc <= 0x1000000000000000000000000,
            acc == dec_val(s@.subrange(0, i as int)),
            forall|j: int| 0 <= j < i ==> is_dec_digit(s@[j]),
        decreases n - i,
    {
        let c = s[i];
        if !(0x30 <= c && c <= 0x39) {
            return None;
        }
        proof {
            assert(s@.subrange(0, i + 1).drop_last() =~= s@.subrange(0, i as int));
            assert(s@.subrange(0, i + 1).last() == s@[i as int]);
        }
        acc = acc * 10 + (c - 0x30) as u128;
        i += 1;
        if acc > 0x1000000000000000000000000 {
            proof {
                lemma_dec_prefix_le(s@, i as int);
            }
            return None;
        }
    }
    proof {
        assert(s@.subrange(0, n as int) =~= s@);
    }
    Some(acc)
}

/// Parse a hex amount; amounts that cannot be under the wei cap are cut off
/// early, so the result fits comfortably in 128 bits.
fn parse_bounded_hex(s: &[u8]) -> (r: Option<u128>)
    ensures
        match r {
            Some(acc) => s@.len() >= 1 && all_hex_digits(s@) && acc == hexnum_val(s@),
            None => !(s@.len() >= 1 && all_hex_digits(s@) && hexnum_val(s@)
                <= max_wei_value()),
        },
{
    let n = s.len();
    if n == 0 {
        return None;
    }
    let mut acc: u128 = 0;
    let mut i: usize = 0;
    while i < n
        invariant
            i <= n,
            n == s@.len(),
            acc <= 0x1000000000000000000000000,
            acc == hexnum_val(s@.subrange(0, i as int)),
            forall|j: int| 0 <= j < i ==> crate::hexstr::is_hex_digit_byte(s@[j]),
        decreases n - i,
    {
        let c = s[i];
        let d = match crate::hexstr::parse_hex_digit(c) {
            Some(d) => d,
            None => {
                return None;
            },
        };
        proof {
            assert(s@.subrange(0, i + 1).drop_last() =~= s@.subrange(0, i as int));
            assert(s@.subrange(0, i + 1).last() == s@[i as int]);
        }
        acc = acc * 16 + d as u128;
        i += 1;
        if acc > 0x1000000000000000000000000 {
            proof {
                lemma_hexnum_prefix_le(s@, i as int);
            }
            return None;
        }
    }
    proof {
        assert(s@.subrange(0, n as int) =~= s@);
    }
    Some(acc)
}

/// The pre-execution validator: size cap, linear opcode walk, and an
/// optional heuristic safety gate.
pub struct Validator {
    pub max_code_size: usize,
    pub max_stack_depth: usize,
    pub max_memory_size: usize,
    pub max_gas_limit: u64,
    pub min_gas_limit: u64,
    pub security_checks: bool,
}

/// A summary of the limits a validator enforces.
#[derive(Debug, Clone)]
pub struct ValidationStats {
    pub max_code_size: usize,
    pub max_stack_depth: usize,
    pub max_memory_size: usize,
    pub max_gas_limit: u64,
    pub min_gas_limit: u64,
    pub security_checks_enabled: bool,
}

impl Validator {
    /// A validator with the standard limits.
    pub fn new() -> (r: Validator)
        ensures
            r.max_code_size == 24576,
            r.max_stack_depth == 1024,
            r.max_memory_size == 0x40000000,
            r.max_gas_limit == 30000000,
            r.min_gas_limit == 21000,
            r.security_checks,
    {
        Validator {
            max_code_size: 24576,
            max_stack_depth: 1024,
            max_memory_size: 0x40000000,
            max_gas_limit: 30_000_000,
            min_gas_limit: 21_000,
            security_checks: true,
        }
    }

    /// A validator with chosen limits; the safety gate stays on.
    pub fn with_limits(
        max_code_size: usize,
        max_stack_depth: usize,
        max_memory_size: usize,
        max_gas_limit: u64,
        min_gas_limit: u64,
    ) -> (r: Validator)
        ensures
            r.max_code_size == max_code_size,
            r.max_stack_depth == max_stack_depth,
            r.max_memory_size == max_memory_size,
            r.max_gas_limit == max_gas_limit,
            r.min_gas_limit == min_gas_limit,
            r.security_checks,
    {
        Validator {
            max_code_size,
            max_stack_depth,
            max_memory_size,
            max_gas_limit,
            min_gas_limit,
            security_checks: true,
        }
    }

    /// Walk the code and check every instruction byte: the walk fails on an
    /// unrecognized opcode and on a push immediate that runs past the end.
    fn validate_opcodes(&self, code: &[u8]) -> (r: Result<(), ValidationError>)
        ensures
            match r {
                Ok(()) => code_walk_ok(code@, 0),
                Err(e) => !code_walk_ok(code@, 0) && e is InvalidBytecode,
            },
    {
        let n = code.len();
        let mut i: usize = 0;
        while i < n
            invariant
                i <= n,
                n == code@.len(),
                code_walk_ok(code@, 0) == code_walk_ok(code@, i as nat),
            decreases n - i,
        {
            let b = code[i];
            if !crate::opcodes::valid_opcode(b) {
                return Err(
                    ValidationError::InvalidBytecode {
                        message: "Invalid opcode in bytecode".to_owned(),
                    },
                );
            }
            if 0x60 <= b && b <= 0x7f {
                let width = (b - 0x5f) as usize;
                if n - i - 1 < width {
                    return Err(
                        ValidationError::InvalidBytecode {
                            message: "Push immediate extends beyond code".to_owned(),
                        },
                    );
                }
                i = i + 1 + width;
            } else {
                i = i + 1;
            }
        }
        Ok(())
    }

    /// Count the dear and jump bytes and reject code where either family
    /// crosses its share of the whole.
    fn validate_security(&self, code: &[u8]) -> (r: Result<(), ValidationError>)
        ensures
            match r {
                Ok(()) => security_ok(code@),
                Err(e) => !security_ok(code@) && e is SecurityValidation,
            },
    {
        let n = code.len();
        let mut insns: usize = 0;
        let mut expensive: usize = 0;
        let mut jumps: usize = 0;
        let mut i: usize = 0;
        while i < n
            invariant
                i <= n,
                n == code@.len(),
                insn_count(code@, 0) == insns + insn_count(code@, i as nat),
                expensive_count(code@, 0) == expensive + expensive_count(code@, i as nat),
                jump_count(code@, 0) == jumps + jump_count(code@, i as nat),
                insns <= i,
                expensive <= insns,
                jumps <= insns,
            decreases n - i,
        {
            let b = code[i];
            insns = insns + 1;
            if b == 0x0a || b == 0x55 || b == 0x20 {
                expensive = expensive + 1;
            }
            if b == 0x56 || b == 0x57 {
                jumps = jumps + 1;
            }
            if 0x60 <= b && b <= 0x7f {
                let width = (b - 0x5f) as usize;
                if n - i - 1 < width {
                    i = n;
                } else {
                    i = i + 1 + width;
                }
            } else {
                i = i + 1;
            }
        }
        proof {
            assert(insn_count(code@, n as nat) == 0);
        }
        if insns > 0 && 10u128 * (expensive as u128) >= insns as u128 {
            return Err(
                ValidationError::SecurityValidation {
                    message: "Too many expensive opcodes detected".to_owned(),
                },
            );
        }
        if insns > 0 && 5u128 * (jumps as u128) >= insns as u128 {
            return Err(
                ValidationError::SecurityValidation {
                    message: "Potential infinite loop detected".to_owned(),
                },
            );
        }
        Ok(())
    }

    /// Validate a byte string of code: the size cap first, then the linear
    /// opcode walk, then the heuristic safety gate when it is switched on;
    /// the first failing check names the error.
    pub fn validate_bytecode(&self, code: &[u8]) -> (r: Result<(), ValidationError>)
        ensures
            match r {
                Ok(()) => code@.len() <= self.max_code_size && code_walk_ok(code@, 0) && (
                !self.security_checks || security_ok(code@)),
                Err(e) => {
                    &&& (e is CodeSizeTooLarge || e is InvalidBytecode || e
                        is SecurityValidation)
                    &&& (e is CodeSizeTooLarge <==> code@.len() > self.max_code_size)
                    &&& (e matches ValidationError::CodeSizeTooLarge { size, max } ==> size
                        == code@.len() && max == self.max_code_size)
                    &&& (e is InvalidBytecode <==> code@.len() <= self.max_code_size
                        && !code_walk_ok(code@, 0))
                    &&& (e is SecurityValidation <==> code@.len() <= self.max_code_size
                        && code_walk_ok(code@, 0) && self.security_checks && !security_ok(
                        code@,
                    ))
                },
            },
    {
        if code.len() > self.max_code_size {
            return Err(
                ValidationError::CodeSizeTooLarge {
                    size: code.len(),
                    max: self.max_code_size,
                },
            );
        }
        match self.validate_opcodes(code) {
            Ok(()) => {},
            Err(e) => {
                return Err(e);
            },
        }
        if self.security_checks {
            match self.validate_security(code) {
                Ok(()) => {},
                Err(e) => {
                    return Err(e);
                },
            }
        }
        Ok(())
    }

    /// Validate an address string: exactly the 0x marker and forty hex
    /// digits are accepted.
    pub fn validate_address(&self, address: &str) -> (r: Result<Address, ValidationError>)
        ensures
            match r {
                Ok(a) => ({
                    let sb = address.spec_bytes();
                    sb.len() == 42 && sb[0] == 0x30 && sb[1] == 0x78 && valid_address_hex(sb)
                        && a@ == hex_parse(strip_0x(sb))
                }),
                Err(e) => ({
                    let sb = address.spec_bytes();
                    e is InvalidAddress && !(sb.len() == 42 && sb[0] == 0x30 && sb[1] == 0x78
                        && valid_address_hex(sb))
                }),
            },
    {
        let bytes = address.as_bytes();
        if !(bytes.len() == 42 && bytes[0] == 0x30 && bytes[1] == 0x78) {
            return Err(ValidationError::InvalidAddress { address: address.to_owned() });
        }
        match Address::from_hex(address) {
            Ok(a) => Ok(a),
            Err(_) => Err(ValidationError::InvalidAddress { address: address.to_owned() }),
        }
    }

    /// Validate a gas limit against the configured range.
    pub fn validate_gas_limit(&self, gas_limit: u64) -> (r: Result<(), ValidationError>)
        ensures
            match r {
                Ok(()) => self.min_gas_limit <= gas_limit <= self.max_gas_limit,
                Err(e) => (e matches ValidationError::InvalidGasLimit { limit } && limit
                    == gas_limit) && (gas_limit < self.min_gas_limit || gas_limit
                    > self.max_gas_limit),
            },
    {
        if gas_limit > self.max_gas_limit {
            return Err(ValidationError::InvalidGasLimit { limit: gas_limit });
        }
        if gas_limit < self.min_gas_limit {
            return Err(ValidationError::InvalidGasLimit { limit: gas_limit });
        }
        Ok(())
    }

    /// Validate a wei amount written in decimal, or in hex after a 0x
    /// marker; amounts over the total supply of ether are rejected.
    pub fn validate_value(&self, value: &str) -> (r: Result<Uint256, ValidationError>)
        ensures
            match r {
                Ok(v) => ({
                    let sb = value.spec_bytes();
                    if sb.len() >= 2 && sb[0] == 0x30 && sb[1] == 0x78 {
                        let body = sb.subrange(2, sb.len() as int);
                        body.len() >= 1 && all_hex_digits(body) && hexnum_val(body)
                            <= max_wei_value() && v.as_nat() == hexnum_val(body)
                    } else {
                        sb.len() >= 1 && all_dec_digits(sb) && dec_val(sb) <= max_wei_value()
                            && v.as_nat() == dec_val(sb)
                    }
                }),
                Err(e) => ({
                    let sb = value.spec_bytes();
                    e is InvalidValue && !(if sb.len() >= 2 && sb[0] == 0x30 && sb[1] == 0x78 {
                        let body = sb.subrange(2, sb.len() as int);
                        body.len() >= 1 && all_hex_digits(body) && hexnum_val(body)
                            <= max_wei_value()
                    } else {
                        sb.len() >= 1 && all_dec_digits(sb) && dec_val(sb) <= max_wei_value()
                    })
                }),
            },
    {
        let bytes = value.as_bytes();
        let hex_marked = bytes.len() >= 2 && bytes[0] == 0x30 && bytes[1] == 0x78;
        let parsed: Option<u128> = if hex_marked {
            let body = crate::hexstr::strip_hex_prefix(bytes);
            proof {
                assert(strip_0x(value.spec_bytes()) =~= value.spec_bytes().subrange(
                    2,
                    value.spec_bytes().len() as int,
                ));
            }
            parse_bounded_hex(body)
        } else {
            parse_bounded_dec(bytes)
        };
        match parsed {
            Some(acc) => {
                if acc > 21_000_000_000_000_000_000_000_000u128 {
                    return Err(ValidationError::InvalidValue { value: value.to_owned() });
                }
                Ok(Uint256::from_u128(acc))
            },
            None => Err(ValidationError::InvalidValue { value: value.to_owned() }),
        }
    }

    /// Validate hex input data: an optional 0x marker, an even number of
    /// hex digits, and at most a megabyte of decoded bytes.
    pub fn validate_input_data(&self, input: &str) -> (r: Result<Bytes, ValidationError>)
        ensures
            match r {
                Ok(b) => ({
                    let body = strip_0x(input.spec_bytes());
                    is_hex_body(body) && hex_parse(body).len() <= 1048576 && b@ == hex_parse(
                        body,
                    )
                }),
                Err(e) => ({
                    let body = strip_0x(input.spec_bytes());
                    e is InvalidBytecode && !(is_hex_body(body) && hex_parse(body).len()
                        <= 1048576)
                }),
            },
    {
        let bytes = input.as_bytes();
        let body = strip_hex_prefix(bytes);
        match parse_hex_body(body) {
            Some(v) => {
                if v.len() > 1048576 {
                    return Err(
                        ValidationError::InvalidBytecode {
                            message: "Input data too large".to_owned(),
                        },
                    );
                }
                Ok(Bytes::new(v))
            },
            None => Err(
                ValidationError::InvalidBytecode {
                    message: "Invalid hex input data".to_owned(),
                },
            ),
        }
    }

    /// Validate a whole frame: the gas limit range, then the code, then the
    /// stack depth, then the memory size; the first failing check names the
    /// error.
    pub fn validate_execution_context(&self, context: &crate::executor::ExecutionContext) -> (r:
        Result<(), ValidationError>)
        requires
            context.well_formed(),
        ensures
            ({
                let gas_ok = self.min_gas_limit <= context.gas_meter.spec_limit()
                    <= self.max_gas_limit;
                let size_ok = context.code@.len() <= self.max_code_size;
                let walk_ok = code_walk_ok(context.code@, 0);
                let sec_ok = !self.security_checks || security_ok(context.code@);
                let depth_ok = context.stack@.len() <= self.max_stack_depth;
                let mem_ok = context.memory@.len() <= self.max_memory_size;
                match r {
                    Ok(()) => gas_ok && size_ok && walk_ok && sec_ok && depth_ok && mem_ok,
                    Err(e) => {
                        &&& (e is InvalidGasLimit <==> !gas_ok)
                        &&& (e matches ValidationError::InvalidGasLimit { limit } ==> limit
                            == context.gas_meter.spec_limit())
                        &&& (e is CodeSizeTooLarge <==> gas_ok && !size_ok)
                        &&& (e is InvalidBytecode <==> gas_ok && size_ok && !walk_ok)
                        &&& (e is SecurityValidation <==> gas_ok && size_ok && walk_ok
                            && !sec_ok)
                        &&& (e is StackDepthValidation <==> gas_ok && size_ok && walk_ok
                            && sec_ok && !depth_ok)
                        &&& (e is MemoryBoundsValidation <==> gas_ok && size_ok && walk_ok
                            && sec_ok && depth_ok && !mem_ok)
                    },
                }
            }),
    {
        let limit = context.gas_meter.limit();
        if limit > self.max_gas_limit || limit < self.min_gas_limit {
            return Err(ValidationError::InvalidGasLimit { limit });
        }
        match self.validate_bytecode(context.code.as_slice()) {
            Ok(()) => {},
            Err(e) => {
                return Err(e);
            },
        }
        if context.stack.size() > self.max_stack_depth {
            return Err(
                ValidationError::StackDepthValidation {
                    message: "Stack depth exceeds maximum".to_owned(),
                },
            );
        }
        if context.memory.size() > self.max_memory_size {
            return Err(
                ValidationError::MemoryBoundsValidation {
                    message: "Memory size exceeds maximum".to_owned(),
                },
            );
        }
        Ok(())
    }

    /// The limits this validator enforces.
    pub fn get_stats(&self) -> (r: ValidationStats)
        ensures
            r.max_code_size == self.max_code_size,
            r.max_stack_depth == self.max_stack_depth,
            r.max_memory_size == self.max_memory_size,
            r.max_gas_limit == self.max_gas_limit,
            r.min_gas_limit == self.min_gas_limit,
            r.security_checks_enabled == self.security_checks,
    {
        ValidationStats {
            max_code_size: self.max_code_size,
            max_stack_depth: self.max_stack_depth,
            max_memory_size: self.max_memory_size,
            max_gas_limit: self.max_gas_limit,
            min_gas_limit: self.min_gas_limit,
            security_checks_enabled: self.security_checks,
        }
    }
}

/// Whether a position is in the collected jumpdest list.
pub fn jumpdest_listed(dests: &Vec<u64>, target: u64) -> (r: bool)
    ensures
        r == u64_set(dests@).contains(target as nat),
{
    let n = dests.len();
    let mut i: usize = 0;
    while i < n
        invariant
            i <= n,
            n == dests@.len(),
            forall|k: int| 0 <= k < i ==> dests@[k] != target,
        decreases n - i,
    {
        if dests[i] == target {
            return true;
        }
        i += 1;
    }
    false
}

} // verus!
