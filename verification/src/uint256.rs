use vstd::prelude::*;
use vstd::arithmetic::div_mod::{
    lemma_fundamental_div_mod, lemma_fundamental_div_mod_converse, lemma_small_mod,
    lemma_mod_add_multiples_vanish, lemma_mod_multiples_vanish, lemma_div_denominator,
};
use vstd::arithmetic::power::{pow, lemma_pow_adds, lemma_pow_multiplies, lemma_pow_mod_noop};
use vstd::arithmetic::power2::{pow2, lemma_pow2_adds, lemma_pow2_pos, lemma2_to64};
use crate::numbytes::{
    le_val, be_val, lemma_le_val8, lemma_be_val8, lemma_le_val_concat, lemma_be_val_concat,
    lemma_pow256_limbs, lemma_zero_val, lemma_le_val_bound,
};
use crate::bigint::{big_add, big_mul, big_div, big_rem};

verus! {

/// The modulus of all wrapping 256-bit arithmetic.
pub open spec fn p256() -> nat {
    0x10000000000000000000000000000000000000000000000000000000000000000nat
}

/// The eight little-endian base-256 digits of a 64-bit limb.
pub open spec fn u64_le_seq(x: u64) -> Seq<u8> {
    seq![
        (x % 0x100) as u8,
        ((x / 0x100) % 0x100) as u8,
        ((x / 0x10000) % 0x100) as u8,
        ((x / 0x1000000) % 0x100) as u8,
        ((x / 0x100000000) % 0x100) as u8,
        ((x / 0x10000000000) % 0x100) as u8,
        ((x / 0x1000000000000) % 0x100) as u8,
        ((x / 0x100000000000000) % 0x100) as u8,
    ]
}

/// The eight big-endian base-256 digits of a 64-bit limb.
pub open spec fn u64_be_seq(x: u64) -> Seq<u8> {
    seq![
        ((x / 0x100000000000000) % 0x100) as u8,
        ((x / 0x1000000000000) % 0x100) as u8,
        ((x / 0x10000000000) % 0x100) as u8,
        ((x / 0x100000000) % 0x100) as u8,
        ((x / 0x1000000) % 0x100) as u8,
        ((x / 0x10000) % 0x100) as u8,
        ((x / 0x100) % 0x100) as u8,
        (x % 0x100) as u8,
    ]
}

/// A 64-bit value equals the weighted sum of its base-256 digits.
proof fn lemma_u64_digits(x: u64)
    ensures
        x == (x % 0x100) + ((x / 0x100) % 0x100) * 0x100 + ((x / 0x10000) % 0x100) * 0x10000 + ((x
            / 0x1000000) % 0x100) * 0x1000000 + ((x / 0x100000000) % 0x100) * 0x100000000 + ((x
            / 0x10000000000) % 0x100) * 0x10000000000 + ((x / 0x1000000000000) % 0x100)
            * 0x1000000000000 + ((x / 0x100000000000000) % 0x100) * 0x100000000000000,
{
    let x0 = x as int;
    let y1 = x0 / 0x100;
    let y2 = x0 / 0x10000;
    let y3 = x0 / 0x1000000;
    let y4 = x0 / 0x100000000;
    let y5 = x0 / 0x10000000000;
    let y6 = x0 / 0x1000000000000;
    let y7 = x0 / 0x100000000000000;
    lemma_div_denominator(x0, 0x100, 0x100);
    lemma_div_denominator(x0, 0x10000, 0x100);
    lemma_div_denominator(x0, 0x1000000, 0x100);
    lemma_div_denominator(x0, 0x100000000, 0x100);
    lemma_div_denominator(x0, 0x10000000000, 0x100);
    lemma_div_denominator(x0, 0x1000000000000, 0x100);
    lemma_fundamental_div_mod(x0, 0x100);
    lemma_fundamental_div_mod(y1, 0x100);
    lemma_fundamental_div_mod(y2, 0x100);
    lemma_fundamental_div_mod(y3, 0x100);
    lemma_fundamental_div_mod(y4, 0x100);
    lemma_fundamental_div_mod(y5, 0x100);
    lemma_fundamental_div_mod(y6, 0x100);
    lemma_fundamental_div_mod(x0, 0x100000000000000);
    assert(y7 < 0x100);
    lemma_small_mod(y7 as nat, 0x100);
}

/// The little-endian digits of a limb read back as its value.
proof fn lemma_u64_le_seq_val(x: u64)
    ensures
        u64_le_seq(x).len() == 8,
        le_val(u64_le_seq(x)) == x,
{
    lemma_le_val8(u64_le_seq(x));
    lemma_u64_digits(x);
}

/// The big-endian digits of a limb read back as its value.
proof fn lemma_u64_be_seq_val(x: u64)
    ensures
        u64_be_seq(x).len() == 8,
        be_val(u64_be_seq(x)) == x,
{
    lemma_be_val8(u64_be_seq(x));
    lemma_u64_digits(x);
}

/// Append the eight little-endian bytes of a limb.
fn push_le_limb(v: &mut Vec<u8>, x: u64)
    ensures
        final(v)@ == old(v)@ + u64_le_seq(x),
{
    v.push((x % 0x100) as u8);
    v.push(((x / 0x100) % 0x100) as u8);
    v.push(((x / 0x10000) % 0x100) as u8);
    v.push(((x / 0x1000000) % 0x100) as u8);
    v.push(((x / 0x100000000) % 0x100) as u8);
    v.push(((x / 0x10000000000) % 0x100) as u8);
    v.push(((x / 0x1000000000000) % 0x100) as u8);
    v.push(((x / 0x100000000000000) % 0x100) as u8);
    proof {
        assert(v@ =~= old(v)@ + u64_le_seq(x));
    }
}

/// Append the eight big-endian bytes of a limb.
fn push_be_limb(v: &mut Vec<u8>, x: u64)
    ensures
        final(v)@ == old(v)@ + u64_be_seq(x),
{
    v.push(((x / 0x100000000000000) % 0x100) as u8);
    v.push(((x / 0x1000000000000) % 0x100) as u8);
    v.push(((x / 0x10000000000) % 0x100) as u8);
    v.push(((x / 0x100000000) % 0x100) as u8);
    v.push(((x / 0x1000000) % 0x100) as u8);
    v.push(((x / 0x10000) % 0x100) as u8);
    v.push(((x / 0x100) % 0x100) as u8);
    v.push((x % 0x100) as u8);
    proof {
        assert(v@ =~= old(v)@ + u64_be_seq(x));
    }
}

/// Read a limb from eight little-endian bytes at the given offset.
fn le_limb_at(p: &Vec<u8>, off: usize) -> (r: u64)
    requires
        off + 8 <= p@.len(),
    ensures
        r == le_val(p@.subrange(off as int, off as int + 8)),
{
    let n = p.len();
    let r = p[off] as u64 + p[off + 1] as u64 * 0x100 + p[off + 2] as u64 * 0x10000 + p[off
        + 3] as u64 * 0x1000000 + p[off + 4] as u64 * 0x100000000 + p[off + 5] as u64
        * 0x10000000000 + p[off + 6] as u64 * 0x1000000000000 + p[off + 7] as u64
        * 0x100000000000000;
    proof {
        lemma_le_val8(p@.subrange(off as int, off as int + 8));
    }
    r
}

/// Read a limb from eight big-endian bytes at the given offset.
fn be_limb_at(p: &Vec<u8>, off: usize) -> (r: u64)
    requires
        off + 8 <= p@.len(),
    ensures
        r == be_val(p@.subrange(off as int, off as int + 8)),
{
    let n = p.len();
    let r = p[off + 7] as u64 + p[off + 6] as u64 * 0x100 + p[off + 5] as u64 * 0x10000 + p[off
        + 4] as u64 * 0x1000000 + p[off + 3] as u64 * 0x100000000 + p[off + 2] as u64
        * 0x10000000000 + p[off + 1] as u64 * 0x1000000000000 + p[off] as u64
        * 0x100000000000000;
    proof {
        lemma_be_val8(p@.subrange(off as int, off as int + 8));
    }
    r
}

/// Absolute value of a mathematical integer.
pub open spec fn iabs(a: int) -> int {
    if a < 0 {
        -a
    } else {
        a
    }
}

/// Truncating signed division, rounding toward zero; a zero divisor yields zero.
pub open spec fn sdiv_int(a: int, b: int) -> int {
    if b == 0 {
        0
    } else if (a < 0) != (b < 0) {
        -(iabs(a) / iabs(b))
    } else {
        iabs(a) / iabs(b)
    }
}

/// Signed remainder carrying the dividend's sign; a zero divisor yields zero.
pub open spec fn smod_int(a: int, b: int) -> int {
    if b == 0 {
        0
    } else if a < 0 {
        -(iabs(a) % iabs(b))
    } else {
        iabs(a) % iabs(b)
    }
}

/// The sign-extension of a value from byte position b upward: the low b+1
/// bytes are kept, and every higher byte copies the sign bit of byte b.
pub open spec fn signext_nat(x: nat, b: nat) -> nat {
    if b >= 31 {
        x
    } else {
        let low = (x as int) % (pow(256, (b + 1) as nat) as int);
        if low >= 128 * pow(256, b) {
            (low + p256() - pow(256, (b + 1) as nat)) as nat
        } else {
            low as nat
        }
    }
}

/// The number of base-256 digits needed to write the value.
pub open spec fn nat_byte_len(n: nat) -> nat
    decreases n,
{
    if n == 0 {
        0nat
    } else {
        1 + nat_byte_len(n / 256)
    }
}

/// A value below 256^k takes at most k digits.
pub proof fn lemma_byte_len_le(n: nat, k: nat)
    requires
        n < pow(256, k),
    ensures
        nat_byte_len(n) <= k,
    decreases k,
{
    if n == 0 {
    } else {
        assert(pow(256, 0) == 1) by {
            reveal_with_fuel(pow, 1);
        }
        assert(k >= 1);
        assert(pow(256, k) == 256 * pow(256, (k - 1) as nat)) by {
            lemma_pow_adds(256, 1, (k - 1) as nat);
            reveal_with_fuel(pow, 2);
        }
        lemma_fundamental_div_mod(n as int, 256);
        assert(n / 256 < pow(256, (k - 1) as nat));
        lemma_byte_len_le(n / 256, (k - 1) as nat);
    }
}

/// Negating a value below the modulus, as a Euclidean remainder.
proof fn lemma_neg_mod(a: nat)
    requires
        a < p256(),
    ensures
        ((0 - a) % (p256() as int)) == if a == 0 {
            0int
        } else {
            p256() - a
        },
{
    if a == 0 {
        lemma_small_mod(0, p256());
    } else {
        lemma_mod_add_multiples_vanish(0 - a as int, p256() as int);
        lemma_small_mod((p256() - a) as nat, p256());
    }
}

/// The Euclidean remainder of a negated value inside the modulus.
proof fn lemma_neg_int_mod(q: int)
    requires
        0 < q < p256(),
    ensures
        (-q) % (p256() as int) == p256() - q,
{
    lemma_mod_add_multiples_vanish(-q, p256() as int);
    lemma_small_mod((p256() - q) as nat, p256());
}

/// Complementing a 64-bit word subtracts it from all ones.
proof fn lemma_u64_not(x: u64)
    ensures
        !x == u64::MAX - x,
{
    assert(!x == 0xffffffffffffffffu64 - x) by (bit_vector);
}

/// One squaring step of exponentiation: base squared, exponent halved.
proof fn lemma_exp_step(r: int, b: int, e: nat, m: int)
    requires
        e > 0,
        m > 0,
    ensures
        e % 2 == 1 ==> (r * pow(b, e)) % m == ((r * b) * pow(b * b, (e / 2) as nat)) % m,
        e % 2 == 0 ==> (r * pow(b, e)) % m == (r * pow(b * b, (e / 2) as nat)) % m,
{
    let f = (e / 2) as nat;
    lemma_fundamental_div_mod(e as int, 2);
    lemma_pow_multiplies(b, 2, f);
    assert(pow(b, 2) == b * b) by {
        reveal_with_fuel(pow, 3);
    }
    if e % 2 == 1 {
        lemma_pow_adds(b, 1, (2 * f) as nat);
        assert(pow(b, 1) == b) by {
            reveal_with_fuel(pow, 2);
        }
        assert(pow(b, e) == b * pow(b * b, f));
        assert(r * (b * pow(b * b, f)) == (r * b) * pow(b * b, f)) by (nonlinear_arith);
    } else {
        assert(pow(b, e) == pow(b * b, f));
    }
}

/// Multiplying by one less than a value drops one copy of the multiplier.
proof fn lemma_mul_sub_one(a: int, b: int)
    ensures
        a * (b - 1) == a * b - a,
{
    assert(a * (b - 1) == a * b - a) by (nonlinear_arith);
}

/// Pulling a left operand out of its remainder does not change a sum's
/// remainder.
proof fn lemma_mod_add_left(x: int, y: int, m: int)
    requires
        m > 0,
    ensures
        (x % m + y) % m == (x + y) % m,
{
    lemma_fundamental_div_mod(x, m);
    lemma_mod_multiples_vanish(-(x / m), x + y, m);
    assert(m * (-(x / m)) + (x + y) == x % m + y) by (nonlinear_arith)
        requires
            x == m * (x / m) + x % m,
    ;
}

/// Reducing a factor inside a sum does not change the sum's remainder.
proof fn lemma_mod_mul_left_in_sum(a: int, x: int, y: int, m: int)
    requires
        m > 0,
    ensures
        (a + (x % m) * y) % m == (a + x * y) % m,
{
    lemma_fundamental_div_mod(x, m);
    assert((x % m) * y == x * y - m * ((x / m) * y)) by (nonlinear_arith)
        requires
            x % m == x - m * (x / m),
    ;
    lemma_mod_multiples_vanish(-((x / m) * y), a + x * y, m);
    assert(m * (-((x / m) * y)) + (a + x * y) == a + (x % m) * y) by (nonlinear_arith)
        requires
            (x % m) * y == x * y - m * ((x / m) * y),
    ;
}

/// One doubling step of multiplication: with the base doubled modulo m and
/// the multiplier halved, the running remainder is kept; an odd multiplier
/// first adds the base into the result modulo m.
proof fn lemma_mul_double_step(r: int, b: int, e: nat, m: int, odd: bool)
    requires
        m > 0,
        0 <= r,
        0 <= b,
        e > 0,
        odd == (e % 2 == 1),
    ensures
        odd ==> ((r + b) % m + ((b + b) % m) * ((e / 2) as int)) % m == (r + b * e) % m,
        !odd ==> (r + ((b + b) % m) * ((e / 2) as int)) % m == (r + b * e) % m,
{
    let f = (e / 2) as int;
    lemma_fundamental_div_mod(e as int, 2);
    if odd {
        assert(b * e == (b + b) * f + b) by (nonlinear_arith)
            requires
                e == 2 * f + 1,
        ;
        lemma_mod_add_left(r + b, ((b + b) % m) * f, m);
        lemma_mod_mul_left_in_sum(r + b, b + b, f, m);
        assert((r + b) + (b + b) * f == r + b * e);
    } else {
        assert(b * e == (b + b) * f) by (nonlinear_arith)
            requires
                e == 2 * f,
        ;
        lemma_mod_mul_left_in_sum(r, b + b, f, m);
        assert(r + (b + b) * f == r + b * e);
    }
}

/// Reducing both factors of a modular product does not change it.
proof fn lemma_mul_mod_series(r: int, b: int, f: nat, m: int)
    requires
        m > 0,
    ensures
        ((r % m) * pow((b % m) as int, f)) % m == (r * pow(b, f)) % m,
{
    lemma_pow_mod_noop(b, f, m);
    vstd::arithmetic::div_mod::lemma_mul_mod_noop_general(r, pow((b % m) as int, f), m);
    vstd::arithmetic::div_mod::lemma_mul_mod_noop_general(r, pow(b, f), m);
}

/// Law: a word written out in bytes reads back to the same word. Writing
/// with to_bytes_be gives a string whose big-endian value is the word's
/// value, reading with from_bytes_be gives a word with the string's value,
/// and equal values mean equal words.
pub proof fn lemma_bytes_roundtrip(x: Uint256, bytes: Seq<u8>, y: Uint256)
    requires
        be_val(bytes) == x.as_nat(),
        y.as_nat() == be_val(bytes),
    ensures
        y == x,
{
    Uint256::lemma_as_nat_injective(x, y);
}

/// Law: bitwise conjunction, disjunction and exclusive disjunction are
/// commutative on each limb, and therefore on whole 256-bit words, whose
/// bitwise operations work limb by limb.
pub proof fn lemma_bitwise_commutative(x: u64, y: u64)
    ensures
        x & y == y & x,
        x | y == y | x,
        x ^ y == y ^ x,
{
    assert(x & y == y & x && (x | y) == (y | x) && x ^ y == y ^ x) by (bit_vector);
}

/// Law: bitwise conjunction, disjunction and exclusive disjunction are
/// associative on each limb, and therefore on whole 256-bit words.
pub proof fn lemma_bitwise_associative(x: u64, y: u64, z: u64)
    ensures
        (x & y) & z == x & (y & z),
        (x | y) | z == x | (y | z),
        (x ^ y) ^ z == x ^ (y ^ z),
{
    assert((x & y) & z == x & (y & z) && ((x | y) | z) == (x | (y | z)) && (x ^ y) ^ z == x ^ (y
        ^ z)) by (bit_vector);
}

/// Law: complementing a conjunction gives the disjunction of the
/// complements and the other way round, on each limb and therefore on whole
/// 256-bit words.
pub proof fn lemma_de_morgan(x: u64, y: u64)
    ensures
        !(x & y) == (!x) | (!y),
        !(x | y) == (!x) & (!y),
{
    assert(!(x & y) == ((!x) | (!y)) && !(x | y) == ((!x) & (!y))) by (bit_vector);
}

/// 256-bit unsigned integer, stored as four 64-bit limbs, least significant
/// first. Arithmetic wraps modulo 2^256 unless stated otherwise.
#[derive(Clone, Copy, Debug, PartialEq, Eq, Structural, Hash)]
pub struct Uint256 {
    pub limb0: u64,
    pub limb1: u64,
    pub limb2: u64,
    pub limb3: u64,
}

impl Uint256 {
    /// The mathematical value of this integer.
    pub open spec fn as_nat(&self) -> nat {
        (self.limb0
            + self.limb1 * 0x10000000000000000
            + self.limb2 * 0x100000000000000000000000000000000nat
            + self.limb3 * 0x1000000000000000000000000000000000000000000000000nat) as nat
    }

    /// Two values with the same mathematical value have the same limbs.
    pub proof fn lemma_as_nat_injective(a: Uint256, b: Uint256)
        ensures
            a.as_nat() == b.as_nat() ==> a == b,
    {
        if a.as_nat() == b.as_nat() {
            let n = a.as_nat() as int;
            Self::lemma_limbs_determined(a);
            Self::lemma_limbs_determined(b);
            assert(a.limb0 == b.limb0 && a.limb1 == b.limb1 && a.limb2 == b.limb2
                && a.limb3 == b.limb3);
        }
    }

    /// Each limb is a fixed digit of the value in base 2^64.
    proof fn lemma_limbs_determined(a: Uint256)
        ensures
            a.limb0 == a.as_nat() as int % 0x10000000000000000,
            a.limb1 == (a.as_nat() as int / 0x10000000000000000) % 0x10000000000000000,
            a.limb2 == (a.as_nat() as int / 0x100000000000000000000000000000000int)
                % 0x10000000000000000,
            a.limb3 == a.as_nat() as int / 0x1000000000000000000000000000000000000000000000000int,
    {
        let n = a.as_nat() as int;
        let b64 = 0x10000000000000000int;
        let q0 = a.limb1 + a.limb2 * b64 + a.limb3 * b64 * b64;
        lemma_fundamental_div_mod_converse(n, b64, q0, a.limb0 as int);
        let q1 = a.limb2 + a.limb3 * b64;
        lemma_fundamental_div_mod_converse(q0, b64, q1, a.limb1 as int);
        lemma_fundamental_div_mod_converse(q1, b64, a.limb3 as int, a.limb2 as int);
        lemma_fundamental_div_mod_converse(
            n,
            0x100000000000000000000000000000000int,
            q1,
            (a.limb0 + a.limb1 * b64) as int,
        );
        lemma_fundamental_div_mod_converse(
            n,
            0x1000000000000000000000000000000000000000000000000int,
            a.limb3 as int,
            (a.limb0 + a.limb1 * b64 + a.limb2 * b64 * b64) as int,
        );
    }

    /// Create a zero value.
    pub fn zero() -> (r: Uint256)
        ensures
            r.as_nat() == 0,
    {
        Uint256 { limb0: 0, limb1: 0, limb2: 0, limb3: 0 }
    }

    /// Create a one value.
    pub fn one() -> (r: Uint256)
        ensures
            r.as_nat() == 1,
    {
        Uint256 { limb0: 1, limb1: 0, limb2: 0, limb3: 0 }
    }

    /// The largest 256-bit value, with every bit set.
    pub fn max_value() -> (r: Uint256)
        ensures
            r.as_nat() == p256() - 1,
    {
        Uint256 {
            limb0: 0xffffffffffffffff,
            limb1: 0xffffffffffffffff,
            limb2: 0xffffffffffffffff,
            limb3: 0xffffffffffffffff,
        }
    }

    /// Create from a u64.
    pub fn from_u64(value: u64) -> (r: Uint256)
        ensures
            r.as_nat() == value,
    {
        Uint256 { limb0: value, limb1: 0, limb2: 0, limb3: 0 }
    }

    /// Create from a u32.
    pub fn from_u32(value: u32) -> (r: Uint256)
        ensures
            r.as_nat() == value,
    {
        Uint256 { limb0: value as u64, limb1: 0, limb2: 0, limb3: 0 }
    }

    /// Create from a u8.
    pub fn from_u8(value: u8) -> (r: Uint256)
        ensures
            r.as_nat() == value,
    {
        Uint256 { limb0: value as u64, limb1: 0, limb2: 0, limb3: 0 }
    }

    /// Create from a u128.
    pub fn from_u128(value: u128) -> (r: Uint256)
        ensures
            r.as_nat() == value,
    {
        let lo: u64 = (value % 0x10000000000000000) as u64;
        let hi: u64 = (value / 0x10000000000000000) as u64;
        let r = Uint256 { limb0: lo, limb1: hi, limb2: 0, limb3: 0 };
        proof {
            lemma_fundamental_div_mod(value as int, 0x10000000000000000);
        }
        r
    }

    /// Check if the value is zero.
    pub fn is_zero(&self) -> (r: bool)
        ensures
            r == (self.as_nat() == 0),
    {
        self.limb0 == 0 && self.limb1 == 0 && self.limb2 == 0 && self.limb3 == 0
    }

    /// Check if the value is one.
    pub fn is_one(&self) -> (r: bool)
        ensures
            r == (self.as_nat() == 1),
    {
        let r = self.limb0 == 1 && self.limb1 == 0 && self.limb2 == 0 && self.limb3 == 0;
        proof {
            if self.as_nat() == 1 {
                Self::lemma_limbs_determined(*self);
            }
        }
        r
    }

    /// Unsigned comparison: strictly less than.
    pub fn lt(&self, other: &Uint256) -> (r: bool)
        ensures
            r == (self.as_nat() < other.as_nat()),
    {
        if self.limb3 != other.limb3 {
            self.limb3 < other.limb3
        } else if self.limb2 != other.limb2 {
            self.limb2 < other.limb2
        } else if self.limb1 != other.limb1 {
            self.limb1 < other.limb1
        } else {
            self.limb0 < other.limb0
        }
    }

    /// Unsigned comparison: strictly greater than.
    pub fn gt(&self, other: &Uint256) -> (r: bool)
        ensures
            r == (self.as_nat() > other.as_nat()),
    {
        other.lt(self)
    }

    /// Unsigned comparison: less than or equal.
    pub fn le(&self, other: &Uint256) -> (r: bool)
        ensures
            r == (self.as_nat() <= other.as_nat()),
    {
        !other.lt(self)
    }

    /// Wrapping addition modulo 2^256.
    pub fn add(&self, other: &Uint256) -> (r: Uint256)
        ensures
            r.as_nat() == (self.as_nat() + other.as_nat()) % p256(),
    {
        let b64: u128 = 0x10000000000000000;
        let s0: u128 = self.limb0 as u128 + other.limb0 as u128;
        let r0: u64 = (s0 % b64) as u64;
        let c0: u128 = s0 / b64;
        let s1: u128 = self.limb1 as u128 + other.limb1 as u128 + c0;
        let r1: u64 = (s1 % b64) as u64;
        let c1: u128 = s1 / b64;
        let s2: u128 = self.limb2 as u128 + other.limb2 as u128 + c1;
        let r2: u64 = (s2 % b64) as u64;
        let c2: u128 = s2 / b64;
        let s3: u128 = self.limb3 as u128 + other.limb3 as u128 + c2;
        let r3: u64 = (s3 % b64) as u64;
        let c3: u128 = s3 / b64;
        let r = Uint256 { limb0: r0, limb1: r1, limb2: r2, limb3: r3 };
        proof {
            lemma_fundamental_div_mod(s0 as int, 0x10000000000000000);
            lemma_fundamental_div_mod(s1 as int, 0x10000000000000000);
            lemma_fundamental_div_mod(s2 as int, 0x10000000000000000);
            lemma_fundamental_div_mod(s3 as int, 0x10000000000000000);
            assert(self.as_nat() + other.as_nat() == r.as_nat() + c3 * p256());
            lemma_fundamental_div_mod_converse(
                (self.as_nat() + other.as_nat()) as int,
                p256() as int,
                c3 as int,
                r.as_nat() as int,
            );
        }
        r
    }

    /// Wrapping subtraction modulo 2^256.
    pub fn sub(&self, other: &Uint256) -> (r: Uint256)
        ensures
            r.as_nat() == (self.as_nat() - other.as_nat()) % (p256() as int),
    {
        let b64: u128 = 0x10000000000000000;
        let d0: u128 = b64 + self.limb0 as u128 - other.limb0 as u128;
        let r0: u64 = (d0 % b64) as u64;
        let w0: u128 = 1 - d0 / b64;
        let d1: u128 = b64 + self.limb1 as u128 - other.limb1 as u128 - w0;
        let r1: u64 = (d1 % b64) as u64;
        let w1: u128 = 1 - d1 / b64;
        let d2: u128 = b64 + self.limb2 as u128 - other.limb2 as u128 - w1;
        let r2: u64 = (d2 % b64) as u64;
        let w2: u128 = 1 - d2 / b64;
        let d3: u128 = b64 + self.limb3 as u128 - other.limb3 as u128 - w2;
        let r3: u64 = (d3 % b64) as u64;
        let w3: u128 = 1 - d3 / b64;
        let r = Uint256 { limb0: r0, limb1: r1, limb2: r2, limb3: r3 };
        proof {
            lemma_fundamental_div_mod(d0 as int, 0x10000000000000000);
            lemma_fundamental_div_mod(d1 as int, 0x10000000000000000);
            lemma_fundamental_div_mod(d2 as int, 0x10000000000000000);
            lemma_fundamental_div_mod(d3 as int, 0x10000000000000000);
            let diff = self.as_nat() - other.as_nat();
            assert(diff == r.as_nat() - w3 * p256());
            if w3 == 0 {
                lemma_small_mod(r.as_nat(), p256());
            } else {
                lemma_mod_add_multiples_vanish(diff, p256() as int);
                lemma_small_mod(r.as_nat(), p256());
            }
        }
        r
    }

    /// Convert to a 32-byte little-endian representation.
    pub fn to_bytes_le(&self) -> (r: Vec<u8>)
        ensures
            r@.len() == 32,
            le_val(r@) == self.as_nat(),
    {
        let mut v: Vec<u8> = Vec::new();
        push_le_limb(&mut v, self.limb0);
        push_le_limb(&mut v, self.limb1);
        push_le_limb(&mut v, self.limb2);
        push_le_limb(&mut v, self.limb3);
        proof {
            let c0 = u64_le_seq(self.limb0);
            let c1 = u64_le_seq(self.limb1);
            let c2 = u64_le_seq(self.limb2);
            let c3 = u64_le_seq(self.limb3);
            lemma_u64_le_seq_val(self.limb0);
            lemma_u64_le_seq_val(self.limb1);
            lemma_u64_le_seq_val(self.limb2);
            lemma_u64_le_seq_val(self.limb3);
            assert(v@ =~= ((c0 + c1) + c2) + c3);
            lemma_le_val_concat(c0, c1);
            lemma_le_val_concat(c0 + c1, c2);
            lemma_le_val_concat((c0 + c1) + c2, c3);
            lemma_pow256_limbs();
        }
        v
    }

    /// Convert to a 32-byte big-endian representation.
    pub fn to_bytes_be(&self) -> (r: Vec<u8>)
        ensures
            r@.len() == 32,
            be_val(r@) == self.as_nat(),
    {
        let mut v: Vec<u8> = Vec::new();
        push_be_limb(&mut v, self.limb3);
        push_be_limb(&mut v, self.limb2);
        push_be_limb(&mut v, self.limb1);
        push_be_limb(&mut v, self.limb0);
        proof {
            let c3 = u64_be_seq(self.limb3);
            let c2 = u64_be_seq(self.limb2);
            let c1 = u64_be_seq(self.limb1);
            let c0 = u64_be_seq(self.limb0);
            lemma_u64_be_seq_val(self.limb0);
            lemma_u64_be_seq_val(self.limb1);
            lemma_u64_be_seq_val(self.limb2);
            lemma_u64_be_seq_val(self.limb3);
            assert(v@ =~= ((c3 + c2) + c1) + c0);
            lemma_be_val_concat(c3, c2);
            lemma_be_val_concat(c3 + c2, c1);
            lemma_be_val_concat((c3 + c2) + c1, c0);
            lemma_pow256_limbs();
        }
        v
    }

    /// Create from little-endian bytes; shorter inputs are zero-extended.
    pub fn from_bytes_le(bytes: &[u8]) -> (r: Uint256)
        requires
            bytes@.len() <= 32,
        ensures
            r.as_nat() == le_val(bytes@),
    {
        let n = bytes.len();
        let mut padded: Vec<u8> = Vec::new();
        let mut i: usize = 0;
        while i < n
            invariant
                i <= n,
                n == bytes@.len() <= 32,
                padded@ =~= bytes@.subrange(0, i as int),
            decreases n - i,
        {
            padded.push(bytes[i]);
            i += 1;
        }
        assert(padded@ =~= bytes@);
        while padded.len() < 32
            invariant
                n <= padded@.len() <= 32,
                padded@.subrange(0, n as int) =~= bytes@,
                forall|j: int| n <= j < padded@.len() ==> padded@[j] == 0,
            decreases 32 - padded@.len(),
        {
            padded.push(0);
        }
        let l0 = le_limb_at(&padded, 0);
        let l1 = le_limb_at(&padded, 8);
        let l2 = le_limb_at(&padded, 16);
        let l3 = le_limb_at(&padded, 24);
        let r = Uint256 { limb0: l0, limb1: l1, limb2: l2, limb3: l3 };
        proof {
            let s = padded@;
            let c0 = s.subrange(0, 8);
            let c1 = s.subrange(8, 16);
            let c2 = s.subrange(16, 24);
            let c3 = s.subrange(24, 32);
            assert(s =~= ((c0 + c1) + c2) + c3);
            lemma_le_val_concat(c0, c1);
            lemma_le_val_concat(c0 + c1, c2);
            lemma_le_val_concat((c0 + c1) + c2, c3);
            lemma_pow256_limbs();
            let zeros = s.subrange(n as int, 32);
            assert(s =~= bytes@ + zeros);
            lemma_zero_val(zeros);
            lemma_le_val_concat(bytes@, zeros);
        }
        r
    }

    /// Create from big-endian bytes; shorter inputs are zero-extended on the left.
    pub fn from_bytes_be(bytes: &[u8]) -> (r: Uint256)
        requires
            bytes@.len() <= 32,
        ensures
            r.as_nat() == be_val(bytes@),
    {
        let n = bytes.len();
        let mut padded: Vec<u8> = Vec::new();
        while padded.len() < 32 - n
            invariant
                n == bytes@.len() <= 32,
                padded@.len() <= 32 - n,
                forall|j: int| 0 <= j < padded@.len() ==> padded@[j] == 0,
            decreases 32 - n - padded@.len(),
        {
            padded.push(0);
        }
        let ghost zeros = padded@;
        let mut i: usize = 0;
        while i < n
            invariant
                i <= n,
                n == bytes@.len() <= 32,
                zeros.len() == 32 - n,
                forall|j: int| 0 <= j < zeros.len() ==> zeros[j] == 0,
                padded@ =~= zeros + bytes@.subrange(0, i as int),
            decreases n - i,
        {
            padded.push(bytes[i]);
            i += 1;
        }
        assert(padded@ =~= zeros + bytes@);
        let l3 = be_limb_at(&padded, 0);
        let l2 = be_limb_at(&padded, 8);
        let l1 = be_limb_at(&padded, 16);
        let l0 = be_limb_at(&padded, 24);
        let r = Uint256 { limb0: l0, limb1: l1, limb2: l2, limb3: l3 };
        proof {
            let s = padded@;
            let c0 = s.subrange(0, 8);
            let c1 = s.subrange(8, 16);
            let c2 = s.subrange(16, 24);
            let c3 = s.subrange(24, 32);
            assert(s =~= ((c0 + c1) + c2) + c3);
            lemma_be_val_concat(c0, c1);
            lemma_be_val_concat(c0 + c1, c2);
            lemma_be_val_concat((c0 + c1) + c2, c3);
            lemma_pow256_limbs();
            lemma_zero_val(zeros);
            lemma_be_val_concat(zeros, bytes@);
        }
        r
    }

    /// Convert to u64, saturating silently when the value is too large.
    pub fn to_u64(&self) -> (r: u64)
        ensures
            r == if self.as_nat() > u64::MAX { u64::MAX as nat } else { self.as_nat() },
    {
        if self.limb1 == 0 && self.limb2 == 0 && self.limb3 == 0 {
            self.limb0
        } else {
            u64::MAX
        }
    }

    /// Convert to u32, saturating silently when the value is too large.
    pub fn to_u32(&self) -> (r: u32)
        ensures
            r == if self.as_nat() > u32::MAX { u32::MAX as nat } else { self.as_nat() },
    {
        if self.limb1 == 0 && self.limb2 == 0 && self.limb3 == 0 && self.limb0 <= 0xffffffff {
            self.limb0 as u32
        } else {
            u32::MAX
        }
    }

    /// Convert to u8, saturating silently when the value is too large.
    pub fn to_u8(&self) -> (r: u8)
        ensures
            r == if self.as_nat() > u8::MAX { u8::MAX as nat } else { self.as_nat() },
    {
        if self.limb1 == 0 && self.limb2 == 0 && self.limb3 == 0 && self.limb0 <= 0xff {
            self.limb0 as u8
        } else {
            u8::MAX
        }
    }

    /// Convert to u64, failing when the value does not fit.
    pub fn to_u64_safe(&self) -> (r: Result<u64, String>)
        ensures
            match r {
                Ok(v) => self.as_nat() <= u64::MAX && v == self.as_nat(),
                Err(_) => self.as_nat() > u64::MAX,
            },
    {
        if self.limb1 == 0 && self.limb2 == 0 && self.limb3 == 0 {
            Ok(self.limb0)
        } else {
            Err("Value too large for u64".to_owned())
        }
    }

    /// Convert to u32, failing when the value does not fit.
    pub fn to_u32_safe(&self) -> (r: Result<u32, String>)
        ensures
            match r {
                Ok(v) => self.as_nat() <= u32::MAX && v == self.as_nat(),
                Err(_) => self.as_nat() > u32::MAX,
            },
    {
        if self.limb1 == 0 && self.limb2 == 0 && self.limb3 == 0 && self.limb0 <= 0xffffffff {
            Ok(self.limb0 as u32)
        } else {
            Err("Value too large for u32".to_owned())
        }
    }

    /// Convert to u8, failing when the value does not fit.
    pub fn to_u8_safe(&self) -> (r: Result<u8, String>)
        ensures
            match r {
                Ok(v) => self.as_nat() <= u8::MAX && v == self.as_nat(),
                Err(_) => self.as_nat() > u8::MAX,
            },
    {
        if self.limb1 == 0 && self.limb2 == 0 && self.limb3 == 0 && self.limb0 <= 0xff {
            Ok(self.limb0 as u8)
        } else {
            Err("Value too large for u8".to_owned())
        }
    }

    /// Reduce a little-endian digit string of any length modulo 2^256.
    fn from_le_digits(v: &Vec<u8>) -> (r: Uint256)
        ensures
            r.as_nat() == le_val(v@) % p256(),
    {
        if v.len() <= 32 {
            let r = Self::from_bytes_le(v.as_slice());
            proof {
                lemma_le_val_bound(v@);
                vstd::arithmetic::power::lemma_pow_increases(256, v@.len() as nat, 32);
                lemma_pow256_limbs();
                lemma_small_mod(le_val(v@), p256());
            }
            r
        } else {
            let head = vstd::slice::slice_subrange(v.as_slice(), 0, 32);
            let r = Self::from_bytes_le(head);
            proof {
                let s = v@;
                let h = s.subrange(0, 32);
                let t = s.subrange(32, s.len() as int);
                assert(s =~= h + t);
                lemma_le_val_concat(h, t);
                lemma_pow256_limbs();
                lemma_le_val_bound(h);
                lemma_mod_multiples_vanish(le_val(t) as int, le_val(h) as int, p256() as int);
                lemma_small_mod(le_val(h), p256());
            }
            r
        }
    }

    /// Wrapping multiplication modulo 2^256, by doubling and adding: the
    /// running base doubles while the multiplier halves, and odd multiplier
    /// bits add the base into the result.
    pub fn mul(&self, other: &Uint256) -> (r: Uint256)
        ensures
            r.as_nat() == (self.as_nat() * other.as_nat()) % p256(),
    {
        let mut result = Self::zero();
        let mut base = *self;
        let mut e = *other;
        proof {
            lemma_small_mod(self.as_nat(), p256());
            assert((0 + self.as_nat() * other.as_nat()) % p256() == (self.as_nat()
                * other.as_nat()) % p256());
        }
        while !e.is_zero()
            invariant
                (result.as_nat() + base.as_nat() * e.as_nat()) % p256() == (self.as_nat()
                    * other.as_nat()) % p256(),
            decreases e.as_nat(),
        {
            let ghost r0 = result.as_nat() as int;
            let ghost b0 = base.as_nat() as int;
            let ghost e0 = e.as_nat();
            let odd = e.is_odd();
            if odd {
                result = result.add(&base);
            }
            base = base.add(&base);
            e = e.half();
            proof {
                lemma_mul_double_step(r0, b0, e0, p256() as int, odd);
            }
        }
        proof {
            lemma_small_mod(result.as_nat(), p256());
        }
        result
    }

    /// Truncating division; a zero divisor yields zero.
    pub fn div(&self, other: &Uint256) -> (r: Uint256)
        ensures
            r.as_nat() == if other.as_nat() == 0 {
                0nat
            } else {
                self.as_nat() / other.as_nat()
            },
    {
        if other.is_zero() {
            Self::zero()
        } else {
            let a = self.to_bytes_le();
            let b = other.to_bytes_le();
            let q = big_div(a.as_slice(), b.as_slice());
            let r = Self::from_le_digits(&q);
            proof {
                vstd::arithmetic::div_mod::lemma_div_nonincreasing(
                    self.as_nat() as int,
                    other.as_nat() as int,
                );
                lemma_small_mod(self.as_nat() / other.as_nat(), p256());
            }
            r
        }
    }

    /// Remainder of division; a zero divisor yields zero.
    pub fn rem(&self, other: &Uint256) -> (r: Uint256)
        ensures
            r.as_nat() == if other.as_nat() == 0 {
                0nat
            } else {
                self.as_nat() % other.as_nat()
            },
    {
        if other.is_zero() {
            Self::zero()
        } else {
            let a = self.to_bytes_le();
            let b = other.to_bytes_le();
            let m = big_rem(a.as_slice(), b.as_slice());
            let r = Self::from_le_digits(&m);
            proof {
                vstd::arithmetic::div_mod::lemma_mod_bound(
                    self.as_nat() as int,
                    other.as_nat() as int,
                );
                lemma_small_mod(self.as_nat() % other.as_nat(), p256());
            }
            r
        }
    }

    /// Full-precision addition followed by reduction; a zero modulus yields zero.
    pub fn addmod(&self, other: &Uint256, modulus: &Uint256) -> (r: Uint256)
        ensures
            r.as_nat() == if modulus.as_nat() == 0 {
                0nat
            } else {
                (self.as_nat() + other.as_nat()) % modulus.as_nat()
            },
    {
        if modulus.is_zero() {
            Self::zero()
        } else {
            let a = self.to_bytes_le();
            let b = other.to_bytes_le();
            let m = modulus.to_bytes_le();
            let sum = big_add(a.as_slice(), b.as_slice());
            let red = big_rem(sum.as_slice(), m.as_slice());
            let r = Self::from_le_digits(&red);
            proof {
                vstd::arithmetic::div_mod::lemma_mod_bound(
                    (self.as_nat() + other.as_nat()) as int,
                    modulus.as_nat() as int,
                );
                lemma_small_mod(
                    (self.as_nat() + other.as_nat()) % modulus.as_nat(),
                    p256(),
                );
            }
            r
        }
    }

    /// Full-precision multiplication followed by reduction; a zero modulus yields zero.
    pub fn mulmod(&self, other: &Uint256, modulus: &Uint256) -> (r: Uint256)
        ensures
            r.as_nat() == if modulus.as_nat() == 0 {
                0nat
            } else {
                (self.as_nat() * other.as_nat()) % modulus.as_nat()
            },
    {
        if modulus.is_zero() {
            Self::zero()
        } else {
            let a = self.to_bytes_le();
            let b = other.to_bytes_le();
            let m = modulus.to_bytes_le();
            let prod = big_mul(a.as_slice(), b.as_slice());
            let red = big_rem(prod.as_slice(), m.as_slice());
            let r = Self::from_le_digits(&red);
            proof {
                vstd::arithmetic::div_mod::lemma_mod_bound(
                    (self.as_nat() * other.as_nat()) as int,
                    modulus.as_nat() as int,
                );
                lemma_small_mod(
                    (self.as_nat() * other.as_nat()) % modulus.as_nat(),
                    p256(),
                );
            }
            r
        }
    }

    /// The signed two's-complement reading of the value.
    pub open spec fn as_int(&self) -> int {
        if self.as_nat() < 0x8000000000000000000000000000000000000000000000000000000000000000nat {
            self.as_nat() as int
        } else {
            self.as_nat() - p256()
        }
    }

    /// Whether the two's-complement reading is negative.
    pub fn is_negative(&self) -> (r: bool)
        ensures
            r == (self.as_int() < 0),
    {
        self.limb3 >= 0x8000000000000000
    }

    /// Signed comparison: strictly less than over the two's-complement view.
    pub fn slt(&self, other: &Uint256) -> (r: bool)
        ensures
            r == (self.as_int() < other.as_int()),
    {
        let na = self.is_negative();
        let nb = other.is_negative();
        if na != nb {
            na
        } else {
            self.lt(other)
        }
    }

    /// Signed comparison: strictly greater than over the two's-complement view.
    pub fn sgt(&self, other: &Uint256) -> (r: bool)
        ensures
            r == (self.as_int() > other.as_int()),
    {
        other.slt(self)
    }

    /// Two's-complement negation: zero minus the value, wrapping.
    pub fn neg(&self) -> (r: Uint256)
        ensures
            r.as_nat() == if self.as_nat() == 0 {
                0int
            } else {
                p256() - self.as_nat()
            },
    {
        let z = Self::zero();
        let r = z.sub(self);
        proof {
            lemma_neg_mod(self.as_nat());
        }
        r
    }

    /// Signed division over the two's-complement view; a zero divisor yields zero.
    pub fn sdiv(&self, other: &Uint256) -> (r: Uint256)
        ensures
            r.as_nat() as int == sdiv_int(self.as_int(), other.as_int()) % (p256() as int),
    {
        if other.is_zero() {
            proof {
                lemma_small_mod(0, p256());
            }
            Self::zero()
        } else {
            let neg_a = self.is_negative();
            let neg_b = other.is_negative();
            let abs_a = if neg_a {
                self.neg()
            } else {
                *self
            };
            let abs_b = if neg_b {
                other.neg()
            } else {
                *other
            };
            let q = abs_a.div(&abs_b);
            proof {
                assert(abs_a.as_nat() == iabs(self.as_int()));
                assert(abs_b.as_nat() == iabs(other.as_int()));
            }
            if neg_a != neg_b {
                let r = q.neg();
                proof {
                    if q.as_nat() == 0 {
                        lemma_small_mod(0, p256());
                    } else {
                        lemma_neg_int_mod(q.as_nat() as int);
                    }
                }
                r
            } else {
                proof {
                    lemma_small_mod(q.as_nat(), p256());
                }
                q
            }
        }
    }

    /// Signed remainder, carrying the sign of the dividend; a zero divisor yields zero.
    pub fn smod(&self, other: &Uint256) -> (r: Uint256)
        ensures
            r.as_nat() as int == smod_int(self.as_int(), other.as_int()) % (p256() as int),
    {
        if other.is_zero() {
            proof {
                lemma_small_mod(0, p256());
            }
            Self::zero()
        } else {
            let neg_a = self.is_negative();
            let neg_b = other.is_negative();
            let abs_a = if neg_a {
                self.neg()
            } else {
                *self
            };
            let abs_b = if neg_b {
                other.neg()
            } else {
                *other
            };
            let m = abs_a.rem(&abs_b);
            proof {
                assert(abs_a.as_nat() == iabs(self.as_int()));
                assert(abs_b.as_nat() == iabs(other.as_int()));
            }
            if neg_a {
                let r = m.neg();
                proof {
                    if m.as_nat() == 0 {
                        lemma_small_mod(0, p256());
                    } else {
                        lemma_neg_int_mod(m.as_nat() as int);
                    }
                }
                r
            } else {
                proof {
                    lemma_small_mod(m.as_nat(), p256());
                }
                m
            }
        }
    }

    /// Bitwise conjunction, limb by limb.
    pub fn bitand(&self, other: &Uint256) -> (r: Uint256)
        ensures
            r.limb0 == self.limb0 & other.limb0,
            r.limb1 == self.limb1 & other.limb1,
            r.limb2 == self.limb2 & other.limb2,
            r.limb3 == self.limb3 & other.limb3,
    {
        Uint256 {
            limb0: self.limb0 & other.limb0,
            limb1: self.limb1 & other.limb1,
            limb2: self.limb2 & other.limb2,
            limb3: self.limb3 & other.limb3,
        }
    }

    /// Bitwise disjunction, limb by limb.
    pub fn bitor(&self, other: &Uint256) -> (r: Uint256)
        ensures
            r.limb0 == self.limb0 | other.limb0,
            r.limb1 == self.limb1 | other.limb1,
            r.limb2 == self.limb2 | other.limb2,
            r.limb3 == self.limb3 | other.limb3,
    {
        Uint256 {
            limb0: self.limb0 | other.limb0,
            limb1: self.limb1 | other.limb1,
            limb2: self.limb2 | other.limb2,
            limb3: self.limb3 | other.limb3,
        }
    }

    /// Bitwise exclusive disjunction, limb by limb.
    pub fn bitxor(&self, other: &Uint256) -> (r: Uint256)
        ensures
            r.limb0 == self.limb0 ^ other.limb0,
            r.limb1 == self.limb1 ^ other.limb1,
            r.limb2 == self.limb2 ^ other.limb2,
            r.limb3 == self.limb3 ^ other.limb3,
    {
        Uint256 {
            limb0: self.limb0 ^ other.limb0,
            limb1: self.limb1 ^ other.limb1,
            limb2: self.limb2 ^ other.limb2,
            limb3: self.limb3 ^ other.limb3,
        }
    }

    /// Bitwise complement: equal to XOR with all ones.
    pub fn not(&self) -> (r: Uint256)
        ensures
            r.as_nat() == p256() - 1 - self.as_nat(),
    {
        let r = Uint256 {
            limb0: !self.limb0,
            limb1: !self.limb1,
            limb2: !self.limb2,
            limb3: !self.limb3,
        };
        proof {
            lemma_u64_not(self.limb0);
            lemma_u64_not(self.limb1);
            lemma_u64_not(self.limb2);
            lemma_u64_not(self.limb3);
        }
        r
    }

    /// The power of two for an exponent below 256.
    pub fn power_of_two(k: u64) -> (r: Uint256)
        requires
            k < 256,
        ensures
            r.as_nat() == pow2(k as nat),
    {
        let bit = k % 64;
        let v: u64 = 1u64 << bit;
        proof {
            lemma2_to64();
            vstd::arithmetic::power2::lemma_pow2_strictly_increases(bit as nat, 64);
            vstd::bits::lemma_u64_shl_is_mul(1u64, bit);
        }
        let r = if k < 64 {
            Uint256 { limb0: v, limb1: 0, limb2: 0, limb3: 0 }
        } else if k < 128 {
            Uint256 { limb0: 0, limb1: v, limb2: 0, limb3: 0 }
        } else if k < 192 {
            Uint256 { limb0: 0, limb1: 0, limb2: v, limb3: 0 }
        } else {
            Uint256 { limb0: 0, limb1: 0, limb2: 0, limb3: v }
        };
        proof {
            lemma_pow2_adds(64, bit as nat);
            lemma_pow2_adds(128, bit as nat);
            lemma_pow2_adds(192, bit as nat);
            lemma_pow2_adds(64, 64);
            lemma_pow2_adds(64, 128);
            if k < 64 {
                assert(k == bit);
                assert(r.as_nat() == pow2(k as nat));
            } else if k < 128 {
                assert(k as nat == 64 + bit as nat);
                assert(pow2(64) == 0x10000000000000000);
                assert(r.as_nat() == v * 0x10000000000000000);
                assert(pow2(64) * pow2(bit as nat) == 0x10000000000000000 * pow2(
                    bit as nat,
                )) by (nonlinear_arith)
                    requires
                        pow2(64) == 0x10000000000000000,
                ;
                assert(pow2(k as nat) == pow2(64) * pow2(bit as nat));
            } else if k < 192 {
                assert(k as nat == 128 + bit as nat);
                assert(pow2(128) == 0x100000000000000000000000000000000nat);
                assert(r.as_nat() == v * 0x100000000000000000000000000000000nat);
                assert(pow2(128) * pow2(bit as nat) == 0x100000000000000000000000000000000nat
                    * pow2(bit as nat)) by (nonlinear_arith)
                    requires
                        pow2(128) == 0x100000000000000000000000000000000nat,
                ;
                assert(pow2(k as nat) == pow2(128) * pow2(bit as nat));
            } else {
                assert(k as nat == 192 + bit as nat);
                assert(pow2(192) == 0x1000000000000000000000000000000000000000000000000nat);
                assert(r.as_nat() == v * 0x1000000000000000000000000000000000000000000000000nat);
                assert(pow2(192) * pow2(bit as nat)
                    == 0x1000000000000000000000000000000000000000000000000nat * pow2(
                    bit as nat,
                )) by (nonlinear_arith)
                    requires
                        pow2(192) == 0x1000000000000000000000000000000000000000000000000nat,
                ;
                assert(pow2(k as nat) == pow2(192) * pow2(bit as nat));
            }
        }
        r
    }

    /// Left shift; a shift of 256 or more yields zero.
    pub fn shl(&self, shift: &Uint256) -> (r: Uint256)
        ensures
            r.as_nat() == if shift.as_nat() >= 256 {
                0nat
            } else {
                (self.as_nat() * pow2(shift.as_nat())) % p256()
            },
    {
        if shift.limb1 == 0 && shift.limb2 == 0 && shift.limb3 == 0 && shift.limb0 < 256 {
            let p = Self::power_of_two(shift.limb0);
            self.mul(&p)
        } else {
            Self::zero()
        }
    }

    /// Logical right shift; a shift of 256 or more yields zero.
    pub fn shr(&self, shift: &Uint256) -> (r: Uint256)
        ensures
            r.as_nat() == if shift.as_nat() >= 256 {
                0nat
            } else {
                self.as_nat() / pow2(shift.as_nat())
            },
    {
        if shift.limb1 == 0 && shift.limb2 == 0 && shift.limb3 == 0 && shift.limb0 < 256 {
            let p = Self::power_of_two(shift.limb0);
            proof {
                lemma_pow2_pos(shift.limb0 as nat);
            }
            self.div(&p)
        } else {
            Self::zero()
        }
    }

    /// Arithmetic right shift, preserving the sign of the two's-complement view.
    pub fn sar(&self, shift: &Uint256) -> (r: Uint256)
        ensures
            shift.as_nat() < 256 ==> r.as_int() == self.as_int() / (pow2(shift.as_nat()) as int),
            shift.as_nat() >= 256 ==> r.as_nat() == if self.as_int() < 0 {
                p256() - 1
            } else {
                0int
            },
    {
        let neg = self.is_negative();
        if !(shift.limb1 == 0 && shift.limb2 == 0 && shift.limb3 == 0 && shift.limb0 < 256) {
            if neg {
                Self::max_value()
            } else {
                Self::zero()
            }
        } else if !neg {
            let r = self.shr(shift);
            proof {
                let m = pow2(shift.as_nat()) as int;
                lemma_pow2_pos(shift.as_nat());
                vstd::arithmetic::div_mod::lemma_div_nonincreasing(self.as_nat() as int, m);
            }
            r
        } else {
            let r = self.not().shr(shift).not();
            proof {
                let m = pow2(shift.as_nat()) as int;
                lemma_pow2_pos(shift.as_nat());
                let a = self.as_nat() as int;
                let x = self.as_int();
                let q = x / m;
                let rr = x % m;
                lemma_fundamental_div_mod(x, m);
                vstd::arithmetic::div_mod::lemma_mod_bound(x, m);
                assert((-q - 1) * m == -(m * q) - m) by (nonlinear_arith);
                assert(p256() - 1 - a == (-q - 1) * m + (m - rr - 1));
                lemma_fundamental_div_mod_converse(p256() - 1 - a, m, -q - 1, m - rr - 1);
                vstd::arithmetic::div_mod::lemma_div_nonincreasing(p256() - 1 - a, m);
                assert(r.as_nat() == p256() + q);
                assert(r.as_int() == q);
            }
            r
        }
    }

    /// Halve the value, rounding down.
    pub fn half(&self) -> (r: Uint256)
        ensures
            r.as_nat() == self.as_nat() / 2,
    {
        let r = Uint256 {
            limb0: self.limb0 / 2 + (self.limb1 % 2) * 0x8000000000000000,
            limb1: self.limb1 / 2 + (self.limb2 % 2) * 0x8000000000000000,
            limb2: self.limb2 / 2 + (self.limb3 % 2) * 0x8000000000000000,
            limb3: self.limb3 / 2,
        };
        proof {
            lemma_fundamental_div_mod(self.limb0 as int, 2);
            lemma_fundamental_div_mod(self.limb1 as int, 2);
            lemma_fundamental_div_mod(self.limb2 as int, 2);
            lemma_fundamental_div_mod(self.limb3 as int, 2);
            assert(self.as_nat() == 2 * r.as_nat() + (self.limb0 % 2));
            lemma_fundamental_div_mod_converse(
                self.as_nat() as int,
                2,
                r.as_nat() as int,
                (self.limb0 % 2) as int,
            );
        }
        r
    }

    /// Whether the value is odd.
    pub fn is_odd(&self) -> (r: bool)
        ensures
            r == (self.as_nat() % 2 == 1),
    {
        let r = self.limb0 % 2 == 1;
        proof {
            let hi = self.limb1 * 0x8000000000000000 + self.limb2
                * 0x80000000000000000000000000000000nat + self.limb3
                * 0x800000000000000000000000000000000000000000000000nat;
            assert(self.as_nat() == 2 * hi + self.limb0);
            lemma_mod_multiples_vanish(hi as int, self.limb0 as int, 2);
        }
        r
    }

    /// Exponentiation by squaring, wrapping modulo 2^256.
    pub fn exp(&self, exponent: &Uint256) -> (r: Uint256)
        ensures
            r.as_nat() as int == pow(self.as_nat() as int, exponent.as_nat()) % (p256() as int),
    {
        let mut result = Self::one();
        let mut base = *self;
        let mut e = *exponent;
        proof {
            reveal_with_fuel(pow, 1);
        }
        while !e.is_zero()
            invariant
                pow(self.as_nat() as int, exponent.as_nat()) % (p256() as int) == (result.as_nat()
                    * pow(base.as_nat() as int, e.as_nat())) % (p256() as int),
            decreases e.as_nat(),
        {
            let ghost r0 = result.as_nat() as int;
            let ghost b0 = base.as_nat() as int;
            let ghost e0 = e.as_nat();
            let ghost f = e0 / 2;
            let odd = e.is_odd();
            if odd {
                result = result.mul(&base);
            }
            base = base.mul(&base);
            e = e.half();
            proof {
                lemma_fundamental_div_mod(e0 as int, 2);
                lemma_exp_step(r0, b0, e0, p256() as int);
                if odd {
                    assert((result.as_nat() * pow(base.as_nat() as int, e.as_nat())) % (
                    p256() as int) == (((r0 * b0) % (p256() as int)) * pow(
                        base.as_nat() as int,
                        f,
                    )) % (p256() as int));
                    lemma_mul_mod_series(r0 * b0, b0 * b0, f, p256() as int);
                } else {
                    lemma_mul_mod_series(r0, b0 * b0, f, p256() as int);
                }
            }
        }
        proof {
            reveal_with_fuel(pow, 1);
            lemma_small_mod(result.as_nat(), p256());
        }
        result
    }

    /// The number of significant bytes in the value.
    pub fn byte_len(&self) -> (r: usize)
        ensures
            r == nat_byte_len(self.as_nat()),
    {
        let mut n = *self;
        let mut len: usize = 0;
        let d = Self::from_u64(256);
        proof {
            lemma_pow256_limbs();
            lemma_byte_len_le(self.as_nat(), 32);
        }
        while !n.is_zero()
            invariant
                nat_byte_len(self.as_nat()) == len + nat_byte_len(n.as_nat()),
                nat_byte_len(self.as_nat()) <= 32,
                d.as_nat() == 256,
            decreases n.as_nat(),
        {
            n = n.div(&d);
            len = len + 1;
        }
        len
    }

    /// Extract one byte of the big-endian representation; index 0 is the most
    /// significant byte, and indexes of 32 or more yield zero.
    pub fn byte(&self, index: &Uint256) -> (r: Uint256)
        ensures
            r.as_nat() as int == if index.as_nat() >= 32 {
                0int
            } else {
                ((self.as_nat() as int) / (pow(256, (31 - index.as_nat()) as nat) as int)) % 256
            },
    {
        if index.limb1 == 0 && index.limb2 == 0 && index.limb3 == 0 && index.limb0 < 32 {
            let bytes = self.to_bytes_be();
            let bi = bytes[index.limb0 as usize];
            proof {
                crate::numbytes::lemma_be_byte(bytes@, index.limb0 as int);
            }
            Self::from_u8(bi)
        } else {
            Self::zero()
        }
    }

    /// Sign-extend from the byte at the given position; positions of 31 or
    /// more leave the value unchanged.
    pub fn signextend(&self, position: &Uint256) -> (r: Uint256)
        ensures
            r.as_nat() == signext_nat(self.as_nat(), position.as_nat()),
    {
        if !(position.limb1 == 0 && position.limb2 == 0 && position.limb3 == 0 && position.limb0
            < 31) {
            *self
        } else {
            let b = position.limb0 as usize;
            let m = b + 1;
            let s = self.to_bytes_le();
            let negative = s[b] >= 0x80;
            let fill: u8 = if negative {
                0xff
            } else {
                0x00
            };
            let mut out: Vec<u8> = Vec::new();
            let mut i: usize = 0;
            while i < m
                invariant
                    i <= m,
                    m <= 31,
                    s@.len() == 32,
                    out@ =~= s@.subrange(0, i as int),
                decreases m - i,
            {
                out.push(s[i]);
                i += 1;
            }
            while out.len() < 32
                invariant
                    m <= out@.len() <= 32,
                    m <= 31,
                    s@.len() == 32,
                    out@.subrange(0, m as int) =~= s@.subrange(0, m as int),
                    forall|j: int| m <= j < out@.len() ==> out@[j] == fill,
                decreases 32 - out@.len(),
            {
                out.push(fill);
            }
            let r = Self::from_bytes_le(out.as_slice());
            proof {
                let x = self.as_nat();
                let low_seq = s@.subrange(0, m as int);
                let fill_seq = out@.subrange(m as int, 32);
                crate::numbytes::lemma_le_prefix(s@, m as int);
                let low = le_val(low_seq);
                let pm = pow(256, m as nat);
                let pb = pow(256, b as nat);
                assert(pm == 256 * pb) by {
                    lemma_pow_adds(256, 1, b as nat);
                    reveal_with_fuel(pow, 2);
                }
                let pre = s@.subrange(0, b as int);
                assert(low_seq =~= pre + s@.subrange(b as int, m as int));
                lemma_le_val_concat(pre, s@.subrange(b as int, m as int));
                assert(s@.subrange(b as int, m as int).len() == 1);
                assert(le_val(s@.subrange(b as int, m as int)) == s@[b as int]) by {
                    let single = s@.subrange(b as int, m as int);
                    assert(single.len() == 1);
                    assert(single[0] == s@[b as int]);
                    assert(single.subrange(1, 1).len() == 0);
                    assert(le_val(single.subrange(1, 1)) == 0);
                    assert(le_val(single) == single[0] + 256 * le_val(single.subrange(1, 1)));
                }
                lemma_le_val_bound(pre);
                vstd::arithmetic::power::lemma_pow_positive(256, b as nat);
                if negative {
                    assert(pb * (s@[b as int] as int) >= pb * 128) by (nonlinear_arith)
                        requires
                            s@[b as int] >= 128,
                            pb >= 1,
                    ;
                    assert(low >= 128 * pb);
                } else {
                    assert(pb * (s@[b as int] as int) <= pb * 127) by (nonlinear_arith)
                        requires
                            s@[b as int] <= 127,
                            pb >= 1,
                    ;
                    assert(low < 128 * pb);
                }
                assert(out@ =~= low_seq + fill_seq);
                lemma_le_val_concat(low_seq, fill_seq);
                if negative {
                    crate::numbytes::lemma_ones_val(fill_seq);
                    lemma_mul_sub_one(pm as int, pow(256, (32 - m) as nat) as int);
                    lemma_pow_adds(256, m as nat, (32 - m) as nat);
                    lemma_pow256_limbs();
                    assert(le_val(out@) == low + p256() - pm);
                } else {
                    lemma_zero_val(fill_seq);
                    assert(pow(256, m as nat) * le_val(fill_seq) == 0) by (nonlinear_arith)
                        requires
                            le_val(fill_seq) == 0,
                    ;
                    assert(le_val(out@) == low);
                }
            }
            r
        }
    }

    /// The lowest byte of the value.
    pub fn low_u8(&self) -> (r: u8)
        ensures
            r == self.as_nat() % 256,
    {
        let r = (self.limb0 % 0x100) as u8;
        proof {
            let hi = self.limb1 * 0x100000000000000 + self.limb2
                * 0x1000000000000000000000000000000nat + self.limb3
                * 0x10000000000000000000000000000000000000000000000nat;
            assert(self.as_nat() == 256 * hi + self.limb0);
            lemma_mod_multiples_vanish(hi as int, self.limb0 as int, 256);
        }
        r
    }
}

} // verus!
