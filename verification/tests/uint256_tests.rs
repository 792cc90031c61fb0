use evm_rust::uint256::Uint256;

#[test]
fn test_add_wraps_modulo() {
    let max = Uint256::max_value();
    let one = Uint256::one();
    assert_eq!(max.add(&one), Uint256::zero());
    assert_eq!(Uint256::from_u32(2).add(&Uint256::from_u32(3)), Uint256::from_u32(5));
}

#[test]
fn test_sub_wraps_modulo() {
    let zero = Uint256::zero();
    let one = Uint256::one();
    assert_eq!(zero.sub(&one), Uint256::max_value());
    assert_eq!(Uint256::from_u32(5).sub(&Uint256::from_u32(3)), Uint256::from_u32(2));
}

#[test]
fn test_mul_wraps_modulo() {
    assert_eq!(Uint256::from_u32(6).mul(&Uint256::from_u32(7)), Uint256::from_u32(42));
    // (2^256 - 1) squared is 1 modulo 2^256.
    let max = Uint256::max_value();
    assert_eq!(max.mul(&max), Uint256::one());
}

#[test]
fn test_div_and_rem() {
    assert_eq!(Uint256::from_u32(10).div(&Uint256::from_u32(3)), Uint256::from_u32(3));
    assert_eq!(Uint256::from_u32(10).rem(&Uint256::from_u32(3)), Uint256::one());
    assert_eq!(Uint256::from_u32(10).div(&Uint256::zero()), Uint256::zero());
    assert_eq!(Uint256::from_u32(10).rem(&Uint256::zero()), Uint256::zero());
}

#[test]
fn test_addmod_mulmod() {
    let a = Uint256::max_value();
    let b = Uint256::from_u32(2);
    let m = Uint256::from_u32(10);
    // (2^256 - 1 + 2) mod 10: 2^256 + 1 ends in 7 in decimal.
    assert_eq!(a.addmod(&b, &m), Uint256::from_u32(7));
    assert_eq!(b.mulmod(&b, &Uint256::from_u32(3)), Uint256::one());
    assert_eq!(a.addmod(&b, &Uint256::zero()), Uint256::zero());
}

#[test]
fn test_exp() {
    assert_eq!(Uint256::from_u32(2).exp(&Uint256::from_u32(10)), Uint256::from_u32(1024));
    assert_eq!(Uint256::from_u32(7).exp(&Uint256::zero()), Uint256::one());
    assert_eq!(Uint256::zero().exp(&Uint256::from_u32(5)), Uint256::zero());
}

#[test]
fn test_signed_division() {
    let minus_one = Uint256::max_value();
    let minus_two = Uint256::max_value().sub(&Uint256::one());
    // (-2) / (-1) is 2; (-2) % (-1) is 0.
    assert_eq!(minus_two.sdiv(&minus_one), Uint256::from_u32(2));
    assert_eq!(minus_two.smod(&minus_one), Uint256::zero());
    // 7 / (-2) truncates toward zero to -3.
    let minus_three = Uint256::zero().sub(&Uint256::from_u32(3));
    assert_eq!(Uint256::from_u32(7).sdiv(&minus_two), minus_three);
    // The most negative value divided by -1 wraps back to itself.
    let min = Uint256::one().shl(&Uint256::from_u32(255));
    assert_eq!(min.sdiv(&minus_one), min);
    assert_eq!(Uint256::from_u32(7).sdiv(&Uint256::zero()), Uint256::zero());
}

#[test]
fn test_signed_compare() {
    let minus_one = Uint256::max_value();
    assert!(minus_one.slt(&Uint256::zero()));
    assert!(Uint256::zero().sgt(&minus_one));
    assert!(Uint256::one().lt(&Uint256::from_u32(2)));
    assert!(minus_one.gt(&Uint256::zero()));
}

#[test]
fn test_bitwise_operations() {
    let a = Uint256::from_u32(0b1100);
    let b = Uint256::from_u32(0b1010);
    assert_eq!(a.bitand(&b), Uint256::from_u32(0b1000));
    assert_eq!(a.bitor(&b), Uint256::from_u32(0b1110));
    assert_eq!(a.bitxor(&b), Uint256::from_u32(0b0110));
    assert_eq!(Uint256::zero().not(), Uint256::max_value());
    assert_eq!(a.bitand(&b), b.bitand(&a));
    assert_eq!(a.not().bitand(&b.not()), a.bitor(&b).not());
}

#[test]
fn test_shifts() {
    let one = Uint256::one();
    assert_eq!(one.shl(&Uint256::from_u32(4)), Uint256::from_u32(16));
    assert_eq!(Uint256::from_u32(16).shr(&Uint256::from_u32(4)), one);
    assert_eq!(one.shl(&Uint256::from_u32(256)), Uint256::zero());
    assert_eq!(one.shr(&Uint256::from_u32(256)), Uint256::zero());
    // Arithmetic shift keeps the sign: -8 shifted right twice is -2.
    let minus_eight = Uint256::zero().sub(&Uint256::from_u32(8));
    let minus_two = Uint256::zero().sub(&Uint256::from_u32(2));
    assert_eq!(minus_eight.sar(&Uint256::from_u32(2)), minus_two);
    assert_eq!(Uint256::from_u32(8).sar(&Uint256::from_u32(2)), Uint256::from_u32(2));
}

#[test]
fn test_byte_extraction() {
    let x = Uint256::from_u32(0x1234);
    // Byte 31 is the least significant byte, byte 30 the next.
    assert_eq!(x.byte(&Uint256::from_u32(31)), Uint256::from_u32(0x34));
    assert_eq!(x.byte(&Uint256::from_u32(30)), Uint256::from_u32(0x12));
    assert_eq!(x.byte(&Uint256::from_u32(32)), Uint256::zero());
}

#[test]
fn test_signextend() {
    // Extending 0xff from byte zero fills every higher byte with ones.
    assert_eq!(
        Uint256::from_u32(0xff).signextend(&Uint256::zero()),
        Uint256::max_value()
    );
    // Extending 0x7f keeps the value, since the sign bit is clear.
    assert_eq!(
        Uint256::from_u32(0x7f).signextend(&Uint256::zero()),
        Uint256::from_u32(0x7f)
    );
    // Positions of 31 and more leave the value unchanged.
    let x = Uint256::from_u64(0xdeadbeef);
    assert_eq!(x.signextend(&Uint256::from_u32(31)), x);
}

#[test]
fn test_bytes_roundtrip() {
    let x = Uint256::from_u64(0x0123456789abcdef);
    let be = x.to_bytes_be();
    assert_eq!(be.len(), 32);
    assert_eq!(Uint256::from_bytes_be(be.as_slice()), x);
    let le = x.to_bytes_le();
    assert_eq!(le.len(), 32);
    assert_eq!(Uint256::from_bytes_le(le.as_slice()), x);
    // Shorter inputs zero-extend on the left for big-endian reads.
    assert_eq!(Uint256::from_bytes_be(&[0x12, 0x34]), Uint256::from_u32(0x1234));
}

#[test]
fn test_narrowing_conversions() {
    let small = Uint256::from_u32(300);
    assert_eq!(small.to_u64(), 300);
    assert_eq!(small.to_u32(), 300);
    assert_eq!(small.to_u8(), 255);
    assert!(small.to_u8_safe().is_err());
    assert_eq!(small.to_u32_safe().unwrap(), 300);
    assert_eq!(small.low_u8(), 44);
    let big = Uint256::max_value();
    assert_eq!(big.to_u64(), u64::MAX);
    assert!(big.to_u64_safe().is_err());
    assert_eq!(Uint256::from_u64(7).to_u64_safe().unwrap(), 7);
}

#[test]
fn test_byte_len() {
    assert_eq!(Uint256::zero().byte_len(), 0);
    assert_eq!(Uint256::from_u32(1).byte_len(), 1);
    assert_eq!(Uint256::from_u32(255).byte_len(), 1);
    assert_eq!(Uint256::from_u32(256).byte_len(), 2);
    assert_eq!(Uint256::max_value().byte_len(), 32);
}
