use vstd::prelude::*;
use vstd::arithmetic::power::{pow, lemma_pow_adds, lemma_pow_positive};
use vstd::arithmetic::div_mod::{
    lemma_fundamental_div_mod_converse, lemma_mod_multiples_vanish, lemma_small_mod,
};

verus! {

/// Value of a byte string read as a little-endian base-256 number.
pub open spec fn le_val(s: Seq<u8>) -> nat
    decreases s.len(),
{
    if s.len() == 0 {
        0nat
    } else {
        (s[0] + 256 * le_val(s.subrange(1, s.len() as int))) as nat
    }
}

/// Value of a byte string read as a big-endian base-256 number.
pub open spec fn be_val(s: Seq<u8>) -> nat
    decreases s.len(),
{
    if s.len() == 0 {
        0nat
    } else {
        (be_val(s.drop_last()) * 256 + s.last()) as nat
    }
}

/// A little-endian value is bounded by 256 to the number of digits.
pub proof fn lemma_le_val_bound(s: Seq<u8>)
    ensures
        le_val(s) < pow(256, s.len() as nat),
    decreases s.len(),
{
    if s.len() == 0 {
        assert(le_val(s) == 0);
        assert(pow(256, 0) == 1) by {
            reveal_with_fuel(pow, 1);
        }
    } else {
        let t = s.subrange(1, s.len() as int);
        lemma_le_val_bound(t);
        assert(le_val(s) == s[0] + 256 * le_val(t));
        assert(pow(256, s.len() as nat) == 256 * pow(256, t.len() as nat)) by {
            lemma_pow_adds(256, 1, t.len() as nat);
            assert(pow(256, 1) == 256) by {
                reveal_with_fuel(pow, 2);
            }
        }
        assert(256 * le_val(t) < 256 * pow(256, t.len() as nat)) by (nonlinear_arith)
            requires
                le_val(t) < pow(256, t.len() as nat),
        ;
    }
}

/// Little-endian concatenation: the right part is scaled by the length of the left.
pub proof fn lemma_le_val_concat(s1: Seq<u8>, s2: Seq<u8>)
    ensures
        le_val(s1 + s2) == le_val(s1) + pow(256, s1.len() as nat) * le_val(s2),
    decreases s1.len(),
{
    if s1.len() == 0 {
        assert(s1 + s2 =~= s2);
        assert(pow(256, 0) == 1) by {
            reveal_with_fuel(pow, 1);
        }
    } else {
        let t1 = s1.subrange(1, s1.len() as int);
        lemma_le_val_concat(t1, s2);
        assert((s1 + s2).subrange(1, (s1 + s2).len() as int) =~= t1 + s2);
        assert(le_val(s1 + s2) == (s1[0] + 256 * le_val(t1 + s2)) as nat);
        assert(pow(256, s1.len() as nat) == 256 * pow(256, t1.len() as nat)) by {
            lemma_pow_adds(256, 1, t1.len() as nat);
            assert(pow(256, 1) == 256) by {
                reveal_with_fuel(pow, 2);
            }
        }
        assert(256 * (pow(256, t1.len() as nat) * le_val(s2)) == (256 * pow(
            256,
            t1.len() as nat,
        )) * le_val(s2)) by (nonlinear_arith);
    }
}

/// Big-endian concatenation: the left part is scaled by the length of the right.
pub proof fn lemma_be_val_concat(s1: Seq<u8>, s2: Seq<u8>)
    ensures
        be_val(s1 + s2) == be_val(s1) * pow(256, s2.len() as nat) + be_val(s2),
    decreases s2.len(),
{
    if s2.len() == 0 {
        assert(s1 + s2 =~= s1);
        assert(pow(256, 0) == 1) by {
            reveal_with_fuel(pow, 1);
        }
    } else {
        let t2 = s2.drop_last();
        lemma_be_val_concat(s1, t2);
        assert((s1 + s2).drop_last() =~= s1 + t2);
        assert((s1 + s2).last() == s2.last());
        assert(be_val(s1 + s2) == (be_val(s1 + t2) * 256 + s2.last()) as nat);
        assert(pow(256, s2.len() as nat) == pow(256, t2.len() as nat) * 256) by {
            lemma_pow_adds(256, t2.len() as nat, 1);
            assert(pow(256, 1) == 256) by {
                reveal_with_fuel(pow, 2);
            }
        }
        assert(be_val(s1) * (pow(256, t2.len() as nat) * 256) == (be_val(s1) * pow(
            256,
            t2.len() as nat,
        )) * 256) by (nonlinear_arith);
    }
}

/// A big-endian value is bounded by 256 to the number of digits.
pub proof fn lemma_be_val_bound(s: Seq<u8>)
    ensures
        be_val(s) < pow(256, s.len() as nat),
    decreases s.len(),
{
    if s.len() == 0 {
        assert(pow(256, 0) == 1) by {
            reveal_with_fuel(pow, 1);
        }
    } else {
        let t = s.drop_last();
        lemma_be_val_bound(t);
        assert(be_val(s) == be_val(t) * 256 + s.last());
        assert(pow(256, s.len() as nat) == pow(256, t.len() as nat) * 256) by {
            lemma_pow_adds(256, t.len() as nat, 1);
            reveal_with_fuel(pow, 2);
        }
        assert(be_val(t) * 256 + 256 <= pow(256, t.len() as nat) * 256) by (nonlinear_arith)
            requires
                be_val(t) < pow(256, t.len() as nat),
        ;
    }
}

/// An all-zero byte string has value zero, in either byte order.
pub proof fn lemma_zero_val(s: Seq<u8>)
    requires
        forall|i: int| 0 <= i < s.len() ==> s[i] == 0,
    ensures
        le_val(s) == 0,
        be_val(s) == 0,
    decreases s.len(),
{
    if s.len() > 0 {
        lemma_zero_val(s.subrange(1, s.len() as int));
        lemma_zero_val(s.drop_last());
    }
}

/// The powers of 256 that bound one, two, three and four 64-bit limbs.
pub proof fn lemma_pow256_limbs()
    ensures
        pow(256, 8) == 0x10000000000000000,
        pow(256, 16) == 0x100000000000000000000000000000000,
        pow(256, 24) == 0x1000000000000000000000000000000000000000000000000,
        pow(
            256,
            32,
        ) == 0x10000000000000000000000000000000000000000000000000000000000000000,
    {
    assert(pow(256, 8) == 0x10000000000000000) by {
        reveal_with_fuel(pow, 9);
    }
    lemma_pow_adds(256, 8, 8);
    lemma_pow_adds(256, 16, 8);
    lemma_pow_adds(256, 24, 8);
}

/// A run of 0xff bytes has the maximal value for its length.
pub proof fn lemma_ones_val(s: Seq<u8>)
    requires
        forall|i: int| 0 <= i < s.len() ==> s[i] == 0xff,
    ensures
        le_val(s) == pow(256, s.len() as nat) - 1,
    decreases s.len(),
{
    if s.len() == 0 {
        reveal_with_fuel(pow, 1);
    } else {
        let t = s.subrange(1, s.len() as int);
        lemma_ones_val(t);
        assert(le_val(s) == 0xff + 256 * le_val(t));
        assert(pow(256, s.len() as nat) == 256 * pow(256, t.len() as nat)) by {
            lemma_pow_adds(256, 1, t.len() as nat);
            reveal_with_fuel(pow, 2);
        }
    }
}

/// Each byte of a big-endian string is a base-256 digit of its value.
pub proof fn lemma_be_byte(s: Seq<u8>, i: int)
    requires
        0 <= i < s.len(),
    ensures
        s[i] as int == (be_val(s) as int / (pow(256, (s.len() - 1 - i) as nat) as int)) % 256,
{
    let a = s.subrange(0, i);
    let mid = s.subrange(i, i + 1);
    let c = s.subrange(i + 1, s.len() as int);
    assert(s =~= (a + mid) + c);
    lemma_be_val_concat(a + mid, c);
    lemma_be_val_concat(a, mid);
    assert(mid.len() == 1);
    assert(mid.last() == s[i]);
    assert(be_val(mid.drop_last()) == 0);
    assert(be_val(mid) == s[i]);
    assert(pow(256, 1) == 256) by {
        reveal_with_fuel(pow, 2);
    }
    lemma_be_val_bound(c);
    lemma_pow_positive(256, (s.len() - 1 - i) as nat);
    lemma_fundamental_div_mod_converse(
        be_val(s) as int,
        pow(256, (s.len() - 1 - i) as nat) as int,
        (be_val(a) * 256 + s[i]) as int,
        be_val(c) as int,
    );
    lemma_mod_multiples_vanish(be_val(a) as int, s[i] as int, 256);
    lemma_small_mod(s[i] as nat, 256);
}

/// The leading digits of a little-endian string read its value modulo a power.
pub proof fn lemma_le_prefix(s: Seq<u8>, m: int)
    requires
        0 <= m <= s.len(),
    ensures
        le_val(s.subrange(0, m)) as int == (le_val(s) as int) % (pow(256, m as nat) as int),
{
    let h = s.subrange(0, m);
    let t = s.subrange(m, s.len() as int);
    assert(s =~= h + t);
    lemma_le_val_concat(h, t);
    lemma_le_val_bound(h);
    lemma_pow_positive(256, m as nat);
    assert(le_val(t) * pow(256, m as nat) == pow(256, m as nat) * le_val(t)) by (nonlinear_arith);
    lemma_fundamental_div_mod_converse(
        le_val(s) as int,
        pow(256, m as nat) as int,
        le_val(t) as int,
        le_val(h) as int,
    );
}

/// Compare two byte strings for equality.
pub fn bytes_eq(a: &[u8], b: &[u8]) -> (r: bool)
    ensures
        r == (a@ == b@),
{
    if a.len() != b.len() {
        return false;
    }
    let n = a.len();
    let mut i: usize = 0;
    while i < n
        invariant
            i <= n,
            n == a@.len(),
            n == b@.len(),
            forall|j: int| 0 <= j < i ==> a@[j] == b@[j],
        decreases n - i,
    {
        if a[i] != b[i] {
            return false;
        }
        i += 1;
    }
    proof {
        assert(a@ =~= b@);
    }
    true
}

/// An eight-byte little-endian chunk written out as a weighted sum.
pub proof fn lemma_le_val8(s: Seq<u8>)
    requires
        s.len() == 8,
    ensures
        le_val(s) == s[0] + s[1] * 0x100 + s[2] * 0x10000 + s[3] * 0x1000000 + s[4] * 0x100000000
            + s[5] * 0x10000000000 + s[6] * 0x1000000000000 + s[7] * 0x100000000000000,
{
    let s1 = s.subrange(1, 8);
    let s2 = s1.subrange(1, 7);
    let s3 = s2.subrange(1, 6);
    let s4 = s3.subrange(1, 5);
    let s5 = s4.subrange(1, 4);
    let s6 = s5.subrange(1, 3);
    let s7 = s6.subrange(1, 2);
    let s8 = s7.subrange(1, 1);
    assert(s8.len() == 0);
    assert(le_val(s7) == s[7] + 256 * le_val(s8));
    assert(le_val(s6) == s[6] + 256 * le_val(s7));
    assert(le_val(s5) == s[5] + 256 * le_val(s6));
    assert(le_val(s4) == s[4] + 256 * le_val(s5));
    assert(le_val(s3) == s[3] + 256 * le_val(s4));
    assert(le_val(s2) == s[2] + 256 * le_val(s3));
    assert(le_val(s1) == s[1] + 256 * le_val(s2));
    assert(le_val(s) == s[0] + 256 * le_val(s1));
}

/// An eight-byte big-endian chunk written out as a weighted sum.
pub proof fn lemma_be_val8(s: Seq<u8>)
    requires
        s.len() == 8,
    ensures
        be_val(s) == s[7] + s[6] * 0x100 + s[5] * 0x10000 + s[4] * 0x1000000 + s[3] * 0x100000000
            + s[2] * 0x10000000000 + s[1] * 0x1000000000000 + s[0] * 0x100000000000000,
{
    let s1 = s.drop_last();
    let s2 = s1.drop_last();
    let s3 = s2.drop_last();
    let s4 = s3.drop_last();
    let s5 = s4.drop_last();
    let s6 = s5.drop_last();
    let s7 = s6.drop_last();
    let s8 = s7.drop_last();
    assert(s8.len() == 0);
    assert(be_val(s7) == be_val(s8) * 256 + s[0]);
    assert(be_val(s6) == be_val(s7) * 256 + s[1]);
    assert(be_val(s5) == be_val(s6) * 256 + s[2]);
    assert(be_val(s4) == be_val(s5) * 256 + s[3]);
    assert(be_val(s3) == be_val(s4) * 256 + s[4]);
    assert(be_val(s2) == be_val(s3) * 256 + s[5]);
    assert(be_val(s1) == be_val(s2) * 256 + s[6]);
    assert(be_val(s) == be_val(s1) * 256 + s[7]);
}

} // verus!
