use vstd::prelude::*;

verus! {

/// The lowercase hex digit for a value below 16, as an ASCII byte.
pub open spec fn hex_digit(v: nat) -> u8 {
    if v < 10 {
        (0x30 + v) as u8
    } else {
        (0x57 + v) as u8
    }
}

/// The two lowercase hex digits of one byte.
pub open spec fn hex_byte(b: u8) -> Seq<u8> {
    seq![hex_digit((b / 16) as nat), hex_digit((b % 16) as nat)]
}

/// Lowercase hex encoding of a byte string, as ASCII bytes.
pub open spec fn hex_of(s: Seq<u8>) -> Seq<u8>
    decreases s.len(),
{
    if s.len() == 0 {
        Seq::empty()
    } else {
        hex_byte(s[0]) + hex_of(s.subrange(1, s.len() as int))
    }
}

/// Whether an ASCII byte is a hex digit, in either case.
pub open spec fn is_hex_digit_byte(c: u8) -> bool {
    (0x30 <= c <= 0x39) || (0x61 <= c <= 0x66) || (0x41 <= c <= 0x46)
}

/// The value of one ASCII hex digit.
pub open spec fn hex_digit_val(c: u8) -> nat {
    if 0x30 <= c <= 0x39 {
        (c - 0x30) as nat
    } else if 0x61 <= c <= 0x66 {
        (c - 0x61 + 10) as nat
    } else {
        (c - 0x41 + 10) as nat
    }
}

/// Whether an ASCII string is a well-formed hex body: even length, all digits.
pub open spec fn is_hex_body(s: Seq<u8>) -> bool {
    s.len() % 2 == 0 && (forall|i: int| 0 <= i < s.len() ==> is_hex_digit_byte(s[i]))
}

/// The bytes denoted by a hex body, two digits per byte.
pub open spec fn hex_parse(s: Seq<u8>) -> Seq<u8>
    decreases s.len(),
{
    if s.len() < 2 {
        Seq::empty()
    } else {
        seq![(hex_digit_val(s[0]) * 16 + hex_digit_val(s[1])) as u8] + hex_parse(
            s.subrange(2, s.len() as int),
        )
    }
}

/// An ASCII string with any leading 0x marker removed.
pub open spec fn strip_0x(s: Seq<u8>) -> Seq<u8> {
    if s.len() >= 2 && s[0] == 0x30 && s[1] == 0x78 {
        s.subrange(2, s.len() as int)
    } else {
        s
    }
}

/// Hex encoding writes two digits per byte.
pub proof fn lemma_hex_of_len(s: Seq<u8>)
    ensures
        hex_of(s).len() == 2 * s.len(),
    decreases s.len(),
{
    if s.len() > 0 {
        lemma_hex_of_len(s.subrange(1, s.len() as int));
    }
}

/// Decoding is the inverse of encoding: every encoded string is a
/// well-formed hex body, and parsing it returns the original bytes.
pub proof fn lemma_hex_roundtrip(s: Seq<u8>)
    ensures
        is_hex_body(hex_of(s)),
        hex_parse(hex_of(s)) == s,
    decreases s.len(),
{
    lemma_hex_of_len(s);
    if s.len() == 0 {
        assert(hex_parse(hex_of(s)) =~= s);
    } else {
        let t = s.subrange(1, s.len() as int);
        lemma_hex_roundtrip(t);
        lemma_hex_of_len(t);
        let h = hex_of(s);
        assert(h == hex_byte(s[0]) + hex_of(t));
        assert(h[0] == hex_digit((s[0] / 16) as nat));
        assert(h[1] == hex_digit((s[0] % 16) as nat));
        assert(forall|i: int| 2 <= i < h.len() ==> h[i] == hex_of(t)[i - 2]);
        assert(is_hex_body(h));
        assert(h.subrange(2, h.len() as int) =~= hex_of(t));
        assert(hex_digit_val(h[0]) == s[0] / 16);
        assert(hex_digit_val(h[1]) == s[0] % 16);
        vstd::arithmetic::div_mod::lemma_fundamental_div_mod(s[0] as int, 16);
        assert(hex_parse(h) =~= s);
    }
}

/// Parsing a prefix of two more digits peels off one byte at the end.
pub proof fn lemma_hex_parse_snoc(s: Seq<u8>, i: int)
    requires
        0 <= i,
        i % 2 == 0,
        i + 2 <= s.len(),
    ensures
        hex_parse(s.subrange(0, i + 2)) == hex_parse(s.subrange(0, i)) + seq![
            (hex_digit_val(s[i]) * 16 + hex_digit_val(s[i + 1])) as u8,
        ],
    decreases i,
{
    if i == 0 {
        assert(s.subrange(0, 0).len() == 0);
        assert(hex_parse(s.subrange(0, 0)) =~= Seq::<u8>::empty());
        let p = s.subrange(0, 2);
        assert(p.len() == 2 && p[0] == s[0] && p[1] == s[1]);
        assert(p.subrange(2, 2).len() == 0);
        assert(hex_parse(p.subrange(2, 2)) =~= Seq::<u8>::empty());
        assert(hex_parse(p) == seq![(hex_digit_val(p[0]) * 16 + hex_digit_val(p[1])) as u8]
            + hex_parse(p.subrange(2, 2)));
        assert(hex_parse(p) =~= hex_parse(s.subrange(0, 0)) + seq![
            (hex_digit_val(s[0]) * 16 + hex_digit_val(s[1])) as u8,
        ]);
    } else {
        let a = s.subrange(0, i + 2);
        let b = s.subrange(0, i);
        assert(a.subrange(2, a.len() as int) =~= s.subrange(2, s.len() as int).subrange(
            0,
            i,
        ));
        assert(b.subrange(2, b.len() as int) =~= s.subrange(2, s.len() as int).subrange(
            0,
            i - 2,
        ));
        lemma_hex_parse_snoc(s.subrange(2, s.len() as int), i - 2);
        assert(a.len() == i + 2 && a[0] == s[0] && a[1] == s[1]);
        assert(b.len() == i && b[0] == s[0] && b[1] == s[1]);
        assert(hex_parse(a) == seq![(hex_digit_val(a[0]) * 16 + hex_digit_val(a[1])) as u8]
            + hex_parse(a.subrange(2, a.len() as int)));
        assert(hex_parse(b) == seq![(hex_digit_val(b[0]) * 16 + hex_digit_val(b[1])) as u8]
            + hex_parse(b.subrange(2, b.len() as int)));
        assert(s.subrange(2, s.len() as int)[i - 2] == s[i]);
        assert(s.subrange(2, s.len() as int)[i - 1] == s[i + 1]);
        assert(hex_parse(s.subrange(0, i + 2)) =~= hex_parse(s.subrange(0, i)) + seq![
            (hex_digit_val(s[i]) * 16 + hex_digit_val(s[i + 1])) as u8,
        ]);
    }
}

/// Parse one ASCII hex digit.
pub fn parse_hex_digit(c: u8) -> (r: Option<u8>)
    ensures
        match r {
            Some(v) => is_hex_digit_byte(c) && v == hex_digit_val(c),
            None => !is_hex_digit_byte(c),
        },
{
    if 0x30 <= c && c <= 0x39 {
        Some(c - 0x30)
    } else if 0x61 <= c && c <= 0x66 {
        Some(c - 0x61 + 10)
    } else if 0x41 <= c && c <= 0x46 {
        Some(c - 0x41 + 10)
    } else {
        None
    }
}

/// Parse a hex body with no marker: two digits per output byte.
pub fn parse_hex_body(s: &[u8]) -> (r: Option<Vec<u8>>)
    ensures
        match r {
            Some(v) => is_hex_body(s@) && v@ == hex_parse(s@) && v@.len() * 2 == s@.len(),
            None => !is_hex_body(s@),
        },
{
    let n = s.len();
    if n % 2 != 0 {
        return None;
    }
    let mut out: Vec<u8> = Vec::new();
    let mut i: usize = 0;
    while i < n
        invariant
            i <= n,
            i % 2 == 0,
            n % 2 == 0,
            n == s@.len(),
            out@ == hex_parse(s@.subrange(0, i as int)),
            out@.len() * 2 == i,
            forall|j: int| 0 <= j < i ==> is_hex_digit_byte(s@[j]),
        decreases n - i,
    {
        let hi = match parse_hex_digit(s[i]) {
            Some(v) => v,
            None => {
                return None;
            },
        };
        let lo = match parse_hex_digit(s[i + 1]) {
            Some(v) => v,
            None => {
                return None;
            },
        };
        out.push(hi * 16 + lo);
        proof {
            lemma_hex_parse_snoc(s@, i as int);
        }
        i = i + 2;
    }
    proof {
        assert(s@.subrange(0, n as int) =~= s@);
    }
    Some(out)
}

/// Relies on hex::encode: two lowercase hex digits for each input byte. The
/// 0x marker is prepended here.
#[verifier::external_body]
pub(crate) fn hex_encode_prefixed(data: &[u8]) -> (r: String)
    ensures
        vstd::utf8::encode_utf8(r@) == seq![0x30u8, 0x78u8] + hex_of(data@),
{
    format!("0x{}", hex::encode(data))
}

/// Strip any 0x marker from an ASCII byte view of a string.
pub fn strip_hex_prefix(s: &[u8]) -> (r: &[u8])
    ensures
        r@ == strip_0x(s@),
{
    if s.len() >= 2 && s[0] == 0x30 && s[1] == 0x78 {
        let r = vstd::slice::slice_subrange(s, 2, s.len());
        r
    } else {
        s
    }
}

} // verus!
