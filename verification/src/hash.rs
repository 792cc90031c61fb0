use vstd::prelude::*;
use vstd::string::StringSliceAdditionalSpecFns;
use crate::hexstr::{
    hex_of, hex_parse, is_hex_body, strip_0x, parse_hex_body, strip_hex_prefix,
    hex_encode_prefixed, lemma_hex_of_len, lemma_hex_roundtrip,
};
use crate::numbytes::bytes_eq;

verus! {

/// Whether an ASCII string spells a hash: an optional 0x marker and then
/// exactly sixty-four hex digits.
pub open spec fn valid_hash_hex(s: Seq<u8>) -> bool {
    strip_0x(s).len() == 64 && is_hex_body(strip_0x(s))
}

/// A 32-byte hash value, as produced by Keccak-256.
#[derive(Debug, Clone, Copy, Eq, Hash)]
pub struct Hash(pub [u8; 32]);

impl View for Hash {
    type V = Seq<u8>;

    open spec fn view(&self) -> Seq<u8> {
        self.0@
    }
}

impl PartialEq for Hash {
    fn eq(&self, other: &Hash) -> (r: bool) {
        bytes_eq(self.0.as_slice(), other.0.as_slice())
    }
}

impl vstd::std_specs::cmp::PartialEqSpecImpl for Hash {
    open spec fn obeys_eq_spec() -> bool {
        true
    }

    open spec fn eq_spec(&self, other: &Hash) -> bool {
        self.0@ == other.0@
    }
}

impl Hash {
    /// Create a hash from its thirty-two bytes.
    pub fn new(bytes: [u8; 32]) -> (r: Hash)
        ensures
            r@ == bytes@,
    {
        Hash(bytes)
    }

    /// The all-zero hash.
    pub fn zero() -> (r: Hash)
        ensures
            r@.len() == 32,
            forall|i: int| 0 <= i < 32 ==> r@[i] == 0,
    {
        Hash([0u8; 32])
    }

    /// The hash as its thirty-two bytes.
    pub fn as_bytes(&self) -> (r: &[u8; 32])
        ensures
            r@ == self@,
    {
        &self.0
    }

    /// Create a hash from a vector holding exactly thirty-two bytes.
    pub fn from_vec(bytes: &Vec<u8>) -> (r: Hash)
        requires
            bytes@.len() == 32,
        ensures
            r@ == bytes@,
    {
        let mut arr = [0u8; 32];
        let mut i: usize = 0;
        while i < 32
            invariant
                i <= 32,
                bytes@.len() == 32,
                arr@.len() == 32,
                forall|j: int| 0 <= j < i ==> arr@[j] == bytes@[j],
            decreases 32 - i,
        {
            arr[i] = bytes[i];
            i += 1;
        }
        proof {
            assert(arr@ =~= bytes@);
        }
        Hash(arr)
    }

    /// Parse a hash from hex text with an optional 0x marker; exactly
    /// sixty-four hex digits are accepted.
    pub fn from_hex(hex: &str) -> (r: Result<Hash, String>)
        ensures
            match r {
                Ok(h) => valid_hash_hex(hex.spec_bytes()) && h@ == hex_parse(
                    strip_0x(hex.spec_bytes()),
                ),
                Err(_) => !valid_hash_hex(hex.spec_bytes()),
            },
    {
        let bytes = hex.as_bytes();
        let body = strip_hex_prefix(bytes);
        if body.len() != 64 {
            return Err("Hash must be 64 hex characters".to_owned());
        }
        match parse_hex_body(body) {
            Some(v) => {
                let mut arr = [0u8; 32];
                let mut i: usize = 0;
                while i < 32
                    invariant
                        i <= 32,
                        v@.len() == 32,
                        arr@.len() == 32,
                        forall|j: int| 0 <= j < i ==> arr@[j] == v@[j],
                    decreases 32 - i,
                {
                    arr[i] = v[i];
                    i += 1;
                }
                proof {
                    assert(arr@ =~= v@);
                }
                Ok(Hash(arr))
            },
            None => Err("Invalid hex".to_owned()),
        }
    }

    /// Render the hash as 0x followed by sixty-four lowercase hex digits.
    pub fn to_hex(&self) -> (r: String)
        ensures
            vstd::utf8::encode_utf8(r@) == seq![0x30u8, 0x78u8] + hex_of(self@),
    {
        hex_encode_prefixed(self.0.as_slice())
    }
}

/// Law: the hex text rendered for any thirty-two bytes is a valid hash
/// string, and parsing it back returns exactly those bytes.
pub proof fn lemma_hash_hex_roundtrip(b: Seq<u8>)
    requires
        b.len() == 32,
    ensures
        valid_hash_hex(seq![0x30u8, 0x78u8] + hex_of(b)),
        hex_parse(strip_0x(seq![0x30u8, 0x78u8] + hex_of(b))) == b,
{
    lemma_hex_of_len(b);
    let rendered = seq![0x30u8, 0x78u8] + hex_of(b);
    assert(strip_0x(rendered) =~= hex_of(b));
    lemma_hex_roundtrip(b);
}

} // verus!
