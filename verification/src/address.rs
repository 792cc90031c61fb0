use vstd::prelude::*;
use vstd::string::StringSliceAdditionalSpecFns;
use crate::hexstr::{
    hex_of, hex_parse, is_hex_body, strip_0x, parse_hex_body, strip_hex_prefix,
    hex_encode_prefixed, lemma_hex_of_len, lemma_hex_roundtrip,
};
use crate::numbytes::bytes_eq;

verus! {

/// Whether an ASCII string spells an address: an optional 0x marker and then
/// exactly forty hex digits.
pub open spec fn valid_address_hex(s: Seq<u8>) -> bool {
    strip_0x(s).len() == 40 && is_hex_body(strip_0x(s))
}

/// Ethereum address: exactly twenty bytes.
#[derive(Debug, Clone, Copy, Eq, Hash)]
pub struct Address(pub [u8; 20]);

impl View for Address {
    type V = Seq<u8>;

    open spec fn view(&self) -> Seq<u8> {
        self.0@
    }
}

impl PartialEq for Address {
    fn eq(&self, other: &Address) -> (r: bool) {
        bytes_eq(self.0.as_slice(), other.0.as_slice())
    }
}

impl vstd::std_specs::cmp::PartialEqSpecImpl for Address {
    open spec fn obeys_eq_spec() -> bool {
        true
    }

    open spec fn eq_spec(&self, other: &Address) -> bool {
        self.0@ == other.0@
    }
}

impl Address {
    /// Create an address from its twenty bytes.
    pub fn new(bytes: [u8; 20]) -> (r: Address)
        ensures
            r@ == bytes@,
    {
        Address(bytes)
    }

    /// The all-zero address.
    pub fn zero() -> (r: Address)
        ensures
            r@.len() == 20,
            forall|i: int| 0 <= i < 20 ==> r@[i] == 0,
    {
        Address([0u8; 20])
    }

    /// The address as its twenty bytes.
    pub fn as_bytes(&self) -> (r: &[u8; 20])
        ensures
            r@ == self@,
    {
        &self.0
    }

    /// Parse an address from hex text with an optional 0x marker; exactly
    /// forty hex digits are accepted.
    pub fn from_hex(hex: &str) -> (r: Result<Address, String>)
        ensures
            match r {
                Ok(a) => valid_address_hex(hex.spec_bytes()) && a@ == hex_parse(
                    strip_0x(hex.spec_bytes()),
                ),
                Err(_) => !valid_address_hex(hex.spec_bytes()),
            },
    {
        let bytes = hex.as_bytes();
        let body = strip_hex_prefix(bytes);
        if body.len() != 40 {
            return Err("Address must be 40 hex characters".to_owned());
        }
        match parse_hex_body(body) {
            Some(v) => {
                let mut arr = [0u8; 20];
                let mut i: usize = 0;
                while i < 20
                    invariant
                        i <= 20,
                        v@.len() == 20,
                        arr@.len() == 20,
                        forall|j: int| 0 <= j < i ==> arr@[j] == v@[j],
                    decreases 20 - i,
                {
                    arr[i] = v[i];
                    i += 1;
                }
                proof {
                    assert(arr@ =~= v@);
                }
                Ok(Address(arr))
            },
            None => Err("Invalid hex".to_owned()),
        }
    }

    /// Render the address as 0x followed by forty lowercase hex digits.
    pub fn to_hex(&self) -> (r: String)
        ensures
            vstd::utf8::encode_utf8(r@) == seq![0x30u8, 0x78u8] + hex_of(self@),
    {
        hex_encode_prefixed(self.0.as_slice())
    }
}

/// Law: the hex text rendered for any twenty bytes is a valid address string,
/// and parsing it back returns exactly those bytes. Together with the
/// contracts of to_hex and from_hex this makes the round trip the identity.
pub proof fn lemma_address_hex_roundtrip(b: Seq<u8>)
    requires
        b.len() == 20,
    ensures
        valid_address_hex(seq![0x30u8, 0x78u8] + hex_of(b)),
        hex_parse(strip_0x(seq![0x30u8, 0x78u8] + hex_of(b))) == b,
{
    lemma_hex_of_len(b);
    let rendered = seq![0x30u8, 0x78u8] + hex_of(b);
    assert(strip_0x(rendered) =~= hex_of(b));
    lemma_hex_roundtrip(b);
}

} // verus!
