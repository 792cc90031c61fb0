use vstd::prelude::*;
use vstd::string::StringSliceAdditionalSpecFns;
use crate::hexstr::{
    hex_of, hex_parse, is_hex_body, strip_0x, parse_hex_body, strip_hex_prefix,
    hex_encode_prefixed,
};
use crate::numbytes::bytes_eq;

verus! {

/// Variable-length byte string used for code, input data and return data.
#[derive(Debug, Clone, Eq, Hash)]
pub struct Bytes(pub Vec<u8>);

impl View for Bytes {
    type V = Seq<u8>;

    open spec fn view(&self) -> Seq<u8> {
        self.0@
    }
}

impl PartialEq for Bytes {
    fn eq(&self, other: &Bytes) -> (r: bool) {
        bytes_eq(self.0.as_slice(), other.0.as_slice())
    }
}

impl vstd::std_specs::cmp::PartialEqSpecImpl for Bytes {
    open spec fn obeys_eq_spec() -> bool {
        true
    }

    open spec fn eq_spec(&self, other: &Bytes) -> bool {
        self.0@ == other.0@
    }
}

impl From<Vec<u8>> for Bytes {
    fn from(data: Vec<u8>) -> (r: Bytes) {
        Bytes(data)
    }
}

impl vstd::std_specs::convert::FromSpecImpl<Vec<u8>> for Bytes {
    open spec fn obeys_from_spec() -> bool {
        true
    }

    open spec fn from_spec(data: Vec<u8>) -> Bytes {
        Bytes(data)
    }
}

impl Bytes {
    /// Wrap a byte vector.
    pub fn new(data: Vec<u8>) -> (r: Bytes)
        ensures
            r@ == data@,
    {
        Bytes(data)
    }

    /// The empty byte string.
    pub fn empty() -> (r: Bytes)
        ensures
            r@.len() == 0,
    {
        Bytes(Vec::new())
    }

    /// The number of bytes held.
    pub fn len(&self) -> (r: usize)
        ensures
            r == self@.len(),
    {
        self.0.len()
    }

    /// Whether no bytes are held.
    pub fn is_empty(&self) -> (r: bool)
        ensures
            r == (self@.len() == 0),
    {
        self.0.len() == 0
    }

    /// The bytes as a slice.
    pub fn as_slice(&self) -> (r: &[u8])
        ensures
            r@ == self@,
    {
        self.0.as_slice()
    }

    /// Parse a byte string from hex text with an optional 0x marker.
    pub fn from_hex(hex: &str) -> (r: Result<Bytes, String>)
        ensures
            match r {
                Ok(b) => is_hex_body(strip_0x(hex.spec_bytes())) && b@ == hex_parse(
                    strip_0x(hex.spec_bytes()),
                ),
                Err(_) => !is_hex_body(strip_0x(hex.spec_bytes())),
            },
    {
        let bytes = hex.as_bytes();
        let body = strip_hex_prefix(bytes);
        if body.len() % 2 != 0 {
            return Err("Hex string must have even length".to_owned());
        }
        match parse_hex_body(body) {
            Some(v) => Ok(Bytes(v)),
            None => Err("Invalid hex".to_owned()),
        }
    }

    /// Render the bytes as 0x followed by lowercase hex digits.
    pub fn to_hex(&self) -> (r: String)
        ensures
            vstd::utf8::encode_utf8(r@) == seq![0x30u8, 0x78u8] + hex_of(self@),
    {
        hex_encode_prefixed(self.0.as_slice())
    }

    /// A copy padded with zeros on the right up to the given length; longer
    /// inputs are returned unchanged.
    pub fn pad_to(&self, length: usize) -> (r: Bytes)
        ensures
            r@.len() == if self@.len() < length {
                length as nat
            } else {
                self@.len()
            },
            forall|i: int| 0 <= i < self@.len() ==> r@[i] == self@[i],
            forall|i: int| self@.len() <= i < r@.len() ==> r@[i] == 0,
    {
        let mut result = self.0.clone();
        while result.len() < length
            invariant
                self@.len() <= result@.len(),
                result@.len() <= if self@.len() < length {
                    length as nat
                } else {
                    self@.len()
                },
                forall|i: int| 0 <= i < self@.len() ==> result@[i] == self@[i],
                forall|i: int| self@.len() <= i < result@.len() ==> result@[i] == 0,
            decreases length - result@.len(),
        {
            result.push(0);
        }
        Bytes(result)
    }

    /// A copy cut down to the given length; shorter inputs are returned
    /// unchanged.
    pub fn truncate_to(&self, length: usize) -> (r: Bytes)
        ensures
            r@ == if self@.len() > length {
                self@.subrange(0, length as int)
            } else {
                self@
            },
    {
        let mut result = self.0.clone();
        if result.len() > length {
            result.truncate(length);
        }
        Bytes(result)
    }
}

} // verus!
