use vstd::prelude::*;
use crate::uint256::Uint256;
use crate::numbytes::be_val;

verus! {

/// Failure modes of memory operations. Out-of-range reads are not failures:
/// they return zeros. A failure only surfaces when an offset and size
/// combination cannot be represented.
#[derive(Debug, Clone, Copy, PartialEq, Eq, Structural)]
pub enum MemoryError {
    OutOfBounds { offset: usize, size: usize },
    ExpansionFailed { size: usize },
}

/// A memory contents grown with zeros up to at least the given size.
pub open spec fn grown(m: Seq<u8>, size: nat) -> Seq<u8> {
    if m.len() >= size {
        m
    } else {
        m + Seq::new((size - m.len()) as nat, |i: int| 0u8)
    }
}

/// The bytes read from memory at an offset: zeros past the current length.
pub open spec fn read_spec(m: Seq<u8>, o: nat, s: nat) -> Seq<u8> {
    Seq::new(
        s,
        |i: int|
            if o + i < m.len() {
                m[o + i]
            } else {
                0u8
            },
    )
}

/// Memory grown to cover a write and overwritten with the given data.
pub open spec fn write_spec(m: Seq<u8>, o: nat, data: Seq<u8>) -> Seq<u8> {
    let g = grown(m, o + data.len());
    Seq::new(
        g.len(),
        |i: int|
            if o <= i < o + data.len() {
                data[i - o]
            } else {
                g[i]
            },
    )
}

/// The number of 32-byte words needed to cover a size in bytes.
pub open spec fn word_count(n: nat) -> nat {
    (n + 31) / 32
}

/// The quadratic gas price of growing memory from one size to another.
pub open spec fn expansion_cost_spec(current: nat, new: nat) -> nat {
    if new <= current {
        0nat
    } else {
        let c = word_count(current);
        let n = word_count(new);
        if n <= c {
            0nat
        } else {
            ((n - c) * 3 + n * n / 512 - c * c / 512) as nat
        }
    }
}

/// The EVM memory: a lazily grown, byte-addressed buffer. Reads past the
/// current length return zeros without growing; writes grow the buffer.
pub struct Memory {
    data: Vec<u8>,
}

impl View for Memory {
    type V = Seq<u8>;

    closed spec fn view(&self) -> Seq<u8> {
        self.data@
    }
}

impl Memory {
    /// Create an empty memory.
    pub fn new() -> (r: Memory)
        ensures
            r@.len() == 0,
    {
        Memory { data: Vec::new() }
    }

    /// The current size in bytes.
    pub fn size(&self) -> (r: usize)
        ensures
            r == self@.len(),
    {
        self.data.len()
    }

    /// Grow the memory with zeros to at least the given size.
    pub fn ensure_size(&mut self, size: usize) -> (r: Result<(), MemoryError>)
        ensures
            r is Ok,
            final(self)@ == grown(old(self)@, size as nat),
    {
        while self.data.len() < size
            invariant
                old(self)@.len() <= self.data@.len(),
                self.data@.len() <= grown(old(self)@, size as nat).len(),
                forall|j: int| 0 <= j < old(self)@.len() ==> self.data@[j] == old(self)@[j],
                forall|j: int|
                    old(self)@.len() <= j < self.data@.len() ==> self.data@[j] == 0,
            decreases size - self.data@.len(),
        {
            self.data.push(0);
        }
        proof {
            assert(self.data@ =~= grown(old(self)@, size as nat));
        }
        Ok(())
    }

    /// Read one byte; offsets past the current length read zero.
    pub fn read_byte(&self, offset: usize) -> (r: Result<u8, MemoryError>)
        ensures
            match r {
                Ok(v) => v == if offset < self@.len() {
                    self@[offset as int]
                } else {
                    0u8
                },
                Err(_) => false,
            },
    {
        if offset >= self.data.len() {
            return Ok(0);
        }
        Ok(self.data[offset])
    }

    /// Write one byte, growing the memory to cover it.
    pub fn write_byte(&mut self, offset: usize, value: u8) -> (r: Result<(), MemoryError>)
        requires
            offset < usize::MAX,
        ensures
            r is Ok,
            final(self)@ == write_spec(old(self)@, offset as nat, seq![value]),
    {
        let res = self.ensure_size(offset + 1);
        self.data[offset] = value;
        proof {
            assert(self.data@ =~= write_spec(old(self)@, offset as nat, seq![value]));
        }
        Ok(())
    }

    /// Read a 32-byte word, zero-filled past the current length.
    pub fn read_word(&self, offset: usize) -> (r: Result<Uint256, MemoryError>)
        requires
            offset + 32 <= usize::MAX,
        ensures
            match r {
                Ok(v) => v.as_nat() == be_val(read_spec(self@, offset as nat, 32)),
                Err(_) => false,
            },
    {
        let bytes = match self.read_bytes(offset, 32) {
            Ok(b) => b,
            Err(e) => {
                return Err(e);
            },
        };
        Ok(Uint256::from_bytes_be(bytes.as_slice()))
    }

    /// Write a 32-byte word in big-endian order, growing to cover it.
    pub fn write_word(&mut self, offset: usize, value: Uint256) -> (r: Result<(), MemoryError>)
        requires
            offset + 32 <= usize::MAX,
        ensures
            r is Ok,
            final(self)@.len() == grown(old(self)@, (offset + 32) as nat).len(),
            be_val(final(self)@.subrange(offset as int, offset + 32)) == value.as_nat(),
            forall|i: int|
                0 <= i < final(self)@.len() && !(offset <= i < offset + 32) ==> final(self)@[i]
                    == grown(old(self)@, (offset + 32) as nat)[i],
    {
        let bytes = value.to_bytes_be();
        let res = self.write_bytes(offset, bytes.as_slice());
        proof {
            assert(final(self)@.subrange(offset as int, offset + 32) =~= bytes@);
        }
        res
    }

    /// Read a byte range, zero-filled past the current length; the result has
    /// exactly the requested length.
    pub fn read_bytes(&self, offset: usize, size: usize) -> (r: Result<Vec<u8>, MemoryError>)
        requires
            offset + size <= usize::MAX,
        ensures
            match r {
                Ok(v) => v@ == read_spec(self@, offset as nat, size as nat) && v@.len() == size,
                Err(_) => false,
            },
    {
        let mut out: Vec<u8> = Vec::new();
        let mut i: usize = 0;
        let len = self.data.len();
        while i < size
            invariant
                i <= size,
                offset + size <= usize::MAX,
                len == self@.len(),
                out@.len() == i,
                forall|j: int|
                    0 <= j < i ==> out@[j] == read_spec(self@, offset as nat, size as nat)[j],
            decreases size - i,
        {
            let b = if offset + i < len {
                self.data[offset + i]
            } else {
                0
            };
            out.push(b);
            i += 1;
        }
        proof {
            assert(out@ =~= read_spec(self@, offset as nat, size as nat));
        }
        Ok(out)
    }

    /// Write a byte range, growing the memory to cover it.
    pub fn write_bytes(&mut self, offset: usize, data: &[u8]) -> (r: Result<(), MemoryError>)
        requires
            offset + data@.len() <= usize::MAX,
        ensures
            r is Ok,
            final(self)@ == write_spec(old(self)@, offset as nat, data@),
    {
        let n = data.len();
        let res = self.ensure_size(offset + n);
        let mut i: usize = 0;
        while i < n
            invariant
                i <= n,
                n == data@.len(),
                offset + n <= usize::MAX,
                self.data@.len() == grown(old(self)@, (offset + n) as nat).len(),
                offset + n <= self.data@.len(),
                forall|j: int|
                    0 <= j < self.data@.len() && !(offset <= j < offset + i) ==> self.data@[j]
                        == grown(old(self)@, (offset + n) as nat)[j],
                forall|j: int| 0 <= j < i ==> self.data@[offset + j] == data@[j],
            decreases n - i,
        {
            self.data[offset + i] = data[i];
            i += 1;
        }
        proof {
            assert(self.data@ =~= write_spec(old(self)@, offset as nat, data@));
        }
        Ok(())
    }

    /// Copy a range inside memory, growing to cover both the source and the
    /// destination; overlapping ranges are safe because the source is read
    /// into a buffer first.
    pub fn copy(&mut self, dest_offset: usize, src_offset: usize, size: usize) -> (r: Result<
        (),
        MemoryError,
    >)
        requires
            dest_offset + size <= usize::MAX,
            src_offset + size <= usize::MAX,
        ensures
            r is Ok,
            size == 0 ==> final(self)@ == old(self)@,
            size > 0 ==> final(self)@ == write_spec(
                grown(old(self)@, (src_offset + size) as nat),
                dest_offset as nat,
                read_spec(old(self)@, src_offset as nat, size as nat),
            ),
    {
        if size == 0 {
            return Ok(());
        }
        let buffer = match self.read_bytes(src_offset, size) {
            Ok(b) => b,
            Err(e) => {
                return Err(e);
            },
        };
        let res1 = self.ensure_size(src_offset + size);
        proof {
            assert(read_spec(old(self)@, src_offset as nat, size as nat) =~= read_spec(
                grown(old(self)@, (src_offset + size) as nat),
                src_offset as nat,
                size as nat,
            ));
        }
        self.write_bytes(dest_offset, buffer.as_slice())
    }

    /// Discard all contents.
    pub fn clear(&mut self)
        ensures
            final(self)@.len() == 0,
    {
        self.data.clear();
    }

    /// The raw contents.
    pub fn data(&self) -> (r: &[u8])
        ensures
            r@ == self@,
    {
        self.data.as_slice()
    }

    /// The gas price of growing this memory to a new size, saturating at the
    /// largest 64-bit value.
    pub fn expansion_cost(&self, new_size: usize) -> (r: u64)
        ensures
            r == if expansion_cost_spec(self@.len(), new_size as nat) > u64::MAX {
                u64::MAX as nat
            } else {
                expansion_cost_spec(self@.len(), new_size as nat)
            },
    {
        expansion_cost_saturated(self.data.len(), new_size)
    }
}

/// The expansion price for touching the range from an offset over a size,
/// both taken as 64-bit values, saturating at the largest 64-bit value.
pub fn expansion_cost_checked(current_size: usize, offset: u64, size: u64) -> (r: u64)
    ensures
        r == if expansion_cost_spec(current_size as nat, (offset + size) as nat) > u64::MAX {
            u64::MAX as nat
        } else {
            expansion_cost_spec(current_size as nat, (offset + size) as nat)
        },
{
    let new_size: u128 = offset as u128 + size as u128;
    if new_size <= current_size as u128 {
        return 0;
    }
    let c: u128 = (current_size as u128 + 31) / 32;
    let n: u128 = (new_size + 31) / 32;
    if n <= c {
        return 0;
    }
    proof {
        assert(n <= 0x1000000000000000) by (nonlinear_arith)
            requires
                n == (new_size + 31) / 32,
                new_size <= 0x20000000000000000,
        ;
        assert(n * n <= 0x1000000000000000 * 0x1000000000000000) by (nonlinear_arith)
            requires
                0 <= n <= 0x1000000000000000,
        ;
        assert(c * c <= n * n) by (nonlinear_arith)
            requires
                0 <= c <= n,
        ;
        assert(c * c / 512 <= n * n / 512) by {
            vstd::arithmetic::div_mod::lemma_div_is_ordered(
                (c * c) as int,
                (n * n) as int,
                512,
            );
        }
    }
    let cost: u128 = (n - c) * 3 + (n * n) / 512 - (c * c) / 512;
    if cost > 0xffffffffffffffff {
        u64::MAX
    } else {
        cost as u64
    }
}

/// Compute the quadratic expansion price, saturating at the largest 64-bit
/// value; sizes are taken in bytes.
pub fn expansion_cost_saturated(current_size: usize, new_size: usize) -> (r: u64)
    ensures
        r == if expansion_cost_spec(current_size as nat, new_size as nat) > u64::MAX {
            u64::MAX as nat
        } else {
            expansion_cost_spec(current_size as nat, new_size as nat)
        },
{
    if new_size <= current_size {
        return 0;
    }
    let c: u128 = (current_size as u128 + 31) / 32;
    let n: u128 = (new_size as u128 + 31) / 32;
    if n <= c {
        return 0;
    }
    proof {
        assert(n <= 0x800000000000000) by (nonlinear_arith)
            requires
                n == (new_size as u128 + 31) / 32,
                new_size <= u64::MAX,
        ;
        assert(n * n <= 0x800000000000000 * 0x800000000000000) by (nonlinear_arith)
            requires
                0 <= n <= 0x800000000000000,
        ;
        assert(c * c <= n * n) by (nonlinear_arith)
            requires
                0 <= c <= n,
        ;
        assert(c * c / 512 <= n * n / 512) by {
            vstd::arithmetic::div_mod::lemma_div_is_ordered(
                (c * c) as int,
                (n * n) as int,
                512,
            );
        }
    }
    let cost: u128 = (n - c) * 3 + (n * n) / 512 - (c * c) / 512;
    if cost > 0xffffffffffffffff {
        u64::MAX
    } else {
        cost as u64
    }
}

} // verus!
