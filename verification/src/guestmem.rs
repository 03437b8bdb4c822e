//! The physical-memory source a page-table walk and the descriptor decoder
//! read through.
//!
//! The one distinction this module exists to keep: an address **outside** RAM
//! is a [`MemoryError`], while RAM that was never written reads as an ordinary
//! zero.  A walker that confused the two would build a tree of zeros.

use std::collections::BTreeMap;
use vstd::prelude::*;
use crate::text::{push_str, push_prefixed_hex, push_decimal, spec_prefixed_hex, spec_decimal};

verus! {

broadcast use vstd::laws_cmp::group_laws_cmp;

/// Why a guest-memory read could not be answered.
#[derive(Debug, Clone, PartialEq, Eq)]
pub enum MemoryError {
    /// The address is outside the guest's RAM (`Cannot access memory`).
    NotInRam { address: u64 },
    /// Fewer bytes were available than requested.
    Short { address: u64, wanted: usize, got: usize },
    /// The underlying source itself failed; its message is kept verbatim.
    Source { address: u64, message: String },
}

/// The text a user is shown for a memory error.
pub open spec fn spec_memory_error_message(e: MemoryError) -> Seq<char> {
    match e {
        MemoryError::NotInRam { address } =>
            "physical address "@ + spec_prefixed_hex(address as nat) + " is outside guest RAM"@,
        MemoryError::Short { address, wanted, got } =>
            "wanted "@ + spec_decimal(wanted as nat) + " bytes at physical "@
                + spec_prefixed_hex(address as nat) + ", only "@ + spec_decimal(got as nat)
                + " available"@,
        MemoryError::Source { address, message } =>
            "reading physical "@ + spec_prefixed_hex(address as nat) + " failed: "@ + message@,
    }
}

impl MemoryError {
    /// The user-facing message.
    pub fn message(&self) -> (text: String)
        ensures
            text@ == spec_memory_error_message(*self),
    {
        let mut out = String::new();
        match self {
            MemoryError::NotInRam { address } => {
                push_str(&mut out, "physical address ");
                push_prefixed_hex(&mut out, *address);
                push_str(&mut out, " is outside guest RAM");
            },
            MemoryError::Short { address, wanted, got } => {
                push_str(&mut out, "wanted ");
                push_decimal(&mut out, *wanted as u64);
                push_str(&mut out, " bytes at physical ");
                push_prefixed_hex(&mut out, *address);
                push_str(&mut out, ", only ");
                push_decimal(&mut out, *got as u64);
                push_str(&mut out, " available");
            },
            MemoryError::Source { address, message } => {
                push_str(&mut out, "reading physical ");
                push_prefixed_hex(&mut out, *address);
                push_str(&mut out, " failed: ");
                push_str(&mut out, message.as_str());
            },
        }
        out
    }
}

/// A little-endian `u64` from eight bytes.
pub open spec fn le_u64(b: Seq<u8>) -> u64
    recommends
        b.len() == 8,
{
    (b[0] as u64) | ((b[1] as u64) << 8u64) | ((b[2] as u64) << 16u64) | ((b[3] as u64) << 24u64)
        | ((b[4] as u64) << 32u64) | ((b[5] as u64) << 40u64) | ((b[6] as u64) << 48u64) | ((
    b[7] as u64) << 56u64)
}

/// Little-endian: byte `k` of the eight carries weight `256^k`.
pub proof fn law_le_u64_weights(b: Seq<u8>)
    requires
        b.len() == 8,
    ensures
        le_u64(b) == b[0] + 0x100 * b[1] + 0x1_0000 * b[2] + 0x100_0000 * b[3] + 0x1_0000_0000 * b[4]
            + 0x100_0000_0000 * b[5] + 0x1_0000_0000_0000 * b[6] + 0x100_0000_0000_0000 * b[7],
{
    let (b0, b1, b2, b3, b4, b5, b6, b7) = (b[0], b[1], b[2], b[3], b[4], b[5], b[6], b[7]);
    assert(((b0 as u64) | ((b1 as u64) << 8u64) | ((b2 as u64) << 16u64) | ((b3 as u64) << 24u64) | ((
    b4 as u64) << 32u64) | ((b5 as u64) << 40u64) | ((b6 as u64) << 48u64) | ((b7 as u64) << 56u64))
        == b0 + 0x100 * b1 + 0x1_0000 * b2 + 0x100_0000 * b3 + 0x1_0000_0000 * b4 + 0x100_0000_0000
        * b5 + 0x1_0000_0000_0000 * b6 + 0x100_0000_0000_0000 * b7) by (bit_vector);
}

/// A read result with its bytes taken by view.
pub open spec fn bytes_result_view(r: Result<Vec<u8>, MemoryError>) -> Result<Seq<u8>, MemoryError> {
    match r {
        Ok(v) => Ok(v@),
        Err(e) => Err(e),
    }
}

/// Random-access read of guest physical memory.
///
/// Implementations state what they return through the four spec functions;
/// the walker and the descriptor decoder are verified against those.
pub trait GuestMemory {
    /// Total guest RAM size, when the source knows it.
    spec fn spec_ram_size(&self) -> Option<u64>;

    /// Is `address` inside guest RAM?
    spec fn spec_is_ram(&self, address: u64) -> bool;

    /// What reading `len` bytes at `address` answers.
    spec fn spec_read_bytes(&self, address: u64, len: usize) -> Result<Seq<u8>, MemoryError>;

    /// What reading a little-endian `u64` at `address` answers.
    spec fn spec_read_u64(&self, address: u64) -> Result<u64, MemoryError>;

    /// Read a little-endian `u64` at `address`.
    fn read_u64(&self, address: u64) -> (r: Result<u64, MemoryError>)
        ensures
            r == self.spec_read_u64(address),
    ;

    /// Read `len` bytes at `address`.
    fn read_bytes(&self, address: u64, len: usize) -> (r: Result<Vec<u8>, MemoryError>)
        ensures
            bytes_result_view(r) == self.spec_read_bytes(address, len),
            r matches Ok(v) ==> v@.len() == len,
    ;

    /// Total guest RAM size in bytes, `None` when unknown.
    fn ram_size(&self) -> (r: Option<u64>)
        ensures
            r == self.spec_ram_size(),
    ;

    /// Is `address` inside guest RAM?
    fn is_ram(&self, address: u64) -> (r: bool)
        ensures
            r == self.spec_is_ram(address),
    ;
}

/// A `GuestMemory` backed by a sparse byte map: absent bytes inside the
/// declared size read as zero, everything at or above it is outside RAM.
#[derive(Debug, Clone, Default, PartialEq, Eq)]
pub struct GuestRam {
    bytes: BTreeMap<u64, u8>,
    size: u64,
}

/// The `got` count a short read reports: the bytes up to the end of RAM,
/// saturated to `usize`.
pub open spec fn available_bytes(size: u64, address: u64) -> usize {
    if size - address > usize::MAX {
        usize::MAX
    } else {
        (size - address) as usize
    }
}

impl GuestRam {
    /// The byte stored at `address` (zero when never written).
    pub closed spec fn byte_at(&self, address: u64) -> u8 {
        if self.bytes@.contains_key(address) {
            self.bytes@[address]
        } else {
            0
        }
    }

    /// The declared RAM size.
    pub closed spec fn size_spec(&self) -> u64 {
        self.size
    }

    /// Read semantics over the byte model.
    pub open spec fn read_spec(&self, address: u64, len: usize) -> Result<Seq<u8>, MemoryError> {
        if address + len > self.size_spec() {
            if address >= self.size_spec() {
                Err(MemoryError::NotInRam { address })
            } else {
                Err(
                    MemoryError::Short {
                        address,
                        wanted: len,
                        got: available_bytes(self.size_spec(), address),
                    },
                )
            }
        } else {
            Ok(Seq::new(len as nat, |i: int| self.byte_at((address + i) as u64)))
        }
    }

    /// An empty RAM of `size` bytes that reads as all zeros.
    pub fn new(size: u64) -> (ram: Self)
        ensures
            ram.size_spec() == size,
            forall|a: u64| #[trigger] ram.byte_at(a) == 0,
    {
        GuestRam { bytes: BTreeMap::new(), size }
    }

    /// Write a byte at `address`.
    pub fn write_byte(&mut self, address: u64, value: u8) -> (r: Result<(), MemoryError>)
        ensures
            final(self).size_spec() == old(self).size_spec(),
            address >= old(self).size_spec() ==> r == Err::<(), MemoryError>(
                MemoryError::NotInRam { address },
            ) && forall|a: u64| #[trigger] final(self).byte_at(a) == old(self).byte_at(a),
            address < old(self).size_spec() ==> r is Ok && forall|a: u64| #[trigger]
                final(self).byte_at(a) == if a == address {
                    value
                } else {
                    old(self).byte_at(a)
                },
    {
        if address >= self.size {
            return Err(MemoryError::NotInRam { address });
        }
        self.bytes.insert(address, value);
        Ok(())
    }

    /// Write a little-endian `u64`.  Bytes that fall inside RAM before the
    /// first one outside it are written; the first outside byte is reported.
    pub fn write_u64(&mut self, address: u64, value: u64) -> (r: Result<(), MemoryError>)
        ensures
            final(self).size_spec() == old(self).size_spec(),
            address + 8 <= old(self).size_spec() ==> r is Ok,
            address + 8 > old(self).size_spec() ==> r == Err::<(), MemoryError>(
                MemoryError::NotInRam {
                    address: if address >= old(self).size_spec() {
                        address
                    } else {
                        old(self).size_spec()
                    },
                },
            ),
            forall|a: u64| #[trigger]
                final(self).byte_at(a) == if address <= a < address + 8 && a < old(
                    self,
                ).size_spec() {
                    ((value >> (((a - address) * 8) as u64)) as u8)
                } else {
                    old(self).byte_at(a)
                },
    {
        let mut index: u64 = 0;
        while index < 8
            invariant
                index <= 8,
                address + index <= self.size_spec() || index == 0,
                self.size_spec() == old(self).size_spec(),
                forall|a: u64| #[trigger]
                    self.byte_at(a) == if address <= a < address + index {
                        ((value >> (((a - address) * 8) as u64)) as u8)
                    } else {
                        old(self).byte_at(a)
                    },
            decreases 8 - index,
        {
            if address >= self.size || self.size - address <= index {
                let r = self.write_byte(address + index, (value >> (index * 8)) as u8);
                return r;
            }
            let r = self.write_byte(address + index, (value >> (index * 8)) as u8);
            index = index + 1;
        }
        Ok(())
    }

    /// Write a slice.  Bytes before the first one outside RAM are written.
    pub fn write_bytes(&mut self, address: u64, data: &[u8]) -> (r: Result<(), MemoryError>)
        ensures
            final(self).size_spec() == old(self).size_spec(),
            address + data@.len() <= old(self).size_spec() || data@.len() == 0 ==> r is Ok,
            address + data@.len() > old(self).size_spec() && data@.len() > 0 ==> r == Err::<(), MemoryError>(
                MemoryError::NotInRam {
                    address: if address >= old(self).size_spec() {
                        address
                    } else {
                        old(self).size_spec()
                    },
                },
            ),
            forall|a: u64| #[trigger]
                final(self).byte_at(a) == if address <= a < address + data@.len() && a < old(
                    self,
                ).size_spec() {
                    data@[a - address]
                } else {
                    old(self).byte_at(a)
                },
    {
        let mut index: usize = 0;
        while index < data.len()
            invariant
                index <= data@.len(),
                address + index <= self.size_spec() || index == 0,
                self.size_spec() == old(self).size_spec(),
                forall|a: u64| #[trigger]
                    self.byte_at(a) == if address <= a < address + index {
                        data@[a - address]
                    } else {
                        old(self).byte_at(a)
                    },
            decreases data@.len() - index,
        {
            if address >= self.size || self.size - address <= index as u64 {
                return self.write_byte(address + index as u64, data[index]);
            }
            let r = self.write_byte(address + index as u64, data[index]);
            index = index + 1;
        }
        Ok(())
    }
}

impl GuestMemory for GuestRam {
    open spec fn spec_ram_size(&self) -> Option<u64> {
        Some(self.size_spec())
    }

    open spec fn spec_is_ram(&self, address: u64) -> bool {
        address < self.size_spec()
    }

    open spec fn spec_read_bytes(&self, address: u64, len: usize) -> Result<Seq<u8>, MemoryError> {
        self.read_spec(address, len)
    }

    open spec fn spec_read_u64(&self, address: u64) -> Result<u64, MemoryError> {
        match self.read_spec(address, 8) {
            Ok(b) => Ok(le_u64(b)),
            Err(e) => Err(e),
        }
    }

    fn read_u64(&self, address: u64) -> (r: Result<u64, MemoryError>) {
        let bytes = self.read_bytes(address, 8)?;
        let value = (bytes[0] as u64) | ((bytes[1] as u64) << 8u64) | ((bytes[2] as u64) << 16u64)
            | ((bytes[3] as u64) << 24u64) | ((bytes[4] as u64) << 32u64) | ((bytes[5] as u64)
            << 40u64) | ((bytes[6] as u64) << 48u64) | ((bytes[7] as u64) << 56u64);
        Ok(value)
    }

    fn read_bytes(&self, address: u64, len: usize) -> (r: Result<Vec<u8>, MemoryError>) {
        if len as u64 > u64::MAX - address || address + len as u64 > self.size {
            if address >= self.size {
                return Err(MemoryError::NotInRam { address });
            }
            let gap = self.size - address;
            let available: usize = if gap > usize::MAX as u64 {
                usize::MAX
            } else {
                gap as usize
            };
            return Err(MemoryError::Short { address, wanted: len, got: available });
        }
        let mut out: Vec<u8> = Vec::with_capacity(len);
        let mut offset: usize = 0;
        while offset < len
            invariant
                offset <= len,
                address + len <= self.size_spec(),
                out@.len() == offset,
                forall|i: int| 0 <= i < offset ==> out@[i] == self.byte_at((address + i) as u64),
            decreases len - offset,
        {
            let at = address + offset as u64;
            let byte = match self.bytes.get(&at) {
                Some(b) => *b,
                None => 0u8,
            };
            out.push(byte);
            offset = offset + 1;
        }
        assert(out@ =~= Seq::new(len as nat, |i: int| self.byte_at((address + i) as u64)));
        Ok(out)
    }

    fn ram_size(&self) -> (r: Option<u64>) {
        Some(self.size)
    }

    fn is_ram(&self, address: u64) -> (r: bool) {
        address < self.size
    }
}

/// Reading back a written `u64` returns it: the little-endian encoding that
/// `write_u64` stores is the one `read_u64` decodes.
pub proof fn lemma_le_u64_roundtrip(value: u64)
    ensures
        le_u64(
            seq![
                value as u8,
                (value >> 8u64) as u8,
                (value >> 16u64) as u8,
                (value >> 24u64) as u8,
                (value >> 32u64) as u8,
                (value >> 40u64) as u8,
                (value >> 48u64) as u8,
                (value >> 56u64) as u8,
            ],
        ) == value,
{
    let b0 = value as u8;
    let b1 = (value >> 8u64) as u8;
    let b2 = (value >> 16u64) as u8;
    let b3 = (value >> 24u64) as u8;
    let b4 = (value >> 32u64) as u8;
    let b5 = (value >> 40u64) as u8;
    let b6 = (value >> 48u64) as u8;
    let b7 = (value >> 56u64) as u8;
    assert((b0 as u64) | ((b1 as u64) << 8u64) | ((b2 as u64) << 16u64) | ((b3 as u64) << 24u64)
        | ((b4 as u64) << 32u64) | ((b5 as u64) << 40u64) | ((b6 as u64) << 48u64) | ((b7 as u64)
        << 56u64) == value) by (bit_vector)
        requires
            b0 == value as u8,
            b1 == (value >> 8u64) as u8,
            b2 == (value >> 16u64) as u8,
            b3 == (value >> 24u64) as u8,
            b4 == (value >> 32u64) as u8,
            b5 == (value >> 40u64) as u8,
            b6 == (value >> 48u64) as u8,
            b7 == (value >> 56u64) as u8,
    ;
}

/// A `u64` written inside RAM reads back unchanged.
pub proof fn law_write_then_read_u64(before: GuestRam, after: GuestRam, address: u64, value: u64)
    requires
        address + 8 <= before.size_spec(),
        after.size_spec() == before.size_spec(),
        forall|a: u64| #[trigger]
            after.byte_at(a) == if address <= a < address + 8 && a < before.size_spec() {
                ((value >> (((a - address) * 8) as u64)) as u8)
            } else {
                before.byte_at(a)
            },
    ensures
        after.spec_read_u64(address) == Ok::<u64, MemoryError>(value),
{
    let bytes = Seq::new(8, |i: int| after.byte_at((address + i) as u64));
    assert(after.read_spec(address, 8) == Ok::<Seq<u8>, MemoryError>(bytes));
    let expected = seq![
        value as u8,
        (value >> 8u64) as u8,
        (value >> 16u64) as u8,
        (value >> 24u64) as u8,
        (value >> 32u64) as u8,
        (value >> 40u64) as u8,
        (value >> 48u64) as u8,
        (value >> 56u64) as u8,
    ];
    assert forall|i: int| 0 <= i < 8 implies bytes[i] == expected[i] by {
        let a = (address + i) as u64;
        assert(after.byte_at(a) == ((value >> (((a - address) * 8) as u64)) as u8));
        assert((value >> 0u64) == value) by (bit_vector);
    }
    assert(bytes =~= expected);
    lemma_le_u64_roundtrip(value);
}

} // verus!
