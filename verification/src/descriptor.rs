//! GDT / LDT / IDT / TSS descriptor decoding.
//!
//! The parts that are easy to get wrong, each handled explicitly:
//!
//! * a 64-bit TSS (or LDT, or 64-bit call gate) descriptor occupies **two**
//!   8-byte slots; the high slot holds base 63:32 and is recorded as a
//!   [`GdtEntry::HighHalf`], never offered as a descriptor of its own;
//! * `limit` is a byte count minus one, so slot and gate counts are derived;
//! * IDT gates are 16 bytes, read at `base + 16 * i`, with the handler split
//!   across three fields;
//! * the busy bit `ltr` writes back is read as it is, not normalised.

use vstd::prelude::*;
use crate::guestmem::{
    GuestMemory, MemoryError, le_u64, bytes_result_view, spec_memory_error_message,
};
use crate::text::{
    push_str, push_decimal, push_prefixed_hex, push_prefixed_hex_padded, spec_decimal,
    spec_prefixed_hex, spec_prefixed_hex_padded,
};

verus! {

/// Number of bytes in a long-mode segment descriptor.
pub const DESCRIPTOR_SIZE: usize = 8;

/// Number of bytes a 64-bit TSS, LDT or call-gate descriptor occupies.
pub const SYSTEM_DESCRIPTOR_SIZE: usize = 16;

/// Number of bytes in an IDT gate.
pub const GATE_SIZE: usize = 16;

/// The `S` bit: 0 selects a system descriptor, 1 a code/data descriptor.
pub const BIT_S: u64 = 0x1000_0000_0000;

/// The `P` bit.
pub const BIT_P: u64 = 0x8000_0000_0000;

/// The `L` (long mode) bit.
pub const BIT_L: u64 = 0x20_0000_0000_0000;

/// The `D/B` bit.
pub const BIT_DB: u64 = 0x40_0000_0000_0000;

/// The `G` (granularity) bit.
pub const BIT_G: u64 = 0x80_0000_0000_0000;

/// The `A` (accessed) bit.
pub const BIT_A: u64 = 0x100_0000_0000;

/// The `AVL` bit (bit 52).
pub const BIT_AVL: u64 = 0x10_0000_0000_0000;

/// Why a descriptor could not be decoded.
#[derive(Debug, Clone, PartialEq, Eq)]
pub enum DescriptorError {
    /// The memory read failed.
    Memory(MemoryError),
    /// An IDT entry was requested past the table's limit.
    OutOfRange { index: u64, count: u64 },
    /// A TSS descriptor's type is neither 9 (available) nor 11 (busy).
    InvalidTssType { descriptor_type: u8 },
    /// A present IDT gate's type is not a valid interrupt, trap or task gate.
    InvalidGateType { descriptor_type: u8 },
}

pub open spec fn spec_descriptor_error_message(e: DescriptorError) -> Seq<char> {
    match e {
        DescriptorError::Memory(source) => spec_memory_error_message(source),
        DescriptorError::OutOfRange { index, count } => "IDT entry "@ + spec_decimal(index as nat)
            + " is past the table's "@ + spec_decimal(count as nat) + " entries (limit+1)/16"@,
        DescriptorError::InvalidTssType { descriptor_type } => "TSS descriptor type "@
            + spec_decimal(descriptor_type as nat)
            + " is invalid; long mode allows only 9 (available) and 11 (busy)"@,
        DescriptorError::InvalidGateType { descriptor_type } => "IDT gate type "@ + spec_decimal(
            descriptor_type as nat,
        ) + " is not an interrupt/trap gate"@,
    }
}

impl DescriptorError {
    /// The user-facing message.
    pub fn message(&self) -> (text: String)
        ensures
            text@ == spec_descriptor_error_message(*self),
    {
        let mut out = String::new();
        match self {
            DescriptorError::Memory(source) => {
                out = source.message();
            },
            DescriptorError::OutOfRange { index, count } => {
                push_str(&mut out, "IDT entry ");
                push_decimal(&mut out, *index);
                push_str(&mut out, " is past the table's ");
                push_decimal(&mut out, *count);
                push_str(&mut out, " entries (limit+1)/16");
            },
            DescriptorError::InvalidTssType { descriptor_type } => {
                push_str(&mut out, "TSS descriptor type ");
                push_decimal(&mut out, *descriptor_type as u64);
                push_str(
                    &mut out,
                    " is invalid; long mode allows only 9 (available) and 11 (busy)",
                );
            },
            DescriptorError::InvalidGateType { descriptor_type } => {
                push_str(&mut out, "IDT gate type ");
                push_decimal(&mut out, *descriptor_type as u64);
                push_str(&mut out, " is not an interrupt/trap gate");
            },
        }
        out
    }

    /// Wrap a memory failure.
    pub fn from_memory(value: MemoryError) -> (r: Self)
        ensures
            r == DescriptorError::Memory(value),
    {
        DescriptorError::Memory(value)
    }
}

/// What kind of code/data descriptor this is.
#[derive(Debug, Clone, Copy, PartialEq, Eq)]
pub enum CodeDataKind {
    /// `E=1`: a code segment.
    Code,
    /// `E=0`: a data segment.
    Data,
}

/// One code/data segment descriptor.
#[derive(Debug, Clone, PartialEq, Eq)]
pub struct SegmentDescriptor {
    /// Offset of the descriptor within the GDT.
    pub offset: u16,
    /// The raw 8 bytes.
    pub raw: u64,
    /// 32-bit base (ignored by the CPU in long mode except for FS/GS).
    pub base: u32,
    /// Effective limit (the 20-bit field, scaled by `G`).
    pub limit: u32,
    /// `A` — accessed (CPU-written).
    pub accessed: bool,
    /// `R/W` for data, `R` for code.
    pub readable_writable: bool,
    /// Data: expand-down.  Code: conforming.
    pub direction_or_conforming: bool,
    /// Code or data.
    pub kind: CodeDataKind,
    /// DPL, bits 46:45.
    pub dpl: u8,
    /// `P` — present.
    pub present: bool,
    /// `AVL`, bit 52 — a software bit.
    pub available: bool,
    /// `L` — 64-bit code segment.
    pub long_mode: bool,
    /// `D/B` — default operand size.
    pub default_size_32: bool,
    /// `G` — 4 KiB limit granularity.
    pub granularity_4k: bool,
}

/// The access byte, bits 47:40.
pub open spec fn access_byte(raw: u64) -> u8 {
    ((raw >> 40u64) & 0xFF) as u8
}

/// The 20-bit limit field.
pub open spec fn limit_field(raw: u64) -> u32 {
    ((((raw >> 48u64) & 0xF) as u32) << 16u32) | ((raw & 0xFFFF) as u32)
}

/// Bits 31:0 of the base, gathered from the three fields of the low slot.
pub open spec fn base_low32(raw: u64) -> u32 {
    ((((raw >> 56u64) & 0xFF) as u32) << 24u32) | ((((raw >> 32u64) & 0xFF) as u32) << 16u32) | (((
    raw >> 16u64) & 0xFFFF) as u32)
}

/// The limit as the CPU scales it: `G=1` counts 4 KiB units.
pub open spec fn scaled_limit(raw: u64) -> u32 {
    if raw & BIT_G != 0 {
        (limit_field(raw) << 12u32) | 0xFFF
    } else {
        limit_field(raw)
    }
}

/// The architectural decoding of a code/data descriptor (Intel SDM Vol.3
/// §3.4.5).
pub open spec fn spec_segment_decode(offset: u16, raw: u64) -> SegmentDescriptor {
    let access = access_byte(raw);
    SegmentDescriptor {
        offset,
        raw,
        base: base_low32(raw),
        limit: scaled_limit(raw),
        accessed: access & 0x01 != 0,
        readable_writable: access & 0x02 != 0,
        direction_or_conforming: access & 0x04 != 0,
        kind: if access & 0x08 != 0 {
            CodeDataKind::Code
        } else {
            CodeDataKind::Data
        },
        dpl: (access >> 5u8) & 0x3,
        present: access & 0x80 != 0,
        available: raw & BIT_AVL != 0,
        long_mode: raw & BIT_L != 0,
        default_size_32: raw & BIT_DB != 0,
        granularity_4k: raw & BIT_G != 0,
    }
}

/// Every field of a decoded code or data descriptor is read from its own
/// bits of the raw word: accessed (bit 40), readable/writable (41),
/// direction/conforming (42), code (43), DPL (bits 46:45), present (47),
/// AVL (52), L (53), D/B (54) and G (55).
pub proof fn law_segment_fields_are_their_bits(offset: u16, raw: u64)
    ensures
        ({
            let d = spec_segment_decode(offset, raw);
            &&& d.offset == offset && d.raw == raw
            &&& d.accessed == ((raw >> 40u64) & 1 == 1)
            &&& d.readable_writable == ((raw >> 41u64) & 1 == 1)
            &&& d.direction_or_conforming == ((raw >> 42u64) & 1 == 1)
            &&& (d.kind == CodeDataKind::Code) == ((raw >> 43u64) & 1 == 1)
            &&& d.dpl as u64 == (raw >> 45u64) & 3
            &&& d.present == ((raw >> 47u64) & 1 == 1)
            &&& d.available == ((raw >> 52u64) & 1 == 1)
            &&& d.long_mode == ((raw >> 53u64) & 1 == 1)
            &&& d.default_size_32 == ((raw >> 54u64) & 1 == 1)
            &&& d.granularity_4k == ((raw >> 55u64) & 1 == 1)
        }),
{
    let access = ((raw >> 40u64) & 0xFF) as u8;
    assert(access == access_byte(raw));
    assert(((access & 0x01 != 0) == ((raw >> 40u64) & 1 == 1)) && ((access & 0x02 != 0) == ((raw
        >> 41u64) & 1 == 1)) && ((access & 0x04 != 0) == ((raw >> 42u64) & 1 == 1)) && ((access
        & 0x08 != 0) == ((raw >> 43u64) & 1 == 1)) && (((access >> 5u8) & 0x3) as u64 == (raw
        >> 45u64) & 3) && ((access & 0x80 != 0) == ((raw >> 47u64) & 1 == 1))) by (bit_vector)
        requires
            access == ((raw >> 40u64) & 0xFF) as u8,
    ;
    assert(((raw & 0x10_0000_0000_0000u64 != 0) == ((raw >> 52u64) & 1 == 1)) && ((raw
        & 0x20_0000_0000_0000u64 != 0) == ((raw >> 53u64) & 1 == 1)) && ((raw
        & 0x40_0000_0000_0000u64 != 0) == ((raw >> 54u64) & 1 == 1)) && ((raw
        & 0x80_0000_0000_0000u64 != 0) == ((raw >> 55u64) & 1 == 1))) by (bit_vector);
}

/// The base of a code or data descriptor is bits 15:0 from bits 31:16 of
/// the word, bits 23:16 from bits 39:32 and bits 31:24 from bits 63:56; the
/// limit is the 20-bit field of bits 15:0 and 51:48, counted in 4 KiB units
/// (with the low 12 bits all ones) when G is set.
pub proof fn law_segment_base_and_limit(offset: u16, raw: u64)
    ensures
        ({
            let d = spec_segment_decode(offset, raw);
            let field = (raw % 0x10000) + ((raw / 0x1_0000_0000_0000) % 16) * 0x10000;
            &&& d.base as u64 == (raw / 0x10000) % 0x10000 + ((raw / 0x1_0000_0000) % 256) * 0x10000
                + ((raw / 0x100_0000_0000_0000) % 256) * 0x100_0000
            &&& d.limit as u64 == if (raw / 0x80_0000_0000_0000) % 2 == 1 {
                field * 4096 + 4095
            } else {
                field
            }
        }),
{
    let b = base_low32(raw);
    assert(b as u64 == (raw / 0x10000) % 0x10000 + ((raw / 0x1_0000_0000) % 256) * 0x10000 + ((raw
        / 0x100_0000_0000_0000) % 256) * 0x100_0000) by (bit_vector)
        requires
            b == ((((raw >> 56u64) & 0xFF) as u32) << 24u32) | ((((raw >> 32u64) & 0xFF) as u32)
                << 16u32) | (((raw >> 16u64) & 0xFFFF) as u32),
    ;
    let l = limit_field(raw);
    assert(l as u64 == (raw % 0x10000) + ((raw / 0x1_0000_0000_0000) % 16) * 0x10000) by (bit_vector)
        requires
            l == ((((raw >> 48u64) & 0xF) as u32) << 16u32) | ((raw & 0xFFFF) as u32),
    ;
    assert(((l << 12u32) | 0xFFF) as u64 == (l as u64) * 4096 + 4095) by (bit_vector)
        requires
            l < 0x10_0000,
    ;
    assert((raw & 0x80_0000_0000_0000u64 != 0) == ((raw / 0x80_0000_0000_0000) % 2 == 1)) by (bit_vector);
}

/// The DPL, P, AVL and G of a system descriptor are bits 46:45, 47, 52 and
/// 55 of its low slot, its type is bits 43:40, and its base's low 32 bits
/// are gathered as for a code or data descriptor.
pub proof fn law_system_fields_are_their_bits(offset: u16, raw_low: u64, raw_high: Option<u64>)
    ensures
        ({
            let d = spec_system_decode(offset, raw_low, raw_high);
            &&& d.dpl as u64 == (raw_low / 0x2000_0000_0000) % 4
            &&& d.present == ((raw_low / 0x8000_0000_0000) % 2 == 1)
            &&& d.available == ((raw_low / 0x10_0000_0000_0000) % 2 == 1)
            &&& d.granularity_4k == ((raw_low / 0x80_0000_0000_0000) % 2 == 1)
            &&& d.kind == spec_system_type(((raw_low / 0x100_0000_0000) % 16) as u8)
            &&& d.base % 0x1_0000_0000 == (raw_low / 0x10000) % 0x10000 + ((raw_low / 0x1_0000_0000)
                % 256) * 0x10000 + ((raw_low / 0x100_0000_0000_0000) % 256) * 0x100_0000
        }),
{
    let access = access_byte(raw_low);
    assert((((access >> 5u8) & 0x3) as u64 == (raw_low / 0x2000_0000_0000) % 4) && ((access & 0x80
        != 0) == ((raw_low / 0x8000_0000_0000) % 2 == 1)) && ((access & 0xF) as u64 == (raw_low
        / 0x100_0000_0000) % 16)) by (bit_vector)
        requires
            access == ((raw_low >> 40u64) & 0xFF) as u8,
    ;
    assert(((raw_low & 0x10_0000_0000_0000u64 != 0) == ((raw_low / 0x10_0000_0000_0000) % 2 == 1))
        && ((raw_low & 0x80_0000_0000_0000u64 != 0) == ((raw_low / 0x80_0000_0000_0000) % 2 == 1)))
        by (bit_vector);
    law_segment_base_and_limit(offset, raw_low);
    let low = base_low32(raw_low) as u64;
    match raw_high {
        Some(high) => {
            assert((low | (((high >> 32u64) & 0xFFFF_FFFF) << 32u64)) % 0x1_0000_0000 == low) by (bit_vector)
                requires
                    low < 0x1_0000_0000,
            ;
        },
        None => {},
    }
}

pub open spec fn spec_segment_label(d: SegmentDescriptor) -> Seq<char> {
    match d.kind {
        CodeDataKind::Code => if d.long_mode {
            "CODE64"@
        } else if d.default_size_32 {
            "CODE32"@
        } else {
            "CODE16"@
        },
        CodeDataKind::Data => if d.default_size_32 {
            "DATA32"@
        } else {
            "DATA16"@
        },
    }
}

fn access_byte_exec(raw: u64) -> (r: u8)
    ensures
        r == access_byte(raw),
{
    ((raw >> 40u64) & 0xFF) as u8
}

fn limit_field_exec(raw: u64) -> (r: u32)
    ensures
        r == limit_field(raw),
{
    ((((raw >> 48u64) & 0xF) as u32) << 16u32) | ((raw & 0xFFFF) as u32)
}

fn base_low32_exec(raw: u64) -> (r: u32)
    ensures
        r == base_low32(raw),
{
    ((((raw >> 56u64) & 0xFF) as u32) << 24u32) | ((((raw >> 32u64) & 0xFF) as u32) << 16u32) | (((
    raw >> 16u64) & 0xFFFF) as u32)
}

fn scaled_limit_exec(raw: u64) -> (r: u32)
    ensures
        r == scaled_limit(raw),
{
    if raw & BIT_G != 0 {
        (limit_field_exec(raw) << 12u32) | 0xFFF
    } else {
        limit_field_exec(raw)
    }
}

impl SegmentDescriptor {
    /// Decode a raw 8-byte code/data descriptor.
    pub fn decode(offset: u16, raw: u64) -> (d: Self)
        ensures
            d == spec_segment_decode(offset, raw),
            d.dpl as u64 == (raw >> 45u64) & 3,
            d.present == ((raw >> 47u64) & 1 == 1),
            (d.kind == CodeDataKind::Code) == ((raw >> 43u64) & 1 == 1),
    {
        proof {
            law_segment_fields_are_their_bits(offset, raw);
        }
        let access = access_byte_exec(raw);
        SegmentDescriptor {
            offset,
            raw,
            base: base_low32_exec(raw),
            limit: scaled_limit_exec(raw),
            accessed: access & 0x01 != 0,
            readable_writable: access & 0x02 != 0,
            direction_or_conforming: access & 0x04 != 0,
            kind: if access & 0x08 != 0 {
                CodeDataKind::Code
            } else {
                CodeDataKind::Data
            },
            dpl: (access >> 5u8) & 0x3,
            present: access & 0x80 != 0,
            available: raw & BIT_AVL != 0,
            long_mode: raw & BIT_L != 0,
            default_size_32: raw & BIT_DB != 0,
            granularity_4k: raw & BIT_G != 0,
        }
    }

    /// `CODE64`, `CODE32`, `CODE16`, `DATA32` or `DATA16`.
    pub fn label(&self) -> (r: &'static str)
        ensures
            r@ == spec_segment_label(*self),
    {
        match self.kind {
            CodeDataKind::Code => if self.long_mode {
                "CODE64"
            } else if self.default_size_32 {
                "CODE32"
            } else {
                "CODE16"
            },
            CodeDataKind::Data => if self.default_size_32 {
                "DATA32"
            } else {
                "DATA16"
            },
        }
    }

    /// Is this the all-zero null descriptor?
    pub fn is_null(&self) -> (r: bool)
        ensures
            r == (self.raw == 0),
    {
        self.raw == 0
    }

    /// `L=1` together with `D/B=1` is reserved.
    pub fn long_mode_bit_is_consistent(&self) -> (r: bool)
        ensures
            r == !(self.long_mode && self.default_size_32),
    {
        !(self.long_mode && self.default_size_32)
    }
}

/// The `type` field of a system descriptor.
#[derive(Debug, Clone, Copy, PartialEq, Eq)]
pub enum SystemDescriptorType {
    Tss16Available,
    Ldt,
    Tss16Busy,
    CallGate16,
    TaskGate,
    InterruptGate16,
    TrapGate16,
    Tss64Available,
    /// Type 11 — what `ltr` leaves behind.
    Tss64Busy,
    CallGate64,
    InterruptGate64,
    TrapGate64,
    /// Types 0, 8, 10, 13 — not valid in long mode.
    Reserved(u8),
}

pub open spec fn spec_system_type(bits: u8) -> SystemDescriptorType {
    let t = bits & 0xF;
    if t == 1 {
        SystemDescriptorType::Tss16Available
    } else if t == 2 {
        SystemDescriptorType::Ldt
    } else if t == 3 {
        SystemDescriptorType::Tss16Busy
    } else if t == 4 {
        SystemDescriptorType::CallGate16
    } else if t == 5 {
        SystemDescriptorType::TaskGate
    } else if t == 6 {
        SystemDescriptorType::InterruptGate16
    } else if t == 7 {
        SystemDescriptorType::TrapGate16
    } else if t == 9 {
        SystemDescriptorType::Tss64Available
    } else if t == 11 {
        SystemDescriptorType::Tss64Busy
    } else if t == 12 {
        SystemDescriptorType::CallGate64
    } else if t == 14 {
        SystemDescriptorType::InterruptGate64
    } else if t == 15 {
        SystemDescriptorType::TrapGate64
    } else {
        SystemDescriptorType::Reserved(t)
    }
}

/// The 64-bit TSS, the LDT and the 64-bit call gate take two slots.
pub open spec fn spec_is_16_bytes(t: SystemDescriptorType) -> bool {
    match t {
        SystemDescriptorType::Tss64Available | SystemDescriptorType::Tss64Busy
        | SystemDescriptorType::Ldt | SystemDescriptorType::CallGate64 => true,
        _ => false,
    }
}

pub open spec fn spec_system_label(t: SystemDescriptorType) -> Seq<char> {
    match t {
        SystemDescriptorType::Tss16Available => "TSS16-avl"@,
        SystemDescriptorType::Ldt => "LDT"@,
        SystemDescriptorType::Tss16Busy => "TSS16-busy"@,
        SystemDescriptorType::CallGate16 => "CALLGATE16"@,
        SystemDescriptorType::TaskGate => "TASKGATE"@,
        SystemDescriptorType::InterruptGate16 => "INTGATE16"@,
        SystemDescriptorType::TrapGate16 => "TRAPGATE16"@,
        SystemDescriptorType::Tss64Available => "TSS64-avl"@,
        SystemDescriptorType::Tss64Busy => "TSS64-busy"@,
        SystemDescriptorType::CallGate64 => "CALLGATE64"@,
        SystemDescriptorType::InterruptGate64 => "INTGATE64"@,
        SystemDescriptorType::TrapGate64 => "TRAPGATE64"@,
        SystemDescriptorType::Reserved(_) => "RESERVED"@,
    }
}

impl SystemDescriptorType {
    /// Classify a 4-bit `type` field (the high nibble is ignored).
    pub fn from_bits(bits: u8) -> (r: Self)
        ensures
            r == spec_system_type(bits),
    {
        let t = bits & 0xF;
        if t == 1 {
            SystemDescriptorType::Tss16Available
        } else if t == 2 {
            SystemDescriptorType::Ldt
        } else if t == 3 {
            SystemDescriptorType::Tss16Busy
        } else if t == 4 {
            SystemDescriptorType::CallGate16
        } else if t == 5 {
            SystemDescriptorType::TaskGate
        } else if t == 6 {
            SystemDescriptorType::InterruptGate16
        } else if t == 7 {
            SystemDescriptorType::TrapGate16
        } else if t == 9 {
            SystemDescriptorType::Tss64Available
        } else if t == 11 {
            SystemDescriptorType::Tss64Busy
        } else if t == 12 {
            SystemDescriptorType::CallGate64
        } else if t == 14 {
            SystemDescriptorType::InterruptGate64
        } else if t == 15 {
            SystemDescriptorType::TrapGate64
        } else {
            SystemDescriptorType::Reserved(t)
        }
    }

    /// Does this type occupy two 8-byte GDT slots?
    pub fn is_16_bytes(self) -> (r: bool)
        ensures
            r == spec_is_16_bytes(self),
    {
        match self {
            SystemDescriptorType::Tss64Available | SystemDescriptorType::Tss64Busy
            | SystemDescriptorType::Ldt | SystemDescriptorType::CallGate64 => true,
            _ => false,
        }
    }

    /// A short label.
    pub fn label(self) -> (r: &'static str)
        ensures
            r@ == spec_system_label(self),
    {
        match self {
            SystemDescriptorType::Tss16Available => "TSS16-avl",
            SystemDescriptorType::Ldt => "LDT",
            SystemDescriptorType::Tss16Busy => "TSS16-busy",
            SystemDescriptorType::CallGate16 => "CALLGATE16",
            SystemDescriptorType::TaskGate => "TASKGATE",
            SystemDescriptorType::InterruptGate16 => "INTGATE16",
            SystemDescriptorType::TrapGate16 => "TRAPGATE16",
            SystemDescriptorType::Tss64Available => "TSS64-avl",
            SystemDescriptorType::Tss64Busy => "TSS64-busy",
            SystemDescriptorType::CallGate64 => "CALLGATE64",
            SystemDescriptorType::InterruptGate64 => "INTGATE64",
            SystemDescriptorType::TrapGate64 => "TRAPGATE64",
            SystemDescriptorType::Reserved(_) => "RESERVED",
        }
    }
}

/// A decoded system descriptor (TSS, LDT or call gate).
#[derive(Debug, Clone, PartialEq, Eq)]
pub struct SystemDescriptor {
    /// Offset within the GDT.
    pub offset: u16,
    /// The type field.
    pub kind: SystemDescriptorType,
    /// Full base: bits 31:0 from the first slot, 63:32 from the second.
    pub base: u64,
    /// Effective limit (`G`-scaled).
    pub limit: u32,
    /// DPL.
    pub dpl: u8,
    /// `P`.
    pub present: bool,
    /// `AVL` — software bit.
    pub available: bool,
    /// `G` — 4 KiB limit granularity.
    pub granularity_4k: bool,
    /// The raw first slot.
    pub raw_low: u64,
    /// The raw second slot, for 16-byte descriptors.
    pub raw_high: Option<u64>,
}

/// Decoding of a system descriptor from its slots.
pub open spec fn spec_system_decode(offset: u16, raw_low: u64, raw_high: Option<u64>) -> SystemDescriptor {
    let access = access_byte(raw_low);
    let low = base_low32(raw_low) as u64;
    SystemDescriptor {
        offset,
        kind: spec_system_type(access & 0xF),
        base: match raw_high {
            Some(high) => low | (((high >> 32u64) & 0xFFFF_FFFF) << 32u64),
            None => low,
        },
        limit: scaled_limit(raw_low),
        dpl: (access >> 5u8) & 0x3,
        present: access & 0x80 != 0,
        available: raw_low & BIT_AVL != 0,
        granularity_4k: raw_low & BIT_G != 0,
        raw_low,
        raw_high,
    }
}

fn decode_system(offset: u16, raw_low: u64, raw_high: Option<u64>) -> (d: SystemDescriptor)
    ensures
        d == spec_system_decode(offset, raw_low, raw_high),
{
    let access = access_byte_exec(raw_low);
    let low = base_low32_exec(raw_low) as u64;
    let base = match raw_high {
        Some(high) => low | (((high >> 32u64) & 0xFFFF_FFFF) << 32u64),
        None => low,
    };
    SystemDescriptor {
        offset,
        kind: SystemDescriptorType::from_bits(access & 0xF),
        base,
        limit: scaled_limit_exec(raw_low),
        dpl: (access >> 5u8) & 0x3,
        present: access & 0x80 != 0,
        available: raw_low & BIT_AVL != 0,
        granularity_4k: raw_low & BIT_G != 0,
        raw_low,
        raw_high,
    }
}

impl SystemDescriptor {
    /// Decode a system descriptor from its raw slots.
    pub fn decode(offset: u16, raw_low: u64, raw_high: Option<u64>) -> (d: Self)
        ensures
            d == spec_system_decode(offset, raw_low, raw_high),
    {
        decode_system(offset, raw_low, raw_high)
    }

    /// Does this descriptor read as busy (the bit `ltr` sets)?
    pub fn is_busy(&self) -> (r: bool)
        ensures
            r == (self.kind == SystemDescriptorType::Tss16Busy || self.kind
                == SystemDescriptorType::Tss64Busy),
    {
        match self.kind {
            SystemDescriptorType::Tss16Busy | SystemDescriptorType::Tss64Busy => true,
            _ => false,
        }
    }

    /// Number of GDT slots this descriptor occupies.
    pub fn slot_count(&self) -> (r: u16)
        ensures
            r == if spec_is_16_bytes(self.kind) {
                2u16
            } else {
                1u16
            },
    {
        if self.kind.is_16_bytes() {
            2
        } else {
            1
        }
    }
}

/// One GDT slot.
#[derive(Debug, Clone, PartialEq, Eq)]
pub enum GdtEntry {
    /// The null descriptor at offset 0.
    Null { offset: u16 },
    /// A code or data segment.
    Segment(Box<SegmentDescriptor>),
    /// A system descriptor.
    System(Box<SystemDescriptor>),
    /// The high half of a 16-byte system descriptor — not addressable.
    HighHalf { offset: u16, raw: u64, low_half_offset: u16 },
}

pub open spec fn spec_entry_offset(e: GdtEntry) -> u16 {
    match e {
        GdtEntry::Null { offset } => offset,
        GdtEntry::HighHalf { offset, .. } => offset,
        GdtEntry::Segment(d) => d.offset,
        GdtEntry::System(d) => d.offset,
    }
}

impl GdtEntry {
    /// Offset of this slot within the GDT.
    pub fn offset(&self) -> (r: u16)
        ensures
            r == spec_entry_offset(*self),
    {
        match self {
            GdtEntry::Null { offset } => *offset,
            GdtEntry::HighHalf { offset, .. } => *offset,
            GdtEntry::Segment(descriptor) => descriptor.offset,
            GdtEntry::System(descriptor) => descriptor.offset,
        }
    }

    /// The selector naming this slot (the offset, for the GDT).
    pub fn selector(&self) -> (r: u16)
        ensures
            r == spec_entry_offset(*self),
    {
        self.offset()
    }
}

/// A decoded GDT.
#[derive(Debug, Clone, PartialEq, Eq)]
pub struct Gdt {
    /// Where the table lives in guest memory.
    pub base: u64,
    /// The limit as reported (bytes minus one).
    pub limit: u32,
    /// The slots, in offset order.
    pub entries: Vec<GdtEntry>,
}

/// `(limit + 1) / 8`.
pub open spec fn gdt_slots(limit: u32) -> u64 {
    ((limit as u64 + 1) / 8) as u64
}

/// The slots of a GDT from slot `index` on, after the entries in `acc`.
pub open spec fn gdt_entries_from<M: GuestMemory>(
    memory: &M,
    base: u64,
    slot_count: u64,
    index: u64,
    acc: Seq<GdtEntry>,
) -> Result<Seq<GdtEntry>, DescriptorError>
    decreases slot_count - index,
{
    if index >= slot_count {
        Ok(acc)
    } else {
        let offset = (index * 8) as u64;
        let address = (base + offset) as u64;
        match memory.spec_read_u64(address) {
            Err(e) => Err(DescriptorError::Memory(e)),
            Ok(raw) => if index == 0 && raw == 0 {
                gdt_entries_from(
                    memory,
                    base,
                    slot_count,
                    (index + 1) as u64,
                    acc.push(GdtEntry::Null { offset: offset as u16 }),
                )
            } else if raw & BIT_S != 0 {
                gdt_entries_from(
                    memory,
                    base,
                    slot_count,
                    (index + 1) as u64,
                    acc.push(GdtEntry::Segment(Box::new(spec_segment_decode(offset as u16, raw)))),
                )
            } else if spec_is_16_bytes(spec_system_type(((raw >> 40u64) & 0xF) as u8)) && index
                + 1 < slot_count {
                match memory.spec_read_u64((address + 8) as u64) {
                    Err(e) => Err(DescriptorError::Memory(e)),
                    Ok(high) => gdt_entries_from(
                        memory,
                        base,
                        slot_count,
                        (index + 2) as u64,
                        acc.push(
                            GdtEntry::System(
                                Box::new(spec_system_decode(offset as u16, raw, Some(high))),
                            ),
                        ).push(
                            GdtEntry::HighHalf {
                                offset: (offset + 8) as u16,
                                raw: high,
                                low_half_offset: offset as u16,
                            },
                        ),
                    ),
                }
            } else {
                gdt_entries_from(
                    memory,
                    base,
                    slot_count,
                    (index + 1) as u64,
                    acc.push(
                        GdtEntry::System(Box::new(spec_system_decode(offset as u16, raw, None))),
                    ),
                )
            },
        }
    }
}

/// The first entry of `entries` whose offset is `offset`.
pub open spec fn first_at_offset(entries: Seq<GdtEntry>, offset: u16) -> Option<GdtEntry>
    decreases entries.len(),
{
    if entries.len() == 0 {
        None
    } else if spec_entry_offset(entries[0]) == offset {
        Some(entries[0])
    } else {
        first_at_offset(entries.drop_first(), offset)
    }
}

pub open spec fn is_tss_type(t: SystemDescriptorType) -> bool {
    t == SystemDescriptorType::Tss64Available || t == SystemDescriptorType::Tss64Busy || t
        == SystemDescriptorType::Tss16Available || t == SystemDescriptorType::Tss16Busy
}

/// The first TSS descriptor among `entries`.
pub open spec fn first_tss(entries: Seq<GdtEntry>) -> Option<SystemDescriptor>
    decreases entries.len(),
{
    if entries.len() == 0 {
        None
    } else {
        match entries[0] {
            GdtEntry::System(d) if is_tss_type(d.kind) => Some(*d),
            _ => first_tss(entries.drop_first()),
        }
    }
}

/// Reads that stay below `u64::MAX`: the last slot's address fits.
pub open spec fn gdt_addresses_fit(base: u64, limit: u32) -> bool {
    gdt_slots(limit) == 0 || base + 8 * (gdt_slots(limit) - 1) <= u64::MAX
}

impl Gdt {
    /// How many 8-byte slots the limit allows: `(limit + 1) / 8`.
    pub fn slot_count(&self) -> (r: u64)
        ensures
            r == gdt_slots(self.limit),
    {
        (self.limit as u64 + 1) / 8
    }

    /// The descriptor a selector names (RPL and TI bits masked off), or
    /// `None` for a selector outside the table.
    pub fn entry_for_selector(&self, selector: u16) -> (r: Option<&GdtEntry>)
        ensures
            match r {
                Some(e) => first_at_offset(self.entries@, selector & 0xFFF8) == Some(*e),
                None => first_at_offset(self.entries@, selector & 0xFFF8) is None,
            },
    {
        let offset = selector & 0xFFF8;
        let mut i: usize = 0;
        assert(self.entries@.skip(0) =~= self.entries@);
        while i < self.entries.len()
            invariant
                offset == selector & 0xFFF8,
                i <= self.entries@.len(),
                first_at_offset(self.entries@, offset) == first_at_offset(
                    self.entries@.skip(i as int),
                    offset,
                ),
            decreases self.entries@.len() - i,
        {
            let entry = &self.entries[i];
            assert(self.entries@.skip(i as int)[0] == *entry);
            assert(self.entries@.skip(i as int).drop_first() =~= self.entries@.skip(i + 1));
            if entry.offset() == offset {
                assert(first_at_offset(self.entries@.skip(i as int), offset) == Some(*entry));
                return Some(entry);
            }
            i = i + 1;
        }
        None
    }

    /// Decode a GDT from guest memory.
    pub fn read<M: GuestMemory>(memory: &M, base: u64, limit: u32) -> (r: Result<Self, DescriptorError>)
        requires
            gdt_addresses_fit(base, limit),
        ensures
            match r {
                Ok(g) => gdt_entries_from(memory, base, gdt_slots(limit), 0, Seq::empty()) == Ok::<
                    Seq<GdtEntry>,
                    DescriptorError,
                >(g.entries@) && g.base == base && g.limit == limit,
                Err(e) => gdt_entries_from(memory, base, gdt_slots(limit), 0, Seq::empty()) == Err::<
                    Seq<GdtEntry>,
                    DescriptorError,
                >(e),
            },
    {
        let slot_count = (limit as u64 + 1) / 8;
        let mut entries: Vec<GdtEntry> = Vec::new();
        let mut index: u64 = 0;
        let ghost whole = gdt_entries_from(memory, base, slot_count, 0, Seq::empty());
        assert(entries@ =~= Seq::<GdtEntry>::empty());
        while index < slot_count
            invariant
                slot_count == gdt_slots(limit),
                gdt_addresses_fit(base, limit),
                index <= slot_count,
                whole == gdt_entries_from(memory, base, gdt_slots(limit), 0, Seq::empty()),
                whole == gdt_entries_from(memory, base, slot_count, index, entries@),
            decreases slot_count - index,
        {
            let offset = index * 8;
            let address = base + offset;
            let raw = match memory.read_u64(address) {
                Ok(raw) => raw,
                Err(e) => {
                    return Err(DescriptorError::Memory(e));
                },
            };
            if index == 0 && raw == 0 {
                entries.push(GdtEntry::Null { offset: offset as u16 });
                index += 1;
                continue;
            }
            if raw & BIT_S != 0 {
                entries.push(GdtEntry::Segment(Box::new(SegmentDescriptor::decode(offset as u16, raw))));
                index += 1;
                continue;
            }
            let descriptor_type = SystemDescriptorType::from_bits(((raw >> 40u64) & 0xF) as u8);
            if descriptor_type.is_16_bytes() && index + 1 < slot_count {
                let high = match memory.read_u64(address + 8) {
                    Ok(high) => high,
                    Err(e) => {
                        return Err(DescriptorError::Memory(e));
                    },
                };
                entries.push(GdtEntry::System(Box::new(decode_system(offset as u16, raw, Some(high)))));
                entries.push(
                    GdtEntry::HighHalf {
                        offset: (offset + 8) as u16,
                        raw: high,
                        low_half_offset: offset as u16,
                    },
                );
                index += 2;
            } else {
                entries.push(GdtEntry::System(Box::new(decode_system(offset as u16, raw, None))));
                index += 1;
            }
        }
        Ok(Gdt { base, limit, entries })
    }

    /// The first TSS descriptor in the table, if it has one.
    pub fn tss(&self) -> (r: Option<&SystemDescriptor>)
        ensures
            match r {
                Some(d) => first_tss(self.entries@) == Some(*d),
                None => first_tss(self.entries@) is None,
            },
    {
        let mut i: usize = 0;
        assert(self.entries@.skip(0) =~= self.entries@);
        while i < self.entries.len()
            invariant
                i <= self.entries@.len(),
                first_tss(self.entries@) == first_tss(self.entries@.skip(i as int)),
            decreases self.entries@.len() - i,
        {
            assert(self.entries@.skip(i as int)[0] == self.entries@[i as int]);
            assert(self.entries@.skip(i as int).drop_first() =~= self.entries@.skip(i + 1));
            match &self.entries[i] {
                GdtEntry::System(descriptor) => {
                    match descriptor.kind {
                        SystemDescriptorType::Tss64Available | SystemDescriptorType::Tss64Busy
                        | SystemDescriptorType::Tss16Available
                        | SystemDescriptorType::Tss16Busy => {
                            return Some(&**descriptor);
                        },
                        _ => {},
                    }
                },
                _ => {},
            }
            i = i + 1;
        }
        None
    }
}

/// The 64-bit TSS structure (Intel SDM Vol.3 §7.7).
#[derive(Debug, Clone, PartialEq, Eq)]
pub struct Tss64 {
    /// Base address of the TSS.
    pub base: u64,
    /// `RSP0` — the stack loaded on entry to ring 0.
    pub rsp0: u64,
    /// `RSP1`.
    pub rsp1: u64,
    /// `RSP2`.
    pub rsp2: u64,
    /// `IST1..IST7`, in order.
    pub ist: [u64; 7],
    /// I/O map base, an offset from `base`.
    pub io_map_base: u16,
    /// Does the I/O map base lie below the limit?  A base at or beyond the
    /// limit means there is no I/O permission bitmap.
    pub has_io_bitmap: bool,
}

/// The little-endian `u64` at `offset` of `b`.
pub open spec fn le_u64_at(b: Seq<u8>, offset: int) -> u64 {
    le_u64(b.subrange(offset, offset + 8))
}

fn read_le_u64(raw: &Vec<u8>, offset: usize) -> (r: u64)
    requires
        offset + 8 <= raw@.len(),
    ensures
        r == le_u64_at(raw@, offset as int),
{
    let n = raw.len();
    let ghost s = raw@.subrange(offset as int, offset + 8);
    assert(s[0] == raw@[offset as int] && s[1] == raw@[offset + 1] && s[2] == raw@[offset + 2] && s[3]
        == raw@[offset + 3] && s[4] == raw@[offset + 4] && s[5] == raw@[offset + 5] && s[6]
        == raw@[offset + 6] && s[7] == raw@[offset + 7]);
    (raw[offset] as u64) | ((raw[offset + 1] as u64) << 8u64) | ((raw[offset + 2] as u64) << 16u64)
        | ((raw[offset + 3] as u64) << 24u64) | ((raw[offset + 4] as u64) << 32u64) | ((raw[offset
        + 5] as u64) << 40u64) | ((raw[offset + 6] as u64) << 48u64) | ((raw[offset + 7] as u64)
        << 56u64)
}

/// The TSS fields as the 104 bytes at `base` hold them.
pub open spec fn spec_tss(base: u64, limit: u32, b: Seq<u8>) -> Tss64 {
    let io_map_base = ((b[0x66] as u16) | ((b[0x67] as u16) << 8u16)) as u16;
    Tss64 {
        base,
        rsp0: le_u64_at(b, 0x04),
        rsp1: le_u64_at(b, 0x0C),
        rsp2: le_u64_at(b, 0x14),
        ist: [
            le_u64_at(b, 0x24),
            le_u64_at(b, 0x2C),
            le_u64_at(b, 0x34),
            le_u64_at(b, 0x3C),
            le_u64_at(b, 0x44),
            le_u64_at(b, 0x4C),
            le_u64_at(b, 0x54),
        ],
        io_map_base,
        has_io_bitmap: (io_map_base as u32) < limit,
    }
}

/// The 64-bit TSS layout: `RSPn` is the little-endian quadword at byte
/// `4 + 8n` (n < 3), `ISTk` the one at `0x24 + 8(k-1)` (k = 1..7), the I/O
/// map base the little-endian word at `0x66`, and there is an I/O bitmap
/// exactly when that base lies below the limit.
pub proof fn law_tss_layout(base: u64, limit: u32, b: Seq<u8>)
    requires
        b.len() >= 0x68,
    ensures
        ({
            let t = spec_tss(base, limit, b);
            &&& t.base == base
            &&& t.rsp0 == le_u64_at(b, 4int) && t.rsp1 == le_u64_at(b, 4int + 8) && t.rsp2 == le_u64_at(b, 4int + 16)
            &&& forall|k: int| 0 <= k < 7 ==> #[trigger] t.ist@[k] == le_u64_at(b, 0x24 + 8 * k)
            &&& t.io_map_base == b[0x66] + 256 * b[0x67]
            &&& t.has_io_bitmap == (t.io_map_base < limit)
        }),
{
    let (lo, hi) = (b[0x66], b[0x67]);
    assert(((lo as u16) | ((hi as u16) << 8u16)) == lo + 256 * hi) by (bit_vector);
    let t = spec_tss(base, limit, b);
    assert forall|k: int| 0 <= k < 7 implies #[trigger] t.ist@[k] == le_u64_at(b, 0x24 + 8 * k) by {
        if k == 0 {} else if k == 1 {} else if k == 2 {} else if k == 3 {} else if k == 4 {} else if k == 5 {} else {}
    }
}

impl Tss64 {
    /// Decode a TSS from the 104 (0x68) bytes at `base`.
    pub fn read<M: GuestMemory>(memory: &M, base: u64, limit: u32) -> (r: Result<Self, DescriptorError>)
        ensures
            match memory.spec_read_bytes(base, 0x68) {
                Ok(b) => r == Ok::<Tss64, DescriptorError>(spec_tss(base, limit, b)),
                Err(e) => r == Err::<Tss64, DescriptorError>(DescriptorError::Memory(e)),
            },
    {
        let raw = match memory.read_bytes(base, 0x68) {
            Ok(raw) => raw,
            Err(e) => {
                return Err(DescriptorError::Memory(e));
            },
        };
        let io_map_base = (raw[0x66] as u16) | ((raw[0x67] as u16) << 8u16);
        let ist = [
            read_le_u64(&raw, 0x24),
            read_le_u64(&raw, 0x2C),
            read_le_u64(&raw, 0x34),
            read_le_u64(&raw, 0x3C),
            read_le_u64(&raw, 0x44),
            read_le_u64(&raw, 0x4C),
            read_le_u64(&raw, 0x54),
        ];
        let tss = Tss64 {
            base,
            rsp0: read_le_u64(&raw, 0x04),
            rsp1: read_le_u64(&raw, 0x0C),
            rsp2: read_le_u64(&raw, 0x14),
            ist,
            io_map_base,
            has_io_bitmap: (io_map_base as u32) < limit,
        };
        assert(tss == spec_tss(base, limit, raw@));
        Ok(tss)
    }
}

/// Which kind of gate an IDT entry is.
#[derive(Debug, Clone, Copy, PartialEq, Eq)]
pub enum GateKind {
    /// Type 14 — interrupt gate: IF is cleared on entry.
    Interrupt,
    /// Type 15 — trap gate: IF is preserved.
    Trap,
    /// Type 5 — task gate (legacy).
    Task,
}

/// One IDT gate.
#[derive(Debug, Clone, PartialEq, Eq)]
pub struct IdtGate {
    /// Vector number.
    pub vector: u8,
    /// Byte offset of this entry within the IDT.
    pub offset: u16,
    /// The raw 16 bytes.
    pub raw: [u8; 16],
    /// Present.
    pub present: bool,
    /// DPL.
    pub dpl: u8,
    /// Gate kind; a not-present entry whose type is not a gate type reads
    /// as `Interrupt` (the value is unused).
    pub kind: GateKind,
    /// Code selector.
    pub selector: u16,
    /// IST index; 0 means no stack switch.
    pub ist: u8,
    /// Full 64-bit handler address from all three offset fields.
    pub handler: u64,
}

pub open spec fn all_zero(b: Seq<u8>) -> bool {
    forall|i: int| 0 <= i < b.len() ==> b[i] == 0
}

/// The handler address: bytes 0..2 are bits 15:0, bytes 6..8 bits 31:16 and
/// bytes 8..12 bits 63:32.
pub open spec fn gate_handler(b: Seq<u8>) -> u64 {
    (b[0] as u64) | ((b[1] as u64) << 8u64) | ((b[6] as u64) << 16u64) | ((b[7] as u64) << 24u64) | ((
    b[8] as u64) << 32u64) | ((b[9] as u64) << 40u64) | ((b[10] as u64) << 48u64) | ((b[11] as u64)
        << 56u64)
}

/// Decoding of entry `index` as a gate, or why it is not one.
pub open spec fn spec_gate(index: u64, offset: u64, b: Seq<u8>) -> Result<IdtGate, DescriptorError> {
    let type_attr = b[5];
    let descriptor_type = type_attr & 0x0F;
    let kind = if descriptor_type == 0xE {
        Some(GateKind::Interrupt)
    } else if descriptor_type == 0xF {
        Some(GateKind::Trap)
    } else if descriptor_type == 0x5 {
        Some(GateKind::Task)
    } else if type_attr & 0x80 == 0 {
        Some(GateKind::Interrupt)
    } else {
        None
    };
    match kind {
        None => Err(DescriptorError::InvalidGateType { descriptor_type }),
        Some(kind) => Ok(
            IdtGate {
                vector: if index > 255 {
                    255u8
                } else {
                    index as u8
                },
                offset: offset as u16,
                raw: [
                    b[0],
                    b[1],
                    b[2],
                    b[3],
                    b[4],
                    b[5],
                    b[6],
                    b[7],
                    b[8],
                    b[9],
                    b[10],
                    b[11],
                    b[12],
                    b[13],
                    b[14],
                    b[15],
                ],
                present: type_attr & 0x80 != 0,
                dpl: (type_attr >> 5u8) & 0x3,
                kind,
                selector: ((b[2] as u16) | ((b[3] as u16) << 8u16)) as u16,
                ist: b[4] & 0x7,
                handler: gate_handler(b),
            },
        ),
    }
}

/// An IDT entry decodes by the architectural layout: P is bit 7 and DPL
/// bits 6:5 of byte 5, the type is bits 3:0 of byte 5 (14 interrupt, 15
/// trap, 5 task; any other type refused only when P is set), the selector
/// is bytes 2-3, the IST index bits 2:0 of byte 4, and the handler is bytes
/// 0-1, 6-7 and 8-11 in ascending significance.
pub proof fn law_gate_fields_are_their_bytes(index: u64, offset: u64, b: Seq<u8>)
    requires
        b.len() == 16,
    ensures
        ({
            let t = b[5] % 16;
            let present = b[5] >= 128;
            match spec_gate(index, offset, b) {
                Ok(g) => {
                    &&& g.present == present
                    &&& g.dpl == (b[5] / 32) % 4
                    &&& g.selector == b[2] + 256 * b[3]
                    &&& g.ist == b[4] % 8
                    &&& g.handler == b[0] + 0x100 * b[1] + 0x1_0000 * b[6] + 0x100_0000 * b[7]
                        + 0x1_0000_0000 * b[8] + 0x100_0000_0000 * b[9] + 0x1_0000_0000_0000 * b[10]
                        + 0x100_0000_0000_0000 * b[11]
                    &&& (t == 14 ==> g.kind == GateKind::Interrupt)
                    &&& (t == 15 ==> g.kind == GateKind::Trap)
                    &&& (t == 5 ==> g.kind == GateKind::Task)
                    &&& (present ==> t == 14 || t == 15 || t == 5)
                },
                Err(e) => present && t != 14 && t != 15 && t != 5 && e
                    == DescriptorError::InvalidGateType { descriptor_type: t as u8 },
            }
        }),
{
    let ta = b[5];
    assert(((ta & 0x80 != 0) == (ta >= 128)) && (((ta >> 5u8) & 0x3) == (ta / 32) % 4) && ((ta
        & 0x0F) == ta % 16)) by (bit_vector);
    let (b0, b1, b2, b3, b4, b6, b7, b8, b9, b10, b11) = (b[0], b[1], b[2], b[3], b[4], b[6], b[7], b[8], b[9], b[10], b[11]);
    assert(((b2 as u16) | ((b3 as u16) << 8u16)) == b2 + 256 * b3) by (bit_vector);
    assert((b4 & 0x7) == b4 % 8) by (bit_vector);
    assert(((b0 as u64) | ((b1 as u64) << 8u64) | ((b6 as u64) << 16u64) | ((b7 as u64) << 24u64) | ((
    b8 as u64) << 32u64) | ((b9 as u64) << 40u64) | ((b10 as u64) << 48u64) | ((b11 as u64)
        << 56u64)) == b0 + 0x100 * b1 + 0x1_0000 * b6 + 0x100_0000 * b7 + 0x1_0000_0000 * b8
        + 0x100_0000_0000 * b9 + 0x1_0000_0000_0000 * b10 + 0x100_0000_0000_0000 * b11) by (bit_vector);
}

/// `(limit + 1) / 16`.
pub open spec fn idt_gates(limit: u32) -> u64 {
    ((limit as u64 + 1) / 16) as u64
}

/// The gates from `index` on, after those in `acc`.
pub open spec fn idt_gates_from<M: GuestMemory>(
    memory: &M,
    base: u64,
    count: u64,
    index: u64,
    acc: Seq<IdtGate>,
) -> Result<Seq<IdtGate>, DescriptorError>
    decreases count - index,
{
    if index >= count {
        Ok(acc)
    } else {
        let offset = (index * 16) as u64;
        match memory.spec_read_bytes((base + offset) as u64, 16) {
            Err(e) => Err(DescriptorError::Memory(e)),
            Ok(b) => match spec_gate(index, offset, b) {
                Err(e) => Err(e),
                Ok(g) => idt_gates_from(memory, base, count, (index + 1) as u64, acc.push(g)),
            },
        }
    }
}

pub open spec fn idt_addresses_fit(base: u64, limit: u32) -> bool {
    idt_gates(limit) == 0 || base + 16 * (idt_gates(limit) - 1) <= u64::MAX
}

/// The first gate for `vector`.
pub open spec fn first_gate(gates: Seq<IdtGate>, vector: u8) -> Option<IdtGate>
    decreases gates.len(),
{
    if gates.len() == 0 {
        None
    } else if gates[0].vector == vector {
        Some(gates[0])
    } else {
        first_gate(gates.drop_first(), vector)
    }
}

/// The vectors of the gates satisfying `keep`, in order.
pub open spec fn vectors_where(gates: Seq<IdtGate>, keep: spec_fn(IdtGate) -> bool) -> Seq<u8>
    decreases gates.len(),
{
    if gates.len() == 0 {
        Seq::empty()
    } else {
        let rest = vectors_where(gates.drop_last(), keep);
        if keep(gates.last()) {
            rest.push(gates.last().vector)
        } else {
            rest
        }
    }
}

pub open spec fn user_reachable(g: IdtGate) -> bool {
    g.present && g.dpl == 3
}

pub open spec fn installed(g: IdtGate) -> bool {
    g.present && !all_zero(g.raw@)
}

/// A decoded IDT.
#[derive(Debug, Clone, PartialEq, Eq)]
pub struct Idt {
    /// Where the table lives in guest memory.
    pub base: u64,
    /// The limit as reported (bytes minus one).
    pub limit: u32,
    /// One entry per vector, in vector order.
    pub gates: Vec<IdtGate>,
}

impl IdtGate {
    /// Is this gate the all-zero placeholder of a zeroed table?
    pub fn is_uninstalled(&self) -> (r: bool)
        ensures
            r == all_zero(self.raw@),
    {
        let mut i: usize = 0;
        while i < 16
            invariant
                i <= 16,
                forall|j: int| 0 <= j < i ==> self.raw@[j] == 0,
            decreases 16 - i,
        {
            if self.raw[i] != 0 {
                return false;
            }
            i = i + 1;
        }
        true
    }
}

fn decode_gate(index: u64, offset: u64, raw: &Vec<u8>) -> (r: Result<IdtGate, DescriptorError>)
    requires
        raw@.len() == 16,
    ensures
        r == spec_gate(index, offset, raw@),
{
    let b = [
        raw[0],
        raw[1],
        raw[2],
        raw[3],
        raw[4],
        raw[5],
        raw[6],
        raw[7],
        raw[8],
        raw[9],
        raw[10],
        raw[11],
        raw[12],
        raw[13],
        raw[14],
        raw[15],
    ];
    let type_attr = raw[5];
    let descriptor_type = type_attr & 0x0F;
    let kind = if descriptor_type == 0xE {
        GateKind::Interrupt
    } else if descriptor_type == 0xF {
        GateKind::Trap
    } else if descriptor_type == 0x5 {
        GateKind::Task
    } else if type_attr & 0x80 == 0 {
        GateKind::Interrupt
    } else {
        return Err(DescriptorError::InvalidGateType { descriptor_type });
    };
    let handler = (raw[0] as u64) | ((raw[1] as u64) << 8u64) | ((raw[6] as u64) << 16u64) | ((
    raw[7] as u64) << 24u64) | ((raw[8] as u64) << 32u64) | ((raw[9] as u64) << 40u64) | ((raw[10]
        as u64) << 48u64) | ((raw[11] as u64) << 56u64);
    let gate = IdtGate {
        vector: if index > 255 {
            255u8
        } else {
            index as u8
        },
        offset: offset as u16,
        raw: b,
        present: type_attr & 0x80 != 0,
        dpl: (type_attr >> 5u8) & 0x3,
        kind,
        selector: (raw[2] as u16) | ((raw[3] as u16) << 8u16),
        ist: raw[4] & 0x7,
        handler,
    };
    assert(gate.raw@ =~= raw@);
    Ok(gate)
}

impl Idt {
    /// Number of gates the limit allows: `(limit + 1) / 16`.
    pub fn gate_count(&self) -> (r: u64)
        ensures
            r == idt_gates(self.limit),
    {
        (self.limit as u64 + 1) / 16
    }

    /// Decode an IDT, reading each gate at `base + 16 * i`.
    pub fn read<M: GuestMemory>(memory: &M, base: u64, limit: u32) -> (r: Result<Self, DescriptorError>)
        requires
            idt_addresses_fit(base, limit),
        ensures
            match r {
                Ok(t) => idt_gates_from(memory, base, idt_gates(limit), 0, Seq::empty()) == Ok::<
                    Seq<IdtGate>,
                    DescriptorError,
                >(t.gates@) && t.base == base && t.limit == limit,
                Err(e) => idt_gates_from(memory, base, idt_gates(limit), 0, Seq::empty()) == Err::<
                    Seq<IdtGate>,
                    DescriptorError,
                >(e),
            },
    {
        let count = (limit as u64 + 1) / 16;
        let mut gates: Vec<IdtGate> = Vec::new();
        let ghost whole = idt_gates_from(memory, base, count, 0, Seq::empty());
        assert(gates@ =~= Seq::<IdtGate>::empty());
        let mut index: u64 = 0;
        while index < count
            invariant
                count == idt_gates(limit),
                idt_addresses_fit(base, limit),
                index <= count,
                whole == idt_gates_from(memory, base, idt_gates(limit), 0, Seq::empty()),
                whole == idt_gates_from(memory, base, count, index, gates@),
            decreases count - index,
        {
            let offset = index * 16;
            let raw = match memory.read_bytes(base + offset, 16) {
                Ok(raw) => raw,
                Err(e) => {
                    return Err(DescriptorError::Memory(e));
                },
            };
            let gate = match decode_gate(index, offset, &raw) {
                Ok(gate) => gate,
                Err(e) => {
                    return Err(e);
                },
            };
            gates.push(gate);
            index = index + 1;
        }
        Ok(Idt { base, limit, gates })
    }

    /// The entry for a vector.
    pub fn gate(&self, vector: u8) -> (r: Option<&IdtGate>)
        ensures
            match r {
                Some(g) => first_gate(self.gates@, vector) == Some(*g),
                None => first_gate(self.gates@, vector) is None,
            },
    {
        let mut i: usize = 0;
        assert(self.gates@.skip(0) =~= self.gates@);
        while i < self.gates.len()
            invariant
                i <= self.gates@.len(),
                first_gate(self.gates@, vector) == first_gate(self.gates@.skip(i as int), vector),
            decreases self.gates@.len() - i,
        {
            assert(self.gates@.skip(i as int)[0] == self.gates@[i as int]);
            assert(self.gates@.skip(i as int).drop_first() =~= self.gates@.skip(i + 1));
            if self.gates[i].vector == vector {
                return Some(&self.gates[i]);
            }
            i = i + 1;
        }
        None
    }

    /// Vectors whose gate is present with DPL 3 — reachable from ring 3.
    pub fn user_accessible_vectors(&self) -> (r: Vec<u8>)
        ensures
            r@ == vectors_where(self.gates@, |g: IdtGate| user_reachable(g)),
    {
        let mut out: Vec<u8> = Vec::new();
        let mut i: usize = 0;
        while i < self.gates.len()
            invariant
                i <= self.gates@.len(),
                out@ == vectors_where(self.gates@.take(i as int), |g: IdtGate| user_reachable(g)),
            decreases self.gates@.len() - i,
        {
            assert(self.gates@.take(i + 1).drop_last() =~= self.gates@.take(i as int));
            let gate = &self.gates[i];
            if gate.present && gate.dpl == 3 {
                out.push(gate.vector);
            }
            i = i + 1;
        }
        assert(self.gates@.take(self.gates@.len() as int) =~= self.gates@);
        out
    }

    /// Every vector that is actually installed.
    pub fn installed_vectors(&self) -> (r: Vec<u8>)
        ensures
            r@ == vectors_where(self.gates@, |g: IdtGate| installed(g)),
    {
        let mut out: Vec<u8> = Vec::new();
        let mut i: usize = 0;
        while i < self.gates.len()
            invariant
                i <= self.gates@.len(),
                out@ == vectors_where(self.gates@.take(i as int), |g: IdtGate| installed(g)),
            decreases self.gates@.len() - i,
        {
            assert(self.gates@.take(i + 1).drop_last() =~= self.gates@.take(i as int));
            let gate = &self.gates[i];
            if gate.present && !gate.is_uninstalled() {
                out.push(gate.vector);
            }
            i = i + 1;
        }
        assert(self.gates@.take(self.gates@.len() as int) =~= self.gates@);
        out
    }
}

/// Read a GDT and an IDT, and resolve the TSS the GDT points at.  The TSS is
/// `None` when the GDT has no TSS descriptor or its base is not readable.
pub fn read_tables<M: GuestMemory>(
    memory: &M,
    gdt_base: u64,
    gdt_limit: u32,
    idt_base: u64,
    idt_limit: u32,
) -> (r: Result<(Gdt, Idt, Option<Tss64>), DescriptorError>)
    requires
        gdt_addresses_fit(gdt_base, gdt_limit),
        idt_addresses_fit(idt_base, idt_limit),
    ensures
        ({
            let g = gdt_entries_from(memory, gdt_base, gdt_slots(gdt_limit), 0, Seq::empty());
            let i = idt_gates_from(memory, idt_base, idt_gates(idt_limit), 0, Seq::empty());
            match r {
                Ok((gdt, idt, tss)) => g == Ok::<Seq<GdtEntry>, DescriptorError>(gdt.entries@)
                    && i == Ok::<Seq<IdtGate>, DescriptorError>(idt.gates@) && gdt.base == gdt_base
                    && gdt.limit == gdt_limit && idt.base == idt_base && idt.limit == idt_limit
                    && tss == match first_tss(gdt.entries@) {
                    None => None,
                    Some(d) => match memory.spec_read_bytes(d.base, 0x68) {
                        Ok(b) => Some(spec_tss(d.base, d.limit, b)),
                        Err(_) => None,
                    },
                },
                Err(e) => g == Err::<Seq<GdtEntry>, DescriptorError>(e) || (g is Ok && i == Err::<
                    Seq<IdtGate>,
                    DescriptorError,
                >(e)),
            }
        }),
{
    let gdt = Gdt::read(memory, gdt_base, gdt_limit)?;
    let idt = Idt::read(memory, idt_base, idt_limit)?;
    let tss = match gdt.tss() {
        None => None,
        Some(descriptor) => match Tss64::read(memory, descriptor.base, descriptor.limit) {
            Ok(t) => Some(t),
            Err(_) => None,
        },
    };
    Ok((gdt, idt, tss))
}

/// `0x0008: CODE64 DPL=0 base=0x0 limit=0xffffffff` and the like.
pub open spec fn spec_describe(selector: u16, entry: GdtEntry) -> Seq<char> {
    let sel = spec_prefixed_hex_padded(selector as nat, 6);
    match entry {
        GdtEntry::Null { .. } => sel + ": null descriptor"@,
        GdtEntry::HighHalf { low_half_offset, .. } => sel + ": high half of the 16-byte descriptor at "@
            + spec_prefixed_hex_padded(low_half_offset as nat, 6) + " (not independently addressable)"@,
        GdtEntry::Segment(d) => sel + ": "@ + spec_segment_label(*d) + " DPL="@ + spec_decimal(
            d.dpl as nat,
        ) + " base="@ + spec_prefixed_hex(d.base as nat) + " limit="@ + spec_prefixed_hex(
            d.limit as nat,
        ) + if d.present {
            ""@
        } else {
            " NOT PRESENT"@
        },
        GdtEntry::System(d) => sel + ": "@ + spec_system_label(d.kind) + " DPL="@ + spec_decimal(
            d.dpl as nat,
        ) + " base="@ + spec_prefixed_hex(d.base as nat) + " limit="@ + spec_prefixed_hex(
            d.limit as nat,
        ) + if d.present {
            ""@
        } else {
            " NOT PRESENT"@
        },
    }
}

/// The descriptor a selector names, with its mode spelled out.
pub fn describe_selector(gdt: &Gdt, selector: u16) -> (r: Option<String>)
    ensures
        match first_at_offset(gdt.entries@, selector & 0xFFF8) {
            None => r is None,
            Some(e) => r matches Some(text) && text@ == spec_describe(selector, e),
        },
{
    let entry = gdt.entry_for_selector(selector)?;
    let mut out = String::new();
    push_prefixed_hex_padded(&mut out, selector as u64, 6);
    match entry {
        GdtEntry::Null { .. } => {
            push_str(&mut out, ": null descriptor");
        },
        GdtEntry::HighHalf { low_half_offset, .. } => {
            push_str(&mut out, ": high half of the 16-byte descriptor at ");
            push_prefixed_hex_padded(&mut out, *low_half_offset as u64, 6);
            push_str(&mut out, " (not independently addressable)");
        },
        GdtEntry::Segment(descriptor) => {
            push_str(&mut out, ": ");
            push_str(&mut out, descriptor.label());
            push_str(&mut out, " DPL=");
            push_decimal(&mut out, descriptor.dpl as u64);
            push_str(&mut out, " base=");
            push_prefixed_hex(&mut out, descriptor.base as u64);
            push_str(&mut out, " limit=");
            push_prefixed_hex(&mut out, descriptor.limit as u64);
            if !descriptor.present {
                push_str(&mut out, " NOT PRESENT");
            }
        },
        GdtEntry::System(descriptor) => {
            push_str(&mut out, ": ");
            push_str(&mut out, descriptor.kind.label());
            push_str(&mut out, " DPL=");
            push_decimal(&mut out, descriptor.dpl as u64);
            push_str(&mut out, " base=");
            push_prefixed_hex(&mut out, descriptor.base);
            push_str(&mut out, " limit=");
            push_prefixed_hex(&mut out, descriptor.limit as u64);
            if !descriptor.present {
                push_str(&mut out, " NOT PRESENT");
            }
        },
    }
    proof {
        reveal_strlit("");
    }
    Some(out)
}

} // verus!
