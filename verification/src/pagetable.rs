//! Walking the x86_64 page table from `CR3`, one level at a time.
//!
//! The walk reads raw entries through a [`GuestMemory`] and decodes every bit
//! field itself.  Four guards make the answer trustworthy:
//!
//! 1. `CR0.PG` must be set (and `EFER.LMA`, for the 4/5-level layout) before a
//!    walk means anything — [`Walker::new`] refuses otherwise.
//! 2. `CR3`'s low 12 bits are never part of the address ([`Cr3::table_address`]).
//! 3. Every table address must be inside guest RAM.
//! 4. A table reached twice is a cycle, reported instead of looped on.
//!
//! `PS` terminates the walk early at the PDPTE (1 GiB) or the PDE (2 MiB), and
//! the leaf address is then taken with the mask its size requires.
//!
//! The whole walk is specified by [`spec_walk`], a level-by-level definition
//! over the memory's own specification; [`Walker::walk`] is proved to compute
//! exactly it.

use vstd::prelude::*;
use crate::guestmem::{GuestMemory, MemoryError, spec_memory_error_message};
use crate::monitor::{RegistersReport, ReportView, spec_register_u64};
use crate::contract::{ErrorCode, PrincessError};
use crate::text::{
    push_str, push_decimal, push_prefixed_hex_padded, push_prefixed_hex, spec_decimal,
    spec_prefixed_hex_padded, spec_prefixed_hex,
};

verus! {

/// Bits 51:12 — the physical address field of a page-table entry.
pub const ENTRY_ADDRESS_MASK: u64 = 0x000F_FFFF_FFFF_F000;

/// `PS` — page size.  At the PDE this means 2 MiB; at the PDPTE, 1 GiB.
pub const BIT_PS: u64 = 0x80;

/// Present.
pub const BIT_PRESENT: u64 = 0x1;

/// No-execute / XD.
pub const BIT_NX: u64 = 0x8000_0000_0000_0000;

/// Bits 51:30 — a 1 GiB leaf's frame address.
pub const HUGE_1G_ADDRESS_MASK: u64 = 0x000F_FFFF_C000_0000;

/// Bits 51:21 — a 2 MiB leaf's frame address.
pub const HUGE_2M_ADDRESS_MASK: u64 = 0x000F_FFFF_FFE0_0000;

/// Is bit `bit` of `value` set?
pub open spec fn bit_set(value: u64, bit: u64) -> bool {
    value & (1u64 << bit) != 0
}

/// `CR0`, reduced to the bits that decide whether a walk is meaningful.
#[derive(Debug, Clone, Copy, PartialEq, Eq)]
pub struct Cr0(pub u64);

impl Cr0 {
    /// `PG` — paging enable, bit 31.
    pub fn paging_enabled(self) -> (r: bool)
        ensures
            r == bit_set(self.0, 31),
    {
        self.0 & (1u64 << 31u64) != 0
    }

    /// `PE` — protection enable, bit 0.
    pub fn protection_enabled(self) -> (r: bool)
        ensures
            r == bit_set(self.0, 0),
    {
        self.0 & (1u64 << 0u64) != 0
    }

    /// `WP` — write protect, bit 16.
    pub fn write_protect(self) -> (r: bool)
        ensures
            r == bit_set(self.0, 16),
    {
        self.0 & (1u64 << 16u64) != 0
    }
}

/// `CR4`, reduced to the bits that change the walk's shape.
#[derive(Debug, Clone, Copy, PartialEq, Eq)]
pub struct Cr4(pub u64);

impl Cr4 {
    /// `PAE`, bit 5.
    pub fn pae(self) -> (r: bool)
        ensures
            r == bit_set(self.0, 5),
    {
        self.0 & (1u64 << 5u64) != 0
    }

    /// `PCIDE`, bit 17: `CR3[11:0]` carries a process-context id.
    pub fn pcide(self) -> (r: bool)
        ensures
            r == bit_set(self.0, 17),
    {
        self.0 & (1u64 << 17u64) != 0
    }

    /// `LA57`, bit 12: the walk gains a PML5 level.
    pub fn la57(self) -> (r: bool)
        ensures
            r == bit_set(self.0, 12),
    {
        self.0 & (1u64 << 12u64) != 0
    }

    /// `SMEP`, bit 20.
    pub fn smep(self) -> (r: bool)
        ensures
            r == bit_set(self.0, 20),
    {
        self.0 & (1u64 << 20u64) != 0
    }

    /// `SMAP`, bit 21.
    pub fn smap(self) -> (r: bool)
        ensures
            r == bit_set(self.0, 21),
    {
        self.0 & (1u64 << 21u64) != 0
    }

    /// `PKE`, bit 22: enables the protection-key field in entries.
    pub fn pke(self) -> (r: bool)
        ensures
            r == bit_set(self.0, 22),
    {
        self.0 & (1u64 << 22u64) != 0
    }
}

/// `EFER` (MSR `0xC0000080`), reduced to the long-mode bits.
#[derive(Debug, Clone, Copy, PartialEq, Eq)]
pub struct Efer(pub u64);

impl Efer {
    /// `SCE`, bit 0.
    pub fn sce(self) -> (r: bool)
        ensures
            r == bit_set(self.0, 0),
    {
        self.0 & (1u64 << 0u64) != 0
    }

    /// `LME`, bit 8.
    pub fn lme(self) -> (r: bool)
        ensures
            r == bit_set(self.0, 8),
    {
        self.0 & (1u64 << 8u64) != 0
    }

    /// `LMA`, bit 10: long mode active.  Clear means 32-bit paging, whose
    /// tables have a different structure.
    pub fn lma(self) -> (r: bool)
        ensures
            r == bit_set(self.0, 10),
    {
        self.0 & (1u64 << 10u64) != 0
    }

    /// `NXE`, bit 11: without it, bit 63 of an entry is reserved.
    pub fn nxe(self) -> (r: bool)
        ensures
            r == bit_set(self.0, 11),
    {
        self.0 & (1u64 << 11u64) != 0
    }
}

/// `CR3` split into its address and its PCID.
#[derive(Debug, Clone, Copy, PartialEq, Eq)]
pub struct Cr3(pub u64);

impl Cr3 {
    /// The top-level table's physical address, PCID masked off.
    pub fn table_address(self) -> (r: u64)
        ensures
            r == self.0 & ENTRY_ADDRESS_MASK,
    {
        self.0 & ENTRY_ADDRESS_MASK
    }

    /// The process-context id in bits 11:0.
    pub fn pcid(self) -> (r: u16)
        ensures
            r as u64 == self.0 & 0xFFF,
    {
        let v = self.0;
        assert(v & 0xFFF <= 0xFFF) by (bit_vector);
        (v & 0xFFF) as u16
    }

    /// Did this value carry a non-zero low 12 bits?
    pub fn has_low_bits_set(self) -> (r: bool)
        ensures
            r == (self.0 & 0xFFF != 0),
    {
        self.pcid() != 0
    }
}

/// Which level of the walk an entry came from.
#[derive(Debug, Clone, Copy, PartialEq, Eq)]
pub enum Level {
    /// `PML5` — present only under LA57.
    Pml5,
    /// `PML4` — the top level under LA48.
    Pml4,
    /// `PDPT` — 1 GiB leaves live here.
    Pdpt,
    /// `PD` — 2 MiB leaves live here.
    Pd,
    /// `PT` — 4 KiB leaves.
    Pt,
}

pub open spec fn spec_level_name(level: Level) -> Seq<char> {
    match level {
        Level::Pml5 => "PML5"@,
        Level::Pml4 => "PML4"@,
        Level::Pdpt => "PDPT"@,
        Level::Pd => "PD"@,
        Level::Pt => "PT"@,
    }
}

/// The VA bits a level's index is taken from, `(high, low)` inclusive.
pub open spec fn spec_index_bits(level: Level) -> (u32, u32) {
    match level {
        Level::Pml5 => (56, 48),
        Level::Pml4 => (47, 39),
        Level::Pdpt => (38, 30),
        Level::Pd => (29, 21),
        Level::Pt => (20, 12),
    }
}

/// Only the PDPTE (1 GiB) and the PDE (2 MiB) may carry `PS=1`.
pub open spec fn spec_huge_page_allowed(level: Level) -> bool {
    level == Level::Pdpt || level == Level::Pd
}

/// The leaf size a level produces when `PS` is set.
pub open spec fn spec_huge_page_size(level: Level) -> Option<u64> {
    match level {
        Level::Pdpt => Some(0x4000_0000u64),
        Level::Pd => Some(0x20_0000u64),
        _ => None,
    }
}

impl Level {
    /// Depth from the top of a 5-level walk, the first level being 0.
    pub fn depth(self) -> (r: usize)
        ensures
            r == match self {
                Level::Pml5 => 0usize,
                Level::Pml4 => 1,
                Level::Pdpt => 2,
                Level::Pd => 3,
                Level::Pt => 4,
            },
    {
        match self {
            Level::Pml5 => 0,
            Level::Pml4 => 1,
            Level::Pdpt => 2,
            Level::Pd => 3,
            Level::Pt => 4,
        }
    }

    /// The canonical name as an OS developer writes it.
    pub fn name(self) -> (r: &'static str)
        ensures
            r@ == spec_level_name(self),
    {
        match self {
            Level::Pml5 => "PML5",
            Level::Pml4 => "PML4",
            Level::Pdpt => "PDPT",
            Level::Pd => "PD",
            Level::Pt => "PT",
        }
    }

    /// The VA bits this level's index is taken from, `(high, low)` inclusive.
    pub fn index_bits(self) -> (r: (u32, u32))
        ensures
            r == spec_index_bits(self),
    {
        match self {
            Level::Pml5 => (56, 48),
            Level::Pml4 => (47, 39),
            Level::Pdpt => (38, 30),
            Level::Pd => (29, 21),
            Level::Pt => (20, 12),
        }
    }

    /// Which levels may legally carry `PS=1`.
    pub fn huge_page_allowed(self) -> (r: bool)
        ensures
            r == spec_huge_page_allowed(self),
    {
        match self {
            Level::Pdpt | Level::Pd => true,
            _ => false,
        }
    }

    /// The leaf size this level produces when `PS` is set.
    pub fn huge_page_size(self) -> (r: Option<u64>)
        ensures
            r == spec_huge_page_size(self),
    {
        match self {
            Level::Pdpt => Some(0x4000_0000),
            Level::Pd => Some(0x20_0000),
            _ => None,
        }
    }
}

/// A decoded page-table entry.  Every architectural bit is decoded; the
/// software bits 11:9 are surfaced as a raw number only.
#[derive(Debug, Clone, Copy, PartialEq, Eq)]
pub struct PageTableEntry {
    /// The raw 64-bit value.
    pub raw: u64,
    /// `P` — present.
    pub present: bool,
    /// `R/W` — writable.
    pub writable: bool,
    /// `U/S` — user accessible.
    pub user: bool,
    /// `PWT` — write-through.
    pub pwt: bool,
    /// `PCD` — cache disable.
    pub pcd: bool,
    /// `A` — accessed (CPU-written).
    pub accessed: bool,
    /// `D` — dirty (CPU-written, leaf only).
    pub dirty: bool,
    /// `PS` — this is a huge-page leaf.
    pub page_size: bool,
    /// `G` — global.
    pub global: bool,
    /// `AVL`, bits 11:9 — software bits.
    pub available: u8,
    /// Bits 51:12.
    pub address_bits: u64,
    /// Reserved bits 58:52; non-zero means a `#PF` with `RSVD` set.
    pub reserved: u16,
    /// Protection key, bits 62:59.
    pub protection_key: u8,
    /// Bit 63 — `XD`/`NX`.
    pub no_execute: bool,
}

/// The decoding of a raw entry, field by field from the architectural layout.
pub open spec fn spec_decode(raw: u64) -> PageTableEntry {
    PageTableEntry {
        raw,
        present: raw & BIT_PRESENT != 0,
        writable: raw & 0x2 != 0,
        user: raw & 0x4 != 0,
        pwt: raw & 0x8 != 0,
        pcd: raw & 0x10 != 0,
        accessed: raw & 0x20 != 0,
        dirty: raw & 0x40 != 0,
        page_size: raw & BIT_PS != 0,
        global: raw & 0x100 != 0,
        available: ((raw >> 9u64) & 0x7) as u8,
        address_bits: raw & ENTRY_ADDRESS_MASK,
        reserved: ((raw >> 52u64) & 0x7F) as u16,
        protection_key: ((raw >> 59u64) & 0xF) as u8,
        no_execute: raw & BIT_NX != 0,
    }
}

/// A leaf's frame address under the mask its level's size requires; `None`
/// for an entry that is not a huge-page leaf... or `address_bits` for a 4 KiB
/// leaf when asked at another level.
pub open spec fn spec_leaf_physical_address(entry: PageTableEntry, level: Level) -> Option<u64> {
    if !entry.page_size {
        None
    } else {
        Some(
            match level {
                Level::Pdpt => entry.raw & HUGE_1G_ADDRESS_MASK,
                Level::Pd => entry.raw & HUGE_2M_ADDRESS_MASK,
                _ => entry.address_bits,
            },
        )
    }
}

impl PageTableEntry {
    /// Decode a raw entry.
    pub fn decode(raw: u64) -> (e: Self)
        ensures
            e == spec_decode(raw),
            e.present == (raw % 2 == 1),
            e.page_size == ((raw / 128) % 2 == 1),
    {
        proof {
            law_entry_flags_are_their_bits(raw);
        }
        assert((raw >> 9u64) & 0x7 <= 0x7) by (bit_vector);
        assert((raw >> 52u64) & 0x7F <= 0x7F) by (bit_vector);
        assert((raw >> 59u64) & 0xF <= 0xF) by (bit_vector);
        PageTableEntry {
            raw,
            present: raw & BIT_PRESENT != 0,
            writable: raw & 0x2 != 0,
            user: raw & 0x4 != 0,
            pwt: raw & 0x8 != 0,
            pcd: raw & 0x10 != 0,
            accessed: raw & 0x20 != 0,
            dirty: raw & 0x40 != 0,
            page_size: raw & BIT_PS != 0,
            global: raw & 0x100 != 0,
            available: ((raw >> 9u64) & 0x7) as u8,
            address_bits: raw & ENTRY_ADDRESS_MASK,
            reserved: ((raw >> 52u64) & 0x7F) as u16,
            protection_key: ((raw >> 59u64) & 0xF) as u8,
            no_execute: raw & BIT_NX != 0,
        }
    }

    /// Are any reserved bits (58:52) non-zero?
    pub fn reserved_bits_set(self) -> (r: bool)
        ensures
            r == (self.reserved != 0),
    {
        self.reserved != 0
    }

    /// The pointed-to table (or 4 KiB frame) at 4 KiB granularity.
    pub fn table_physical_address(self) -> (r: u64)
        ensures
            r == self.address_bits,
    {
        self.address_bits
    }

    /// The frame address of a huge-page leaf under its size's mask; `None`
    /// when `PS` is clear, because then this entry has no page address.
    pub fn leaf_physical_address(self, level: Level) -> (r: Option<u64>)
        ensures
            r == spec_leaf_physical_address(self, level),
    {
        if !self.page_size {
            return None;
        }
        Some(
            match level {
                Level::Pdpt => self.raw & HUGE_1G_ADDRESS_MASK,
                Level::Pd => self.raw & HUGE_2M_ADDRESS_MASK,
                _ => self.table_physical_address(),
            },
        )
    }
}

/// The leaf size a completed walk resolved to.
#[derive(Debug, Clone, Copy, PartialEq, Eq)]
pub enum LeafSize {
    /// 4 KiB, reached through all levels.
    Page4K,
    /// 2 MiB, terminated at the PDE.
    Huge2M,
    /// 1 GiB, terminated at the PDPTE.
    Huge1G,
}

pub open spec fn spec_leaf_bytes(size: LeafSize) -> u64 {
    match size {
        LeafSize::Page4K => 0x1000u64,
        LeafSize::Huge2M => 0x20_0000u64,
        LeafSize::Huge1G => 0x4000_0000u64,
    }
}

impl LeafSize {
    /// Size in bytes.
    pub fn bytes(self) -> (r: u64)
        ensures
            r == spec_leaf_bytes(self),
    {
        match self {
            LeafSize::Page4K => 0x1000,
            LeafSize::Huge2M => 0x20_0000,
            LeafSize::Huge1G => 0x4000_0000,
        }
    }

    /// How many low VA bits are the page offset.
    pub fn offset_bits(self) -> (r: u32)
        ensures
            r == match self {
                LeafSize::Page4K => 12u32,
                LeafSize::Huge2M => 21,
                LeafSize::Huge1G => 30,
            },
    {
        match self {
            LeafSize::Page4K => 12,
            LeafSize::Huge2M => 21,
            LeafSize::Huge1G => 30,
        }
    }

    /// The level this size terminates at.
    pub fn terminating_level(self) -> (r: Level)
        ensures
            r == match self {
                LeafSize::Page4K => Level::Pt,
                LeafSize::Huge2M => Level::Pd,
                LeafSize::Huge1G => Level::Pdpt,
            },
    {
        match self {
            LeafSize::Page4K => Level::Pt,
            LeafSize::Huge2M => Level::Pd,
            LeafSize::Huge1G => Level::Pdpt,
        }
    }
}

/// One step of the walk.
#[derive(Debug, Clone, Copy, PartialEq, Eq)]
pub struct WalkLevel {
    /// Which table this entry came from.
    pub level: Level,
    /// The index into that table.
    pub index: u16,
    /// The physical address of the table itself.
    pub table_address: u64,
    /// The physical address of this entry.
    pub entry_address: u64,
    /// The decoded entry.
    pub entry: PageTableEntry,
}

impl WalkLevel {
    /// How many VA bits from bit 12 up to this level's index are consumed.
    pub fn bits_consumed(self) -> (r: u32)
        ensures
            r == spec_index_bits(self.level).0 + 1 - 12,
    {
        let (high, _) = self.level.index_bits();
        high + 1 - 12
    }
}

/// Why a walk could not complete.  `NotPresent` is a positive finding (the
/// mapping stops here); everything else means the question had no answer.
#[derive(Debug, Clone, PartialEq, Eq)]
pub enum WalkError {
    /// `CR0.PG=0`: there is no page table to walk.
    PagingDisabled { cr0: u64 },
    /// `CR0.PG=1` but `EFER.LMA=0`: 32-bit paging, a different layout.
    NotLongMode { efer: u64 },
    /// The virtual address is not canonical for the paging width.
    NonCanonical { address: u64, bits: u32 },
    /// A table address is outside guest RAM.
    TableNotInRam { level: Level, address: u64 },
    /// The memory source failed while reading an entry.
    Memory { level: Level, source: MemoryError },
    /// `P=0` on the entry at `level`.
    NotPresent { level: Level, index: u16, raw: u64 },
    /// The same physical table was reached twice.
    Cycle { address: u64, level: Level },
    /// `PS` set at a level where it is reserved.
    ReservedPageSizeBit { level: Level, raw: u64 },
    /// The resolved leaf address overflowed or fell outside RAM.
    LeafOutOfRange { address: u64 },
}

/// The user-facing text of a walk error.
pub open spec fn spec_walk_error_message(e: WalkError) -> Seq<char> {
    match e {
        WalkError::PagingDisabled { cr0 } => "cannot walk page tables: CR0.PG=0 (CR0="@
            + spec_prefixed_hex_padded(cr0 as nat, 18)
            + "); CR3 is not a page-table pointer while paging is off"@,
        WalkError::NotLongMode { efer } => "cannot walk 4-level page tables: EFER.LMA=0 (EFER="@
            + spec_prefixed_hex_padded(efer as nat, 18)
            + "); this is 32-bit PAE or non-PAE paging, which has a different table layout"@,
        WalkError::NonCanonical { address, bits } => "address "@ + spec_prefixed_hex_padded(
            address as nat,
            18,
        ) + " is not canonical for "@ + spec_decimal(bits as nat)
            + "-bit paging; the CPU would #GP before consulting a page table"@,
        WalkError::TableNotInRam { level, address } => spec_level_name(level) + " table address "@
            + spec_prefixed_hex_padded(address as nat, 18) + " is not inside guest RAM"@,
        WalkError::Memory { level, source } => "reading the "@ + spec_level_name(level)
            + " table failed: "@ + spec_memory_error_message(source),
        WalkError::NotPresent { level, index, raw } => spec_level_name(level) + "["@
            + spec_decimal(index as nat) + "] is not present (raw="@ + spec_prefixed_hex_padded(
            raw as nat,
            18,
        ) + "); the mapping stops here"@,
        WalkError::Cycle { address, level } => "page-table cycle: "@ + spec_level_name(level)
            + " table "@ + spec_prefixed_hex_padded(address as nat, 18) + " was already visited"@,
        WalkError::ReservedPageSizeBit { level, raw } => spec_level_name(level) + " entry "@
            + spec_prefixed_hex_padded(raw as nat, 18) + " has PS=1, which is reserved at this level"@,
        WalkError::LeafOutOfRange { address } => "resolved leaf address "@
            + spec_prefixed_hex_padded(address as nat, 18) + " is out of range"@,
    }
}

impl WalkError {
    /// The user-facing message.
    pub fn message(&self) -> (text: String)
        ensures
            text@ == spec_walk_error_message(*self),
    {
        let mut out = String::new();
        match self {
            WalkError::PagingDisabled { cr0 } => {
                push_str(&mut out, "cannot walk page tables: CR0.PG=0 (CR0=");
                push_prefixed_hex_padded(&mut out, *cr0, 18);
                push_str(&mut out, "); CR3 is not a page-table pointer while paging is off");
            },
            WalkError::NotLongMode { efer } => {
                push_str(&mut out, "cannot walk 4-level page tables: EFER.LMA=0 (EFER=");
                push_prefixed_hex_padded(&mut out, *efer, 18);
                push_str(
                    &mut out,
                    "); this is 32-bit PAE or non-PAE paging, which has a different table layout",
                );
            },
            WalkError::NonCanonical { address, bits } => {
                push_str(&mut out, "address ");
                push_prefixed_hex_padded(&mut out, *address, 18);
                push_str(&mut out, " is not canonical for ");
                push_decimal(&mut out, *bits as u64);
                push_str(&mut out, "-bit paging; the CPU would #GP before consulting a page table");
            },
            WalkError::TableNotInRam { level, address } => {
                push_str(&mut out, level.name());
                push_str(&mut out, " table address ");
                push_prefixed_hex_padded(&mut out, *address, 18);
                push_str(&mut out, " is not inside guest RAM");
            },
            WalkError::Memory { level, source } => {
                push_str(&mut out, "reading the ");
                push_str(&mut out, level.name());
                push_str(&mut out, " table failed: ");
                let inner = source.message();
                push_str(&mut out, inner.as_str());
            },
            WalkError::NotPresent { level, index, raw } => {
                push_str(&mut out, level.name());
                push_str(&mut out, "[");
                push_decimal(&mut out, *index as u64);
                push_str(&mut out, "] is not present (raw=");
                push_prefixed_hex_padded(&mut out, *raw, 18);
                push_str(&mut out, "); the mapping stops here");
            },
            WalkError::Cycle { address, level } => {
                push_str(&mut out, "page-table cycle: ");
                push_str(&mut out, level.name());
                push_str(&mut out, " table ");
                push_prefixed_hex_padded(&mut out, *address, 18);
                push_str(&mut out, " was already visited");
            },
            WalkError::ReservedPageSizeBit { level, raw } => {
                push_str(&mut out, level.name());
                push_str(&mut out, " entry ");
                push_prefixed_hex_padded(&mut out, *raw, 18);
                push_str(&mut out, " has PS=1, which is reserved at this level");
            },
            WalkError::LeafOutOfRange { address } => {
                push_str(&mut out, "resolved leaf address ");
                push_prefixed_hex_padded(&mut out, *address, 18);
                push_str(&mut out, " is out of range");
            },
        }
        out
    }
}

/// The result of a walk that ended at `P=0`, with the path that reached it.
#[derive(Debug, Clone, PartialEq, Eq)]
pub struct NotPresent {
    /// The levels that did resolve, in order from the top.
    pub levels: Vec<WalkLevel>,
    /// The level whose entry was not present.
    pub level: Level,
    /// The index within that table.
    pub index: u16,
    /// The physical address of the absent entry itself.
    pub entry_address: u64,
}

/// The result of a completed walk that reached a leaf.
#[derive(Debug, Clone, PartialEq, Eq)]
pub struct PageTableWalk {
    /// The address that was requested.
    pub address: u64,
    /// Every level visited, in order from the top.
    pub levels: Vec<WalkLevel>,
    /// The leaf size the walk terminated at.
    pub leaf_size: LeafSize,
    /// Physical address of the page base (offset not added).
    pub physical_base: u64,
    /// Offset within the page.
    pub page_offset: u64,
    /// The leaf's own permission bits — not the effective ones.
    pub leaf: PageTableEntry,
    /// Whether the walk is in 5-level mode.
    pub la57: bool,
}

/// What a successful walk found at its leaf.
#[derive(Debug, Clone, Copy, PartialEq, Eq)]
pub struct LeafFacts {
    pub leaf_size: LeafSize,
    pub physical_base: u64,
    pub page_offset: u64,
    pub leaf: PageTableEntry,
}

/// The path a walk took and how it ended.
pub struct WalkSpec {
    pub levels: Seq<WalkLevel>,
    pub outcome: Result<LeafFacts, WalkError>,
}

pub open spec fn level_label(l: WalkLevel) -> Seq<char> {
    spec_level_name(l.level) + "["@ + spec_decimal(l.index as nat) + "]"@
}

/// `PML4[0] -> PDPT[0] -> PD[1]`.
pub open spec fn join_path(levels: Seq<WalkLevel>) -> Seq<char>
    decreases levels.len(),
{
    if levels.len() == 0 {
        Seq::empty()
    } else if levels.len() == 1 {
        level_label(levels[0])
    } else {
        join_path(levels.drop_last()) + " -> "@ + level_label(levels.last())
    }
}

impl PageTableWalk {
    /// Effective `U/S`: user-accessible only if every level agreed.
    pub fn effective_user(&self) -> (r: bool)
        ensures
            r == forall|i: int| 0 <= i < self.levels@.len() ==> #[trigger] self.levels@[i].entry.user,
    {
        let mut i: usize = 0;
        while i < self.levels.len()
            invariant
                i <= self.levels@.len(),
                forall|j: int| 0 <= j < i ==> #[trigger] self.levels@[j].entry.user,
            decreases self.levels@.len() - i,
        {
            if !self.levels[i].entry.user {
                return false;
            }
            i = i + 1;
        }
        true
    }

    /// Effective `R/W`: writable only if every level agreed.
    pub fn effective_writable(&self) -> (r: bool)
        ensures
            r == forall|i: int|
                0 <= i < self.levels@.len() ==> #[trigger] self.levels@[i].entry.writable,
    {
        let mut i: usize = 0;
        while i < self.levels.len()
            invariant
                i <= self.levels@.len(),
                forall|j: int| 0 <= j < i ==> #[trigger] self.levels@[j].entry.writable,
            decreases self.levels@.len() - i,
        {
            if !self.levels[i].entry.writable {
                return false;
            }
            i = i + 1;
        }
        true
    }

    /// Effective `NX`: non-executable if any level set it.
    pub fn effective_no_execute(&self) -> (r: bool)
        ensures
            r == exists|i: int|
                0 <= i < self.levels@.len() && #[trigger] self.levels@[i].entry.no_execute,
    {
        let mut i: usize = 0;
        while i < self.levels.len()
            invariant
                i <= self.levels@.len(),
                forall|j: int| 0 <= j < i ==> !#[trigger] self.levels@[j].entry.no_execute,
            decreases self.levels@.len() - i,
        {
            if self.levels[i].entry.no_execute {
                return true;
            }
            i = i + 1;
        }
        false
    }

    /// The resolved physical address, offset included.
    pub fn physical_address(&self) -> (r: u64)
        ensures
            r == self.physical_base | self.page_offset,
    {
        self.physical_base | self.page_offset
    }

    /// The physical range this leaf covers.
    pub fn physical_range(&self) -> (r: (u64, u64))
        requires
            self.physical_base + spec_leaf_bytes(self.leaf_size) <= u64::MAX,
        ensures
            r == (self.physical_base, (self.physical_base + spec_leaf_bytes(self.leaf_size)) as u64),
    {
        (self.physical_base, self.physical_base + self.leaf_size.bytes())
    }

    /// The virtual range this leaf covers.
    pub fn virtual_range(&self) -> (r: (u64, u64))
        requires
            (self.address & !((spec_leaf_bytes(self.leaf_size) - 1) as u64)) + spec_leaf_bytes(
                self.leaf_size,
            ) <= u64::MAX,
        ensures
            ({
                let base = self.address & !((spec_leaf_bytes(self.leaf_size) - 1) as u64);
                r == (base, (base + spec_leaf_bytes(self.leaf_size)) as u64)
            }),
    {
        let base = self.address & !(self.leaf_size.bytes() - 1);
        (base, base + self.leaf_size.bytes())
    }

    /// A one-line summary of the path, e.g. `PML4[0] -> PDPT[0] -> PD[1]`.
    pub fn path_summary(&self) -> (text: String)
        ensures
            text@ == join_path(self.levels@),
    {
        let mut out = String::new();
        let mut i: usize = 0;
        while i < self.levels.len()
            invariant
                i <= self.levels@.len(),
                out@ == join_path(self.levels@.take(i as int)),
            decreases self.levels@.len() - i,
        {
            let level = self.levels[i];
            if i > 0 {
                push_str(&mut out, " -> ");
            }
            push_str(&mut out, level.level.name());
            push_str(&mut out, "[");
            push_decimal(&mut out, level.index as u64);
            push_str(&mut out, "]");
            proof {
                let next = self.levels@.take(i + 1);
                assert(next.drop_last() =~= self.levels@.take(i as int));
                assert(next.last() == level);
                if i == 0 {
                    assert(out@ =~= level_label(level));
                } else {
                    assert(out@ =~= join_path(self.levels@.take(i as int)) + " -> "@ + level_label(level));
                }
            }
            i = i + 1;
        }
        assert(self.levels@.take(self.levels@.len() as int) =~= self.levels@);
        out
    }

    /// Can the CPU write to this page (ignoring mode and `CR0.WP`)?
    pub fn writable(&self) -> (r: bool)
        ensures
            r == forall|i: int|
                0 <= i < self.levels@.len() ==> #[trigger] self.levels@[i].entry.writable,
    {
        self.effective_writable()
    }

    /// Can the CPU execute from this page?
    pub fn executable(&self) -> (r: bool)
        ensures
            r == !exists|i: int|
                0 <= i < self.levels@.len() && #[trigger] self.levels@[i].entry.no_execute,
    {
        !self.effective_no_execute()
    }
}

/// How canonical an address is for a given paging width.
#[derive(Debug, Clone, Copy, PartialEq, Eq)]
pub enum Canonicality {
    /// Canonical; can be walked.
    Canonical,
    /// Not canonical; the CPU would `#GP`.
    NonCanonical,
}

/// An address is canonical for `bits`-bit paging when every bit from the
/// sign bit `bits-1` upward is a copy of it, i.e. bits 63:bits-1 are all zero
/// or all one.  Widths outside 1..=63 impose nothing.
pub open spec fn spec_canonicality(address: u64, bits: u32) -> Canonicality {
    if bits < 1 || bits > 63 {
        Canonicality::Canonical
    } else {
        let high = address >> ((bits - 1) as u64);
        if high == 0 || high == u64::MAX >> ((bits - 1) as u64) {
            Canonicality::Canonical
        } else {
            Canonicality::NonCanonical
        }
    }
}

/// Is `address` canonical for `bits`-bit paging (48 or 57)?
pub fn canonicality(address: u64, bits: u32) -> (r: Canonicality)
    ensures
        r == spec_canonicality(address, bits),
{
    if bits < 1 || bits > 63 {
        return Canonicality::Canonical;
    }
    let shift = (bits - 1) as u64;
    let high = address >> shift;
    if high == 0 || high == u64::MAX >> shift {
        Canonicality::Canonical
    } else {
        Canonicality::NonCanonical
    }
}

/// The levels a walk visits, top first.
pub open spec fn level_order(la57: bool) -> Seq<Level> {
    if la57 {
        seq![Level::Pml5, Level::Pml4, Level::Pdpt, Level::Pd, Level::Pt]
    } else {
        seq![Level::Pml4, Level::Pdpt, Level::Pd, Level::Pt]
    }
}

/// The 9-bit index a level takes from the virtual address.
pub open spec fn spec_index(level: Level, address: u64) -> u16 {
    ((address >> (spec_index_bits(level).1 as u64)) & 0x1FF) as u16
}

/// A table address the source knows to be outside RAM.
pub open spec fn outside_ram<M: GuestMemory>(memory: &M, address: u64) -> bool {
    memory.spec_ram_size() is Some && !memory.spec_is_ram(address)
}

/// A leaf resolved to `base` plus `offset`: in range, or the reason not.
pub open spec fn leaf_outcome<M: GuestMemory>(
    memory: &M,
    leaf_size: LeafSize,
    base: u64,
    offset: u64,
    leaf: PageTableEntry,
) -> Result<LeafFacts, WalkError> {
    if base + offset > u64::MAX {
        Err(WalkError::LeafOutOfRange { address: base })
    } else if outside_ram(memory, (base + offset) as u64) {
        Err(WalkError::LeafOutOfRange { address: (base + offset) as u64 })
    } else {
        Ok(LeafFacts { leaf_size, physical_base: base, page_offset: offset, leaf })
    }
}

/// A huge-page leaf at `level` (which is the PDPT or the PD).
pub open spec fn huge_leaf_outcome<M: GuestMemory>(
    memory: &M,
    level: Level,
    entry: PageTableEntry,
    address: u64,
) -> Result<LeafFacts, WalkError> {
    let size = spec_huge_page_size(level).unwrap();
    let leaf_size = if size == 0x4000_0000u64 {
        LeafSize::Huge1G
    } else {
        LeafSize::Huge2M
    };
    leaf_outcome(
        memory,
        leaf_size,
        spec_leaf_physical_address(entry, level).unwrap(),
        address & ((size - 1) as u64),
        entry,
    )
}

/// The walk from position `i` of `order`, at table `table`, having visited
/// the tables in `visited` and resolved the levels in `done`.
pub open spec fn walk_from<M: GuestMemory>(
    memory: &M,
    order: Seq<Level>,
    i: nat,
    table: u64,
    visited: Seq<u64>,
    done: Seq<WalkLevel>,
    address: u64,
) -> WalkSpec
    decreases order.len() - i,
{
    if i >= order.len() {
        let leaf = done.last().entry;
        WalkSpec {
            levels: done,
            outcome: leaf_outcome(
                memory,
                LeafSize::Page4K,
                leaf.address_bits,
                address & 0xFFF,
                leaf,
            ),
        }
    } else {
        let level = order[i as int];
        if outside_ram(memory, table) {
            WalkSpec {
                levels: done,
                outcome: Err(WalkError::TableNotInRam { level, address: table }),
            }
        } else if visited.contains(table) {
            WalkSpec { levels: done, outcome: Err(WalkError::Cycle { address: table, level }) }
        } else {
            let index = spec_index(level, address);
            let entry_address = (table + index * 8) as u64;
            match memory.spec_read_u64(entry_address) {
                Err(source) => WalkSpec {
                    levels: done,
                    outcome: Err(WalkError::Memory { level, source }),
                },
                Ok(raw) => {
                    let entry = spec_decode(raw);
                    let next = done.push(
                        WalkLevel { level, index, table_address: table, entry_address, entry },
                    );
                    if entry.page_size && !spec_huge_page_allowed(level) {
                        WalkSpec {
                            levels: next,
                            outcome: Err(WalkError::ReservedPageSizeBit { level, raw }),
                        }
                    } else if entry.page_size {
                        WalkSpec {
                            levels: next,
                            outcome: huge_leaf_outcome(memory, level, entry, address),
                        }
                    } else if !entry.present {
                        WalkSpec {
                            levels: next,
                            outcome: Err(WalkError::NotPresent { level, index, raw }),
                        }
                    } else {
                        walk_from(
                            memory,
                            order,
                            i + 1,
                            entry.address_bits,
                            visited.push(table),
                            next,
                            address,
                        )
                    }
                },
            }
        }
    }
}

/// The complete walk of `address` from `cr3` under the given paging width.
pub open spec fn spec_walk<M: GuestMemory>(memory: &M, la57: bool, cr3: Cr3, address: u64) -> WalkSpec {
    let bits: u32 = if la57 {
        57
    } else {
        48
    };
    if spec_canonicality(address, bits) == Canonicality::NonCanonical {
        WalkSpec { levels: Seq::empty(), outcome: Err(WalkError::NonCanonical { address, bits }) }
    } else {
        walk_from(memory, level_order(la57), 0, cr3.0 & ENTRY_ADDRESS_MASK, Seq::empty(), Seq::empty(), address)
    }
}

/// The walk's leaf facts as a `PageTableWalk` carries them.
pub open spec fn walk_facts(w: PageTableWalk) -> LeafFacts {
    LeafFacts {
        leaf_size: w.leaf_size,
        physical_base: w.physical_base,
        page_offset: w.page_offset,
        leaf: w.leaf,
    }
}

/// A configured walker over one memory source.
#[derive(Debug)]
pub struct Walker<'a, M: GuestMemory> {
    memory: &'a M,
    cr0: Cr0,
    cr4: Cr4,
    efer: Efer,
}

fn contains_table(visited: &Vec<u64>, table: u64) -> (r: bool)
    ensures
        r == visited@.contains(table),
{
    let mut i: usize = 0;
    while i < visited.len()
        invariant
            i <= visited@.len(),
            forall|j: int| 0 <= j < i ==> visited@[j] != table,
        decreases visited@.len() - i,
    {
        if visited[i] == table {
            return true;
        }
        i = i + 1;
    }
    false
}

fn level_order_vec(la57: bool) -> (v: Vec<Level>)
    ensures
        v@ == level_order(la57),
{
    let mut v: Vec<Level> = Vec::new();
    if la57 {
        v.push(Level::Pml5);
    }
    v.push(Level::Pml4);
    v.push(Level::Pdpt);
    v.push(Level::Pd);
    v.push(Level::Pt);
    assert(v@ =~= level_order(la57));
    v
}

proof fn lemma_mask_bound(x: u64)
    ensures
        x & ENTRY_ADDRESS_MASK <= ENTRY_ADDRESS_MASK,
{
    assert(x & 0x000F_FFFF_FFFF_F000u64 <= 0x000F_FFFF_FFFF_F000u64) by (bit_vector);
}

fn index_for(level: Level, address: u64) -> (r: u16)
    ensures
        r == spec_index(level, address),
        r <= 511,
{
    let (_, low) = level.index_bits();
    let shift = low as u64;
    assert((address >> shift) & 0x1FF <= 0x1FF) by (bit_vector);
    ((address >> shift) & 0x1FF) as u16
}

impl<'a, M: GuestMemory> Walker<'a, M> {
    pub closed spec fn memory(&self) -> &'a M {
        self.memory
    }

    pub closed spec fn control(&self) -> (Cr0, Cr4, Efer) {
        (self.cr0, self.cr4, self.efer)
    }

    /// Build a walker.  Paging must be on and long mode active: a walk is
    /// meaningless otherwise, so the question is refused up front.
    pub fn new(memory: &'a M, cr0: Cr0, cr4: Cr4, efer: Efer) -> (r: Result<Self, WalkError>)
        ensures
            !bit_set(cr0.0, 31) ==> r == Err::<Self, WalkError>(
                WalkError::PagingDisabled { cr0: cr0.0 },
            ),
            bit_set(cr0.0, 31) && !bit_set(efer.0, 10) ==> r == Err::<Self, WalkError>(
                WalkError::NotLongMode { efer: efer.0 },
            ),
            bit_set(cr0.0, 31) && bit_set(efer.0, 10) ==> (r matches Ok(w) && w.memory() == memory
                && w.control() == (cr0, cr4, efer)),
    {
        if !cr0.paging_enabled() {
            return Err(WalkError::PagingDisabled { cr0: cr0.0 });
        }
        if !efer.lma() {
            return Err(WalkError::NotLongMode { efer: efer.0 });
        }
        Ok(Walker { memory, cr0, cr4, efer })
    }

    /// Is the walker in 5-level mode?
    pub fn la57(&self) -> (r: bool)
        ensures
            r == bit_set(self.control().1.0, 12),
    {
        self.cr4.la57()
    }

    /// The `CR0` this walker was built under.
    pub fn cr0(&self) -> (r: Cr0)
        ensures
            r == self.control().0,
    {
        self.cr0
    }

    /// The `CR4` this walker was built under.
    pub fn cr4(&self) -> (r: Cr4)
        ensures
            r == self.control().1,
    {
        self.cr4
    }

    /// The `EFER` this walker was built under.
    pub fn efer(&self) -> (r: Efer)
        ensures
            r == self.control().2,
    {
        self.efer
    }

    fn leaf(&self, leaf_size: LeafSize, base: u64, offset: u64, leaf: PageTableEntry) -> (r: Result<
        LeafFacts,
        WalkError,
    >)
        ensures
            r == leaf_outcome(self.memory(), leaf_size, base, offset, leaf),
    {
        let physical = match base.checked_add(offset) {
            Some(p) => p,
            None => {
                return Err(WalkError::LeafOutOfRange { address: base });
            },
        };
        if self.memory.ram_size().is_some() && !self.memory.is_ram(physical) {
            return Err(WalkError::LeafOutOfRange { address: physical });
        }
        Ok(LeafFacts { leaf_size, physical_base: base, page_offset: offset, leaf })
    }

    /// The walk with its path, whatever the outcome.
    fn walk_traced(&self, cr3: Cr3, address: u64) -> (r: (Vec<WalkLevel>, Result<LeafFacts, WalkError>))
        ensures
            ({
                let s = spec_walk(self.memory(), bit_set(self.control().1.0, 12), cr3, address);
                r.0@ == s.levels && r.1 == s.outcome
            }),
    {
        let la57 = self.cr4.la57();
        let bits: u32 = if la57 {
            57
        } else {
            48
        };
        match canonicality(address, bits) {
            Canonicality::NonCanonical => {
                return (Vec::new(), Err(WalkError::NonCanonical { address, bits }));
            },
            Canonicality::Canonical => {},
        }
        let order = level_order_vec(la57);
        let mut table = cr3.table_address();
        proof {
            lemma_mask_bound(cr3.0);
        }
        let mut visited: Vec<u64> = Vec::new();
        let mut levels: Vec<WalkLevel> = Vec::new();
        let ghost whole = walk_from(self.memory(), order@, 0, table, visited@, levels@, address);
        assert(visited@ =~= Seq::<u64>::empty());
        assert(levels@ =~= Seq::<WalkLevel>::empty());
        assert(whole == spec_walk(self.memory(), bit_set(self.control().1.0, 12), cr3, address));
        let mut i: usize = 0;
        while i < order.len()
            invariant
                order@ == level_order(la57),
                i <= order@.len(),
                table <= ENTRY_ADDRESS_MASK,
                levels@.len() == i,
                whole == walk_from(self.memory(), order@, i as nat, table, visited@, levels@, address),
                whole == spec_walk(self.memory(), bit_set(self.control().1.0, 12), cr3, address),
            decreases order@.len() - i,
        {
            let level = order[i];
            if self.memory.ram_size().is_some() && !self.memory.is_ram(table) {
                return (levels, Err(WalkError::TableNotInRam { level, address: table }));
            }
            if contains_table(&visited, table) {
                return (levels, Err(WalkError::Cycle { address: table, level }));
            }
            let index = index_for(level, address);
            let entry_address = table + (index as u64) * 8;
            let raw = match self.memory.read_u64(entry_address) {
                Ok(raw) => raw,
                Err(source) => {
                    return (levels, Err(WalkError::Memory { level, source }));
                },
            };
            let entry = PageTableEntry::decode(raw);
            let ghost before = levels@;
            levels.push(WalkLevel { level, index, table_address: table, entry_address, entry });
            if entry.page_size && !level.huge_page_allowed() {
                return (levels, Err(WalkError::ReservedPageSizeBit { level, raw }));
            }
            if entry.page_size {
                let size: u64 = match level {
                    Level::Pdpt => 0x4000_0000,
                    _ => 0x20_0000,
                };
                let leaf_size = if size == 0x4000_0000 {
                    LeafSize::Huge1G
                } else {
                    LeafSize::Huge2M
                };
                let physical_base = match entry.leaf_physical_address(level) {
                    Some(base) => base,
                    None => 0,
                };
                let page_offset = address & (size - 1);
                let outcome = self.leaf(leaf_size, physical_base, page_offset, entry);
                return (levels, outcome);
            }
            if !entry.present {
                return (levels, Err(WalkError::NotPresent { level, index, raw }));
            }
            visited.push(table);
            table = entry.table_physical_address();
            proof {
                lemma_mask_bound(raw);
            }
            i = i + 1;
        }
        let leaf = levels[levels.len() - 1].entry;
        let physical_base = leaf.table_physical_address();
        let page_offset = address & 0xFFF;
        let outcome = self.leaf(LeafSize::Page4K, physical_base, page_offset, leaf);
        (levels, outcome)
    }

    /// Walk `cr3` to resolve `address`.
    ///
    /// `Err(NotPresent)` is a successful investigation with a negative
    /// finding; every other error means the question could not be answered.
    pub fn walk(&self, cr3: Cr3, address: u64) -> (r: Result<PageTableWalk, WalkError>)
        ensures
            ({
                let s = spec_walk(self.memory(), bit_set(self.control().1.0, 12), cr3, address);
                match r {
                    Ok(w) => s.outcome == Ok::<LeafFacts, WalkError>(walk_facts(w)) && w.levels@
                        == s.levels && w.address == address && w.la57 == bit_set(
                        self.control().1.0,
                        12,
                    ),
                    Err(e) => s.outcome == Err::<LeafFacts, WalkError>(e),
                }
            }),
    {
        let la57 = self.cr4.la57();
        let (levels, outcome) = self.walk_traced(cr3, address);
        match outcome {
            Ok(facts) => Ok(
                PageTableWalk {
                    address,
                    levels,
                    leaf_size: facts.leaf_size,
                    physical_base: facts.physical_base,
                    page_offset: facts.page_offset,
                    leaf: facts.leaf,
                    la57,
                },
            ),
            Err(e) => Err(e),
        }
    }

    /// Walk, and turn a `NotPresent` stop into the structured finding with
    /// the partial path that reached the hole.
    pub fn walk_or_explain(&self, cr3: Cr3, address: u64) -> (r: Result<
        Result<PageTableWalk, NotPresent>,
        WalkError,
    >)
        ensures
            ({
                let s = spec_walk(self.memory(), bit_set(self.control().1.0, 12), cr3, address);
                match r {
                    Ok(Ok(w)) => s.outcome == Ok::<LeafFacts, WalkError>(walk_facts(w))
                        && w.levels@ == s.levels && w.address == address,
                    Ok(Err(np)) => s.outcome matches Err(WalkError::NotPresent { level, index, .. })
                        && np.level == level && np.index == index && s.levels.len() > 0
                        && np.levels@ == s.levels.drop_last() && np.entry_address
                        == s.levels.last().entry_address,
                    Err(e) => s.outcome == Err::<LeafFacts, WalkError>(e) && !(e is NotPresent),
                }
            }),
    {
        let la57 = self.cr4.la57();
        let (mut levels, outcome) = self.walk_traced(cr3, address);
        proof {
            lemma_not_present_is_last(
                self.memory(),
                bit_set(self.control().1.0, 12),
                cr3,
                address,
            );
        }
        match outcome {
            Ok(facts) => Ok(
                Ok(
                    PageTableWalk {
                        address,
                        levels,
                        leaf_size: facts.leaf_size,
                        physical_base: facts.physical_base,
                        page_offset: facts.page_offset,
                        leaf: facts.leaf,
                        la57,
                    },
                ),
            ),
            Err(WalkError::NotPresent { level, index, .. }) => {
                let entry_address = levels[levels.len() - 1].entry_address;
                levels.pop();
                Ok(Err(NotPresent { levels, level, index, entry_address }))
            },
            Err(e) => Err(e),
        }
    }
}

/// A walk that stops at a not-present entry has that entry as the last step
/// of its path, at the level and index the error names.
pub proof fn lemma_not_present_is_last<M: GuestMemory>(memory: &M, la57: bool, cr3: Cr3, address: u64)
    ensures
        ({
            let s = spec_walk(memory, la57, cr3, address);
            s.outcome matches Err(WalkError::NotPresent { level, index, raw }) ==> s.levels.len()
                > 0 && s.levels.last().level == level && s.levels.last().index == index
                && s.levels.last().entry.raw == raw
        }),
{
    let bits: u32 = if la57 {
        57
    } else {
        48
    };
    if spec_canonicality(address, bits) != Canonicality::NonCanonical {
        lemma_walk_from_not_present(
            memory,
            level_order(la57),
            0,
            cr3.0 & ENTRY_ADDRESS_MASK,
            Seq::empty(),
            Seq::empty(),
            address,
        );
    }
}

proof fn lemma_walk_from_not_present<M: GuestMemory>(
    memory: &M,
    order: Seq<Level>,
    i: nat,
    table: u64,
    visited: Seq<u64>,
    done: Seq<WalkLevel>,
    address: u64,
)
    ensures
        ({
            let s = walk_from(memory, order, i, table, visited, done, address);
            s.outcome matches Err(WalkError::NotPresent { level, index, raw }) ==> s.levels.len()
                > 0 && s.levels.last().level == level && s.levels.last().index == index
                && s.levels.last().entry.raw == raw
        }),
    decreases order.len() - i,
{
    if i < order.len() {
        let level = order[i as int];
        if !outside_ram(memory, table) && !visited.contains(table) {
            let index = spec_index(level, address);
            let entry_address = (table + index * 8) as u64;
            if let Ok(raw) = memory.spec_read_u64(entry_address) {
                let entry = spec_decode(raw);
                let next = done.push(
                    WalkLevel { level, index, table_address: table, entry_address, entry },
                );
                if !entry.page_size && entry.present {
                    lemma_walk_from_not_present(
                        memory,
                        order,
                        i + 1,
                        entry.address_bits,
                        visited.push(table),
                        next,
                        address,
                    );
                }
            }
        }
    }
}

/// The tables of the levels resolved so far.
pub open spec fn tables_of(levels: Seq<WalkLevel>) -> Seq<u64> {
    levels.map_values(|l: WalkLevel| l.table_address)
}

/// The shape every walk path has: the levels come in architectural order,
/// each takes its index from the virtual address and its entry from the
/// memory at `table + 8 * index`, the first table is `start` and each next
/// table is the previous entry's address, and no table appears twice.
pub open spec fn chained<M: GuestMemory>(
    memory: &M,
    levels: Seq<WalkLevel>,
    start: u64,
    order: Seq<Level>,
    address: u64,
) -> bool {
    &&& levels.len() <= order.len()
    &&& forall|k: int|
        0 <= k < levels.len() ==> {
            let l = #[trigger] levels[k];
            &&& l.level == order[k]
            &&& l.index == spec_index(order[k], address)
            &&& l.entry_address == l.table_address + l.index * 8
            &&& memory.spec_read_u64(l.entry_address) == Ok::<u64, MemoryError>(l.entry.raw)
            &&& l.entry == spec_decode(l.entry.raw)
        }
    &&& levels.len() > 0 ==> levels[0].table_address == start
    &&& forall|k: int|
        0 <= k && k + 1 < levels.len() ==> #[trigger] levels[k + 1].table_address
            == levels[k].entry.address_bits
    &&& forall|j: int, k: int|
        0 <= j < k < levels.len() ==> #[trigger] levels[j].table_address
            != #[trigger] levels[k].table_address
}

/// How a completed walk's leaf relates to its path and to the address.
pub open spec fn leaf_consistent(levels: Seq<WalkLevel>, f: LeafFacts, address: u64) -> bool {
    let size = spec_leaf_bytes(f.leaf_size);
    &&& levels.len() > 0
    &&& levels.last().entry == f.leaf
    &&& levels.last().level == match f.leaf_size {
        LeafSize::Page4K => Level::Pt,
        LeafSize::Huge2M => Level::Pd,
        LeafSize::Huge1G => Level::Pdpt,
    }
    &&& f.physical_base % size == 0
    &&& f.page_offset == address % size
    &&& f.physical_base | f.page_offset == f.physical_base + f.page_offset
}

proof fn lemma_leaf_bits(raw: u64, address: u64)
    ensures
        (raw & ENTRY_ADDRESS_MASK) % 0x1000 == 0,
        address & 0xFFF == address % 0x1000,
        (raw & ENTRY_ADDRESS_MASK) | (address & 0xFFF) == (raw & ENTRY_ADDRESS_MASK) + (address
            & 0xFFF),
        (raw & HUGE_2M_ADDRESS_MASK) % 0x20_0000 == 0,
        address & 0x1F_FFFF == address % 0x20_0000,
        (raw & HUGE_2M_ADDRESS_MASK) | (address & 0x1F_FFFF) == (raw & HUGE_2M_ADDRESS_MASK) + (
        address & 0x1F_FFFF),
        (raw & HUGE_1G_ADDRESS_MASK) % 0x4000_0000 == 0,
        address & 0x3FFF_FFFF == address % 0x4000_0000,
        (raw & HUGE_1G_ADDRESS_MASK) | (address & 0x3FFF_FFFF) == (raw & HUGE_1G_ADDRESS_MASK) + (
        address & 0x3FFF_FFFF),
{
    assert((raw & 0x000F_FFFF_FFFF_F000u64) % 0x1000 == 0) by (bit_vector);
    assert(address & 0xFFF == address % 0x1000) by (bit_vector);
    assert((raw & 0x000F_FFFF_FFFF_F000u64) | (address & 0xFFF) == (raw & 0x000F_FFFF_FFFF_F000u64)
        + (address & 0xFFF)) by (bit_vector);
    assert((raw & 0x000F_FFFF_FFE0_0000u64) % 0x20_0000 == 0) by (bit_vector);
    assert(address & 0x1F_FFFF == address % 0x20_0000) by (bit_vector);
    assert((raw & 0x000F_FFFF_FFE0_0000u64) | (address & 0x1F_FFFF) == (raw
        & 0x000F_FFFF_FFE0_0000u64) + (address & 0x1F_FFFF)) by (bit_vector);
    assert((raw & 0x000F_FFFF_C000_0000u64) % 0x4000_0000 == 0) by (bit_vector);
    assert(address & 0x3FFF_FFFF == address % 0x4000_0000) by (bit_vector);
    assert((raw & 0x000F_FFFF_C000_0000u64) | (address & 0x3FFF_FFFF) == (raw
        & 0x000F_FFFF_C000_0000u64) + (address & 0x3FFF_FFFF)) by (bit_vector);
}

proof fn lemma_walk_from_shape<M: GuestMemory>(
    memory: &M,
    la57: bool,
    i: nat,
    table: u64,
    visited: Seq<u64>,
    done: Seq<WalkLevel>,
    start: u64,
    address: u64,
)
    requires
        i == done.len(),
        start <= ENTRY_ADDRESS_MASK,
        chained(memory, done, start, level_order(la57), address),
        visited == tables_of(done),
        done.len() > 0 ==> table == done.last().entry.address_bits,
        done.len() == 0 ==> table == start,
        done.len() > 0 ==> !done.last().entry.page_size && done.last().entry.present,
    ensures
        ({
            let s = walk_from(memory, level_order(la57), i, table, visited, done, address);
            &&& chained(memory, s.levels, start, level_order(la57), address)
            &&& s.levels.len() >= done.len()
            &&& s.levels.take(done.len() as int) == done
            &&& (s.outcome matches Ok(f) ==> leaf_consistent(s.levels, f, address))
        }),
    decreases level_order(la57).len() - i,
{
    let order = level_order(la57);
    let s = walk_from(memory, order, i, table, visited, done, address);
    assert(done.take(done.len() as int) =~= done);
    if i >= order.len() {
        let leaf = done.last().entry;
        lemma_leaf_bits(leaf.raw, address);
        assert(done.last().level == order[order.len() - 1]);
    } else {
        let level = order[i as int];
        if !outside_ram(memory, table) && !visited.contains(table) {
            let index = spec_index(level, address);
            let entry_address = (table + index * 8) as u64;
            if let Ok(raw) = memory.spec_read_u64(entry_address) {
                let entry = spec_decode(raw);
                let l = WalkLevel { level, index, table_address: table, entry_address, entry };
                let next = done.push(l);
                assert(table + index * 8 <= u64::MAX) by {
                    lemma_table_bound(done, table, start);
                    assert(index <= 511) by {
                        let sh = spec_index_bits(level).1 as u64;
                        assert((address >> sh) & 0x1FF <= 0x1FF) by (bit_vector);
                    }
                }
                assert forall|j: int| 0 <= j < done.len() implies #[trigger] done[j].table_address
                    != table by {
                    assert(tables_of(done)[j] == done[j].table_address);
                }
                assert(chained(memory, next, start, order, address)) by {
                    assert forall|k: int| 0 <= k && k + 1 < next.len() implies #[trigger] next[k
                        + 1].table_address == next[k].entry.address_bits by {
                        if k + 1 < done.len() {
                            assert(next[k + 1] == done[k + 1]);
                        }
                    }
                    assert forall|j: int, k: int| 0 <= j < k < next.len() implies #[trigger] next[j].table_address
                        != #[trigger] next[k].table_address by {
                        if k < done.len() {
                            assert(next[j] == done[j] && next[k] == done[k]);
                        } else {
                            assert(next[j] == done[j]);
                        }
                    }
                    assert(entry == spec_decode(entry.raw));
                }
                assert(next.take(done.len() as int) =~= done);
                if entry.page_size && spec_huge_page_allowed(level) {
                    lemma_leaf_bits(raw, address);
                } else if !entry.page_size && entry.present {
                    assert(tables_of(next) =~= visited.push(table));
                    lemma_walk_from_shape(
                        memory,
                        la57,
                        i + 1,
                        entry.address_bits,
                        visited.push(table),
                        next,
                        start,
                        address,
                    );
                    let s2 = walk_from(
                        memory,
                        order,
                        i + 1,
                        entry.address_bits,
                        visited.push(table),
                        next,
                        address,
                    );
                    assert(s2.levels.take(done.len() as int) =~= s2.levels.take(
                        next.len() as int,
                    ).take(done.len() as int));
                }
            }
        }
    }
}

proof fn lemma_table_bound(done: Seq<WalkLevel>, table: u64, start: u64)
    requires
        done.len() > 0 ==> table == done.last().entry.address_bits,
        done.len() > 0 ==> done.last().entry == spec_decode(done.last().entry.raw),
        done.len() == 0 ==> table == start,
        start <= ENTRY_ADDRESS_MASK,
    ensures
        table <= ENTRY_ADDRESS_MASK,
{
    if done.len() > 0 {
        lemma_mask_bound(done.last().entry.raw);
    }
}

/// The shape of every walk: its path is chained through memory from `CR3`'s
/// table address, in architectural level order, never visiting a table
/// twice; and a completed walk's leaf is the last step, at the level its size
/// terminates at, with a frame aligned to that size and the offset taken from
/// the address, so base and offset combine without carry.
pub proof fn law_walk_shape<M: GuestMemory>(memory: &M, la57: bool, cr3: Cr3, address: u64)
    ensures
        ({
            let s = spec_walk(memory, la57, cr3, address);
            &&& chained(memory, s.levels, cr3.0 & ENTRY_ADDRESS_MASK, level_order(la57), address)
            &&& (s.outcome matches Ok(f) ==> leaf_consistent(s.levels, f, address))
        }),
{
    let bits: u32 = if la57 {
        57
    } else {
        48
    };
    lemma_mask_bound(cr3.0);
    if spec_canonicality(address, bits) != Canonicality::NonCanonical {
        assert(tables_of(Seq::<WalkLevel>::empty()) =~= Seq::<u64>::empty());
        lemma_walk_from_shape(
            memory,
            la57,
            0,
            cr3.0 & ENTRY_ADDRESS_MASK,
            Seq::empty(),
            Seq::empty(),
            cr3.0 & ENTRY_ADDRESS_MASK,
            address,
        );
    }
}

/// Only the table address of `CR3` matters: its PCID bits never change a walk.
pub proof fn law_pcid_bits_do_not_change_the_walk<M: GuestMemory>(
    memory: &M,
    la57: bool,
    a: Cr3,
    b: Cr3,
    address: u64,
)
    requires
        a.0 & ENTRY_ADDRESS_MASK == b.0 & ENTRY_ADDRESS_MASK,
    ensures
        spec_walk(memory, la57, a, address) == spec_walk(memory, la57, b, address),
{
}

/// A non-canonical address is refused before any table is read.
pub proof fn law_non_canonical_reads_nothing<M: GuestMemory>(
    memory: &M,
    la57: bool,
    cr3: Cr3,
    address: u64,
)
    requires
        spec_canonicality(address, if la57 { 57u32 } else { 48u32 }) == Canonicality::NonCanonical,
    ensures
        spec_walk(memory, la57, cr3, address).levels.len() == 0,
        spec_walk(memory, la57, cr3, address).outcome is Err,
{
}

proof fn lemma_walk_from_never_non_canonical<M: GuestMemory>(
    memory: &M,
    order: Seq<Level>,
    i: nat,
    table: u64,
    visited: Seq<u64>,
    done: Seq<WalkLevel>,
    address: u64,
)
    ensures
        !(walk_from(memory, order, i, table, visited, done, address).outcome matches Err(
            WalkError::NonCanonical { .. },
        )),
    decreases order.len() - i,
{
    if i < order.len() {
        let level = order[i as int];
        if !outside_ram(memory, table) && !visited.contains(table) {
            let index = spec_index(level, address);
            let entry_address = (table + index * 8) as u64;
            match memory.spec_read_u64(entry_address) {
                Ok(raw) => {
                    let entry = spec_decode(raw);
                    let next = done.push(
                        WalkLevel { level, index, table_address: table, entry_address, entry },
                    );
                    lemma_walk_from_never_non_canonical(
                        memory,
                        order,
                        i + 1,
                        entry.address_bits,
                        visited.push(table),
                        next,
                        address,
                    );
                },
                Err(_) => {},
            }
        }
    }
}

/// A walk fails with `NonCanonical` exactly when the address is not
/// canonical for the paging width (48 bits, or 57 with LA57), and then it
/// names that address and width and has read no table.
pub proof fn law_non_canonical_exactly<M: GuestMemory>(
    memory: &M,
    la57: bool,
    cr3: Cr3,
    address: u64,
)
    ensures
        ({
            let bits: u32 = if la57 { 57 } else { 48 };
            let s = spec_walk(memory, la57, cr3, address);
            &&& (s.outcome matches Err(WalkError::NonCanonical { .. })) <==> spec_canonicality(
                address,
                bits,
            ) == Canonicality::NonCanonical
            &&& (s.outcome matches Err(WalkError::NonCanonical { .. })) ==> s.outcome == Err::<
                LeafFacts,
                WalkError,
            >(WalkError::NonCanonical { address, bits }) && s.levels.len() == 0
        }),
{
    lemma_walk_from_never_non_canonical(
        memory,
        level_order(la57),
        0,
        cr3.0 & ENTRY_ADDRESS_MASK,
        Seq::empty(),
        Seq::empty(),
        address,
    );
}

/// Each flag of a decoded entry is its own bit of the raw word: P (bit 0),
/// R/W (1), U/S (2), PWT (3), PCD (4), A (5), D (6), PS (7), G (8) and XD
/// (63).
pub proof fn law_entry_flags_are_their_bits(raw: u64)
    ensures
        ({
            let e = spec_decode(raw);
            &&& e.raw == raw
            &&& e.present == (raw % 2 == 1)
            &&& e.writable == ((raw / 2) % 2 == 1)
            &&& e.user == ((raw / 4) % 2 == 1)
            &&& e.pwt == ((raw / 8) % 2 == 1)
            &&& e.pcd == ((raw / 16) % 2 == 1)
            &&& e.accessed == ((raw / 32) % 2 == 1)
            &&& e.dirty == ((raw / 64) % 2 == 1)
            &&& e.page_size == ((raw / 128) % 2 == 1)
            &&& e.global == ((raw / 256) % 2 == 1)
            &&& e.no_execute == (raw >= 0x8000_0000_0000_0000)
        }),
{
    assert(((raw & 0x1 != 0) == (raw % 2 == 1)) && ((raw & 0x2 != 0) == ((raw / 2) % 2 == 1)) && ((
    raw & 0x4 != 0) == ((raw / 4) % 2 == 1)) && ((raw & 0x8 != 0) == ((raw / 8) % 2 == 1)) && ((
    raw & 0x10 != 0) == ((raw / 16) % 2 == 1)) && ((raw & 0x20 != 0) == ((raw / 32) % 2 == 1))
        && ((raw & 0x40 != 0) == ((raw / 64) % 2 == 1)) && ((raw & 0x80 != 0) == ((raw / 128) % 2
        == 1)) && ((raw & 0x100 != 0) == ((raw / 256) % 2 == 1)) && ((raw & 0x8000_0000_0000_0000
        != 0) == (raw >= 0x8000_0000_0000_0000))) by (bit_vector);
}

/// The levels already resolved all point on to a further table.
pub open spec fn all_pass_through(done: Seq<WalkLevel>) -> bool {
    forall|i: int| 0 <= i < done.len() ==> #[trigger] done[i].entry.raw % 2 == 1 && (done[i].entry.raw
        / 128) % 2 == 0
}

/// In the levels of a walk, an entry with P clear and PS clear is the last
/// one, and the walk ends with `NotPresent` naming it.
pub open spec fn stops_at_holes(levels: Seq<WalkLevel>, outcome: Result<LeafFacts, WalkError>) -> bool {
    forall|i: int|
        0 <= i < levels.len() && #[trigger] levels[i].entry.raw % 2 == 0 && (levels[i].entry.raw
            / 128) % 2 == 0 ==> i == levels.len() - 1 && outcome == Err::<LeafFacts, WalkError>(
            WalkError::NotPresent {
                level: levels[i].level,
                index: levels[i].index,
                raw: levels[i].entry.raw,
            },
        )
}

proof fn lemma_walk_from_holes<M: GuestMemory>(
    memory: &M,
    order: Seq<Level>,
    i: nat,
    table: u64,
    visited: Seq<u64>,
    done: Seq<WalkLevel>,
    address: u64,
)
    requires
        all_pass_through(done),
    ensures
        ({
            let s = walk_from(memory, order, i, table, visited, done, address);
            stops_at_holes(s.levels, s.outcome)
        }),
    decreases order.len() - i,
{
    if i < order.len() {
        let level = order[i as int];
        if !outside_ram(memory, table) && !visited.contains(table) {
            let index = spec_index(level, address);
            let entry_address = (table + index * 8) as u64;
            match memory.spec_read_u64(entry_address) {
                Ok(raw) => {
                    let entry = spec_decode(raw);
                    law_entry_flags_are_their_bits(raw);
                    let next = done.push(
                        WalkLevel { level, index, table_address: table, entry_address, entry },
                    );
                    assert(next.last() == WalkLevel { level, index, table_address: table, entry_address, entry });
                    if !entry.page_size && entry.present {
                        assert(all_pass_through(next));
                        lemma_walk_from_holes(
                            memory,
                            order,
                            i + 1,
                            entry.address_bits,
                            visited.push(table),
                            next,
                            address,
                        );
                    }
                },
                Err(_) => {},
            }
        }
    }
}

/// A walk never translates through a hole: when its path reaches an entry
/// whose P bit and PS bit are both clear, that entry is the last one read
/// and the walk fails with `NotPresent` at its level, index and raw value.
pub proof fn law_a_hole_ends_the_walk<M: GuestMemory>(memory: &M, la57: bool, cr3: Cr3, address: u64)
    ensures
        ({
            let s = spec_walk(memory, la57, cr3, address);
            stops_at_holes(s.levels, s.outcome)
        }),
{
    lemma_walk_from_holes(
        memory,
        level_order(la57),
        0,
        cr3.0 & ENTRY_ADDRESS_MASK,
        Seq::empty(),
        Seq::empty(),
        address,
    );
}

/// Each level takes its own nine bits of the address as its index: the
/// PT bits 20:12, the PD bits 29:21, the PDPT bits 38:30, the PML4 bits
/// 47:39 and the PML5 bits 56:48.
pub proof fn law_level_indices_are_nine_bit_slices(address: u64)
    ensures
        spec_index(Level::Pt, address) == (address / 0x1000) % 512,
        spec_index(Level::Pd, address) == (address / 0x20_0000) % 512,
        spec_index(Level::Pdpt, address) == (address / 0x4000_0000) % 512,
        spec_index(Level::Pml4, address) == (address / 0x80_0000_0000) % 512,
        spec_index(Level::Pml5, address) == (address / 0x1_0000_0000_0000) % 512,
{
    assert((((address >> 12u64) & 0x1FF) as u16) as u64 == (address / 0x1000) % 512) by (bit_vector);
    assert((((address >> 21u64) & 0x1FF) as u16) as u64 == (address / 0x20_0000) % 512) by (bit_vector);
    assert((((address >> 30u64) & 0x1FF) as u16) as u64 == (address / 0x4000_0000) % 512) by (bit_vector);
    assert((((address >> 39u64) & 0x1FF) as u16) as u64 == (address / 0x80_0000_0000) % 512) by (bit_vector);
    assert((((address >> 48u64) & 0x1FF) as u16) as u64 == (address / 0x1_0000_0000_0000) % 512) by (bit_vector);
}

/// An address is canonical for 48-bit paging exactly when it lies in the
/// low half below 2^47 or the high half from 2^64 - 2^47, and for 57-bit
/// paging with 2^56 in place of 2^47.
pub proof fn law_canonical_halves(address: u64)
    ensures
        (spec_canonicality(address, 48) == Canonicality::Canonical) == (address < 0x8000_0000_0000
            || address >= 0xFFFF_8000_0000_0000),
        (spec_canonicality(address, 57) == Canonicality::Canonical) == (address < 0x100_0000_0000_0000
            || address >= 0xFF00_0000_0000_0000),
{
    assert(((address >> 47u64) == 0 || (address >> 47u64) == (0xFFFF_FFFF_FFFF_FFFFu64 >> 47u64)) == (
    address < 0x8000_0000_0000 || address >= 0xFFFF_8000_0000_0000)) by (bit_vector);
    assert(((address >> 56u64) == 0 || (address >> 56u64) == (0xFFFF_FFFF_FFFF_FFFFu64 >> 56u64)) == (
    address < 0x100_0000_0000_0000 || address >= 0xFF00_0000_0000_0000)) by (bit_vector);
}

/// Why `walk_from_registers` could not build a walker from a report: the
/// message and the detail of the `E_INTERNAL` failure, or `None` when the
/// report has all four registers in hexadecimal and they allow a walk.
pub open spec fn registers_walk_failure(rep: ReportView) -> Option<(Seq<char>, Seq<char>)> {
    let cr0 = spec_register_u64(rep, "CR0"@);
    let cr3 = spec_register_u64(rep, "CR3"@);
    let cr4 = spec_register_u64(rep, "CR4"@);
    let efer = spec_register_u64(rep, "EFER"@);
    if cr0 is Err {
        Some(("cannot walk page tables: "@ + cr0->Err_0, cr0->Err_0))
    } else if cr3 is Err {
        Some(("cannot walk page tables: "@ + cr3->Err_0, cr3->Err_0))
    } else if cr4 is Err {
        Some(("cannot walk page tables: "@ + cr4->Err_0, cr4->Err_0))
    } else if efer is Err {
        Some(
            (
                "cannot walk page tables: EFER is not reported, so long mode cannot be confirmed"@,
                "`info registers` did not produce an EFER line"@,
            ),
        )
    } else {
        let refusal = if !bit_set(cr0->Ok_0, 31) {
            Some(WalkError::PagingDisabled { cr0: cr0->Ok_0 })
        } else if !bit_set(efer->Ok_0, 10) {
            Some(WalkError::NotLongMode { efer: efer->Ok_0 })
        } else {
            None
        };
        match refusal {
            Some(e) => Some(
                (
                    "cannot walk page tables from CR3="@ + spec_prefixed_hex(cr3->Ok_0 as nat)
                        + ": "@ + spec_walk_error_message(e),
                    spec_walk_error_message(e),
                ),
            ),
            None => None,
        }
    }
}

fn walk_refusal(reason: String) -> (e: PrincessError)
    ensures
        e.code == ErrorCode::Internal,
        e.message@ == "cannot walk page tables: "@ + reason@,
        e.detail matches Some(d) && d@ == reason@,
{
    let mut message = String::new();
    push_str(&mut message, "cannot walk page tables: ");
    push_str(&mut message, reason.as_str());
    PrincessError::internal(message).with_detail(reason)
}

/// Reads `CR0`, `CR3`, `CR4` and `EFER` out of a parsed `info registers`
/// report, builds a walker and walks `address`.
///
/// A missing or non-hexadecimal register, a missing `EFER` (long mode cannot
/// be confirmed without it), and a machine the walker refuses are
/// `E_INTERNAL` failures whose detail names the condition; otherwise the
/// walk's own answer is returned.
pub fn walk_from_registers<M: GuestMemory>(
    memory: &M,
    registers: &RegistersReport,
    address: u64,
) -> (r: Result<Result<PageTableWalk, WalkError>, PrincessError>)
    ensures
        match registers_walk_failure(registers@) {
            Some((message, detail)) => r matches Err(e) && e.code == ErrorCode::Internal
                && e.message@ == message && (e.detail matches Some(d) && d@ == detail),
            None => r matches Ok(w) && ({
                let s = spec_walk(
                    memory,
                    bit_set(spec_register_u64(registers@, "CR4"@)->Ok_0, 12),
                    Cr3(spec_register_u64(registers@, "CR3"@)->Ok_0),
                    address,
                );
                match w {
                    Ok(walk) => s.outcome == Ok::<LeafFacts, WalkError>(walk_facts(walk))
                        && walk.levels@ == s.levels && walk.address == address,
                    Err(e) => s.outcome == Err::<LeafFacts, WalkError>(e),
                }
            }),
        },
{
    let cr0 = match registers.register_u64("CR0") {
        Ok(v) => v,
        Err(reason) => {
            return Err(walk_refusal(reason));
        },
    };
    let cr3 = match registers.register_u64("CR3") {
        Ok(v) => v,
        Err(reason) => {
            return Err(walk_refusal(reason));
        },
    };
    let cr4 = match registers.register_u64("CR4") {
        Ok(v) => v,
        Err(reason) => {
            return Err(walk_refusal(reason));
        },
    };
    let efer = match registers.register_u64("EFER") {
        Ok(v) => v,
        Err(_) => {
            let mut message = String::new();
            push_str(
                &mut message,
                "cannot walk page tables: EFER is not reported, so long mode cannot be confirmed",
            );
            let mut detail = String::new();
            push_str(&mut detail, "`info registers` did not produce an EFER line");
            return Err(PrincessError::internal(message).with_detail(detail));
        },
    };
    match Walker::new(memory, Cr0(cr0), Cr4(cr4), Efer(efer)) {
        Ok(walker) => Ok(walker.walk(Cr3(cr3), address)),
        Err(err) => {
            let text = err.message();
            let mut message = String::new();
            push_str(&mut message, "cannot walk page tables from CR3=");
            push_prefixed_hex(&mut message, cr3);
            push_str(&mut message, ": ");
            push_str(&mut message, text.as_str());
            Err(PrincessError::internal(message).with_detail(text))
        },
    }
}

} // verus!
