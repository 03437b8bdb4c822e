use princess::guestmem::GuestRam;
use princess::monitor::{parse_info_registers, RegistersReport};
use princess::pagetable::{
    canonicality, walk_from_registers, Canonicality, Cr0, Cr3, Cr4, Efer, LeafSize, Level, PageTableEntry,
    WalkError, WalkLevel, Walker, BIT_NX, BIT_PS,
};

/// The paging fixture's page tables, as its guest kernel printed them.
fn fixture_ram() -> GuestRam {
    let mut ram = GuestRam::new(256 * 1024 * 1024);
    ram.write_u64(0x10_4000, 0x10_5023).unwrap();
    ram.write_u64(0x10_5000, 0x10_6023).unwrap();
    ram.write_u64(0x10_6000, 0x10_7023).unwrap();
    ram.write_u64(0x10_6008, 0x0020_0083).unwrap();
    ram.write_u64(0x10_6010, 0x0).unwrap();
    for index in 3..512u64 {
        ram.write_u64(0x10_6000 + index * 8, (index << 21) | 0x83).unwrap();
    }
    for index in 0..511u64 {
        ram.write_u64(0x10_7000 + index * 8, (index << 12) | 0x3).unwrap();
    }
    ram.write_u64(0x10_7000 + 511 * 8, 0).unwrap();
    ram
}

fn fixture_walker(ram: &GuestRam) -> Walker<'_, GuestRam> {
    Walker::new(ram, Cr0(0x8000_0011), Cr4(0x20), Efer(0xd00)).expect("walker")
}

const FIXTURE_CR3: Cr3 = Cr3(0x10_4000);

#[test]
fn cr3_low_bits_are_masked_off() {
    let cr3 = Cr3(0x10_4000 | 0xabc);
    assert_eq!(cr3.table_address(), 0x10_4000);
    assert_eq!(cr3.pcid(), 0xabc);
    assert!(cr3.has_low_bits_set());
    assert_eq!(FIXTURE_CR3.table_address(), 0x10_4000);
    assert!(!FIXTURE_CR3.has_low_bits_set());
}

#[test]
fn a_four_level_walk_resolves_a_4kib_page() {
    let ram = fixture_ram();
    let walker = fixture_walker(&ram);
    let walk = walker.walk(FIXTURE_CR3, 0x1234).expect("0x1234 is mapped");
    assert_eq!(walk.leaf_size, LeafSize::Page4K);
    assert_eq!(walk.levels.len(), 4, "PML4 -> PDPT -> PD -> PT");
    assert_eq!(walk.path_summary(), "PML4[0] -> PDPT[0] -> PD[0] -> PT[1]");
    assert_eq!(walk.physical_base, 0x1000);
    assert_eq!(walk.page_offset, 0x234);
    assert_eq!(walk.physical_address(), 0x1234);
    assert_eq!(walk.virtual_range(), (0x1000, 0x2000));
    assert_eq!(walk.physical_range(), (0x1000, 0x2000));

    let pml4e = walk.levels[0].entry;
    assert_eq!(pml4e.raw, 0x10_5023);
    assert!(pml4e.present && pml4e.writable && pml4e.accessed);
    assert!(!pml4e.user && !pml4e.page_size && !pml4e.no_execute);
    assert_eq!(pml4e.table_physical_address(), 0x10_5000);
    assert_eq!(pml4e.available, 0, "bits 11:9 are software bits, not flags");

    let pte = walk.levels[3].entry;
    assert_eq!(pte.raw, 0x1003);
    assert!(pte.present && pte.writable && !pte.accessed && !pte.dirty);
}

#[test]
fn a_walk_through_a_2mib_huge_page_uses_the_size_correct_mask() {
    let ram = fixture_ram();
    let walker = fixture_walker(&ram);
    let walk = walker.walk(FIXTURE_CR3, 0x25_0000).expect("huge page");
    assert_eq!(walk.leaf_size, LeafSize::Huge2M);
    assert_eq!(walk.leaf_size.bytes(), 0x20_0000);
    assert_eq!(walk.leaf_size.offset_bits(), 21);
    assert_eq!(walk.levels.len(), 3, "the walk stops at the PDE");
    assert_eq!(walk.path_summary(), "PML4[0] -> PDPT[0] -> PD[1]");
    assert_eq!(walk.physical_base, 0x20_0000);
    assert_eq!(walk.page_offset, 0x5_0000);
    assert_eq!(walk.physical_address(), 0x25_0000);
    assert!(walk.levels[2].entry.page_size, "PS=1");
    assert!(!walk.levels[2].entry.dirty, "the fixture's huge pages are untouched, so D is clear");
}

#[test]
fn leaf_physical_address_refuses_a_non_leaf() {
    let non_leaf = PageTableEntry::decode(0x10_5023);
    assert_eq!(non_leaf.leaf_physical_address(Level::Pdpt), None);
    let huge = PageTableEntry::decode(0x0020_0083);
    assert_eq!(huge.leaf_physical_address(Level::Pd), Some(0x20_0000));
    let gigabyte = PageTableEntry::decode(0x4000_0183);
    assert_eq!(gigabyte.leaf_physical_address(Level::Pdpt), Some(0x4000_0000));
}

#[test]
fn the_deliberate_hole_is_not_present_not_a_fake_zero_entry() {
    let ram = fixture_ram();
    let walker = fixture_walker(&ram);
    let err = walker.walk(FIXTURE_CR3, 0x40_0000).unwrap_err();
    assert_eq!(err, WalkError::NotPresent { level: Level::Pd, index: 2, raw: 0 });
    assert!(err.message().contains("not present"));

    let err = walker.walk(FIXTURE_CR3, 0x1ff000).unwrap_err();
    assert_eq!(err, WalkError::NotPresent { level: Level::Pt, index: 511, raw: 0 });
}

#[test]
fn the_hole_can_be_explained_with_its_partial_path() {
    let ram = fixture_ram();
    let walker = fixture_walker(&ram);
    let finding = walker
        .walk_or_explain(FIXTURE_CR3, 0x40_0000)
        .expect("the walk itself was answerable")
        .expect_err("but the mapping is absent");
    assert_eq!(finding.level, Level::Pd);
    assert_eq!(finding.index, 2);
    assert_eq!(finding.levels.len(), 2, "PML4 and PDPT resolved");
    assert_eq!(finding.levels[0].level, Level::Pml4);
    assert_eq!(finding.levels[1].level, Level::Pdpt);
    assert_eq!(finding.entry_address, 0x10_6000 + 2 * 8);
}

#[test]
fn effective_permissions_are_anded_down_the_path() {
    let ram = fixture_ram();
    let walker = fixture_walker(&ram);
    let walk = walker.walk(FIXTURE_CR3, 0x1234).unwrap();
    assert!(!walk.effective_user(), "no level sets U/S");
    assert!(walk.effective_writable());
    assert!(walk.executable(), "no level sets NX");

    let mut ram = fixture_ram();
    ram.write_u64(0x10_7008, 0x1007).unwrap();
    let walker = fixture_walker(&ram);
    let walk = walker.walk(FIXTURE_CR3, 0x1234).unwrap();
    assert!(walk.levels[3].entry.user, "the leaf says user");
    assert!(!walk.effective_user(), "but the path says supervisor, which is what the CPU enforces");
}

#[test]
fn nx_at_any_level_makes_the_page_non_executable() {
    let mut ram = fixture_ram();
    ram.write_u64(0x10_5000, 0x10_6023 | BIT_NX).unwrap();
    let walker = fixture_walker(&ram);
    let walk = walker.walk(FIXTURE_CR3, 0x1234).unwrap();
    assert!(walk.effective_no_execute());
    assert!(!walk.executable());
    assert!(walk.levels[1].entry.no_execute);
    assert!(!walk.levels[3].entry.no_execute, "the leaf itself is fine");
}

#[test]
fn paging_disabled_is_refused_before_any_table_is_read() {
    let ram = fixture_ram();
    let err = Walker::new(&ram, Cr0(0x11), Cr4(0x20), Efer(0xd00)).unwrap_err();
    assert_eq!(err, WalkError::PagingDisabled { cr0: 0x11 });
    assert!(err.message().contains("CR0.PG=0"));
}

#[test]
fn a_non_long_mode_machine_is_refused_rather_than_mis_walked() {
    let ram = fixture_ram();
    let err = Walker::new(&ram, Cr0(0x8000_0011), Cr4(0x20), Efer(0x0)).unwrap_err();
    assert_eq!(err, WalkError::NotLongMode { efer: 0 });
    assert!(err.message().contains("32-bit PAE"));
}

#[test]
fn a_non_canonical_address_is_refused() {
    let ram = fixture_ram();
    let walker = fixture_walker(&ram);
    let err = walker.walk(FIXTURE_CR3, 0x0000_8000_0000_0000).unwrap_err();
    assert_eq!(err, WalkError::NonCanonical { address: 0x0000_8000_0000_0000, bits: 48 });
    assert_eq!(canonicality(0xffff_8000_0000_0000, 48), Canonicality::Canonical);
    assert_eq!(canonicality(0x0000_7fff_ffff_ffff, 48), Canonicality::Canonical);
}

#[test]
fn a_table_address_outside_ram_is_reported_not_read_as_zero() {
    let mut ram = GuestRam::new(0x20_0000);
    ram.write_u64(0x10_4000, 0x0000_0000_4000_0023).unwrap();
    let walker = Walker::new(&ram, Cr0(0x8000_0011), Cr4(0x20), Efer(0xd00)).unwrap();
    let err = walker.walk(FIXTURE_CR3, 0x1234).unwrap_err();
    assert_eq!(err, WalkError::TableNotInRam { level: Level::Pdpt, address: 0x4000_0000 });
}

#[test]
fn a_cycle_is_detected_instead_of_looping_forever() {
    let mut ram = GuestRam::new(0x20_0000);
    ram.write_u64(0x10_4000, 0x10_4023).unwrap();
    let walker = Walker::new(&ram, Cr0(0x8000_0011), Cr4(0x20), Efer(0xd00)).unwrap();
    let err = walker.walk(FIXTURE_CR3, 0x1234).unwrap_err();
    assert_eq!(err, WalkError::Cycle { address: 0x10_4000, level: Level::Pdpt });
}

#[test]
fn ps_at_a_level_that_cannot_carry_it_is_reported() {
    let mut ram = fixture_ram();
    ram.write_u64(0x10_4000, 0x10_5023 | BIT_PS).unwrap();
    let walker = fixture_walker(&ram);
    let err = walker.walk(FIXTURE_CR3, 0x1234).unwrap_err();
    assert!(matches!(err, WalkError::ReservedPageSizeBit { level: Level::Pml4, .. }));
}

#[test]
fn reserved_address_bits_are_surfaced() {
    let bad = PageTableEntry::decode(0x0010_0000_0000_0023);
    assert!(bad.reserved_bits_set());
    let good = PageTableEntry::decode(0x10_5023);
    assert!(!good.reserved_bits_set());
}

#[test]
fn protection_key_is_decoded_separately_from_reserved() {
    let with_key = PageTableEntry::decode(0x2800_0000_0000_0023);
    assert_eq!(with_key.protection_key, 0x5);
    assert!(!with_key.reserved_bits_set(), "59:62 is the protection key, not reserved");
    let both = PageTableEntry::decode(0x2810_0000_0000_0023);
    assert_eq!(both.protection_key, 0x5);
    assert!(both.reserved_bits_set());
}

#[test]
fn a_1gib_leaf_is_handled_at_the_pdpt() {
    let mut ram = GuestRam::new(2 * 1024 * 1024 * 1024);
    ram.write_u64(0x1000, 0x2023).unwrap();
    ram.write_u64(0x2000, 0x3023).unwrap();
    ram.write_u64(0x3000, 0x4023).unwrap();
    ram.write_u64(0x4000, 0x1003).unwrap();
    ram.write_u64(0x2008, 0x4000_0183).unwrap();

    let walker = Walker::new(&ram, Cr0(0x8000_0011), Cr4(0x20), Efer(0xd00)).unwrap();
    let walk = walker.walk(Cr3(0x1000), 0x4000_0000 + 0x1234).unwrap();
    assert_eq!(walk.leaf_size, LeafSize::Huge1G);
    assert_eq!(walk.leaf_size.offset_bits(), 30);
    assert_eq!(walk.levels.len(), 2, "PML4 -> PDPT, then PS terminates");
    assert_eq!(walk.physical_base, 0x4000_0000);
    assert_eq!(walk.page_offset, 0x1234);
    assert_eq!(walk.physical_address(), 0x4000_1234);
    assert!(walk.levels[1].entry.global, "G is set on this leaf");
    assert!(walk.levels[1].entry.page_size);
    assert_eq!(walk.levels[1].entry.leaf_physical_address(Level::Pdpt), Some(0x4000_0000));
}

#[test]
fn la57_adds_a_pml5_level_and_shifts_the_indexes() {
    let mut ram = GuestRam::new(0x100_0000);
    ram.write_u64(0x10_0000, 0x11_0023).unwrap();
    ram.write_u64(0x11_0000, 0x12_0023).unwrap();
    ram.write_u64(0x12_0000, 0x13_0023).unwrap();
    ram.write_u64(0x13_0000, 0x14_0023).unwrap();
    ram.write_u64(0x14_0000, 0x20_0003).unwrap();
    ram.write_u64(0x14_0010, 0x20_0003).unwrap();

    let cr4 = Cr4(0x20 | (1 << 12));
    let walker = Walker::new(&ram, Cr0(0x8000_0011), cr4, Efer(0xd00)).unwrap();
    assert!(walker.la57());
    let walk = walker.walk(Cr3(0x10_0000), 0x2000).unwrap();
    assert!(walk.la57);
    assert_eq!(walk.levels.len(), 5, "PML5 -> PML4 -> PDPT -> PD -> PT");
    assert_eq!(walk.levels[0].level, Level::Pml5);
    assert_eq!(walk.path_summary(), "PML5[0] -> PML4[0] -> PDPT[0] -> PD[0] -> PT[2]");
    assert_eq!(walk.physical_base, 0x20_0000);

    assert_eq!(canonicality(0x00FF_FFFF_FFFF_FFFF, 57), Canonicality::Canonical);
    assert_eq!(canonicality(0xFF00_0000_0000_0000, 57), Canonicality::Canonical);
    assert_eq!(canonicality(0x0100_0000_0000_0000, 57), Canonicality::NonCanonical);
    assert_eq!(canonicality(0x0100_0000_0000_0000, 48), Canonicality::NonCanonical);
    assert_eq!(canonicality(0x0080_0000_0000_0000, 57), Canonicality::Canonical);
    assert_eq!(canonicality(0x0080_0000_0000_0000, 48), Canonicality::NonCanonical);
}

#[test]
fn level_metadata_matches_the_architectural_tables() {
    assert_eq!(Level::Pml4.index_bits(), (47, 39));
    assert_eq!(Level::Pdpt.index_bits(), (38, 30));
    assert_eq!(Level::Pd.index_bits(), (29, 21));
    assert_eq!(Level::Pt.index_bits(), (20, 12));
    assert_eq!(Level::Pml5.index_bits(), (56, 48));
    assert!(!Level::Pml4.huge_page_allowed());
    assert!(!Level::Pml5.huge_page_allowed());
    assert!(!Level::Pt.huge_page_allowed());
    assert!(Level::Pdpt.huge_page_allowed());
    assert!(Level::Pd.huge_page_allowed());
    assert_eq!(Level::Pdpt.huge_page_size(), Some(1024 * 1024 * 1024));
    assert_eq!(Level::Pd.huge_page_size(), Some(2 * 1024 * 1024));
    assert_eq!(Level::Pt.huge_page_size(), None);
    let pd = WalkLevel {
        level: Level::Pd,
        index: 0,
        table_address: 0,
        entry_address: 0,
        entry: PageTableEntry::decode(0),
    };
    assert_eq!(pd.bits_consumed(), 18, "bits 29:12");
}

fn fixture_registers_text() -> &'static str {
    "CPU#0\n\
RIP=0000000000101034 RFL=00000046 [---Z-P-] CPL=0 II=0 A20=1 SMM=0 HLT=1\n\
CS =0008 0000000000000000 ffffffff 00af9a00 DPL=0 CS64 [-R-]\n\
GDT=     00000000001012e0 00000027\n\
IDT=     0000000000108000 00000fff\n\
CR0=80000011 CR2=0000000000400000 CR3=0000000000104000 CR4=00000020\n\
EFER=0000000000000500\n"
}

#[test]
fn register_facts_drive_the_walk() {
    let registers = parse_info_registers(fixture_registers_text()).expect("registers");
    let ram = fixture_ram();
    let result = walk_from_registers(&ram, &registers, 0x1234).expect("walker built");
    let walk = result.expect("0x1234 is mapped in the fixture");
    assert_eq!(walk.physical_address(), 0x1234);
    assert_eq!(walk.path_summary(), "PML4[0] -> PDPT[0] -> PD[0] -> PT[1]");
}

#[test]
fn a_missing_efer_is_an_error_not_an_assumption() {
    let mut registers = RegistersReport::default();
    registers.registers.push(("CR0".to_string(), "80000011".to_string()));
    registers.registers.push(("CR3".to_string(), "104000".to_string()));
    registers.registers.push(("CR4".to_string(), "20".to_string()));
    let ram = fixture_ram();
    let err = walk_from_registers(&ram, &registers, 0x1234).unwrap_err();
    assert!(err.message.contains("EFER"), "message must name the missing register: {}", err.message);
}

#[test]
fn the_walker_reports_the_registers_it_was_built_from() {
    let ram = fixture_ram();
    let walker = fixture_walker(&ram);
    assert_eq!(walker.cr0(), Cr0(0x8000_0011));
    assert!(walker.efer().lma());
    assert!(walker.cr4().pae());
    assert!(!walker.la57());
    assert_eq!(LeafSize::Huge2M.terminating_level(), Level::Pd);
    assert_eq!(Level::Pdpt.name(), "PDPT");
}
