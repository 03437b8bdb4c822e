use princess::descriptor::{
    describe_selector, read_tables, CodeDataKind, DescriptorError, GateKind, Gdt, GdtEntry, Idt,
    SegmentDescriptor, SystemDescriptor, SystemDescriptorType, Tss64,
};
use princess::guestmem::GuestRam;

fn gate_bytes(handler: u64, selector: u16, ist: u8, type_attr: u8) -> [u8; 16] {
    let mut gate = [0u8; 16];
    gate[0..2].copy_from_slice(&(handler as u16).to_le_bytes());
    gate[2..4].copy_from_slice(&selector.to_le_bytes());
    gate[4] = ist;
    gate[5] = type_attr;
    gate[6..8].copy_from_slice(&((handler >> 16) as u16).to_le_bytes());
    gate[8..12].copy_from_slice(&((handler >> 32) as u32).to_le_bytes());
    gate
}

/// The paging fixture's GDT and IDT, exactly as its guest kernel printed them.
fn fixture_ram() -> GuestRam {
    let mut ram = GuestRam::new(256 * 1024 * 1024);
    let gdt: [u64; 5] = [
        0x0000_0000_0000_0000,
        0x00af_9a00_0000_ffff,
        0x00cf_9300_0000_ffff,
        0x00cf_9a00_0000_ffff,
        0x00cf_9300_0000_ffff,
    ];
    for (index, value) in gdt.iter().enumerate() {
        ram.write_u64(0x10_12e0 + index as u64 * 8, *value).unwrap();
    }
    let gate = gate_bytes(0x10_01f6, 0x0008, 0, 0x8e);
    ram.write_bytes(0x10_8000 + 14 * 16, &gate).unwrap();
    ram
}

#[test]
fn the_fixture_gdt_decodes_to_the_expected_segments() {
    let ram = fixture_ram();
    let gdt = Gdt::read(&ram, 0x10_12e0, 0x27).expect("GDT");
    assert_eq!(gdt.slot_count(), 5, "(0x27 + 1) / 8 = 5 slots");
    assert_eq!(gdt.entries.len(), 5);

    let expected = ["CODE64", "DATA32", "CODE32", "DATA32"];
    for (index, label) in expected.iter().enumerate() {
        let selector = ((index + 1) * 8) as u16;
        let entry = gdt.entry_for_selector(selector).expect("selector");
        match entry {
            GdtEntry::Segment(descriptor) => {
                assert_eq!(descriptor.label(), *label, "GDT[{selector:#x}]");
                assert_eq!(descriptor.dpl, 0);
                assert!(descriptor.present);
                assert_eq!(descriptor.base, 0);
                assert!(descriptor.granularity_4k);
                assert_eq!(descriptor.limit, 0xFFFF_FFFF);
                let expected_accessed = matches!(*label, "DATA32");
                assert_eq!(
                    descriptor.accessed, expected_accessed,
                    "GDT[{selector:#x}] access byte {:#04x}",
                    (descriptor.raw >> 40) & 0xFF
                );
            }
            other => panic!("expected a segment descriptor, got {other:?}"),
        }
    }

    assert!(matches!(gdt.entry_for_selector(0).unwrap(), GdtEntry::Null { offset: 0 }));

    let GdtEntry::Segment(code64) = gdt.entry_for_selector(0x08).unwrap() else {
        panic!("GDT[1] must be a segment");
    };
    assert!(code64.long_mode, "L=1");
    assert!(!code64.default_size_32, "L=1 requires D/B=0");
    assert!(code64.long_mode_bit_is_consistent());
    assert_eq!(code64.kind, CodeDataKind::Code);
    let GdtEntry::Segment(code32) = gdt.entry_for_selector(0x18).unwrap() else {
        panic!("GDT[3] must be a segment");
    };
    assert!(!code32.long_mode);
    assert!(code32.default_size_32);
    assert_eq!(code32.label(), "CODE32");
}

#[test]
fn the_bit_fields_match_the_sdm_from_the_raw_words() {
    let descriptor = SegmentDescriptor::decode(8, 0x00af_9a00_0000_ffff);
    assert_eq!(descriptor.base, 0);
    assert_eq!(descriptor.limit, 0xFFFF_FFFF);
    assert!(descriptor.granularity_4k, "G=1");
    assert!(descriptor.long_mode, "L=1");
    assert!(!descriptor.default_size_32, "D/B=0");
    assert!(!descriptor.available, "AVL=0");
    assert!(descriptor.present, "P=1");
    assert_eq!(descriptor.dpl, 0);
    assert_eq!(descriptor.kind, CodeDataKind::Code, "E=1");
    assert!(descriptor.readable_writable, "R=1");
    assert!(!descriptor.direction_or_conforming, "C=0");
    assert!(!descriptor.accessed, "A=0");
}

#[test]
fn a_selector_outside_the_table_resolves_to_nothing() {
    let ram = fixture_ram();
    let gdt = Gdt::read(&ram, 0x10_12e0, 0x27).unwrap();
    assert!(gdt.entry_for_selector(0x28).is_none(), "past the limit");
    assert!(gdt.entry_for_selector(0x0b).is_some());
    assert!(gdt.entry_for_selector(0x0f).is_some());
}

#[test]
fn a_gdt_limit_of_zero_is_one_slot_not_zero() {
    let ram = fixture_ram();
    let gdt = Gdt::read(&ram, 0x10_12e0, 0x07).unwrap();
    assert_eq!(gdt.slot_count(), 1);
    assert_eq!(gdt.entries.len(), 1);
}

#[test]
fn a_64_bit_tss_descriptor_spans_two_slots_and_keeps_base_63_32() {
    let mut ram = GuestRam::new(256 * 1024 * 1024);
    let low = 0x0000_8b00_5000_0067u64;
    let high = 0x0000_0000_0000_0000u64;
    ram.write_u64(0x1000, 0).unwrap();
    ram.write_u64(0x1008, low).unwrap();
    ram.write_u64(0x1010, high).unwrap();
    ram.write_u64(0x1018, 0x00cf_9300_0000_ffff).unwrap();

    let gdt = Gdt::read(&ram, 0x1000, 0x1F).expect("GDT");
    assert_eq!(gdt.slot_count(), 4);
    assert_eq!(gdt.entries.len(), 4, "the high half is recorded, not skipped");

    let tss = gdt.tss().expect("GDT has a TSS");
    assert_eq!(tss.offset, 0x08, "the selector is the LOW slot's offset");
    assert_eq!(tss.kind, SystemDescriptorType::Tss64Busy);
    assert!(tss.is_busy(), "access 0x8b has the busy bit set");
    assert_eq!(tss.base, 0x5000);
    assert_eq!(tss.limit, 0x67, "G=0, so the limit is the raw 20-bit field");
    assert_eq!(tss.slot_count(), 2);
    assert_eq!(tss.raw_high, Some(high));

    let high_entry = gdt.entry_for_selector(0x10).expect("slot 0x10 exists");
    assert!(matches!(high_entry, GdtEntry::HighHalf { low_half_offset: 0x08, .. }));
    let text = describe_selector(&gdt, 0x10).unwrap();
    assert!(text.contains("not independently addressable"), "{text}");
}

#[test]
fn the_ltr_busy_bit_is_just_an_accessed_style_bit_we_read_back() {
    let available = SystemDescriptor::decode(0x08, 0x0000_8900_5000_0067, None);
    assert_eq!(available.kind, SystemDescriptorType::Tss64Available);
    assert!(!available.is_busy());

    let busy = SystemDescriptor::decode(0x08, 0x0000_8b00_5000_0067, None);
    assert_eq!(busy.kind, SystemDescriptorType::Tss64Busy);
    assert!(busy.is_busy(), "the busy bit is CPU-written; the decoder must report what is really there");
}

#[test]
fn a_64_bit_tss_reads_rsp0_and_the_ist_entries() {
    let mut ram = GuestRam::new(256 * 1024 * 1024);
    ram.write_u64(0x5000 + 0x04, 0x30_0000).unwrap();
    ram.write_u64(0x5000 + 0x24, 0x7000).unwrap();
    ram.write_u64(0x5000 + 0x2C, 0x8000).unwrap();
    ram.write_bytes(0x5000 + 0x66, &0x0068u16.to_le_bytes()).unwrap();

    let tss = Tss64::read(&ram, 0x5000, 0x67).expect("TSS");
    assert_eq!(tss.rsp0, 0x30_0000);
    assert_eq!(tss.ist[0], 0x7000, "IST1");
    assert_eq!(tss.ist[1], 0x8000, "IST2");
    assert_eq!(tss.ist[6], 0, "IST7 untouched");
    assert_eq!(tss.io_map_base, 0x68);
    assert!(!tss.has_io_bitmap);
}

#[test]
fn an_io_bitmap_inside_the_limit_is_reported_as_present() {
    let mut ram = GuestRam::new(0x1_0000);
    ram.write_bytes(0x5000 + 0x66, &0x0060u16.to_le_bytes()).unwrap();
    let tss = Tss64::read(&ram, 0x5000, 0x67).unwrap();
    assert_eq!(tss.io_map_base, 0x60);
    assert!(tss.has_io_bitmap, "0x60 < 0x67 so the map is inside the limit");
}

#[test]
fn an_invalid_tss_type_is_classified_rather_than_guessed() {
    let reserved = SystemDescriptorType::from_bits(0x8);
    assert_eq!(reserved, SystemDescriptorType::Reserved(8));
    assert_eq!(reserved.label(), "RESERVED");
    assert!(!reserved.is_16_bytes());
}

#[test]
fn only_the_16_byte_system_types_consume_two_slots() {
    assert!(SystemDescriptorType::Tss64Available.is_16_bytes());
    assert!(SystemDescriptorType::Tss64Busy.is_16_bytes());
    assert!(SystemDescriptorType::Ldt.is_16_bytes());
    assert!(SystemDescriptorType::CallGate64.is_16_bytes());
    assert!(!SystemDescriptorType::Tss16Available.is_16_bytes());
    assert!(!SystemDescriptorType::TaskGate.is_16_bytes());
}

#[test]
fn the_fixture_idt_decodes_the_pf_handler() {
    let ram = fixture_ram();
    let idt = Idt::read(&ram, 0x10_8000, 0xfff).expect("IDT");
    assert_eq!(idt.gate_count(), 256, "(0xfff + 1) / 16 = 256 gates");

    let gate = idt.gate(14).expect("#PF gate");
    assert_eq!(gate.offset, 14 * 16);
    assert!(gate.present);
    assert_eq!(gate.kind, GateKind::Interrupt);
    assert_eq!(gate.dpl, 0);
    assert_eq!(gate.selector, 0x0008);
    assert_eq!(gate.ist, 0);
    assert_eq!(gate.handler, 0x10_01f6, "the handler must be assembled from all three offset fields");
    assert_eq!(gate.handler, 0x0000_0000_0010_01f6);

    assert_eq!(idt.installed_vectors(), vec![14]);
    let vector0 = idt.gate(0).unwrap();
    assert!(!vector0.present, "a zeroed gate is not present");
    assert!(vector0.is_uninstalled(), "and is reported as uninstalled");
}

#[test]
fn a_high_half_handler_keeps_its_upper_32_bits() {
    let mut ram = GuestRam::new(256 * 1024 * 1024);
    let handler = 0xFFFF_8000_0012_3456u64;
    let gate = gate_bytes(handler, 0x0008, 0, 0x8e);
    ram.write_bytes(0x1000, &gate).unwrap();

    let idt = Idt::read(&ram, 0x1000, 0x0F).unwrap();
    assert_eq!(idt.gates.len(), 1);
    assert_eq!(idt.gates[0].handler, handler);
}

#[test]
fn ist_and_dpl_are_decoded_from_the_type_attr_byte() {
    let mut ram = GuestRam::new(0x1_0000);
    let bp = gate_bytes(0, 0x0008, 4, 0xef);
    ram.write_bytes(0x1000, &bp).unwrap();
    let syscall = gate_bytes(0, 0x0008, 0, 0xee);
    ram.write_bytes(0x1010, &syscall).unwrap();

    let idt = Idt::read(&ram, 0x1000, 0x1F).unwrap();
    let bp_gate = idt.gate(0).unwrap();
    assert_eq!(bp_gate.kind, GateKind::Trap);
    assert_eq!(bp_gate.dpl, 3);
    assert_eq!(bp_gate.ist, 4, "a nonzero IST index must survive");

    let syscall_gate = idt.gate(1).unwrap();
    assert_eq!(syscall_gate.kind, GateKind::Interrupt);
    assert_eq!(syscall_gate.dpl, 3);

    assert_eq!(idt.user_accessible_vectors(), vec![0, 1]);
}

#[test]
fn an_invalid_gate_type_is_rejected() {
    let mut ram = GuestRam::new(0x1_0000);
    let mut gate = [0u8; 16];
    gate[5] = 0x81;
    ram.write_bytes(0x1000, &gate).unwrap();
    let err = Idt::read(&ram, 0x1000, 0x0F).unwrap_err();
    assert_eq!(err, DescriptorError::InvalidGateType { descriptor_type: 1 });
    assert_eq!(err.message(), "IDT gate type 1 is not an interrupt/trap gate");
}

#[test]
fn gates_are_read_at_aligned_offsets() {
    let mut ram = GuestRam::new(0x1_0000);
    ram.write_bytes(0x1000, &gate_bytes(0xAAAA, 0x0008, 0, 0x8e)).unwrap();
    ram.write_bytes(0x1010, &gate_bytes(0xBBBB, 0x0008, 0, 0x8e)).unwrap();
    ram.write_bytes(0x1020, &gate_bytes(0xCCCC, 0x0008, 0, 0x8e)).unwrap();

    let idt = Idt::read(&ram, 0x1000, 0x2F).unwrap();
    assert_eq!(idt.gates[0].handler, 0xAAAA);
    assert_eq!(idt.gates[1].handler, 0xBBBB);
    assert_eq!(idt.gates[2].handler, 0xCCCC);
    assert_eq!(idt.gates[0].offset, 0);
    assert_eq!(idt.gates[1].offset, 16);
}

#[test]
fn reading_out_of_ram_is_a_typed_error() {
    let ram = GuestRam::new(0x1_0000);
    let err = Gdt::read(&ram, 0x8000_0000, 0x27).unwrap_err();
    assert!(matches!(err, DescriptorError::Memory(_)));
    let err = Idt::read(&ram, 0x8000_0000, 0xfff).unwrap_err();
    assert!(matches!(err, DescriptorError::Memory(_)));
}

#[test]
fn the_full_fixture_reports_agree_with_the_guest_serial_output() {
    let ram = fixture_ram();
    let (gdt, idt, tss) = read_tables(&ram, 0x10_12e0, 0x27, 0x10_8000, 0xfff).expect("tables");
    assert_eq!(gdt.slot_count(), 5);
    assert_eq!(idt.gate_count(), 256);
    assert!(tss.is_none(), "this fixture's GDT has no TSS descriptor");

    let gate = idt.gate(14).unwrap();
    let description = describe_selector(&gdt, gate.selector).expect("0x08 resolves");
    assert!(description.contains("CODE64"), "{description}");
}

#[test]
fn describe_selector_names_the_mode_of_each_fixture_segment() {
    let ram = fixture_ram();
    let gdt = Gdt::read(&ram, 0x10_12e0, 0x27).unwrap();
    assert!(describe_selector(&gdt, 0x08).unwrap().contains("CODE64"));
    assert!(describe_selector(&gdt, 0x10).unwrap().contains("DATA32"));
    assert!(describe_selector(&gdt, 0x18).unwrap().contains("CODE32"));
    assert!(describe_selector(&gdt, 0x00).unwrap().contains("null"));
    assert!(describe_selector(&gdt, 0x40).is_none(), "past the limit");
}

#[test]
fn a_not_present_entry_with_a_non_gate_type_is_listed_not_rejected() {
    let mut ram = GuestRam::new(0x1_0000);
    ram.write_bytes(0x1000, &[0, 0, 0, 0, 0, 0x01, 0, 0, 0, 0, 0, 0, 0, 0, 0, 0]).unwrap();
    let idt = Idt::read(&ram, 0x1000, 0x0F).unwrap();
    assert_eq!(idt.gates.len(), 1);
    assert!(!idt.gates[0].present);
    ram.write_bytes(0x1000, &[0, 0, 0, 0, 0, 0x81, 0, 0, 0, 0, 0, 0, 0, 0, 0, 0]).unwrap();
    assert!(matches!(Idt::read(&ram, 0x1000, 0x0F), Err(DescriptorError::InvalidGateType { descriptor_type: 1 })));
}

#[test]
fn an_io_map_base_equal_to_the_limit_means_no_bitmap() {
    let mut ram = GuestRam::new(0x1_0000);
    ram.write_bytes(0x5000 + 0x66, &0x0067u16.to_le_bytes()).unwrap();
    let tss = Tss64::read(&ram, 0x5000, 0x67).unwrap();
    assert_eq!(tss.io_map_base, 0x67);
    assert!(!tss.has_io_bitmap);
}
