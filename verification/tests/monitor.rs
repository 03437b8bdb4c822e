use princess::monitor::{
    decode_tlb_flags, parse_info_cpus, parse_info_mem, parse_info_registers, parse_info_tlb,
    resolve_granularities, InfoMemRange, InfoTlbEntry, MonitorSnapshot, QmpMemorySummary, QmpVersion,
    TlbFlags, TlbGranularity,
};

/// `info mem` as the paging fixture prints it: three ranges with a hole
/// at 0x1ff000..0x200000 and another at 0x400000..0x600000.
fn info_mem_sample() -> String {
    "0000000000000000-00000000001ff000 00000000001ff000 -rw\n\
     0000000000200000-0000000000400000 0000000000200000 -rw\n\
     0000000000600000-0000000040000000 000000003fa00000 -rw\n"
        .to_string()
}

/// `info tlb` as the paging fixture prints it: 511 identity-mapped 4 KiB
/// pages below the hole, one 2 MiB page at 0x200000, and the 2 MiB identity
/// pages from 0x600000 up to 1 GiB.
fn info_tlb_sample() -> String {
    let mut out = String::new();
    for page in 0..511u64 {
        let address = page * 0x1000;
        out.push_str(&format!("{address:016x}: {address:016x} --------W\n"));
    }
    out.push_str("0000000000200000: 0000000000200000 --P-----W\n");
    let mut address = 0x60_0000u64;
    while address < 0x4000_0000 {
        out.push_str(&format!("{address:016x}: {address:016x} --P-----W\n"));
        address += 0x20_0000;
    }
    out
}

fn info_cpus_sample() -> String {
    "* CPU #0: thread_id=48211\n".to_string()
}

/// `info registers` of the halted paging fixture.
fn info_registers_sample() -> String {
    "CPU#0\n\
RAX=0000000000000000 RBX=0000000000000000 RCX=0000000000000000 RDX=0000000000000000\n\
RSI=0000000000000000 RDI=0000000000000000 RBP=0000000000000000 RSP=0000000000107ff0\n\
R8 =0000000000000000 R9 =0000000000000000 R10=0000000000000000 R11=0000000000000000\n\
R12=0000000000000000 R13=0000000000000000 R14=0000000000000000 R15=0000000000000000\n\
RIP=0000000000101034 RFL=00000046 [---Z-P-] CPL=0 II=0 A20=1 SMM=0 HLT=1\n\
ES =0010 0000000000000000 ffffffff 00cf9300 DPL=0 DS   [-WA]\n\
CS =0008 0000000000000000 ffffffff 00af9a00 DPL=0 CS64 [-R-]\n\
SS =0010 0000000000000000 ffffffff 00cf9300 DPL=0 DS   [-WA]\n\
DS =0010 0000000000000000 ffffffff 00cf9300 DPL=0 DS   [-WA]\n\
FS =0010 0000000000000000 ffffffff 00cf9300 DPL=0 DS   [-WA]\n\
GS =0010 0000000000000000 ffffffff 00cf9300 DPL=0 DS   [-WA]\n\
LDT=0000 0000000000000000 0000ffff 00008200 DPL=0 LDT\n\
TR =0000 0000000000000000 0000ffff 00008b00 DPL=0 TSS64-busy\n\
GDT=     00000000001012e0 00000027\n\
IDT=     0000000000108000 00000fff\n\
CR0=80000011 CR2=0000000000400000 CR3=0000000000104000 CR4=00000020\n\
DR0=0000000000000000 DR1=0000000000000000 DR2=0000000000000000 DR3=0000000000000000\n\
DR6=00000000ffff0ff0 DR7=0000000000000400\n\
EFER=0000000000000500\n\
FCW=037f FSW=0000 [ST=0] FTW=00 MXCSR=00001f80\n\
FPR0=0000000000000000 0000 FPR1=0000000000000000 0000\n\
XMM00=0000000000000000 0000000000000000 XMM01=0000000000000000 0000000000000000\n"
        .to_string()
}

#[test]
fn info_mem_sample_parses_to_the_fixture_map() {
    let ranges = parse_info_mem(&info_mem_sample()).expect("info mem must parse");
    assert_eq!(ranges.len(), 3, "the recorded sample has exactly 3 ranges");
    assert_eq!(
        ranges[0],
        InfoMemRange { start: 0, end: 0x1ff000, size: 0x1ff000, user: false, readable: true, writable: true }
    );
    assert_eq!(ranges[1].start, 0x20_0000);
    assert_eq!(ranges[1].end, 0x40_0000);
    assert_eq!(ranges[2].start, 0x60_0000);
    assert_eq!(ranges[2].end, 0x4000_0000);
    for range in &ranges {
        assert!(range.size_agrees_with_bounds(), "printed size must equal end-start: {range:?}");
        assert!(range.readable && range.writable && !range.user);
    }
}

#[test]
fn info_mem_hole_between_0x1ff000_and_0x200000_is_visible() {
    let ranges = parse_info_mem(&info_mem_sample()).unwrap();
    assert_eq!(ranges[0].end, 0x1ff000);
    assert_eq!(ranges[1].start, 0x20_0000);
}

#[test]
fn pg_disabled_is_an_empty_map_not_an_error() {
    let ranges = parse_info_mem("PG disabled\n").expect("must not be an error");
    assert!(ranges.is_empty());
}

#[test]
fn info_mem_rejects_a_malformed_line_with_its_position() {
    let text = "0000000000000000-0000000000001000 0000000000001000 -rw\nnot-a-range 10 -rw extra\n";
    let err = parse_info_mem(text).unwrap_err();
    assert_eq!(err.context, "info mem");
    assert_eq!(err.line, 2);
    assert_eq!(err.byte_offset, text.find("not-a-range").unwrap());
    assert_eq!(err.reason, "expected exactly 3 whitespace-separated fields");
    let err = parse_info_mem("0-1000 1000 rw\n").unwrap_err();
    assert!(err.reason.contains("exactly 3 characters"), "{}", err.reason);
}

#[test]
fn info_tlb_sample_parses_every_line() {
    let entries = parse_info_tlb(&info_tlb_sample()).expect("info tlb must parse");
    assert_eq!(entries.len(), 1021, "the recorded sample has 1021 lines");
}

#[test]
fn tlb_flag_column_three_is_ps_not_present() {
    let entries = parse_info_tlb(&info_tlb_sample()).unwrap();
    let first = entries[0];
    assert_eq!(first.virtual_address, 0);
    assert!(first.flags.writable, "RW is set on the 4 KiB leaves");
    assert!(!first.flags.ps, "a 4 KiB leaf must NOT have PS set");
    assert_eq!(first.granularity(), TlbGranularity::Page4K);

    let huge: Vec<&InfoTlbEntry> = entries.iter().filter(|e| e.flags.ps).collect();
    assert!(!huge.is_empty(), "the fixture maps 2 MiB huge pages");
    for entry in &huge {
        assert_eq!(entry.granularity(), TlbGranularity::Huge2M);
        assert_eq!(entry.physical_address % TlbGranularity::Huge2M.bytes(), 0, "{entry:#x?}");
    }
    assert!(
        huge.iter().any(|entry| entry.virtual_address == 0x3f60_0000 && entry.physical_address == 0x3f60_0000),
        "the sample's tail lines are 2 MiB identity pages"
    );
}

#[test]
fn tlb_entries_are_present_and_never_report_a_present_flag() {
    let entries = parse_info_tlb(&info_tlb_sample()).unwrap();
    for pair in entries.windows(2) {
        assert!(pair[0].virtual_address < pair[1].virtual_address, "info tlb is printed in ascending vaddr order");
    }
    assert!(entries.iter().all(|entry| entry.flags.writable));
}

#[test]
fn granularity_inference_uses_the_stride() {
    let entries = parse_info_tlb(&info_tlb_sample()).unwrap();
    let granularities = resolve_granularities(&entries);
    assert_eq!(granularities.len(), entries.len());
    for (entry, granularity) in entries.iter().zip(&granularities).take(500) {
        if !entry.flags.ps {
            assert_eq!(*granularity, TlbGranularity::Page4K);
        }
    }
    let huge_start = entries.iter().position(|entry| entry.flags.ps).expect("fixture has huge pages");
    assert_eq!(granularities[huge_start], TlbGranularity::Huge2M);
}

#[test]
fn a_wrong_length_flag_field_is_rejected() {
    let bad = "0000000000000000: 0000000000000000 --------\n";
    let err = parse_info_tlb(bad).unwrap_err();
    assert_eq!(err.context, "info tlb");
    assert_eq!(err.line, 1);
    assert!(err.reason.contains("9 characters"), "{}", err.reason);
}

#[test]
fn a_wrong_letter_in_a_flag_position_is_rejected() {
    let bad = "0000000000000000: 0000000000000000 Z-------W\n";
    let err = parse_info_tlb(bad).unwrap_err();
    assert!(err.reason.contains("positionally"), "{}", err.reason);
    let bad = "0000000000000000: 0000000000000000 -P------W\n";
    assert!(parse_info_tlb(bad).is_err());
}

#[test]
fn decode_tlb_flags_maps_each_column_to_the_right_bit() {
    let flags = decode_tlb_flags("XG-DACTUW").expect("decodes");
    assert!(flags.nx, "col 1 = NX");
    assert!(flags.global, "col 2 = G");
    assert!(!flags.ps, "col 3 = PS (clear here)");
    assert!(flags.dirty, "col 4 = D");
    assert!(flags.accessed, "col 5 = A");
    assert!(flags.pcd, "col 6 = C/PCD");
    assert!(flags.pwt, "col 7 = T/PWT");
    assert!(flags.user, "col 8 = U");
    assert!(flags.writable, "col 9 = W");

    let huge = decode_tlb_flags("--P------").expect("a 2 MiB leaf");
    assert!(huge.ps, "column 3 is PS");
    assert!(!huge.writable, "a leaf with only PS set is not writable");
    assert!(!huge.nx && !huge.global && !huge.dirty && !huge.accessed);
    assert!(!huge.pcd && !huge.pwt && !huge.user);

    assert!(decode_tlb_flags("--P------X").is_none(), "10 characters is not the 9-character field");
    assert!(decode_tlb_flags("XGP-DACTU").is_none(), "column 9 is W, so a `U` there is invalid");
    assert!(decode_tlb_flags("-GP-DACTU").is_none(), "this string ends in `U` where W belongs");

    let none = decode_tlb_flags("---------").expect("all clear");
    assert_eq!(none, TlbFlags::default());
}

#[test]
fn info_cpus_sample_parses() {
    let cpus = parse_info_cpus(&info_cpus_sample()).expect("info cpus must parse");
    assert_eq!(cpus.len(), 1, "the fixture is single-CPU");
    assert_eq!(cpus[0].index, 0);
    assert!(cpus[0].current, "the `*` marks the current CPU");
    assert!(cpus[0].thread_id > 0);
}

#[test]
fn info_cpus_rejects_a_line_without_the_cpu_header() {
    let err = parse_info_cpus("  CPU #1: thread_id=7\nthread 2\n").unwrap_err();
    assert_eq!(err.line, 2);
    assert_eq!(err.reason, "expected `<*| > CPU #N: thread_id=M`");
    let cpus = parse_info_cpus("  CPU #1: thread_id=7\n").unwrap();
    assert!(!cpus[0].current);
    assert_eq!(cpus[0].index, 1);
    assert_eq!(cpus[0].thread_id, 7);
}

#[test]
fn info_registers_sample_parses_the_state_p5_needs() {
    let report = parse_info_registers(&info_registers_sample()).expect("info registers must parse");
    assert_eq!(report.cpu, Some(0));

    assert_eq!(report.register_u64("CR0").unwrap(), 0x8000_0011);
    assert_eq!(report.register_u64("CR3").unwrap(), 0x10_4000);
    assert_eq!(report.register_u64("CR4").unwrap(), 0x20);
    assert_eq!(report.register_u64("CR2").unwrap(), 0x40_0000);
    assert_eq!(report.register_u64("RIP").unwrap(), 0x10_1034);

    assert_eq!(report.gdt_base, Some(0x10_12e0));
    assert_eq!(report.gdt_limit, Some(0x27));
    assert_eq!(report.idt_base, Some(0x10_8000));
    assert_eq!(report.idt_limit, Some(0xfff));

    assert_eq!(report.gdt_entry_count(), Some(5));
    assert_eq!(report.idt_entry_count(), Some(256));

    assert_eq!(report.halted, Some(true));
    assert_eq!(report.cpl, Some(0));
    assert_eq!(report.flags_text.as_deref(), Some("---Z-P-"));

    let cs = report.segments.iter().find(|s| s.name == "CS").unwrap();
    assert_eq!(cs.selector, 0x0008);
    assert_eq!(cs.type_text, "CS64");
    assert_eq!(cs.dpl, 0);
    assert_eq!(cs.access, 0x00af_9a00);
    assert_eq!(cs.permissions.as_deref(), Some("-R-"));

    let tr = report.segments.iter().find(|s| s.name == "TR").unwrap();
    assert_eq!(tr.selector, 0x0000);
    assert_eq!(tr.type_text, "TSS64-busy");

    let ldt = report.segments.iter().find(|s| s.name == "LDT").unwrap();
    assert_eq!(ldt.type_text, "LDT");
    assert_eq!(ldt.limit, 0xffff);
    assert_eq!(ldt.base, 0);
}

#[test]
fn padded_register_names_are_parsed_without_column_assumptions() {
    let text = "CPU#0\nR8 =0000000000000001 R9 =0000000000000000\n";
    let report = parse_info_registers(text).unwrap();
    assert_eq!(report.register_u64("R8").unwrap(), 1);
    assert_eq!(report.register_u64("R9").unwrap(), 0);
}

#[test]
fn an_unknown_registers_line_fails_loudly() {
    let text = "CPU#0\nWAT=thisisnotahexvalue\n";
    let err = parse_info_registers(text).unwrap_err();
    assert_eq!(err.context, "info registers");
    assert_eq!(err.line, 2);
    assert!(err.text.contains("WAT"), "error must quote the line");
}

#[test]
fn the_error_carries_a_usable_byte_offset() {
    let text = "CPU#0\nRAX=0000000000000000\nbroken line here\n";
    let err = parse_info_registers(text).unwrap_err();
    assert_eq!(err.byte_offset, "CPU#0\nRAX=0000000000000000\n".len());
    assert_eq!(&text[err.byte_offset..err.byte_offset + 6], "broken");
}

#[test]
fn a_missing_register_is_named_in_the_error() {
    let report = parse_info_registers("CPU#0\nRAX=0000000000000010\n").unwrap();
    assert_eq!(report.register("RAX"), Some("0000000000000010"));
    assert_eq!(report.register_u64("RAX"), Ok(16));
    assert!(report.register_u64("CR3").is_err());
    assert_eq!(report.gdt_entry_count(), None);
}

#[test]
fn a_full_snapshot_assembles_from_the_recorded_samples() {
    let snapshot = MonitorSnapshot {
        registers: Some(parse_info_registers(&info_registers_sample()).unwrap()),
        mem: parse_info_mem(&info_mem_sample()).unwrap(),
        tlb: parse_info_tlb(&info_tlb_sample()).unwrap(),
        cpus: parse_info_cpus(&info_cpus_sample()).unwrap(),
        tlb_granularities: Vec::new(),
    };
    assert!(snapshot.registers.is_some());
    assert_eq!(snapshot.mem.len(), 3);
    assert_eq!(snapshot.tlb.len(), 1021);
    assert_eq!(snapshot.cpus.len(), 1);
    let huge_above_hole = snapshot
        .tlb
        .iter()
        .filter(|entry| entry.virtual_address >= 0x60_0000 && entry.flags.ps)
        .count();
    assert_eq!(huge_above_hole as u64, (0x4000_0000u64 - 0x60_0000) / 0x20_0000);
    assert_eq!(huge_above_hole, 509);
    assert_eq!(snapshot.tlb.len(), 511usize + 1 + 509);
}

#[test]
fn qmp_values_answer_their_own_questions() {
    let version = QmpVersion { major: 7, minor: 2, micro: 22, package: Some("Debian".to_string()) };
    assert_eq!(version.version_string(), "7.2.22");
    let memory = QmpMemorySummary { base_memory: 256 * 1024 * 1024, plugged_memory: None };
    assert_eq!(memory.total(), 256 * 1024 * 1024);
    assert!(memory.contains_physical(0x10_4000));
    assert!(!memory.contains_physical(0x40_0000_0000));
    let saturated = QmpMemorySummary { base_memory: u64::MAX, plugged_memory: Some(5) };
    assert_eq!(saturated.total(), u64::MAX);
}

#[test]
fn a_permission_field_outside_the_grammar_is_refused() {
    let err = parse_info_mem("0-1000 1000 xyz\n").unwrap_err();
    assert_eq!(err.context, "info mem");
    assert_eq!(err.line, 1);
    assert_eq!(err.byte_offset, 0);
    assert!(parse_info_mem("0-1000 1000 -r-\n").is_ok());
}
