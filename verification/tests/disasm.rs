use princess::contract::ErrorCode;
use princess::disasm::{
    disassemble_bytes, disassembly_view, function_symbols, instruction_bytes_at,
    parse_hex_address, slice_plan, DisassemblerOptions, Syntax, MAX_DECODE_BYTES,
};
use princess::elf::{SegmentInfo, SymbolInfo};
use princess::source::LineRange;

/// The bytes of the reference kernel's fault probe at 0x100b39:
/// `push rbp; mov rbp,rsp; ud2; mov edi,0x101180; call 0x1002f5`.
const PROBE: u64 = 0x10_0b39;
fn probe_bytes() -> Vec<u8> {
    vec![0x55, 0x48, 0x89, 0xe5, 0x0f, 0x0b, 0xbf, 0x80, 0x11, 0x10, 0x00, 0xe8, 0xac, 0xf7, 0xff, 0xff]
}

fn probe_symbols() -> Vec<(u64, u64, String)> {
    function_symbols(&vec![
        SymbolInfo { name: "kernel.c".into(), address: 0, size: 0, kind: "FILE".into() },
        SymbolInfo { name: "refkernel_fault_probe".into(), address: PROBE, size: 21, kind: "FUNC".into() },
    ])
}

fn options(syntax: Syntax) -> DisassemblerOptions {
    DisassemblerOptions { syntax, ..DisassemblerOptions::default() }
}

fn text_segment() -> SegmentInfo {
    SegmentInfo {
        kind: "LOAD".into(),
        file_offset: 0x1000,
        virtual_address: 0x10_0000,
        file_size: 0x2000,
        memory_size: 0x3000,
        flags: "R E".into(),
        alignment: 0x1000,
    }
}

#[test]
fn fault_probe_disassembles_to_the_contract_ud2() {
    let instructions =
        disassemble_bytes(&probe_bytes(), PROBE, 6, &DisassemblerOptions::default(), &probe_symbols());
    assert!(!instructions.is_empty());
    assert_eq!(instructions[0].address, "0000000000100b39");
    assert_eq!(instructions[0].bytes, "55", "push rbp");
    assert_eq!(instructions[1].bytes, "4889e5", "mov rbp, rsp");
    assert_eq!(instructions[2].bytes, "0f0b", "ud2");
    assert_eq!(instructions[2].address, "0000000000100b3d");
    assert!(instructions[2].text.contains("ud2"), "got {}", instructions[2].text);
    assert_eq!(instructions.len(), 5, "the bytes hold five instructions");
}

#[test]
fn gas_syntax_is_available_for_the_objdump_default_comparison() {
    let instructions = disassemble_bytes(&probe_bytes(), PROBE, 3, &options(Syntax::Gas), &Vec::new());
    assert!(instructions[0].text.contains("%rbp"), "got {}", instructions[0].text);
}

#[test]
fn objdump_intel_uses_the_objdump_radix_and_branch_conventions() {
    let instructions =
        disassemble_bytes(&probe_bytes(), PROBE, 12, &options(Syntax::ObjdumpIntel), &Vec::new());
    let texts: Vec<&str> = instructions.iter().map(|i| i.text.as_str()).collect();
    assert_eq!(texts[0], "push rbp");
    assert_eq!(texts[1], "mov rbp,rsp");
    assert_eq!(texts[2], "ud2");
    assert_eq!(texts[3], "mov edi,0x101180");
    assert_eq!(texts[4], "call 0x1002f5");
    for text in &texts {
        assert!(!text.contains("0x0000000000"), "no leading zeros: {text}");
        assert!(!text.ends_with('h'), "no NASM suffix: {text}");
    }
}

#[test]
fn disassembling_a_non_mapped_address_is_not_found() {
    let err = slice_plan(&vec![text_segment()], 0xdead_beef_0000, "refkernel.elf").unwrap_err();
    assert_eq!(err.code, ErrorCode::NotFound);
    assert!(err.message.contains("not inside any file-backed segment"));
    assert_eq!(
        err.message,
        "address 0xdeadbeef0000 is not inside any file-backed segment of refkernel.elf"
    );
}

#[test]
fn symbol_attribution_uses_the_demangled_name() {
    let instructions =
        disassemble_bytes(&probe_bytes(), PROBE, 1, &DisassemblerOptions::default(), &probe_symbols());
    assert_eq!(instructions[0].symbol.as_deref(), Some("refkernel_fault_probe"));
    let mangled = vec![(0x1000u64, 0x1010u64, "_ZN6kernel4main17h0123456789abcdefE".to_string())];
    let named = disassemble_bytes(&[0x90], 0x1000, 1, &DisassemblerOptions::default(), &mangled);
    assert_eq!(named[0].symbol.as_deref(), Some("kernel::main"));
}

#[test]
fn with_source_returns_address_ranges_not_a_lone_line() {
    let instructions =
        disassemble_bytes(&probe_bytes(), PROBE, 24, &DisassemblerOptions::default(), &Vec::new());
    let line = |start: u64, end: u64, line: u32| LineRange {
        start,
        end,
        file: "kernel.c".into(),
        line,
        column: None,
        inlined_into: None,
    };
    let segments = vec![
        line(0x10_0b30, 0x10_0b39, 99),
        line(0x10_0b39, 0x10_0b40, 100),
        line(0x10_0b40, 0x10_0b50, 101),
        line(0x10_0c00, 0x10_0c10, 140),
    ];
    let view = disassembly_view(instructions, PROBE, &segments);
    assert_eq!(view.requested_address, PROBE);
    assert_eq!(view.start_address, PROBE);
    assert_eq!(view.source_rows.len(), 2);
    for row in &view.source_rows {
        assert!(row.addresses.start < row.addresses.end, "empty range");
        assert!(row.addresses.line > 0);
    }
    for pair in view.source_rows.windows(2) {
        assert!(pair[0].addresses.end <= pair[1].addresses.start);
    }
    let first = &view.source_rows[0];
    assert_eq!((first.addresses.start, first.addresses.end, first.addresses.line), (PROBE, 0x10_0b40, 100));
    assert_eq!(first.instruction_count, 4, "push, mov, ud2, mov");
    let second = &view.source_rows[1];
    assert_eq!((second.addresses.start, second.addresses.end), (0x10_0b40, 0x10_0b49));
    assert_eq!(second.instruction_count, 1, "the call");
    assert!(!second.inlined);
}

#[test]
fn an_inlined_range_is_marked_and_an_empty_span_has_no_rows() {
    let instructions =
        disassemble_bytes(&probe_bytes(), PROBE, 2, &DisassemblerOptions::default(), &Vec::new());
    let inlined = LineRange {
        start: 0x10_0000,
        end: 0x10_1000,
        file: "lib.h".into(),
        line: 7,
        column: Some(3),
        inlined_into: Some("helper".into()),
    };
    let view = disassembly_view(instructions, PROBE, &vec![inlined]);
    assert_eq!(view.source_rows.len(), 1);
    assert!(view.source_rows[0].inlined);
    assert_eq!((view.source_rows[0].addresses.start, view.source_rows[0].addresses.end), (PROBE, PROBE + 4));
    let empty = disassembly_view(Vec::new(), PROBE, &vec![]);
    assert!(empty.source_rows.is_empty());
    assert_eq!(empty.start_address, PROBE);
}

#[test]
fn undecodable_bytes_are_reported_as_bad_with_their_bytes() {
    let instructions =
        disassemble_bytes(&[0x06], 0x2000, 4, &DisassemblerOptions::default(), &Vec::new());
    assert_eq!(instructions[0].text, "(bad)");
    assert_eq!(instructions[0].address, "0000000000002000");
    assert_eq!(instructions[0].bytes, "06");
}

#[test]
fn the_byte_column_shows_question_marks_past_the_buffer() {
    assert_eq!(instruction_bytes_at(&[0xaa, 0xbb], 0x100, 0x101, 3), "bb????");
    assert_eq!(instruction_bytes_at(&[0xaa, 0xbb], 0x100, 0x100, 2), "aabb");
}

#[test]
fn a_relocated_image_is_shown_at_its_link_address() {
    let relocated = DisassemblerOptions { base_offset: 0x1000, ..DisassemblerOptions::default() };
    let instructions = disassemble_bytes(&[0x90], 0x10_1000, 1, &relocated, &Vec::new());
    assert_eq!(instructions[0].address, "0000000000100000");
    let without_bytes = DisassemblerOptions { bytes: false, ..DisassemblerOptions::default() };
    assert_eq!(disassemble_bytes(&[0x90], 0, 1, &without_bytes, &Vec::new())[0].bytes, "");
}

#[test]
fn the_slice_is_the_rest_of_the_segment_by_its_own_delta() {
    let s = text_segment();
    assert_eq!(slice_plan(&vec![s.clone()], 0x10_0b39, "k").unwrap(), (0x1b39, 0x2000 - 0xb39));
    let huge = SegmentInfo { file_size: 4 * MAX_DECODE_BYTES, ..s };
    assert_eq!(slice_plan(&vec![huge], 0x10_0000, "k").unwrap(), (0x1000, MAX_DECODE_BYTES));
}

#[test]
fn addresses_parse_as_hex_and_syntax_names_its_objdump_flag() {
    assert_eq!(parse_hex_address("0000000000100b39"), Some(0x10_0b39));
    assert_eq!(parse_hex_address("xyz"), None);
    assert_eq!(parse_hex_address(""), None);
    assert_eq!(Syntax::default(), Syntax::Intel);
    assert_eq!(Syntax::Intel.objdump_flag(), "-M intel");
    assert_eq!(Syntax::Gas.objdump_flag(), "(default AT&T)");
    let o = DisassemblerOptions::default();
    assert!(o.hex_prefix && o.bytes && o.symbols && o.base_offset == 0);
}
