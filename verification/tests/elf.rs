use princess::contract::ErrorCode;
use princess::elf::{
    build_id_hex, check_artifact_size, read_header_from, read_sections_from, read_segments_from,
    read_symbols_from, section_flag_letters, segment_flag_field, segment_type_name,
    symbol_kind_name, object_kind_name, SegmentInfo, MAX_ARTIFACT_BYTES,
};

/// A minimal ELF64 executable: the header and one `PT_LOAD` program header
/// (`R E`, file bytes 0x000..0x100 at 0x100000, 0x200 in memory).
fn tiny_elf() -> Vec<u8> {
    let mut b = vec![0u8; 0x100];
    b[0..4].copy_from_slice(b"\x7fELF");
    b[4] = 2; // ELFCLASS64
    b[5] = 1; // little-endian
    b[6] = 1; // EV_CURRENT
    b[16..18].copy_from_slice(&2u16.to_le_bytes()); // ET_EXEC
    b[18..20].copy_from_slice(&0x3eu16.to_le_bytes()); // x86-64
    b[20..24].copy_from_slice(&1u32.to_le_bytes());
    b[24..32].copy_from_slice(&0x10_0040u64.to_le_bytes()); // e_entry
    b[32..40].copy_from_slice(&64u64.to_le_bytes()); // e_phoff
    b[52..54].copy_from_slice(&64u16.to_le_bytes()); // e_ehsize
    b[54..56].copy_from_slice(&56u16.to_le_bytes()); // e_phentsize
    b[56..58].copy_from_slice(&1u16.to_le_bytes()); // e_phnum
    b[58..60].copy_from_slice(&64u16.to_le_bytes()); // e_shentsize
    let ph = 64;
    b[ph..ph + 4].copy_from_slice(&1u32.to_le_bytes()); // PT_LOAD
    b[ph + 4..ph + 8].copy_from_slice(&5u32.to_le_bytes()); // R + X
    b[ph + 8..ph + 16].copy_from_slice(&0u64.to_le_bytes()); // p_offset
    b[ph + 16..ph + 24].copy_from_slice(&0x10_0000u64.to_le_bytes()); // p_vaddr
    b[ph + 24..ph + 32].copy_from_slice(&0x10_0000u64.to_le_bytes()); // p_paddr
    b[ph + 32..ph + 40].copy_from_slice(&0x100u64.to_le_bytes()); // p_filesz
    b[ph + 40..ph + 48].copy_from_slice(&0x200u64.to_le_bytes()); // p_memsz
    b[ph + 48..ph + 56].copy_from_slice(&0x1000u64.to_le_bytes()); // p_align
    b
}

fn segment(vaddr: u64, offset: u64, filesz: u64, memsz: u64) -> SegmentInfo {
    SegmentInfo {
        kind: "LOAD".to_string(),
        file_offset: offset,
        virtual_address: vaddr,
        file_size: filesz,
        memory_size: memsz,
        flags: "R E".to_string(),
        alignment: 0x1000,
    }
}

#[test]
fn a_text_file_is_loudly_rejected() {
    let err = read_header_from("not-an-elf.bin", b"this is not an object file at all\n").unwrap_err();
    assert_eq!(err.code, ErrorCode::Internal);
    assert!(
        err.message.contains("not a parseable object file"),
        "message must name the reason, got: {}",
        err.message
    );
    assert!(err.message.starts_with("not-an-elf.bin is not a parseable object file: "));
    assert!(read_sections_from("x", b"garbage").is_err());
    assert!(read_segments_from("x", b"garbage").is_err());
    assert!(read_symbols_from("x", b"garbage").is_err());
}

#[test]
fn a_minimal_executable_reports_its_header_like_readelf() {
    let header = read_header_from("tiny.elf", &tiny_elf()).expect("header");
    assert_eq!(header.path, "tiny.elf");
    assert_eq!(header.format, "elf64");
    assert_eq!(header.kind, "EXEC", "readelf prints EXEC, not `Executable`");
    assert_eq!(header.architecture, "X86_64");
    assert_eq!(header.endianness, "little");
    assert_eq!(header.class, "ELFCLASS64");
    assert_eq!(header.entry_point, 0x10_0040);
    assert_eq!(header.section_count, 0);
    assert_eq!(header.segment_count, 1);
    assert_eq!(header.build_id, None, "no note means null, never a made-up hash");
}

#[test]
fn a_minimal_executable_reports_its_program_header() {
    let segments = read_segments_from("tiny.elf", &tiny_elf()).expect("segments");
    assert_eq!(segments, vec![SegmentInfo {
        kind: "LOAD".to_string(),
        file_offset: 0,
        virtual_address: 0x10_0000,
        file_size: 0x100,
        memory_size: 0x200,
        flags: "R E".to_string(),
        alignment: 0x1000,
    }]);
    assert!(read_sections_from("tiny.elf", &tiny_elf()).expect("sections").is_empty());
    assert!(read_symbols_from("tiny.elf", &tiny_elf()).expect("symbols").is_empty());
}

#[test]
fn segments_translate_their_own_way() {
    let a = segment(0x10_0000, 0x1000, 0x100, 0x200);
    let b = segment(0x20_0000, 0x3000, 0x80, 0x80);
    for s in [&a, &b] {
        let vaddr = s.virtual_address;
        assert_eq!(s.file_offset_for_vaddr(vaddr), Some(s.file_offset));
        assert!(s.has_file_bytes_for_vaddr(vaddr));
        assert!(!s.has_file_bytes_for_vaddr(vaddr + s.file_size), "past filesz is BSS");
    }
    assert_eq!(a.file_offset_for_vaddr(0x10_0010), Some(0x1010));
    assert_eq!(b.file_offset_for_vaddr(0x20_0010), Some(0x3010));
    assert_eq!(a.file_offset_for_vaddr(0x10_0150), None, "BSS tail has no file bytes");
    assert_eq!(a.file_offset_for_vaddr(0x0f_ffff), None);
}

#[test]
fn section_flags_render_like_readelf_letters() {
    assert_eq!(section_flag_letters(0x6), "AX");
    assert_eq!(section_flag_letters(0x3), "WA");
    assert_eq!(section_flag_letters(0), "");
    assert_eq!(section_flag_letters(0x30), "MS");
    assert_eq!(section_flag_letters(0x8000_0000 | 0x400 | 0x3), "WATE");
    assert_eq!(section_flag_letters(0x100), "", "OS-nonconforming has no letter");
}

#[test]
fn program_header_flags_and_types_render_like_readelf() {
    assert_eq!(segment_flag_field(5), "R E");
    assert_eq!(segment_flag_field(6), "RW ");
    assert_eq!(segment_flag_field(0), "   ");
    assert_eq!(segment_flag_field(7), "RWE");
    assert_eq!(segment_type_name(1), "LOAD");
    assert_eq!(segment_type_name(0x6474_e551), "GNU_STACK");
    assert_eq!(segment_type_name(0x6474_e554), "OTHER");
    assert_eq!(object_kind_name("Dynamic"), "DYN");
    assert_eq!(object_kind_name("Unknown"), "OTHER");
    assert_eq!(symbol_kind_name("Text"), "FUNC");
    assert_eq!(symbol_kind_name("Label"), "NOTYPE");
    assert_eq!(symbol_kind_name("Data"), "OBJECT");
}

#[test]
fn build_ids_are_hex_or_absent() {
    assert_eq!(build_id_hex(Some(vec![0xde, 0xad, 0x01])), Some("dead01".to_string()));
    assert_eq!(build_id_hex(Some(Vec::new())), None);
    assert_eq!(build_id_hex(None), None);
}

#[test]
fn artifacts_above_the_limit_are_refused_by_name() {
    assert!(check_artifact_size("k.elf", MAX_ARTIFACT_BYTES).is_ok());
    let err = check_artifact_size("k.elf", MAX_ARTIFACT_BYTES + 1).unwrap_err();
    assert_eq!(err.code, ErrorCode::Internal);
    assert_eq!(
        err.message,
        "k.elf is 536870913 bytes, above the 536870912-byte in-memory parse limit"
    );
    assert!(err.detail.unwrap().contains("never reads the whole file"));
}
