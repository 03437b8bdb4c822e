use princess::lsp::{command_display, detect_language, frame_message, server_command, server_id, LspFrameDecoder};

#[test]
fn the_manifest_language_picks_the_server() {
    assert_eq!(detect_language("[project]\nname = \"k\"\nlanguage = \"java\"\n"), "java");
    assert_eq!(detect_language("language=c\n"), "c");
    assert_eq!(detect_language("languages = \"\"\nlanguage = rust\n"), "rust");
    assert_eq!(detect_language("[project]\nname = \"k\"\n"), "c");
    assert_eq!(detect_language(""), "c");
}

#[test]
fn clangd_is_pointed_at_the_project_root_and_jdtls_gets_no_arguments() {
    let (bin, args) = server_command("c", "/work/k", "clangd-16".to_string(), "jdtls".to_string());
    assert_eq!(bin, "clangd-16");
    assert_eq!(
        args,
        vec![
            "--compile-commands-dir=/work/k".to_string(),
            "--resource-dir=/work/k".to_string(),
            "--pch-storage=memory".to_string(),
            "--log=error".to_string(),
            "-j=2".to_string(),
        ]
    );
    let (bin, args) = server_command("java", "/work/j", "clangd-16".to_string(), "/opt/jdtls".to_string());
    assert_eq!(bin, "/opt/jdtls");
    assert!(args.is_empty());
    assert_eq!(command_display("jdtls", &args), "jdtls ");
    assert_eq!(command_display("clangd-16", &vec!["-j=2".to_string(), "--log=error".to_string()]), "clangd-16 -j=2 --log=error");
}

#[test]
fn server_ids_are_hex_counters() {
    assert_eq!(server_id(1), "lsp-0001");
    assert_eq!(server_id(0x1f), "lsp-001f");
    assert_eq!(server_id(0x12345), "lsp-12345");
}

#[test]
fn outgoing_messages_are_framed_by_byte_length() {
    let framed = frame_message("{\"id\":1,\"x\":\"é\"}");
    assert_eq!(framed, b"Content-Length: 17\r\n\r\n{\"id\":1,\"x\":\"\xc3\xa9\"}".to_vec());
}

#[test]
fn incoming_frames_are_split_and_reassembled() {
    let mut decoder = LspFrameDecoder::new();
    assert!(decoder.push(b"Content-Length: 7\r\nContent-Type: x\r\n\r\n{\"a\"").is_empty());
    assert_eq!(decoder.push(b":1}Content-Length: 2\r\n\r\n{}"), vec!["{\"a\":1}".to_string(), "{}".to_string()]);
    let mut whole = LspFrameDecoder::new();
    let all = b"Content-Length: 7\r\n\r\n{\"a\":1}Content-Length: 2\r\n\r\n{}";
    let mut byte_by_byte = Vec::new();
    for byte in all.iter() {
        byte_by_byte.extend(whole.push(&[*byte]));
    }
    assert_eq!(byte_by_byte, vec!["{\"a\":1}".to_string(), "{}".to_string()]);
}

#[test]
fn a_header_block_without_a_length_is_skipped() {
    let mut decoder = LspFrameDecoder::new();
    let msgs = decoder.push(b"X-Junk: 1\n\nContent-Length: 3\n\nabc");
    assert_eq!(msgs, vec!["abc".to_string()]);
    assert!(!decoder.is_broken());
}

#[test]
fn a_header_line_that_is_not_utf8_ends_the_stream() {
    let mut decoder = LspFrameDecoder::new();
    assert!(decoder.push(b"Content-Length: 2\xff\r\n\r\n{}").is_empty());
    assert!(decoder.is_broken());
    assert!(decoder.push(b"Content-Length: 2\r\n\r\n{}").is_empty());
}
