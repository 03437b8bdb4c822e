use princess::contract::ErrorCode;
use princess::doctor::{
    aborted_run, classify_required, finished_run, missing_names, parse_doctor_output, pick_root,
    shell_quote, split_tool_line, RootCandidate,
};

const REAL_OUTPUT: &str = "\
PrincessIDE toolchain doctor
workspace : /root/PrincessIDE
prefix    : /root/PrincessIDE/.toolchain/prefix
RUSTUP_HOME=/root/PrincessIDE/.toolchain/rustup
CARGO_HOME =/root/PrincessIDE/.toolchain/cargo
-------------------------------------------------------------------------------
TOOL                   STATUS     VERSION / PATH
-------------------------------------------------------------------------------
cargo                  ok         cargo 1.98.1 (797e8a9bc 2026-08-05)
                                  /root/PrincessIDE/.toolchain/cargo/bin/cargo
qemu-system-x86_64     ok         QEMU emulator version 7.2.22 (Debian 1:7.2+dfsg-7+deb12u18+b3)
                                  /root/PrincessIDE/.toolchain/prefix/usr/bin/qemu-system-x86_64
clangd-16 (LSP)        ok         Debian clangd version 16.0.6 (15~deb12u1)
                                  /root/PrincessIDE/.toolchain/prefix/usr/bin/clangd-16
bear (CDB)             ok         bear 3.1.1
                                  /root/PrincessIDE/.toolchain/bin/bear
clangd-16 (LSP)        ok         version matches /clangd version 16\\./
clangd-14 (legacy)     ok         version matches /clangd version 14\\./
clangd (P0 default)    ok         version matches /clangd version 14\\./
node                   ok         v24.20.0
                                  /root/node-v24.20.0-linux-x64/bin/node
pnpm                   ok         12.3.4
                                  /root/node-v24.20.0-linux-x64/bin/pnpm
-------------------------------------------------------------------------------
doctor: all required tools present (28 resolved).
";

const OUTPUT_WITH_MISSING: &str = "\
TOOL                   STATUS     VERSION / PATH
-------------------------------------------------------------------------------
cargo                  ok         cargo 1.98.1 (797e8a9bc 2026-08-05)
                                  /root/PrincessIDE/.toolchain/cargo/bin/cargo
nasm                   MISSING    (required: nasm)
node                   MISSING    (required: node)
-------------------------------------------------------------------------------
doctor: 1 tool(s) present, MISSING REQUIRED: nasm
";

const OUTPUT_WITH_WRONG_VERSION: &str = "\
clangd-16 (LSP)        ok         Debian clangd version 16.0.6
                                  /root/PrincessIDE/.toolchain/prefix/usr/bin/clangd-16
clangd-16 (LSP)        WRONG VER  Debian clangd version 14.0.6 (wanted /clangd version 16\\./)
-------------------------------------------------------------------------------
doctor: 0 tool(s) present, MISSING REQUIRED: clangd-16 (LSP) (wrong version)
";

#[test]
fn parses_two_line_records() {
    let tools = parse_doctor_output(REAL_OUTPUT);
    let cargo = tools.iter().find(|t| t.name == "cargo").expect("cargo row");
    assert_eq!(cargo.status, "ok");
    assert_eq!(cargo.version.as_deref(), Some("cargo 1.98.1 (797e8a9bc 2026-08-05)"));
    assert_eq!(cargo.path.as_deref(), Some("/root/PrincessIDE/.toolchain/cargo/bin/cargo"));
    assert!(cargo.available);
    assert!(cargo.checks.is_empty());

    let qemu = tools.iter().find(|t| t.name == "qemu-system-x86_64").expect("qemu row");
    assert_eq!(
        qemu.path.as_deref(),
        Some("/root/PrincessIDE/.toolchain/prefix/usr/bin/qemu-system-x86_64")
    );
    assert!(qemu.version.as_deref().unwrap().starts_with("QEMU emulator version 7.2.22"));
}

#[test]
fn handles_tool_names_containing_spaces() {
    let tools = parse_doctor_output(REAL_OUTPUT);
    let clangd16 = tools.iter().find(|t| t.name == "clangd-16 (LSP)").expect("clangd-16 row");
    assert_eq!(clangd16.status, "ok");
    assert_eq!(clangd16.version.as_deref(), Some("Debian clangd version 16.0.6 (15~deb12u1)"));
    assert_eq!(clangd16.path.as_deref(), Some("/root/PrincessIDE/.toolchain/prefix/usr/bin/clangd-16"));

    let bear = tools.iter().find(|t| t.name == "bear (CDB)").expect("bear row");
    assert_eq!(bear.path.as_deref(), Some("/root/PrincessIDE/.toolchain/bin/bear"));
    assert!(!tools.iter().any(|t| t.name == "bear"));
}

#[test]
fn merges_verification_rows_into_the_tool_they_check() {
    let tools = parse_doctor_output(REAL_OUTPUT);
    let clangd16 = tools.iter().find(|t| t.name == "clangd-16 (LSP)").unwrap();
    assert_eq!(clangd16.checks, vec!["version matches /clangd version 16\\./".to_string()]);
    assert_eq!(tools.iter().filter(|t| t.name == "clangd-16 (LSP)").count(), 1);

    let legacy = tools.iter().find(|t| t.name == "clangd-14 (legacy)").unwrap();
    assert_eq!(legacy.checks.len(), 1);
    assert!(legacy.version.is_none(), "a check is not a version string");
    assert!(legacy.path.is_none(), "doctor did not print a path for a check row");
    assert!(legacy.available);
}

#[test]
fn headers_and_separators_are_not_tools() {
    let tools = parse_doctor_output(REAL_OUTPUT);
    for bad in ["TOOL", "STATUS", "workspace", "doctor:", "PrincessIDE"] {
        assert!(!tools.iter().any(|t| t.name == bad), "{bad} parsed as a tool");
    }
}

#[test]
fn missing_tools_have_no_path_or_version() {
    let mut tools = parse_doctor_output(OUTPUT_WITH_MISSING);
    classify_required(&mut tools, 1);
    let nasm = tools.iter().find(|t| t.name == "nasm").expect("nasm row");
    assert_eq!(nasm.status, "MISSING");
    assert!(!nasm.available);
    assert_eq!(nasm.version, None);
    assert_eq!(nasm.path, None);
    assert!(nasm.required);
    assert_eq!(missing_names(&tools), vec!["nasm".to_string()]);
}

#[test]
fn doctor_exit_code_decides_requiredness_for_missing_rows() {
    let mut tools = parse_doctor_output(OUTPUT_WITH_MISSING);
    classify_required(&mut tools, 0);
    let node = tools.iter().find(|t| t.name == "node").unwrap();
    assert!(!node.available);
    assert!(!node.required, "with exit code 0 nothing required can be missing");
    assert!(missing_names(&tools).is_empty());

    let mut tools = parse_doctor_output(OUTPUT_WITH_MISSING);
    classify_required(&mut tools, 1);
    assert!(!tools.iter().find(|t| t.name == "node").unwrap().required);
    assert!(tools.iter().find(|t| t.name == "nasm").unwrap().required);
}

#[test]
fn a_wrong_version_is_visible_and_marks_the_tool_unavailable() {
    let mut tools = parse_doctor_output(OUTPUT_WITH_WRONG_VERSION);
    classify_required(&mut tools, 1);
    let row = tools.iter().find(|t| t.name == "clangd-16 (LSP)").expect("row");
    assert!(!row.available, "a WRONG VER row must not read as available");
    assert_eq!(row.checks.len(), 1);
    assert!(row.checks[0].contains("wanted /clangd version 16"));
    assert_eq!(missing_names(&tools), vec!["clangd-16 (LSP)".to_string()]);
}

#[test]
fn long_tool_names_do_not_shift_the_parse() {
    let line = "a-really-long-tool-name-exceeding-22 ok        1.2.3\n                                                 /usr/bin/x\n";
    let tools = parse_doctor_output(line);
    assert_eq!(tools.len(), 1);
    assert_eq!(tools[0].name, "a-really-long-tool-name-exceeding-22");
    assert_eq!(tools[0].version.as_deref(), Some("1.2.3"));
    assert_eq!(tools[0].path.as_deref(), Some("/usr/bin/x"));
}

#[test]
fn a_value_containing_the_word_ok_is_not_a_status() {
    let line = "weird                  ok        this tool is broken ok?\n";
    let tools = parse_doctor_output(line);
    assert_eq!(tools.len(), 1);
    assert_eq!(tools[0].name, "weird");
    assert_eq!(tools[0].version.as_deref(), Some("this tool is broken ok?"));
}

#[test]
fn pick_root_reports_every_candidate_it_tried() {
    let bogus = "/tmp/princesside-p3-does-not-exist".to_string();
    let candidates = vec![
        RootCandidate { shown: bogus.clone(), canonical: None, has_scripts: false },
        RootCandidate { shown: "/definitely/not/here".to_string(), canonical: None, has_scripts: false },
    ];
    let failure = pick_root(candidates).expect_err("no candidate is a workspace");
    assert_eq!(failure.code, ErrorCode::NotFound);
    assert_eq!(failure.code.as_str(), "E_NOT_FOUND");
    assert!(failure.detail.contains(&bogus), "{}", failure.detail);
    assert!(failure.detail.contains("/definitely/not/here"), "{}", failure.detail);
    assert!(failure.detail.contains("PRINCESSIDE_ROOT"), "{}", failure.detail);
}

#[test]
fn pick_root_takes_the_first_real_workspace() {
    let candidates = vec![
        RootCandidate { shown: "/a".to_string(), canonical: Some("/a".to_string()), has_scripts: false },
        RootCandidate { shown: "./b".to_string(), canonical: Some("/work/b".to_string()), has_scripts: true },
        RootCandidate { shown: "/c".to_string(), canonical: Some("/c".to_string()), has_scripts: true },
    ];
    assert_eq!(pick_root(candidates).unwrap(), "/work/b");

    let failure = pick_root(vec![RootCandidate {
        shown: "/a".to_string(),
        canonical: Some("/real/a".to_string()),
        has_scripts: false,
    }])
    .unwrap_err();
    assert_eq!(failure.message, "PrincessIDE workspace root not found");
    assert_eq!(
        failure.detail,
        "looked for a directory containing scripts/doctor.sh + scripts/env.sh.\ntried:\n  /real/a (no scripts/doctor.sh)\nset PRINCESSIDE_ROOT to override."
    );
}

#[test]
fn split_tool_line_ignores_preamble_and_path_lines() {
    let owned = |t: (&str, &str, &str)| Some((t.0.to_string(), t.1.to_string(), t.2.to_string()));
    assert_eq!(split_tool_line("workspace : /root/PrincessIDE"), None);
    assert_eq!(split_tool_line("TOOL                   STATUS     VERSION / PATH"), None);
    assert_eq!(split_tool_line("                                  /usr/bin/gcc"), None);
    assert_eq!(
        split_tool_line("gcc                    ok         gcc (Debian 12.2.0-14+deb12u1) 12.2.0"),
        owned(("gcc", "ok", "gcc (Debian 12.2.0-14+deb12u1) 12.2.0"))
    );
}

#[test]
fn the_first_marker_from_column_twenty_is_the_status() {
    let row = |name: &str, status: &str, value: &str| format!("{:<22} {:<10} {}", name, status, value);
    let owned = |t: (&str, &str, &str)| Some((t.0.to_string(), t.1.to_string(), t.2.to_string()));
    assert_eq!(
        split_tool_line(&row("gdb", "WRONG VER", "gdb 10 ok (wanted 12)")),
        owned(("gdb", "WRONG VER", "gdb 10 ok (wanted 12)"))
    );
    assert_eq!(
        split_tool_line(&("tool".to_string() + &" ".repeat(19) + "ok" + &" ".repeat(9) + "see MISSING docs")),
        owned(("tool", "ok", "see MISSING docs"))
    );
    assert_eq!(
        split_tool_line(&row("nasm", "MISSING", "(required: nasm)")),
        owned(("nasm", "MISSING", "(required: nasm)"))
    );
    assert_eq!(
        split_tool_line(&row("bear ok (CDB)", "ok", "bear 3.0.21")),
        owned(("bear ok (CDB)", "ok", "bear 3.0.21"))
    );
}

#[test]
fn finished_and_aborted_runs_carry_what_was_observed() {
    let run = finished_run(1, "bash scripts/doctor.sh".to_string(), OUTPUT_WITH_MISSING.to_string(), String::new());
    assert_eq!(run.exit_code, 1);
    assert_eq!(run.missing, vec!["nasm".to_string()]);
    assert_eq!(run.tools.len(), 3);
    assert_eq!(run.stdout, OUTPUT_WITH_MISSING);

    let aborted = aborted_run("bash scripts/doctor.sh".to_string(), "cancelled".to_string());
    assert_eq!(aborted.exit_code, -1);
    assert!(aborted.tools.is_empty());
    assert!(aborted.missing.is_empty());
    assert_eq!(aborted.stderr, "cancelled");
}

#[test]
fn shell_quote_escapes_single_quotes() {
    assert_eq!(shell_quote("/root/ws"), "'/root/ws'");
    assert_eq!(shell_quote("/a b/it's"), "'/a b/it'\\''s'");
    assert_eq!(shell_quote(""), "''");
}
