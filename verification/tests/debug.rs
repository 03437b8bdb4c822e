use princess::contract::ErrorCode;
use princess::debug::{
    attach_target, breakpoint_args_missing, set_breakpoints, BreakpointRequest,
    DEFAULT_DISASSEMBLE_COUNT, DEFAULT_READ_COUNT, DEFAULT_STUB_PORT,
};

#[test]
fn an_attach_without_arguments_goes_to_the_local_stub() {
    let t = attach_target(None, None, None);
    assert_eq!((t.host.as_str(), t.port, t.symbols.as_str()), ("127.0.0.1", 1234, ""));
    let t = attach_target(Some("10.0.0.2".into()), Some(9000), Some("k.elf".into()));
    assert_eq!((t.host.as_str(), t.port, t.symbols.as_str()), ("10.0.0.2", 9000, "k.elf"));
    assert_eq!(DEFAULT_STUB_PORT, 1234);
    assert_eq!((DEFAULT_READ_COUNT, DEFAULT_DISASSEMBLE_COUNT), (64, 16));
}

#[test]
fn breakpoints_are_numbered_from_one_and_located_by_file_and_line() {
    let answered = set_breakpoints(
        "kernel.c",
        vec![
            BreakpointRequest { line: Some(100), condition: None },
            BreakpointRequest { line: None, condition: Some("x > 1".into()) },
        ],
    );
    assert_eq!(answered.len(), 2);
    assert_eq!((answered[0].id, answered[0].location.as_str(), answered[0].line), (1, "kernel.c:100", 100));
    assert!(answered[0].verified);
    assert_eq!(answered[0].condition, None);
    assert_eq!((answered[1].id, answered[1].location.as_str(), answered[1].line), (2, "kernel.c:0", 0));
    assert_eq!(answered[1].condition.as_deref(), Some("x > 1"));
    assert!(set_breakpoints("a.c", Vec::new()).is_empty());
}

#[test]
fn a_breakpoint_request_without_its_fields_is_invalid_config() {
    let f = breakpoint_args_missing("{\"file\":1}");
    assert_eq!(f.code, ErrorCode::InvalidConfig);
    assert_eq!(f.message, "princess:debug:setBreakpoints requires { file: string, breakpoints: [...]");
    assert_eq!(f.detail, "received args: {\"file\":1}");
}
