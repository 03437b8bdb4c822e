use princess::contract::{classify, contract_commands, error_codes, implemented_commands, ErrorCode, Route};

#[test]
fn every_contract_command_routes_somewhere_explicit() {
    for cmd in contract_commands() {
        match classify(cmd) {
            Route::Implemented(_) | Route::ContractNotImplemented => {}
            Route::Unknown => panic!("{cmd} from the contract classifies as Unknown"),
        }
    }
}

#[test]
fn implemented_list_is_a_subset_of_the_contract() {
    for cmd in implemented_commands() {
        assert_eq!(classify(cmd), Route::Implemented(cmd));
    }
}

#[test]
fn non_contract_names_are_rejected() {
    for cmd in ["princess:lsp:bridge", "princess:lsp:restart", "princess:tools:detect ", "TOOLS_DETECT", ""] {
        assert_eq!(classify(cmd), Route::Unknown, "{cmd} must not route");
    }
}

#[test]
fn lsp_commands_are_contract_not_implemented_in_p3() {
    for cmd in ["princess:lsp:start", "princess:lsp:send", "princess:lsp:stop"] {
        assert_eq!(classify(cmd), Route::ContractNotImplemented, "{cmd}");
    }
}

#[test]
fn p3_implements_tools_detect_and_op_cancel_and_op_replay() {
    assert_eq!(classify("princess:tools:detect"), Route::Implemented("princess:tools:detect"));
    assert_eq!(classify("princess:op:cancel"), Route::Implemented("princess:op:cancel"));
    assert_eq!(classify("princess:op:replay"), Route::Implemented("princess:op:replay"));
    assert_eq!(classify("princess:build:start"), Route::ContractNotImplemented);
    assert_eq!(classify("princess:debug:attach"), Route::ContractNotImplemented);
}

#[test]
fn error_codes_are_unique_and_prefixed() {
    let mut seen = std::collections::HashSet::new();
    for code in error_codes() {
        assert!(code.starts_with("E_"), "{code} must start with E_");
        assert!(seen.insert(code), "duplicate error code {code}");
    }
    assert_eq!(seen.len(), 10, "the contract lists exactly 10 error codes");
}

#[test]
fn implemented_commands_are_part_of_the_contract() {
    let contract = contract_commands();
    for cmd in implemented_commands() {
        assert!(contract.contains(&cmd), "{cmd} is not in the contract");
    }
}

#[test]
fn contract_commands_are_unique_and_namespaced() {
    let mut seen = std::collections::HashSet::new();
    for cmd in contract_commands() {
        assert!(cmd.starts_with("princess:"), "{cmd} must be namespaced");
        assert_eq!(cmd.matches(':').count(), 2, "{cmd} must be princess:<domain>:<action>");
        assert!(seen.insert(cmd), "duplicate command {cmd}");
    }
    assert_eq!(seen.len(), 24, "the v1 set is 21 commands + 3 lsp commands");
}

#[test]
fn error_code_strings_follow_the_contract_order() {
    let all = [
        ErrorCode::ToolchainMissing,
        ErrorCode::BuildFailed,
        ErrorCode::QemuFailed,
        ErrorCode::Timeout,
        ErrorCode::NotFound,
        ErrorCode::InvalidConfig,
        ErrorCode::SandboxDenied,
        ErrorCode::Cancelled,
        ErrorCode::AiUnavailable,
        ErrorCode::Internal,
    ];
    let listed = error_codes();
    for (code, text) in all.iter().zip(listed.iter()) {
        assert_eq!(code.as_str(), *text);
    }
    assert_eq!(ErrorCode::SandboxDenied.as_str(), "E_SANDBOX_DENIED");
}
