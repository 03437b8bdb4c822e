//! The frozen IPC contract: the command names, the closed set of error
//! codes, command routing, and the structured failure every layer returns.

use vstd::prelude::*;
use crate::scan::{chars_of, equals_str};

verus! {

broadcast use vstd::string::group_string_axioms;

/// Every command name of the v1 set, in contract order.
pub open spec fn contract_command_list() -> Seq<Seq<char>> {
    seq![
        "princess:project:open"@,
        "princess:project:validate"@,
        "princess:tools:detect"@,
        "princess:build:start"@,
        "princess:build:cancel"@,
        "princess:run:start"@,
        "princess:run:stop"@,
        "princess:debug:attach"@,
        "princess:debug:setBreakpoints"@,
        "princess:debug:continue"@,
        "princess:debug:stepOver"@,
        "princess:debug:stepInto"@,
        "princess:debug:stackTrace"@,
        "princess:debug:scopes"@,
        "princess:debug:variables"@,
        "princess:debug:readMemory"@,
        "princess:debug:writeMemory"@,
        "princess:debug:disassemble"@,
        "princess:debug:registers"@,
        "princess:op:cancel"@,
        "princess:op:replay"@,
        "princess:lsp:start"@,
        "princess:lsp:send"@,
        "princess:lsp:stop"@,
    ]
}

/// The commands the shell implements end to end.  The `lsp` commands are
/// deliberately absent: they answer `E_NOT_FOUND` rather than pretend.
pub open spec fn implemented_command_list() -> Seq<Seq<char>> {
    seq!["princess:tools:detect"@, "princess:op:cancel"@, "princess:op:replay"@]
}

/// The closed set of error codes.
pub open spec fn error_code_list() -> Seq<Seq<char>> {
    seq![
        "E_TOOLCHAIN_MISSING"@,
        "E_BUILD_FAILED"@,
        "E_QEMU_FAILED"@,
        "E_TIMEOUT"@,
        "E_NOT_FOUND"@,
        "E_INVALID_CONFIG"@,
        "E_SANDBOX_DENIED"@,
        "E_CANCELLED"@,
        "E_AI_UNAVAILABLE"@,
        "E_INTERNAL"@,
    ]
}

/// The views of a list of string slices.
pub open spec fn str_views(v: Seq<&'static str>) -> Seq<Seq<char>> {
    Seq::new(v.len(), |i: int| v[i]@)
}

/// Every command name of the v1 set, in contract order.
pub fn contract_commands() -> (r: Vec<&'static str>)
    ensures
        str_views(r@) == contract_command_list(),
{
    let r = vec![
        "princess:project:open",
        "princess:project:validate",
        "princess:tools:detect",
        "princess:build:start",
        "princess:build:cancel",
        "princess:run:start",
        "princess:run:stop",
        "princess:debug:attach",
        "princess:debug:setBreakpoints",
        "princess:debug:continue",
        "princess:debug:stepOver",
        "princess:debug:stepInto",
        "princess:debug:stackTrace",
        "princess:debug:scopes",
        "princess:debug:variables",
        "princess:debug:readMemory",
        "princess:debug:writeMemory",
        "princess:debug:disassemble",
        "princess:debug:registers",
        "princess:op:cancel",
        "princess:op:replay",
        "princess:lsp:start",
        "princess:lsp:send",
        "princess:lsp:stop",
    ];
    assert(str_views(r@) =~= contract_command_list());
    r
}

/// The commands implemented end to end.
pub fn implemented_commands() -> (r: Vec<&'static str>)
    ensures
        str_views(r@) == implemented_command_list(),
{
    let r = vec!["princess:tools:detect", "princess:op:cancel", "princess:op:replay"];
    assert(str_views(r@) =~= implemented_command_list());
    r
}

/// The closed set of error codes, in contract order.
pub fn error_codes() -> (r: Vec<&'static str>)
    ensures
        str_views(r@) == error_code_list(),
{
    let r = vec![
        "E_TOOLCHAIN_MISSING",
        "E_BUILD_FAILED",
        "E_QEMU_FAILED",
        "E_TIMEOUT",
        "E_NOT_FOUND",
        "E_INVALID_CONFIG",
        "E_SANDBOX_DENIED",
        "E_CANCELLED",
        "E_AI_UNAVAILABLE",
        "E_INTERNAL",
    ];
    assert(str_views(r@) =~= error_code_list());
    r
}

/// A code of the closed set.
#[derive(Debug, Clone, Copy, PartialEq, Eq, Structural)]
pub enum ErrorCode {
    ToolchainMissing,
    BuildFailed,
    QemuFailed,
    Timeout,
    NotFound,
    InvalidConfig,
    SandboxDenied,
    Cancelled,
    AiUnavailable,
    Internal,
}

/// Position of a code in the contract's list.
pub open spec fn error_code_index(code: ErrorCode) -> int {
    match code {
        ErrorCode::ToolchainMissing => 0,
        ErrorCode::BuildFailed => 1,
        ErrorCode::QemuFailed => 2,
        ErrorCode::Timeout => 3,
        ErrorCode::NotFound => 4,
        ErrorCode::InvalidConfig => 5,
        ErrorCode::SandboxDenied => 6,
        ErrorCode::Cancelled => 7,
        ErrorCode::AiUnavailable => 8,
        ErrorCode::Internal => 9,
    }
}

/// The wire spelling of a code.
pub open spec fn spec_error_code_str(code: ErrorCode) -> Seq<char> {
    error_code_list()[error_code_index(code)]
}

impl ErrorCode {
    /// The wire spelling (`E_...`).
    pub fn as_str(self) -> (s: &'static str)
        ensures
            s@ == spec_error_code_str(self),
    {
        match self {
            ErrorCode::ToolchainMissing => "E_TOOLCHAIN_MISSING",
            ErrorCode::BuildFailed => "E_BUILD_FAILED",
            ErrorCode::QemuFailed => "E_QEMU_FAILED",
            ErrorCode::Timeout => "E_TIMEOUT",
            ErrorCode::NotFound => "E_NOT_FOUND",
            ErrorCode::InvalidConfig => "E_INVALID_CONFIG",
            ErrorCode::SandboxDenied => "E_SANDBOX_DENIED",
            ErrorCode::Cancelled => "E_CANCELLED",
            ErrorCode::AiUnavailable => "E_AI_UNAVAILABLE",
            ErrorCode::Internal => "E_INTERNAL",
        }
    }
}

/// Each code has its own spelling: the map from codes to the wire list is
/// one-to-one and onto.
pub proof fn law_error_codes_are_the_closed_set(a: ErrorCode, b: ErrorCode)
    ensures
        0 <= error_code_index(a) < error_code_list().len(),
        error_code_index(a) == error_code_index(b) ==> a == b,
        spec_error_code_str(a) == error_code_list()[error_code_index(a)],
{
}

/// Where a command name routes to.
#[derive(Debug, PartialEq, Eq)]
pub enum Route {
    /// Implemented end to end.
    Implemented(&'static str),
    /// In the contract, owned by a later phase.
    ContractNotImplemented,
    /// Not in the frozen v1 set at all.
    Unknown,
}

/// Where `cmd` routes: implemented, in the contract only, or unknown.
pub open spec fn spec_route(cmd: Seq<char>) -> int {
    if implemented_command_list().contains(cmd) {
        0
    } else if contract_command_list().contains(cmd) {
        1
    } else {
        2
    }
}

fn position_in(list: &Vec<&'static str>, cmd: &Vec<char>) -> (r: Option<usize>)
    ensures
        match r {
            Some(i) => i < list.len() && list@[i as int]@ == cmd@,
            None => !str_views(list@).contains(cmd@),
        },
{
    let mut i: usize = 0;
    while i < list.len()
        invariant
            i <= list.len(),
            forall|k: int| 0 <= k < i ==> list@[k]@ != cmd@,
        decreases list.len() - i,
    {
        if equals_str(cmd, list[i]) {
            return Some(i);
        }
        i = i + 1;
    }
    assert forall|k: int| 0 <= k < list.len() implies str_views(list@)[k] != cmd@ by {}
    None
}

/// Routes a contract command name.  Total over the contract: a name from the
/// contract that is not implemented yet routes to `ContractNotImplemented`,
/// anything outside it to `Unknown`.
pub fn classify(cmd: &str) -> (r: Route)
    ensures
        match r {
            Route::Implemented(name) => spec_route(cmd@) == 0 && name@ == cmd@,
            Route::ContractNotImplemented => spec_route(cmd@) == 1,
            Route::Unknown => spec_route(cmd@) == 2,
        },
{
    let chars = chars_of(cmd);
    let implemented = implemented_commands();
    match position_in(&implemented, &chars) {
        Some(i) => {
            assert(str_views(implemented@)[i as int] == cmd@);
            return Route::Implemented(implemented[i]);
        },
        None => {},
    }
    let contract = contract_commands();
    match position_in(&contract, &chars) {
        Some(i) => {
            assert(str_views(contract@)[i as int] == cmd@);
            Route::ContractNotImplemented
        },
        None => Route::Unknown,
    }
}

/// Routing is total over the contract: no contract command is unknown, and
/// exactly the implemented ones route to `Implemented`.
pub proof fn law_contract_commands_always_route(cmd: Seq<char>)
    requires
        contract_command_list().contains(cmd),
    ensures
        spec_route(cmd) != 2,
        spec_route(cmd) == 0 <==> implemented_command_list().contains(cmd),
{
}

/// The workspace's structured failure: a code of the closed set, a message
/// for the user, and the evidence (stderr, the raw reply) when there is any.
#[derive(Debug, Clone, PartialEq, Eq)]
pub struct PrincessError {
    pub code: ErrorCode,
    pub message: String,
    pub detail: Option<String>,
}

/// The content of a [`PrincessError`].
pub struct Failure {
    pub code: ErrorCode,
    pub message: Seq<char>,
    pub detail: Option<Seq<char>>,
}

impl View for PrincessError {
    type V = Failure;

    open spec fn view(&self) -> Failure {
        Failure {
            code: self.code,
            message: self.message@,
            detail: match self.detail {
                Some(d) => Some(d@),
                None => None,
            },
        }
    }
}

impl PrincessError {
    /// A failure with no detail yet.
    pub fn new(code: ErrorCode, message: String) -> (e: Self)
        ensures
            e.code == code,
            e.message@ == message@,
            e.detail is None,
    {
        PrincessError { code, message, detail: None }
    }

    /// An `E_INTERNAL` failure.
    pub fn internal(message: String) -> (e: Self)
        ensures
            e.code == ErrorCode::Internal,
            e.message@ == message@,
            e.detail is None,
    {
        PrincessError { code: ErrorCode::Internal, message, detail: None }
    }

    /// An `E_NOT_FOUND` failure.
    pub fn not_found(message: String) -> (e: Self)
        ensures
            e.code == ErrorCode::NotFound,
            e.message@ == message@,
            e.detail is None,
    {
        PrincessError { code: ErrorCode::NotFound, message, detail: None }
    }

    /// The same failure carrying `detail` as its evidence.
    pub fn with_detail(self, detail: String) -> (e: Self)
        ensures
            e.code == self.code,
            e.message@ == self.message@,
            e.detail matches Some(d) && d@ == detail@,
    {
        PrincessError { code: self.code, message: self.message, detail: Some(detail) }
    }
}

/// A structured failure as the shell puts it on the wire: code, message and
/// the verbatim detail.
#[derive(Debug, Clone)]
pub struct IpcFailure {
    pub code: ErrorCode,
    pub message: String,
    pub detail: String,
}

impl IpcFailure {
    /// Builds a failure.
    pub fn new(code: ErrorCode, message: String, detail: String) -> (f: Self)
        ensures
            f.code == code,
            f.message@ == message@,
            f.detail@ == detail@,
    {
        IpcFailure { code, message, detail }
    }
}

} // verus!
