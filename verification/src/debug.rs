//! The debug commands' decisions: where an attach goes when the caller
//! names nothing, and how a breakpoint request is answered (numbered from
//! one, in request order, located as `file:line`).

use vstd::prelude::*;
use crate::contract::{ErrorCode, IpcFailure};
use crate::text::{push_decimal, push_str, spec_decimal};

verus! {

broadcast use vstd::string::group_string_axioms;

/// The GDB stub port an attach uses by default.
pub const DEFAULT_STUB_PORT: u64 = 1234;

/// Bytes a memory read covers by default.
pub const DEFAULT_READ_COUNT: u64 = 64;

/// Instructions a disassembly covers by default.
pub const DEFAULT_DISASSEMBLE_COUNT: u64 = 16;

/// Where an attach goes.
#[derive(Debug, Clone, PartialEq, Eq)]
pub struct AttachTarget {
    pub host: String,
    pub port: u64,
    pub symbols: String,
}

fn text_of(s: &str) -> (r: String)
    ensures
        r@ == s@,
{
    let mut r = String::new();
    push_str(&mut r, s);
    r
}

/// The attach target: what the caller named, else `127.0.0.1`, port 1234,
/// no symbol file.
pub fn attach_target(host: Option<String>, port: Option<u64>, symbols: Option<String>) -> (t:
    AttachTarget)
    ensures
        t.host@ == match host {
            Some(h) => h@,
            None => "127.0.0.1"@,
        },
        t.port == match port {
            Some(p) => p,
            None => 1234,
        },
        t.symbols@ == match symbols {
            Some(s) => s@,
            None => Seq::empty(),
        },
{
    let host = match host {
        Some(h) => h,
        None => text_of("127.0.0.1"),
    };
    let port = match port {
        Some(p) => p,
        None => DEFAULT_STUB_PORT,
    };
    let symbols = match symbols {
        Some(s) => s,
        None => String::new(),
    };
    AttachTarget { host, port, symbols }
}

/// One requested breakpoint: its line (if given) and condition.
#[derive(Debug, Clone, PartialEq, Eq)]
pub struct BreakpointRequest {
    pub line: Option<u64>,
    pub condition: Option<String>,
}

/// One answered breakpoint.
#[derive(Debug, Clone, PartialEq, Eq)]
pub struct Breakpoint {
    /// 1-based position in the request.
    pub id: u64,
    pub verified: bool,
    /// `file:line`.
    pub location: String,
    /// The requested line, 0 when none was given.
    pub line: u64,
    pub condition: Option<String>,
}

/// `b` answers request number `i` (0-based) `r` on `file`.
pub open spec fn answers(b: Breakpoint, i: int, r: BreakpointRequest, file: Seq<char>) -> bool {
    let line = match r.line {
        Some(l) => l,
        None => 0,
    };
    &&& b.id == i + 1
    &&& b.verified
    &&& b.line == line
    &&& b.location@ == file + ":"@ + spec_decimal(line as nat)
    &&& match (b.condition, r.condition) {
        (Some(x), Some(y)) => x@ == y@,
        (None, None) => true,
        _ => false,
    }
}

/// Answers a breakpoint request on `file`, one breakpoint per entry, in
/// order.
pub fn set_breakpoints(file: &str, requests: Vec<BreakpointRequest>) -> (r: Vec<Breakpoint>)
    requires
        requests@.len() < u64::MAX,
    ensures
        r@.len() == requests@.len(),
        forall|i: int| 0 <= i < r@.len() ==> answers(#[trigger] r@[i], i, requests@[i], file@),
{
    let mut out: Vec<Breakpoint> = Vec::new();
    let mut i: usize = 0;
    while i < requests.len()
        invariant
            i <= requests@.len(),
            requests@.len() < u64::MAX,
            out@.len() == i,
            forall|j: int| 0 <= j < i ==> answers(#[trigger] out@[j], j, requests@[j], file@),
        decreases requests.len() - i,
    {
        let request = &requests[i];
        let line = match request.line {
            Some(l) => l,
            None => 0,
        };
        let mut location = String::new();
        push_str(&mut location, file);
        push_str(&mut location, ":");
        push_decimal(&mut location, line);
        let condition = match &request.condition {
            Some(c) => Some(text_of(c.as_str())),
            None => None,
        };
        out.push(Breakpoint { id: i as u64 + 1, verified: true, location, line, condition });
        i = i + 1;
    }
    out
}

/// The refusal of a breakpoint request without a file or a list:
/// `E_INVALID_CONFIG`, carrying the arguments received.
pub fn breakpoint_args_missing(received: &str) -> (f: IpcFailure)
    ensures
        f.code == ErrorCode::InvalidConfig,
        f.message@ == "princess:debug:setBreakpoints requires { file: string, breakpoints: [...]"@,
        f.detail@ == "received args: "@ + received@,
{
    let mut detail = String::new();
    push_str(&mut detail, "received args: ");
    push_str(&mut detail, received);
    IpcFailure::new(
        ErrorCode::InvalidConfig,
        text_of("princess:debug:setBreakpoints requires { file: string, breakpoints: [...]"),
        detail,
    )
}

} // verus!
