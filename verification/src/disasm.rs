//! x86-64 disassembly beside its source lines.
//!
//! The bytes are decoded and formatted by `iced-x86`, from exactly the
//! address the caller names (no snapping back to an instruction boundary),
//! with the decoder's instruction pointer set to the virtual address so the
//! operands are link-time addresses.  This module decides which file bytes
//! to decode (by the covering segment's own delta), renders each instruction
//! the way `objdump` lays it out (16-digit address, raw bytes, `(bad)` for
//! what cannot be decoded, the covering function's demangled name), and
//! pairs the instructions with source rows that carry an address interval
//! and a line, never a lone line number.

use vstd::prelude::*;
use iced_x86::{Decoder, DecoderOptions, Formatter, GasFormatter, IntelFormatter, MemorySizeOptions, NasmFormatter};
use crate::contract::{ErrorCode, PrincessError};
use crate::demangle::{cpp_demangled, demangle_name, rust_demangled, spec_demangle};
use crate::elf::{file_backed_end, SegmentInfo};
use crate::scan::{chars_of, parse_unsigned, parse_unsigned_exec, string_of, trim, trim_exec};
use crate::source::{LineRange, SourceLocation};
use vstd::utf8::encode_utf8;
use crate::text::{push_hex_padded, push_prefixed_hex, push_str, spec_hex_padded, spec_prefixed_hex, hex_digit, law_byte_in_two_hex_digits};

verus! {

broadcast use vstd::string::group_string_axioms;

/// Output syntax of the instruction text.
#[derive(Debug, Clone, Copy, PartialEq, Eq)]
pub enum Syntax {
    /// `mov rax, qword ptr [rbx+8]`, the default.
    Intel,
    /// NASM style.
    Nasm,
    /// AT&T style, as bare `objdump -d` prints.
    Gas,
    /// Intel syntax set up to agree with `objdump -d -M intel`: `0x` hex in
    /// lower case without leading zeros, absolute RIP-relative targets, size
    /// keywords only where ambiguous.
    ObjdumpIntel,
}

impl Default for Syntax {
    fn default() -> (s: Self)
        ensures
            s == Syntax::Intel,
    {
        Syntax::Intel
    }
}

/// The `objdump` flag that gives the same syntax, for reports.
pub open spec fn spec_objdump_flag(s: Syntax) -> Seq<char> {
    match s {
        Syntax::Intel => "-M intel"@,
        Syntax::Nasm => "(nasm syntax; compare mnemonics, not punctuation)"@,
        Syntax::Gas => "(default AT&T)"@,
        Syntax::ObjdumpIntel => "-M intel"@,
    }
}

impl Syntax {
    /// The `objdump` flag that produces the same syntax.
    pub fn objdump_flag(self) -> (r: &'static str)
        ensures
            r@ == spec_objdump_flag(self),
    {
        match self {
            Syntax::Intel => "-M intel",
            Syntax::Nasm => "(nasm syntax; compare mnemonics, not punctuation)",
            Syntax::Gas => "(default AT&T)",
            Syntax::ObjdumpIntel => "-M intel",
        }
    }
}

/// Knobs for one disassembly run.
#[derive(Debug, Clone, PartialEq, Eq)]
pub struct DisassemblerOptions {
    /// Output syntax.
    pub syntax: Syntax,
    /// Number formatting with the syntax's own prefix.
    pub hex_prefix: bool,
    /// Subtracted (wrapping) from each decoded address before it is shown.
    pub base_offset: u64,
    /// Show the raw instruction bytes.
    pub bytes: bool,
    /// Attach the function symbol covering each instruction.
    pub symbols: bool,
}

impl Default for DisassemblerOptions {
    fn default() -> (o: Self)
        ensures
            o.syntax == Syntax::Intel,
            o.hex_prefix,
            o.base_offset == 0,
            o.bytes,
            o.symbols,
    {
        DisassemblerOptions {
            syntax: Syntax::Intel,
            hex_prefix: true,
            base_offset: 0,
            bytes: true,
            symbols: true,
        }
    }
}

/// One source row covering part of a disassembly: the half-open address
/// interval of its instructions, how many there are, and whether the line
/// belongs to an inlined function.
#[derive(Debug, Clone, PartialEq, Eq)]
pub struct SourceRow {
    pub addresses: LineRange,
    pub instruction_count: usize,
    pub inlined: bool,
}

/// One rendered instruction.
#[derive(Debug, Clone, PartialEq, Eq)]
pub struct DisassembledInstruction {
    /// The address as 16 lower-case hex digits.
    pub address: String,
    /// The raw bytes as hex (`??` for a byte the read did not reach).
    pub bytes: String,
    /// The instruction text, `(bad)` when undecodable.
    pub text: String,
    /// The demangled name of the function covering the address.
    pub symbol: Option<String>,
    /// A source position, when one is attached.
    pub source: Option<SourceLocation>,
}

/// A disassembly and its source map.
#[derive(Debug, Clone, PartialEq, Eq)]
pub struct DisassemblyView {
    pub instructions: Vec<DisassembledInstruction>,
    pub source_rows: Vec<SourceRow>,
    pub requested_address: u64,
    pub start_address: u64,
}

/// One decoded instruction as the decoder reports it: where it starts, its
/// length, its formatted text, and whether it is invalid.
#[derive(Debug, Clone, PartialEq, Eq)]
pub struct RawInstruction {
    pub ip: u64,
    pub len: usize,
    pub text: String,
    pub invalid: bool,
}

/// Most bytes copied for one decode run: 1 MiB.
pub const MAX_DECODE_BYTES: u64 = 1048576;

// ------------------------------------------------------------- addresses ---

/// `u64::from_str_radix(text, 16)`, when it succeeds.
pub open spec fn spec_hex_address(text: Seq<char>) -> Option<u64> {
    match parse_unsigned(text, 16, u64::MAX as nat) {
        Ok(n) => Some(n as u64),
        Err(_) => None,
    }
}

/// Parses a hexadecimal address (see [`spec_hex_address`]).
pub fn parse_hex_address(text: &str) -> (r: Option<u64>)
    ensures
        r == spec_hex_address(text@),
{
    match parse_unsigned_exec(&chars_of(text), 16, u64::MAX) {
        Ok(n) => Some(n),
        Err(_) => None,
    }
}

/// The first segment at or after `i` with file bytes at `address`
/// (`segs.len()` when none).
pub open spec fn first_backing(segs: Seq<SegmentInfo>, address: u64, i: int) -> int
    decreases segs.len() - i,
{
    if i >= segs.len() {
        segs.len() as int
    } else if segs[i].virtual_address <= address < file_backed_end(segs[i]) {
        i
    } else {
        first_backing(segs, address, i + 1)
    }
}

proof fn lemma_first_backing(segs: Seq<SegmentInfo>, address: u64, i: int)
    requires
        0 <= i <= segs.len(),
    ensures
        i <= first_backing(segs, address, i) <= segs.len(),
        first_backing(segs, address, i) < segs.len() ==> segs[first_backing(segs, address, i)].virtual_address
            <= address < file_backed_end(segs[first_backing(segs, address, i)]),
        forall|j: int|
            i <= j < first_backing(segs, address, i) ==> !(#[trigger] segs[j].virtual_address
                <= address < file_backed_end(segs[j])),
    decreases segs.len() - i,
{
    if i < segs.len() && !(segs[i].virtual_address <= address < file_backed_end(segs[i])) {
        lemma_first_backing(segs, address, i + 1);
    }
}

/// `address {address:#x} is not inside any file-backed segment of {path}`.
pub open spec fn unmapped_message(address: u64, path: Seq<char>) -> Seq<char> {
    "address "@ + spec_prefixed_hex(address as nat) + " is not inside any file-backed segment of "@
        + path
}

/// The detail of an unmapped-address error.
pub open spec fn unmapped_detail() -> Seq<char> {
    "a static disassembly can only decode bytes that exist in the file; live/unmapped memory is the debugger's job"@
}

/// Where the bytes for decoding at `address` are: the file offset by the
/// first segment with file bytes there, and how many of the segment's file
/// bytes remain from there (at most [`MAX_DECODE_BYTES`]); `E_NOT_FOUND`
/// when no segment has file bytes at the address.
pub fn slice_plan(segments: &Vec<SegmentInfo>, address: u64, path: &str) -> (r: Result<
    (u64, u64),
    PrincessError,
>)
    requires
        forall|i: int|
            0 <= i < segments@.len() ==> #[trigger] segments@[i].file_offset
                + segments@[i].file_size <= u64::MAX,
    ensures
        ({
            let k = first_backing(segments@, address, 0);
            if k < segments@.len() {
                let s = segments@[k];
                let rest = s.file_size - (address - s.virtual_address);
                r == Ok::<(u64, u64), PrincessError>(
                    (
                        (s.file_offset + (address - s.virtual_address)) as u64,
                        (if rest < MAX_DECODE_BYTES {
                            rest
                        } else {
                            MAX_DECODE_BYTES as int
                        }) as u64,
                    ),
                )
            } else {
                r matches Err(e) && e.code == ErrorCode::NotFound && e.message@ == unmapped_message(
                    address,
                    path@,
                ) && (e.detail matches Some(d) && d@ == unmapped_detail())
            }
        }),
{
    proof {
        lemma_first_backing(segments@, address, 0);
    }
    let mut i: usize = 0;
    while i < segments.len()
        invariant
            i <= segments@.len(),
            i <= first_backing(segments@, address, 0) <= segments@.len(),
            first_backing(segments@, address, 0) < segments@.len() ==> segments@[first_backing(
                segments@,
                address,
                0,
            )].virtual_address <= address < file_backed_end(
                segments@[first_backing(segments@, address, 0)],
            ),
            forall|j: int|
                0 <= j < first_backing(segments@, address, 0) ==> !(
                    #[trigger] segments@[j].virtual_address <= address < file_backed_end(
                    segments@[j],
                )),
            forall|j: int|
                0 <= j < segments@.len() ==> #[trigger] segments@[j].file_offset
                    + segments@[j].file_size <= u64::MAX,
        decreases segments.len() - i,
    {
        let s = &segments[i];
        match s.file_offset_for_vaddr(address) {
            Some(file_offset) => {
                let consumed = address - s.virtual_address;
                let rest = s.file_size - consumed;
                let n = if rest < MAX_DECODE_BYTES {
                    rest
                } else {
                    MAX_DECODE_BYTES
                };
                return Ok((file_offset, n));
            },
            None => {},
        }
        i = i + 1;
    }
    let mut message = String::new();
    push_str(&mut message, "address ");
    push_prefixed_hex(&mut message, address);
    push_str(&mut message, " is not inside any file-backed segment of ");
    push_str(&mut message, path);
    let mut detail = String::new();
    push_str(
        &mut detail,
        "a static disassembly can only decode bytes that exist in the file; live/unmapped memory is the debugger's job",
    );
    assert(message@ =~= unmapped_message(address, path@));
    Err(PrincessError::not_found(message).with_detail(detail))
}

// --------------------------------------------------------------- decoding ---

/// What `iced-x86` decodes from `bytes` at instruction pointer `base`, up to
/// `count` instructions, with its Intel formatter.
pub uninterp spec fn decoded_intel(bytes: Seq<u8>, base: u64, count: u64) -> Vec<RawInstruction>;

/// The same with its NASM formatter.
pub uninterp spec fn decoded_nasm(bytes: Seq<u8>, base: u64, count: u64) -> Vec<RawInstruction>;

/// The same with its GNU assembler (AT&T) formatter.
pub uninterp spec fn decoded_gas(bytes: Seq<u8>, base: u64, count: u64) -> Vec<RawInstruction>;

/// The same with its Intel formatter set up as `objdump -M intel` prints.
pub uninterp spec fn decoded_objdump_intel(bytes: Seq<u8>, base: u64, count: u64) -> Vec<
    RawInstruction,
>;

/// `iced_x86::Decoder` (64-bit, at `base`) and `IntelFormatter`: each
/// instruction's `ip`, `len`, formatted text and `is_invalid`, while bytes
/// remain, at most `count`.
#[verifier::external_body]
fn decode_intel(bytes: &[u8], base: u64, count: u64) -> (r: Vec<RawInstruction>)
    ensures
        r == decoded_intel(bytes@, base, count),
{
    let mut f = IntelFormatter::new();
    let mut d = Decoder::with_ip(64, bytes, base, DecoderOptions::NONE);
    let mut out = Vec::new();
    for ins in d.iter().take(usize::try_from(count).unwrap_or(usize::MAX)) {
        let mut text = String::new();
        f.format(&ins, &mut text);
        out.push(RawInstruction { ip: ins.ip(), len: ins.len(), text, invalid: ins.is_invalid() });
    }
    out
}

/// `iced_x86::Decoder` (64-bit, at `base`) and `NasmFormatter`, as
/// [`decode_intel`].
#[verifier::external_body]
fn decode_nasm(bytes: &[u8], base: u64, count: u64) -> (r: Vec<RawInstruction>)
    ensures
        r == decoded_nasm(bytes@, base, count),
{
    let mut f = NasmFormatter::new();
    let mut d = Decoder::with_ip(64, bytes, base, DecoderOptions::NONE);
    let mut out = Vec::new();
    for ins in d.iter().take(usize::try_from(count).unwrap_or(usize::MAX)) {
        let mut text = String::new();
        f.format(&ins, &mut text);
        out.push(RawInstruction { ip: ins.ip(), len: ins.len(), text, invalid: ins.is_invalid() });
    }
    out
}

/// `iced_x86::Decoder` (64-bit, at `base`) and `GasFormatter`, as
/// [`decode_intel`].
#[verifier::external_body]
fn decode_gas(bytes: &[u8], base: u64, count: u64) -> (r: Vec<RawInstruction>)
    ensures
        r == decoded_gas(bytes@, base, count),
{
    let mut f = GasFormatter::new();
    let mut d = Decoder::with_ip(64, bytes, base, DecoderOptions::NONE);
    let mut out = Vec::new();
    for ins in d.iter().take(usize::try_from(count).unwrap_or(usize::MAX)) {
        let mut text = String::new();
        f.format(&ins, &mut text);
        out.push(RawInstruction { ip: ins.ip(), len: ins.len(), text, invalid: ins.is_invalid() });
    }
    out
}

/// `iced_x86::Decoder` (64-bit, at `base`) and an `IntelFormatter` with
/// `objdump`'s conventions: `0x` prefix, no suffix, lower case, no leading
/// zeros, no small numbers in decimal, absolute RIP-relative targets, no
/// space after a comma, minimal size keywords; as [`decode_intel`].
#[verifier::external_body]
fn decode_objdump_intel(bytes: &[u8], base: u64, count: u64) -> (r: Vec<RawInstruction>)
    ensures
        r == decoded_objdump_intel(bytes@, base, count),
{
    let mut f = IntelFormatter::new();
    let o = f.options_mut();
    o.set_hex_prefix("0x"); o.set_hex_suffix(""); o.set_uppercase_hex(false); o.set_leading_zeros(false);
    o.set_small_hex_numbers_in_decimal(false); o.set_branch_leading_zeros(false); o.set_rip_relative_addresses(false);
    o.set_space_after_operand_separator(false); o.set_memory_size_options(MemorySizeOptions::Minimal);
    let mut d = Decoder::with_ip(64, bytes, base, DecoderOptions::NONE);
    let mut out = Vec::new();
    for ins in d.iter().take(usize::try_from(count).unwrap_or(usize::MAX)) {
        let mut text = String::new();
        f.format(&ins, &mut text);
        out.push(RawInstruction { ip: ins.ip(), len: ins.len(), text, invalid: ins.is_invalid() });
    }
    out
}

/// What the decoder makes of `bytes` at `base` in `syntax`.
pub open spec fn spec_decoded(bytes: Seq<u8>, base: u64, count: u64, syntax: Syntax) -> Vec<
    RawInstruction,
> {
    match syntax {
        Syntax::Intel => decoded_intel(bytes, base, count),
        Syntax::Nasm => decoded_nasm(bytes, base, count),
        Syntax::Gas => decoded_gas(bytes, base, count),
        Syntax::ObjdumpIntel => decoded_objdump_intel(bytes, base, count),
    }
}

/// Decodes up to `count` instructions of `bytes` at `base` in `syntax`.
pub fn decode(bytes: &[u8], base: u64, count: u64, syntax: Syntax) -> (r: Vec<RawInstruction>)
    ensures
        r == spec_decoded(bytes@, base, count, syntax),
{
    match syntax {
        Syntax::Intel => decode_intel(bytes, base, count),
        Syntax::Nasm => decode_nasm(bytes, base, count),
        Syntax::Gas => decode_gas(bytes, base, count),
        Syntax::ObjdumpIntel => decode_objdump_intel(bytes, base, count),
    }
}

// -------------------------------------------------------------- rendering ---

/// `ip - base_offset`, wrapping.
pub open spec fn shown_address(ip: u64, base_offset: u64) -> u64 {
    if ip >= base_offset {
        (ip - base_offset) as u64
    } else {
        (ip - base_offset + 0x1_0000_0000_0000_0000) as u64
    }
}

/// The hex cells of `n` bytes of `buffer` from `start`, `??` for each byte
/// past its end.
pub open spec fn bytes_text(buffer: Seq<u8>, start: int, n: nat) -> Seq<char>
    decreases n,
{
    if n == 0 {
        Seq::empty()
    } else {
        bytes_text(buffer, start, (n - 1) as nat) + (if start + n - 1 < buffer.len() {
            spec_hex_padded(buffer[start + n - 1] as nat, 2)
        } else {
            "??"@
        })
    }
}

/// The instruction bytes `buffer[start..start + n]` as hex: byte `j` is the
/// two characters at `2j`, its high nibble then its low nibble as hex digits,
/// and `??` for a byte past the end of the buffer.
pub proof fn law_instruction_bytes_in_hex(buffer: Seq<u8>, start: int, n: nat)
    requires
        0 <= start,
    ensures
        bytes_text(buffer, start, n).len() == 2 * n,
        forall|j: int| 0 <= j < n ==> {
            &&& #[trigger] bytes_text(buffer, start, n)[2 * j] == (if start + j < buffer.len() {
                hex_digit((buffer[start + j] / 16) as nat)
            } else {
                '?'
            })
            &&& bytes_text(buffer, start, n)[2 * j + 1] == (if start + j < buffer.len() {
                hex_digit((buffer[start + j] % 16) as nat)
            } else {
                '?'
            })
        },
    decreases n,
{
    reveal_strlit("??");
    if n > 0 {
        law_instruction_bytes_in_hex(buffer, start, (n - 1) as nat);
        if start + n - 1 < buffer.len() {
            law_byte_in_two_hex_digits(buffer[start + n - 1] as nat);
        }
        let prev = bytes_text(buffer, start, (n - 1) as nat);
        assert forall|j: int| 0 <= j < n implies {
            &&& #[trigger] bytes_text(buffer, start, n)[2 * j] == (if start + j < buffer.len() {
                hex_digit((buffer[start + j] / 16) as nat)
            } else {
                '?'
            })
            &&& bytes_text(buffer, start, n)[2 * j + 1] == (if start + j < buffer.len() {
                hex_digit((buffer[start + j] % 16) as nat)
            } else {
                '?'
            })
        } by {
            if j < n - 1 {
                assert(prev[2 * j] == bytes_text(buffer, start, n)[2 * j]);
            }
        }
    }
}

/// The raw bytes of an instruction at `ip` of `len` bytes, taken from the
/// buffer that was decoded at `base`.
pub fn instruction_bytes_at(buffer: &[u8], base: u64, ip: u64, len: usize) -> (r: String)
    ensures
        r@ == bytes_text(buffer@, if ip >= base { ip - base } else { 0 }, len as nat),
{
    let start: u64 = if ip >= base {
        ip - base
    } else {
        0
    };
    let total = buffer.len() as u64;
    let mut out = String::new();
    let mut i: usize = 0;
    while i < len
        invariant
            i <= len,
            total == buffer@.len(),
            out@ == bytes_text(buffer@, start as int, i as nat),
        decreases len - i,
    {
        if start < total && (i as u64) < total - start {
            let at = (start + i as u64) as usize;
            push_hex_padded(&mut out, buffer[at] as u64, 2);
        } else {
            push_str(&mut out, "??");
        }
        i = i + 1;
    }
    out
}

/// The first span at or after `i` covering `a` (`syms.len()` when none).
pub open spec fn covering_symbol(syms: Seq<(u64, u64, String)>, a: u64, i: int) -> int
    decreases syms.len() - i,
{
    if i >= syms.len() {
        syms.len() as int
    } else if syms[i].0 <= a < syms[i].1 {
        i
    } else {
        covering_symbol(syms, a, i + 1)
    }
}

/// The demangled name of the first function span covering `a`.
pub open spec fn spec_symbol_at(syms: Seq<(u64, u64, String)>, a: u64) -> Option<Seq<char>> {
    let k = covering_symbol(syms, a, 0);
    if 0 <= k < syms.len() {
        let name = syms[k].2@;
        Some(spec_demangle(name, rust_demangled(name), cpp_demangled(name)))
    } else {
        None
    }
}

proof fn lemma_covering_symbol(syms: Seq<(u64, u64, String)>, a: u64, k: int, i: int)
    requires
        0 <= k <= i,
        i < syms.len() ==> syms[i].0 <= a < syms[i].1,
        i <= syms.len(),
        forall|j: int| #![trigger syms[j]] k <= j < i ==> !(syms[j].0 <= a < syms[j].1),
    ensures
        covering_symbol(syms, a, k) == i,
    decreases i - k,
{
    if k < i {
        lemma_covering_symbol(syms, a, k + 1, i);
    }
}

/// An address gets the name of the first span `[start, end)` that contains
/// it, demangled, and no name when no span contains it.
pub proof fn law_symbol_is_the_first_span_containing_the_address(syms: Seq<(u64, u64, String)>, a: u64)
    ensures
        (forall|j: int| #![trigger syms[j]] 0 <= j < syms.len() ==> !(syms[j].0 <= a < syms[j].1)) ==> spec_symbol_at(
            syms,
            a,
        ) is None,
        forall|i: int|
            0 <= i < syms.len() && syms[i].0 <= a < syms[i].1 && (forall|j: int| #![trigger syms[j]]
                0 <= j < i ==> !(syms[j].0 <= a < syms[j].1)) ==> spec_symbol_at(syms, a) == Some(
                spec_demangle(#[trigger] syms[i].2@, rust_demangled(syms[i].2@), cpp_demangled(syms[i].2@)),
            ),
{
    if forall|j: int| #![trigger syms[j]] 0 <= j < syms.len() ==> !(syms[j].0 <= a < syms[j].1) {
        lemma_covering_symbol(syms, a, 0, syms.len() as int);
    }
    assert forall|i: int|
        0 <= i < syms.len() && syms[i].0 <= a < syms[i].1 && (forall|j: int| #![trigger syms[j]]
            0 <= j < i ==> !(syms[j].0 <= a < syms[j].1)) implies spec_symbol_at(syms, a) == Some(
        spec_demangle(#[trigger] syms[i].2@, rust_demangled(syms[i].2@), cpp_demangled(syms[i].2@)),
    ) by {
        lemma_covering_symbol(syms, a, 0, i);
    }
}

/// The demangled name of the first function span `[start, end)` covering
/// `a`.
pub fn symbol_at(syms: &Vec<(u64, u64, String)>, a: u64) -> (r: Option<String>)
    ensures
        match (r, spec_symbol_at(syms@, a)) {
            (Some(x), Some(y)) => x@ == y,
            (None, None) => true,
            _ => false,
        },
{
    let mut i: usize = 0;
    while i < syms.len()
        invariant
            i <= syms@.len(),
            covering_symbol(syms@, a, i as int) == covering_symbol(syms@, a, 0),
        decreases syms.len() - i,
    {
        if syms[i].0 <= a && a < syms[i].1 {
            return Some(demangle_name(syms[i].2.as_str()));
        }
        i = i + 1;
    }
    None
}

/// The function spans of a symbol table: each `FUNC` symbol with a size, as
/// `[address, address + size)` and its name, in table order.
pub open spec fn function_spans(s: Seq<crate::elf::SymbolInfo>) -> Seq<(u64, u64, Seq<char>)>
    decreases s.len(),
{
    if s.len() == 0 {
        Seq::empty()
    } else {
        let rest = function_spans(s.drop_last());
        let x = s.last();
        if x.kind@ == "FUNC"@ && x.size > 0 {
            rest.push((x.address, (x.address + x.size) as u64, x.name@))
        } else {
            rest
        }
    }
}

/// The spans' contents.
pub open spec fn span_views(v: Seq<(u64, u64, String)>) -> Seq<(u64, u64, Seq<char>)> {
    v.map_values(|t: (u64, u64, String)| (t.0, t.1, t.2@))
}

/// The function spans of `symbols` (see [`function_spans`]).
pub fn function_symbols(symbols: &Vec<crate::elf::SymbolInfo>) -> (r: Vec<(u64, u64, String)>)
    requires
        forall|i: int|
            0 <= i < symbols@.len() ==> (#[trigger] symbols@[i]).kind@ == "FUNC"@ && symbols@[i].size
                > 0 ==> symbols@[i].address + symbols@[i].size <= u64::MAX,
    ensures
        span_views(r@) == function_spans(symbols@),
{
    let mut out: Vec<(u64, u64, String)> = Vec::new();
    let mut i: usize = 0;
    while i < symbols.len()
        invariant
            i <= symbols@.len(),
            span_views(out@) == function_spans(symbols@.take(i as int)),
            forall|j: int|
                0 <= j < symbols@.len() ==> (#[trigger] symbols@[j]).kind@ == "FUNC"@
                    && symbols@[j].size > 0 ==> symbols@[j].address + symbols@[j].size <= u64::MAX,
        decreases symbols.len() - i,
    {
        let x = &symbols[i];
        assert(symbols@.take(i + 1).drop_last() =~= symbols@.take(i as int));
        assert(symbols@.take(i + 1).last() == *x);
        let is_func = crate::scan::equals_str(&chars_of(x.kind.as_str()), "FUNC");
        if is_func && x.size > 0 {
            let mut name = String::new();
            push_str(&mut name, x.name.as_str());
            let ghost before = out@;
            out.push((x.address, x.address + x.size, name));
            assert(span_views(out@) =~= span_views(before).push((x.address, (x.address + x.size) as u64, x.name@)));
        }
        i = i + 1;
    }
    assert(symbols@.take(symbols.len() as int) =~= symbols@);
    out
}

/// `d` is how `raw`, decoded from `buffer` at `base`, is shown.
pub open spec fn rendered(
    d: DisassembledInstruction,
    raw: RawInstruction,
    buffer: Seq<u8>,
    base: u64,
    options: DisassemblerOptions,
    syms: Seq<(u64, u64, String)>,
) -> bool {
    let address = shown_address(raw.ip, options.base_offset);
    &&& d.address@ == spec_hex_padded(address as nat, 16)
    &&& d.bytes@ == (if raw.invalid || options.bytes {
        bytes_text(buffer, if raw.ip >= base { raw.ip - base } else { 0 }, raw.len as nat)
    } else {
        Seq::empty()
    })
    &&& d.text@ == (if raw.invalid {
        "(bad)"@
    } else {
        trim(raw.text@)
    })
    &&& match (d.symbol, spec_symbol_at(syms, address)) {
        (Some(x), Some(y)) => x@ == y,
        (None, None) => true,
        _ => false,
    }
    &&& d.source is None
}

/// Renders one decoded instruction (see [`rendered`]).
pub fn render_instruction(
    raw: &RawInstruction,
    buffer: &[u8],
    base: u64,
    options: &DisassemblerOptions,
    syms: &Vec<(u64, u64, String)>,
) -> (d: DisassembledInstruction)
    ensures
        rendered(d, *raw, buffer@, base, *options, syms@),
{
    let address = if raw.ip >= options.base_offset {
        raw.ip - options.base_offset
    } else {
        raw.ip + (u64::MAX - options.base_offset) + 1
    };
    let mut shown = String::new();
    push_hex_padded(&mut shown, address, 16);
    let bytes = if raw.invalid || options.bytes {
        instruction_bytes_at(buffer, base, raw.ip, raw.len)
    } else {
        String::new()
    };
    let text = if raw.invalid {
        let mut t = String::new();
        push_str(&mut t, "(bad)");
        t
    } else {
        string_of(&trim_exec(&chars_of(raw.text.as_str())))
    };
    DisassembledInstruction {
        address: shown,
        bytes,
        text,
        symbol: symbol_at(syms, address),
        source: None,
    }
}

/// Renders every decoded instruction, in order.
pub fn render_all(
    raws: &Vec<RawInstruction>,
    buffer: &[u8],
    base: u64,
    options: &DisassemblerOptions,
    syms: &Vec<(u64, u64, String)>,
) -> (r: Vec<DisassembledInstruction>)
    ensures
        r@.len() == raws@.len(),
        forall|i: int|
            0 <= i < r@.len() ==> rendered(#[trigger] r@[i], raws@[i], buffer@, base, *options, syms@),
{
    let mut out: Vec<DisassembledInstruction> = Vec::new();
    let mut i: usize = 0;
    while i < raws.len()
        invariant
            i <= raws@.len(),
            out@.len() == i,
            forall|j: int|
                0 <= j < i ==> rendered(#[trigger] out@[j], raws@[j], buffer@, base, *options, syms@),
        decreases raws.len() - i,
    {
        out.push(render_instruction(&raws[i], buffer, base, options, syms));
        i = i + 1;
    }
    out
}

/// Decodes and renders up to `count` instructions of `bytes`, read at
/// virtual address `base`.
pub fn disassemble_bytes(
    bytes: &[u8],
    base: u64,
    count: u64,
    options: &DisassemblerOptions,
    syms: &Vec<(u64, u64, String)>,
) -> (r: Vec<DisassembledInstruction>)
    ensures
        r@.len() == spec_decoded(bytes@, base, count, options.syntax)@.len(),
        forall|i: int|
            0 <= i < r@.len() ==> rendered(
                #[trigger] r@[i],
                spec_decoded(bytes@, base, count, options.syntax)@[i],
                bytes@,
                base,
                *options,
                syms@,
            ),
{
    let raws = decode(bytes, base, count, options.syntax);
    render_all(&raws, bytes, base, options, syms)
}

// ------------------------------------------------------------ source rows ---

/// The addresses of the instructions whose address text parses, in order.
pub open spec fn parsed_addresses(ins: Seq<DisassembledInstruction>) -> Seq<u64>
    decreases ins.len(),
{
    if ins.len() == 0 {
        Seq::empty()
    } else {
        let rest = parsed_addresses(ins.drop_last());
        match spec_hex_address(ins.last().address@) {
            Some(a) => rest.push(a),
            None => rest,
        }
    }
}

/// Where the decoded span starts: the first instruction's address, or the
/// requested one.
pub open spec fn span_start(ins: Seq<DisassembledInstruction>, address: u64) -> u64 {
    if ins.len() == 0 {
        address
    } else {
        match spec_hex_address(ins[0].address@) {
            Some(a) => a,
            None => address,
        }
    }
}

/// Where the decoded span ends: past the last instruction's bytes (two hex
/// digits each, counted in UTF-8 bytes as `str::len` does).
pub open spec fn span_end(ins: Seq<DisassembledInstruction>, address: u64) -> int {
    let start = span_start(ins, address);
    if ins.len() == 0 {
        start as int
    } else {
        (match spec_hex_address(ins.last().address@) {
            Some(a) => a,
            None => start,
        }) + (encode_utf8(ins.last().bytes@).len() as usize) / 2
    }
}

/// How many of `addrs` fall in `[lo, hi)`.
pub open spec fn count_within(addrs: Seq<u64>, lo: int, hi: int) -> nat
    decreases addrs.len(),
{
    if addrs.len() == 0 {
        0
    } else {
        count_within(addrs.drop_last(), lo, hi) + (if lo <= addrs.last() < hi {
            1nat
        } else {
            0nat
        })
    }
}

/// The line ranges that overlap `[start, end)`, in order.
pub open spec fn overlapping(segs: Seq<LineRange>, start: int, end: int) -> Seq<LineRange>
    decreases segs.len(),
{
    if segs.len() == 0 {
        Seq::empty()
    } else {
        let rest = overlapping(segs.drop_last(), start, end);
        let s = segs.last();
        if s.end <= start || s.start >= end {
            rest
        } else {
            rest.push(s)
        }
    }
}

/// `row` is `seg` clipped to `[start, end)` with its instruction count.
pub open spec fn row_matches(row: SourceRow, seg: LineRange, start: int, end: int, addrs: Seq<u64>) -> bool {
    let lo = if seg.start >= start { seg.start as int } else { start };
    let hi = if seg.end <= end { seg.end as int } else { end };
    &&& row.addresses.start == lo
    &&& row.addresses.end == hi
    &&& row.addresses.file@ == seg.file@
    &&& row.addresses.line == seg.line
    &&& row.addresses.column == seg.column
    &&& row.addresses@.inlined_into == seg@.inlined_into
    &&& row.instruction_count == count_within(addrs, lo, hi)
    &&& row.inlined == (seg.inlined_into is Some)
}

/// `rows` are the source rows of `segs` over the instructions `ins`
/// decoded for `address`: nothing for an empty span, else one row per
/// overlapping line range, clipped to the span.
pub open spec fn rows_match(
    rows: Seq<SourceRow>,
    ins: Seq<DisassembledInstruction>,
    address: u64,
    segs: Seq<LineRange>,
) -> bool {
    let start = span_start(ins, address) as int;
    let end = span_end(ins, address);
    if end > start {
        let o = overlapping(segs, start, end);
        &&& rows.len() == o.len()
        &&& forall|i: int|
            0 <= i < rows.len() ==> row_matches(#[trigger] rows[i], o[i], start, end, parsed_addresses(ins))
    } else {
        rows.len() == 0
    }
}

fn parse_all(ins: &Vec<DisassembledInstruction>) -> (r: Vec<u64>)
    ensures
        r@ == parsed_addresses(ins@),
{
    let mut out: Vec<u64> = Vec::new();
    let mut i: usize = 0;
    while i < ins.len()
        invariant
            i <= ins@.len(),
            out@ == parsed_addresses(ins@.take(i as int)),
        decreases ins.len() - i,
    {
        assert(ins@.take(i + 1).drop_last() =~= ins@.take(i as int));
        match parse_hex_address(ins[i].address.as_str()) {
            Some(a) => out.push(a),
            None => {},
        }
        i = i + 1;
    }
    assert(ins@.take(ins.len() as int) =~= ins@);
    out
}

fn count_in(addrs: &Vec<u64>, lo: u64, hi: u64) -> (r: usize)
    ensures
        r == count_within(addrs@, lo as int, hi as int),
{
    let mut n: usize = 0;
    let mut i: usize = 0;
    while i < addrs.len()
        invariant
            i <= addrs@.len(),
            n == count_within(addrs@.take(i as int), lo as int, hi as int),
            n <= i,
        decreases addrs.len() - i,
    {
        assert(addrs@.take(i + 1).drop_last() =~= addrs@.take(i as int));
        if lo <= addrs[i] && addrs[i] < hi {
            n = n + 1;
        }
        i = i + 1;
    }
    assert(addrs@.take(addrs.len() as int) =~= addrs@);
    n
}

fn copy_range(seg: &LineRange, start: u64, end: u64) -> (r: LineRange)
    ensures
        r.start == start,
        r.end == end,
        r.file@ == seg.file@,
        r.line == seg.line,
        r.column == seg.column,
        r@.inlined_into == seg@.inlined_into,
{
    let mut file = String::new();
    push_str(&mut file, seg.file.as_str());
    let inlined_into = match &seg.inlined_into {
        Some(f) => {
            let mut c = String::new();
            push_str(&mut c, f.as_str());
            Some(c)
        },
        None => None,
    };
    LineRange { start, end, file, line: seg.line, column: seg.column, inlined_into }
}

/// The source rows beside a disassembly, and where it starts (see
/// [`rows_match`] and [`span_start`]).
pub fn source_rows(ins: &Vec<DisassembledInstruction>, address: u64, segs: &Vec<LineRange>) -> (r: (
    u64,
    Vec<SourceRow>,
))
    requires
        span_end(ins@, address) <= u64::MAX,
    ensures
        r.0 == span_start(ins@, address),
        rows_match(r.1@, ins@, address, segs@),
{
    let start = if ins.len() == 0 {
        address
    } else {
        match parse_hex_address(ins[0].address.as_str()) {
            Some(a) => a,
            None => address,
        }
    };
    let end: u64 = if ins.len() == 0 {
        start
    } else {
        let last = &ins[ins.len() - 1];
        let at = match parse_hex_address(last.address.as_str()) {
            Some(a) => a,
            None => start,
        };
        at + (last.bytes.as_str().len() / 2) as u64
    };
    let addrs = parse_all(ins);
    let mut rows: Vec<SourceRow> = Vec::new();
    if end > start {
        let mut i: usize = 0;
        while i < segs.len()
            invariant
                i <= segs@.len(),
                end > start,
                start == span_start(ins@, address),
                end == span_end(ins@, address),
                addrs@ == parsed_addresses(ins@),
                rows@.len() == overlapping(segs@.take(i as int), start as int, end as int).len(),
                forall|j: int|
                    0 <= j < rows@.len() ==> row_matches(
                        #[trigger] rows@[j],
                        overlapping(segs@.take(i as int), start as int, end as int)[j],
                        start as int,
                        end as int,
                        addrs@,
                    ),
            decreases segs.len() - i,
        {
            let seg = &segs[i];
            let ghost prefix = segs@.take(i as int);
            assert(segs@.take(i + 1).drop_last() =~= prefix);
            assert(segs@.take(i + 1).last() == *seg);
            if !(seg.end <= start || seg.start >= end) {
                let lo = if seg.start >= start {
                    seg.start
                } else {
                    start
                };
                let hi = if seg.end <= end {
                    seg.end
                } else {
                    end
                };
                let count = count_in(&addrs, lo, hi);
                let ghost before = rows@;
                rows.push(SourceRow {
                    addresses: copy_range(seg, lo, hi),
                    instruction_count: count,
                    inlined: seg.inlined_into.is_some(),
                });
                assert forall|j: int| 0 <= j < rows@.len() implies row_matches(
                    #[trigger] rows@[j],
                    overlapping(segs@.take(i + 1), start as int, end as int)[j],
                    start as int,
                    end as int,
                    addrs@,
                ) by {
                    if j < before.len() {
                        assert(rows@[j] == before[j]);
                    }
                }
            }
            i = i + 1;
        }
        assert(segs@.take(segs.len() as int) =~= segs@);
    }
    (start, rows)
}

/// Does the decoded span end within the address space (what
/// [`disassembly_view`] needs)?
pub fn span_end_fits(ins: &Vec<DisassembledInstruction>, address: u64) -> (r: bool)
    ensures
        r == (span_end(ins@, address) <= u64::MAX),
{
    let start = if ins.len() == 0 {
        address
    } else {
        match parse_hex_address(ins[0].address.as_str()) {
            Some(a) => a,
            None => address,
        }
    };
    if ins.len() == 0 {
        return true;
    }
    let last = &ins[ins.len() - 1];
    let at = match parse_hex_address(last.address.as_str()) {
        Some(a) => a,
        None => start,
    };
    let half = (last.bytes.as_str().len() / 2) as u64;
    at <= u64::MAX - half
}

/// A disassembly of `address` and its source map: the source rows cover the
/// span the instructions actually decoded.
pub fn disassembly_view(
    instructions: Vec<DisassembledInstruction>,
    address: u64,
    segs: &Vec<LineRange>,
) -> (v: DisassemblyView)
    requires
        span_end(instructions@, address) <= u64::MAX,
    ensures
        v.instructions@ == instructions@,
        v.requested_address == address,
        v.start_address == span_start(instructions@, address),
        rows_match(v.source_rows@, instructions@, address, segs@),
{
    let (start_address, source_rows) = source_rows(&instructions, address, segs);
    DisassemblyView { instructions, source_rows, requested_address: address, start_address }
}

} // verus!
