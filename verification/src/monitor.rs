//! QEMU monitor parsing: the human-readable (`info ...`) replies.
//!
//! Every line is parsed against an explicit grammar; a line that does not
//! match produces a [`ParseError`] carrying the line number, the byte offset of
//! the line in the original text and the offending text.  Nothing is skipped
//! silently: a walker fed a `Cannot access memory` reply would otherwise
//! build a tree of zeros.
//!
//! `info tlb` prints nine flag characters in the order `X G P D A C T U W`;
//! the third is **PS** (page size), not "present" — QEMU only prints present
//! entries, so a present 4 KiB leaf prints `--------W`.

use vstd::prelude::*;
use crate::scan::{
    TextLine, Line, text_lines, trim, tokens, find_char, hex_u64, hex_u32, string_of, chars_of,
    copy_range, tokens_exec, trim_exec, find_char_exec, lemma_find_char, hex_u64_exec,
    hex_u32_exec, equals_str, lines_exec, lemma_utf8_len_is_encoded_len, ends_with,
    ends_with_char, starts_with, strip_prefix, decimal_value, parse_unsigned_exec, skip_ws,
    is_hex, utf8_width, utf8_width_exec, is_ws_exec, has_prefix, is_hex_exec, parse_unsigned,
    IntErrorKind,
};
use crate::text::{push_str, push_decimal, spec_decimal, debug_quoted, debug_quote};

verus! {

broadcast use vstd::string::group_string_axioms;

// ------------------------------------------------------------- errors ---

fn quote_chars(v: &Vec<char>) -> (r: String)
    ensures
        r@ == debug_quoted(v@),
{
    let s = string_of(v);
    debug_quote(s.as_str())
}

/// A parse failure, with enough context to point at the offending input.
#[derive(Debug, Clone, PartialEq, Eq)]
pub struct ParseError {
    /// What was being parsed: `info registers`, `info tlb`, `info mem`,
    /// `info cpus`, or a QMP shape.
    pub context: &'static str,
    /// 1-based line number within the parsed text, or 0 for whole-blob errors.
    pub line: usize,
    /// Byte offset of the start of that line in the original input.
    pub byte_offset: usize,
    /// The text that could not be parsed.
    pub text: String,
    /// Why it could not be parsed.
    pub reason: String,
}

/// The mathematical content of a [`ParseError`].
pub struct ParseFault {
    pub context: Seq<char>,
    pub line: nat,
    pub byte_offset: nat,
    pub text: Seq<char>,
    pub reason: Seq<char>,
}

impl View for ParseError {
    type V = ParseFault;

    open spec fn view(&self) -> ParseFault {
        ParseFault {
            context: self.context@,
            line: self.line as nat,
            byte_offset: self.byte_offset as nat,
            text: self.text@,
            reason: self.reason@,
        }
    }
}

/// The fault reported for line number `k + 1` of `lines`.
pub open spec fn fault_at(
    context: Seq<char>,
    lines: Seq<TextLine>,
    k: int,
    text: Seq<char>,
    reason: Seq<char>,
) -> ParseFault {
    ParseFault { context, line: (k + 1) as nat, byte_offset: lines[k].offset, text, reason }
}

/// The user-facing rendering of a [`ParseError`] (what `Display` shows).
pub open spec fn spec_parse_error_message(e: ParseFault) -> Seq<char> {
    e.context + " parse error at line "@ + spec_decimal(e.line) + " (byte "@ + spec_decimal(
        e.byte_offset,
    ) + "): "@ + e.reason + " \u{2014} "@ + debug_quoted(e.text)
}

impl ParseError {
    /// The user-facing message: context, line, byte offset, reason and the
    /// quoted text.
    pub fn message(&self) -> (m: String)
        ensures
            m@ == spec_parse_error_message(self@),
    {
        let mut out = String::new();
        push_str(&mut out, self.context);
        push_str(&mut out, " parse error at line ");
        push_decimal(&mut out, self.line as u64);
        push_str(&mut out, " (byte ");
        push_decimal(&mut out, self.byte_offset as u64);
        push_str(&mut out, "): ");
        push_str(&mut out, self.reason.as_str());
        push_str(&mut out, " \u{2014} ");
        let quoted = debug_quote(self.text.as_str());
        push_str(&mut out, quoted.as_str());
        out
    }
}

fn make_error(context: &'static str, line: usize, offset: usize, text: &Vec<char>, reason: String) -> (e:
    ParseError)
    ensures
        e@ == (ParseFault {
            context: context@,
            line: line as nat,
            byte_offset: offset as nat,
            text: text@,
            reason: reason@,
        }),
{
    ParseError { context, line, byte_offset: offset, text: string_of(text), reason }
}

fn text_of(s: &str) -> (r: String)
    ensures
        r@ == s@,
{
    let mut r = String::new();
    push_str(&mut r, s);
    r
}

/// Every character is ASCII.
pub open spec fn all_ascii(s: Seq<char>) -> bool {
    forall|k: int| 0 <= k < s.len() ==> (#[trigger] s[k] as u32) < 128
}

fn all_ascii_exec(v: &Vec<char>) -> (r: bool)
    ensures
        r == all_ascii(v@),
{
    let mut i: usize = 0;
    while i < v.len()
        invariant
            i <= v.len(),
            forall|k: int| 0 <= k < i ==> (#[trigger] v@[k] as u32) < 128,
        decreases v.len() - i,
    {
        if v[i] as u32 >= 128 {
            return false;
        }
        i = i + 1;
    }
    true
}

/// Lines of `text`, ready for parsing.
fn input_lines(text: &str) -> (lines: Vec<Line>)
    ensures
        lines.len() == text_lines(text@).len(),
        forall|k: int|
            0 <= k < lines.len() ==> {
                &&& lines[k].offset == text_lines(text@)[k].offset
                &&& lines[k].chars@ == text_lines(text@)[k].content
            },
{
    let chars = chars_of(text);
    let bytes = text.as_bytes();
    let _n = bytes.len();
    proof {
        lemma_utf8_len_is_encoded_len(text@);
    }
    lines_exec(&chars)
}

// ----------------------------------------------------------- info mem ---

/// One row of `info mem`: a mapped virtual range.
///
/// The permissions are only `u`/`r`/`w`; `info mem` carries no NX, cache or
/// present bits, which is why it is a cross-check and not a page-table
/// source.
#[derive(Debug, Clone, Copy, PartialEq, Eq)]
pub struct InfoMemRange {
    /// First virtual address of the range (inclusive).
    pub start: u64,
    /// One past the last virtual address (`info mem` prints an exclusive end).
    pub end: u64,
    /// Size in bytes, as printed.
    pub size: u64,
    /// User-accessible bit.
    pub user: bool,
    /// Readable bit.
    pub readable: bool,
    /// Writable bit.
    pub writable: bool,
}

impl InfoMemRange {
    /// Was the printed size consistent with `end - start` (saturating)?
    pub fn size_agrees_with_bounds(&self) -> (r: bool)
        ensures
            r == ((if self.end >= self.start {
                self.end - self.start
            } else {
                0
            }) == self.size),
    {
        let span = if self.end >= self.start {
            self.end - self.start
        } else {
            0
        };
        span == self.size
    }
}

/// What a non-blank, non-`PG disabled` `info mem` line (already trimmed)
/// parses to: the range, or the reason it is refused.
pub open spec fn mem_row(t: Seq<char>) -> Result<InfoMemRange, Seq<char>> {
    let f = tokens(t);
    let range = if f.len() > 0 {
        f[0]
    } else {
        Seq::empty()
    };
    let dash = find_char(range, '-', 0);
    let start_text = range.take(dash);
    let end_text = range.skip(dash + 1);
    if !all_ascii(t) {
        Err("line contains non-ASCII bytes"@)
    } else if f.len() > 3 {
        Err("expected exactly 3 whitespace-separated fields"@)
    } else if dash >= range.len() {
        Err("first field is not a <start>-<end> range"@)
    } else if hex_u64(start_text) is None || hex_u64(end_text) is None {
        Err(
            "range bounds "@ + debug_quoted(start_text) + "-"@ + debug_quoted(end_text)
                + " are not hexadecimal"@,
        )
    } else if f.len() < 2 || hex_u64(f[1]) is None {
        Err("size field is missing or not hexadecimal"@)
    } else if f.len() < 3 {
        Err("permission field is missing"@)
    } else if f[2].len() != 3 {
        Err("permission field "@ + debug_quoted(f[2]) + " must be exactly 3 characters"@)
    } else if !((f[2][0] == 'u' || f[2][0] == '-') && f[2][1] == 'r' && (f[2][2] == 'w'
        || f[2][2] == '-')) {
        Err("permission field "@ + debug_quoted(f[2]) + " is not of the form <u|->r<w|->"@)
    } else {
        Ok(
            InfoMemRange {
                start: hex_u64(start_text)->0,
                end: hex_u64(end_text)->0,
                size: hex_u64(f[1])->0,
                user: f[2][0] == 'u',
                readable: f[2][1] == 'r',
                writable: f[2][2] == 'w',
            },
        )
    }
}

/// `parse_info_mem` from line `k` on, with the ranges of earlier lines in
/// `acc`: blank lines are skipped, a `PG disabled` line makes the whole
/// answer empty, and the first bad line is the error.
pub open spec fn info_mem_from(lines: Seq<TextLine>, k: int, acc: Seq<InfoMemRange>) -> Result<
    Seq<InfoMemRange>,
    ParseFault,
>
    decreases lines.len() - k,
{
    if k < 0 || k >= lines.len() {
        Ok(acc)
    } else {
        let t = trim(lines[k].content);
        if t.len() == 0 {
            info_mem_from(lines, k + 1, acc)
        } else if t == "PG disabled"@ {
            Ok(Seq::empty())
        } else {
            match mem_row(t) {
                Ok(r) => info_mem_from(lines, k + 1, acc.push(r)),
                Err(reason) => Err(fault_at("info mem"@, lines, k, t, reason)),
            }
        }
    }
}

/// The meaning of an `info mem` reply.
pub open spec fn spec_info_mem(text: Seq<char>) -> Result<Seq<InfoMemRange>, ParseFault> {
    info_mem_from(text_lines(text), 0, Seq::empty())
}

/// The trimmed text of the non-blank lines from line `k` on, in order.
pub open spec fn filled_lines(lines: Seq<TextLine>, k: int) -> Seq<Seq<char>>
    decreases lines.len() - k,
{
    if k < 0 || k >= lines.len() {
        Seq::empty()
    } else if trim(lines[k].content).len() == 0 {
        filled_lines(lines, k + 1)
    } else {
        seq![trim(lines[k].content)] + filled_lines(lines, k + 1)
    }
}

/// `r` says what the row `line` says: three fields, the size the second
/// one gives in hexadecimal, and the flags the third one spells:
/// user for a leading `u`, readable for an `r` in the middle, writable for
/// a trailing `w`.
pub open spec fn range_spelled_by(r: InfoMemRange, line: Seq<char>) -> bool {
    let f = tokens(line);
    &&& f.len() == 3 && f[2].len() == 3
    &&& hex_u64(f[1]) == Some(r.size)
    &&& r.user == (f[2][0] == 'u')
    &&& r.readable == (f[2][1] == 'r')
    &&& r.writable == (f[2][2] == 'w')
}

proof fn lemma_mem_row_spelled(t: Seq<char>)
    ensures
        mem_row(t) matches Ok(r) ==> range_spelled_by(r, t),
{
}

proof fn lemma_info_mem_rows(lines: Seq<TextLine>, k: int, acc: Seq<InfoMemRange>)
    requires
        0 <= k,
    ensures
        match info_mem_from(lines, k, acc) {
            Ok(v) => v.len() > 0 ==> ({
                let rows = filled_lines(lines, k);
                &&& v.len() == acc.len() + rows.len()
                &&& v.take(acc.len() as int) == acc
                &&& forall|i: int| 0 <= i < rows.len() ==> range_spelled_by(#[trigger] v[acc.len() + i], rows[i])
            }),
            Err(_) => true,
        },
    decreases lines.len() - k,
{
    if k < lines.len() {
        let t = trim(lines[k].content);
        if t.len() == 0 {
            lemma_info_mem_rows(lines, k + 1, acc);
        } else if t != "PG disabled"@ {
            lemma_mem_row_spelled(t);
            match mem_row(t) {
                Ok(r) => {
                    lemma_info_mem_rows(lines, k + 1, acc.push(r));
                    match info_mem_from(lines, k, acc) {
                        Ok(v) => {
                            if v.len() > 0 {
                                let rows = filled_lines(lines, k);
                                let rest = filled_lines(lines, k + 1);
                                assert(rows == seq![t] + rest);
                                assert(v.take(acc.len() as int + 1) == acc.push(r));
                                assert(v.take(acc.len() as int) =~= acc.push(r).take(acc.len() as int));
                                assert(acc.push(r).take(acc.len() as int) =~= acc);
                                assert forall|i: int| 0 <= i < rows.len() implies range_spelled_by(
                                    #[trigger] v[acc.len() + i],
                                    rows[i],
                                ) by {
                                    if i == 0 {
                                        assert(v[acc.len() as int] == v.take(acc.len() as int + 1)[acc.len() as int]);
                                    } else {
                                        assert(rows[i] == rest[i - 1]);
                                        assert(v[acc.len() + i] == v[acc.push(r).len() + (i - 1)]);
                                    }
                                }
                            }
                        },
                        Err(_) => {},
                    }
                },
                Err(_) => {},
            }
        }
    } else {
        assert(filled_lines(lines, k) =~= Seq::<Seq<char>>::empty());
        assert(acc.take(acc.len() as int) =~= acc);
    }
}

/// A non-empty `info mem` answer has one range per non-blank line, in
/// order, and each range's size and flags are what its line spells: user
/// exactly when the permission field starts with `u`, writable exactly when
/// it ends with `w`.
pub proof fn law_mem_ranges_are_their_lines(text: Seq<char>)
    ensures
        match spec_info_mem(text) {
            Ok(v) => v.len() > 0 ==> ({
                let rows = filled_lines(text_lines(text), 0);
                &&& v.len() == rows.len()
                &&& forall|i: int| 0 <= i < rows.len() ==> range_spelled_by(#[trigger] v[i], rows[i])
            }),
            Err(_) => true,
        },
{
    lemma_info_mem_rows(text_lines(text), 0, Seq::empty());
    match spec_info_mem(text) {
        Ok(v) => {
            if v.len() > 0 {
                let rows = filled_lines(text_lines(text), 0);
                assert forall|i: int| 0 <= i < rows.len() implies range_spelled_by(#[trigger] v[i], rows[i]) by {
                    assert(v[0 + i] == v[i]);
                }
            }
        },
        Err(_) => {},
    }
}

fn mem_row_exec(t: &Vec<char>) -> (r: Result<InfoMemRange, String>)
    ensures
        match mem_row(t@) {
            Ok(row) => r == Ok::<InfoMemRange, String>(row),
            Err(reason) => r is Err && r->Err_0@ == reason,
        },
{
    let f = tokens_exec(t);
    let ghost fs = tokens(t@);
    let range: Vec<char> = if f.len() > 0 {
        copy_range(&f[0], 0, f[0].len())
    } else {
        Vec::new()
    };
    assert(f.len() > 0 ==> f[0]@ == fs[0]);
    assert(f.len() > 0 ==> range@ =~= fs[0]);
    if !all_ascii_exec(t) {
        return Err(text_of("line contains non-ASCII bytes"));
    }
    if f.len() > 3 {
        return Err(text_of("expected exactly 3 whitespace-separated fields"));
    }
    let dash = match find_char_exec(&range, '-') {
        Some(k) => k,
        None => {
            return Err(text_of("first field is not a <start>-<end> range"));
        },
    };
    proof {
        lemma_find_char(range@, '-', 0);
    }
    let start_text = copy_range(&range, 0, dash);
    let end_text = copy_range(&range, dash + 1, range.len());
    assert(start_text@ =~= range@.take(dash as int));
    assert(end_text@ =~= range@.skip(dash + 1));
    let start = hex_u64_exec(&start_text);
    let end = hex_u64_exec(&end_text);
    if start.is_none() || end.is_none() {
        let mut reason = text_of("range bounds ");
        let q1 = quote_chars(&start_text);
        push_str(&mut reason, q1.as_str());
        push_str(&mut reason, "-");
        let q2 = quote_chars(&end_text);
        push_str(&mut reason, q2.as_str());
        push_str(&mut reason, " are not hexadecimal");
        return Err(reason);
    }
    if f.len() < 2 {
        return Err(text_of("size field is missing or not hexadecimal"));
    }
    assert(f[1]@ == fs[1]);
    let size = hex_u64_exec(&f[1]);
    if size.is_none() {
        return Err(text_of("size field is missing or not hexadecimal"));
    }
    if f.len() < 3 {
        return Err(text_of("permission field is missing"));
    }
    let flags = &f[2];
    assert(flags@ == fs[2]);
    if flags.len() != 3 {
        let mut reason = text_of("permission field ");
        let q = quote_chars(flags);
        push_str(&mut reason, q.as_str());
        push_str(&mut reason, " must be exactly 3 characters");
        return Err(reason);
    }
    if !((flags[0] == 'u' || flags[0] == '-') && flags[1] == 'r' && (flags[2] == 'w' || flags[2]
        == '-')) {
        let mut reason = text_of("permission field ");
        let q = quote_chars(flags);
        push_str(&mut reason, q.as_str());
        push_str(&mut reason, " is not of the form <u|->r<w|->");
        return Err(reason);
    }
    let row = InfoMemRange {
        start: start.unwrap(),
        end: end.unwrap(),
        size: size.unwrap(),
        user: flags[0] == 'u',
        readable: flags[1] == 'r',
        writable: flags[2] == 'w',
    };
    Ok(row)
}

/// Parses `info mem` output: `<start>-<end> <size> <u|->r<w|->` per line,
/// all bare hexadecimal.
///
/// A `PG disabled` line is the honest report that paging is off and yields
/// an empty list; any other line that is neither blank nor a valid range is
/// a [`ParseError`].
pub fn parse_info_mem(text: &str) -> (r: Result<Vec<InfoMemRange>, ParseError>)
    ensures
        match spec_info_mem(text@) {
            Ok(rows) => r is Ok && r->Ok_0@ == rows,
            Err(fault) => r is Err && r->Err_0@ == fault,
        },
{
    let lines = input_lines(text);
    let ghost tl = text_lines(text@);
    let mut out: Vec<InfoMemRange> = Vec::new();
    let mut k: usize = 0;
    while k < lines.len()
        invariant
            k <= lines.len(),
            tl == text_lines(text@),
            lines.len() == tl.len(),
            forall|j: int|
                0 <= j < lines.len() ==> {
                    &&& lines[j].offset == tl[j].offset
                    &&& lines[j].chars@ == tl[j].content
                },
            info_mem_from(tl, k as int, out@) == spec_info_mem(text@),
        decreases lines.len() - k,
    {
        let t = trim_exec(&lines[k].chars);
        if t.len() == 0 {
            k = k + 1;
            continue;
        }
        if equals_str(&t, "PG disabled") {
            return Ok(Vec::new());
        }
        match mem_row_exec(&t) {
            Ok(row) => {
                out.push(row);
            },
            Err(reason) => {
                return Err(make_error("info mem", k + 1, lines[k].offset, &t, reason));
            },
        }
        k = k + 1;
    }
    Ok(out)
}

// ----------------------------------------------------------- info tlb ---

/// Page granularity of an `info tlb` leaf, derived from the **PS** bit.
#[derive(Debug, Clone, Copy, PartialEq, Eq)]
pub enum TlbGranularity {
    /// 4 KiB leaf (PTE, `PS=0`).
    Page4K,
    /// 2 MiB huge page (PDE, `PS=1`).
    Huge2M,
    /// 1 GiB huge page (PDPTE, `PS=1`).
    Huge1G,
}

/// Size in bytes of a granularity.
pub open spec fn granularity_bytes(g: TlbGranularity) -> u64 {
    match g {
        TlbGranularity::Page4K => 4096,
        TlbGranularity::Huge2M => 0x20_0000,
        TlbGranularity::Huge1G => 0x4000_0000,
    }
}

impl TlbGranularity {
    /// Size in bytes.
    pub fn bytes(self) -> (n: u64)
        ensures
            n == granularity_bytes(self),
    {
        match self {
            TlbGranularity::Page4K => 4096,
            TlbGranularity::Huge2M => 2 * 1024 * 1024,
            TlbGranularity::Huge1G => 1024 * 1024 * 1024,
        }
    }
}

/// The nine `info tlb` flag characters, in QEMU's column order
/// `X G P D A C T U W`; the third column is PS (page size), not present.
#[derive(Debug, Clone, Copy, Default, PartialEq, Eq)]
pub struct TlbFlags {
    /// Column 1, `X` — NX / no-execute.
    pub nx: bool,
    /// Column 2, `G` — global.
    pub global: bool,
    /// Column 3, `P` — PS / page size: this leaf is a huge page.
    pub ps: bool,
    /// Column 4, `D` — dirty.
    pub dirty: bool,
    /// Column 5, `A` — accessed.
    pub accessed: bool,
    /// Column 6, `C` — PCD, cache disable.
    pub pcd: bool,
    /// Column 7, `T` — PWT, write-through.
    pub pwt: bool,
    /// Column 8, `U` — user/supervisor.
    pub user: bool,
    /// Column 9, `W` — writable.
    pub writable: bool,
}

/// The letter QEMU prints in flag column `i` (0-based) when the bit is set.
pub open spec fn tlb_letter(i: int) -> char {
    if i == 0 {
        'X'
    } else if i == 1 {
        'G'
    } else if i == 2 {
        'P'
    } else if i == 3 {
        'D'
    } else if i == 4 {
        'A'
    } else if i == 5 {
        'C'
    } else if i == 6 {
        'T'
    } else if i == 7 {
        'U'
    } else {
        'W'
    }
}

/// The flags a nine-character field decodes to: each column holds its own
/// letter (set) or `-` (clear); anything else, or another length, is `None`.
pub open spec fn spec_tlb_flags(s: Seq<char>) -> Option<TlbFlags> {
    if s.len() == 9 && forall|i: int| 0 <= i < 9 ==> #[trigger] s[i] == tlb_letter(i) || s[i] == '-' {
        Some(
            TlbFlags {
                nx: s[0] == 'X',
                global: s[1] == 'G',
                ps: s[2] == 'P',
                dirty: s[3] == 'D',
                accessed: s[4] == 'A',
                pcd: s[5] == 'C',
                pwt: s[6] == 'T',
                user: s[7] == 'U',
                writable: s[8] == 'W',
            },
        )
    } else {
        None
    }
}

/// A flag field decodes exactly when it is `XGPDACTUW` with any letters
/// replaced by `-`, and then each flag is set exactly when its column is
/// not `-`: NX, global, page size, dirty, accessed, cache disable,
/// write-through, user, writable, in that order.
pub proof fn law_tlb_flag_columns(s: Seq<char>)
    ensures
        ({
            let full = "XGPDACTUW"@;
            &&& (spec_tlb_flags(s) is Some) == (s.len() == 9 && forall|i: int| 0 <= i < 9 ==> #[trigger] s[i]
                == full[i] || s[i] == '-')
            &&& spec_tlb_flags(s) matches Some(f) ==> {
                &&& f.nx == (s[0] != '-')
                &&& f.global == (s[1] != '-')
                &&& f.ps == (s[2] != '-')
                &&& f.dirty == (s[3] != '-')
                &&& f.accessed == (s[4] != '-')
                &&& f.pcd == (s[5] != '-')
                &&& f.pwt == (s[6] != '-')
                &&& f.user == (s[7] != '-')
                &&& f.writable == (s[8] != '-')
            }
        }),
{
    reveal_strlit("XGPDACTUW");
    let full = "XGPDACTUW"@;
    assert forall|i: int| 0 <= i < 9 implies #[trigger] full[i] == tlb_letter(i) by {}
    if s.len() == 9 {
        if forall|i: int| 0 <= i < 9 ==> #[trigger] s[i] == full[i] || s[i] == '-' {
            assert forall|i: int| 0 <= i < 9 implies #[trigger] s[i] == tlb_letter(i) || s[i] == '-' by {
                assert(full[i] == tlb_letter(i));
            }
            assert(s[0] == 'X' || s[0] == '-');
            assert(s[1] == 'G' || s[1] == '-');
            assert(s[2] == 'P' || s[2] == '-');
            assert(s[3] == 'D' || s[3] == '-');
            assert(s[4] == 'A' || s[4] == '-');
            assert(s[5] == 'C' || s[5] == '-');
            assert(s[6] == 'T' || s[6] == '-');
            assert(s[7] == 'U' || s[7] == '-');
            assert(s[8] == 'W' || s[8] == '-');
        } else if forall|i: int| 0 <= i < 9 ==> #[trigger] s[i] == tlb_letter(i) || s[i] == '-' {
            let i = choose|i: int| 0 <= i < 9 && !(#[trigger] s[i] == full[i] || s[i] == '-');
            assert(full[i] == tlb_letter(i));
        }
    }
}

fn tlb_letter_exec(i: usize) -> (c: char)
    requires
        i < 9,
    ensures
        c == tlb_letter(i as int),
{
    if i == 0 {
        'X'
    } else if i == 1 {
        'G'
    } else if i == 2 {
        'P'
    } else if i == 3 {
        'D'
    } else if i == 4 {
        'A'
    } else if i == 5 {
        'C'
    } else if i == 6 {
        'T'
    } else if i == 7 {
        'U'
    } else {
        'W'
    }
}

fn tlb_flags_of(v: &Vec<char>) -> (r: Option<TlbFlags>)
    ensures
        r == spec_tlb_flags(v@),
{
    if v.len() != 9 {
        return None;
    }
    let mut i: usize = 0;
    while i < 9
        invariant
            v.len() == 9,
            i <= 9,
            forall|j: int| 0 <= j < i ==> #[trigger] v@[j] == tlb_letter(j) || v@[j] == '-',
        decreases 9 - i,
    {
        let c = v[i];
        if c != tlb_letter_exec(i) && c != '-' {
            return None;
        }
        i = i + 1;
    }
    Some(
        TlbFlags {
            nx: v[0] == 'X',
            global: v[1] == 'G',
            ps: v[2] == 'P',
            dirty: v[3] == 'D',
            accessed: v[4] == 'A',
            pcd: v[5] == 'C',
            pwt: v[6] == 'T',
            user: v[7] == 'U',
            writable: v[8] == 'W',
        },
    )
}

/// Decodes the nine `info tlb` flag characters.
///
/// `None` for anything that is not exactly nine characters with each column
/// holding its own letter or `-`.  Column 3 accepts `P`, meaning PS.
pub fn decode_tlb_flags(text: &str) -> (r: Option<TlbFlags>)
    ensures
        r == spec_tlb_flags(text@),
{
    let v = chars_of(text);
    tlb_flags_of(&v)
}

/// One `info tlb` line.
#[derive(Debug, Clone, Copy, PartialEq, Eq)]
pub struct InfoTlbEntry {
    /// Virtual address, as printed.
    pub virtual_address: u64,
    /// Physical base address, as printed; for a huge leaf it is aligned to
    /// the leaf size, so read it together with the granularity.
    pub physical_address: u64,
    /// The decoded nine flags.
    pub flags: TlbFlags,
}

impl InfoTlbEntry {
    /// The granularity implied by PS alone: `Huge2M` for any PS=1 entry
    /// (PS cannot tell 2 MiB from 1 GiB; see [`resolve_granularities`]).
    pub fn granularity(&self) -> (g: TlbGranularity)
        ensures
            g == (if self.flags.ps {
                TlbGranularity::Huge2M
            } else {
                TlbGranularity::Page4K
            }),
    {
        if self.flags.ps {
            TlbGranularity::Huge2M
        } else {
            TlbGranularity::Page4K
        }
    }
}

/// Index of the first entry after `j - 1` (at or after `j`) that starts
/// above `vaddr`, or `s.len()`.
pub open spec fn next_page_index(s: Seq<InfoTlbEntry>, vaddr: u64, j: int) -> int
    decreases s.len() - j,
{
    if j < 0 || j >= s.len() {
        s.len() as int
    } else if s[j].virtual_address > vaddr {
        j
    } else {
        next_page_index(s, vaddr, j + 1)
    }
}

/// The granularity of entry `i`, inferred from the stride to the next entry
/// that starts a new page: 4 KiB without PS, 1 GiB for a stride of at least
/// 1 GiB, 2 MiB otherwise and for the last entry.
pub open spec fn resolved_granularity(s: Seq<InfoTlbEntry>, i: int) -> TlbGranularity {
    if !s[i].flags.ps {
        TlbGranularity::Page4K
    } else {
        let n = next_page_index(s, s[i].virtual_address, i + 1);
        if n < s.len() && s[n].virtual_address - s[i].virtual_address >= 0x4000_0000 {
            TlbGranularity::Huge1G
        } else {
            TlbGranularity::Huge2M
        }
    }
}

/// Fills in huge-page granularity using the step to the next entry.
///
/// `info tlb` never names the level, so a PS=1 entry could be a 2 MiB or a
/// 1 GiB leaf; the stride to the next entry that starts a new page decides.
/// The last huge entry stays at the conservative 2 MiB reading rather than a
/// size guessed from alignment.  The result is aligned with `entries`.
pub fn resolve_granularities(entries: &[InfoTlbEntry]) -> (out: Vec<TlbGranularity>)
    ensures
        out.len() == entries.len(),
        forall|i: int| 0 <= i < entries.len() ==> out[i] == resolved_granularity(entries@, i),
{
    let mut out: Vec<TlbGranularity> = Vec::new();
    let mut index: usize = 0;
    while index < entries.len()
        invariant
            index <= entries.len(),
            out.len() == index,
            forall|i: int| 0 <= i < index ==> out[i] == resolved_granularity(entries@, i),
        decreases entries.len() - index,
    {
        let entry = entries[index];
        if !entry.flags.ps {
            out.push(TlbGranularity::Page4K);
        } else {
            let mut j = index + 1;
            while j < entries.len() && entries[j].virtual_address <= entry.virtual_address
                invariant
                    index < j <= entries.len(),
                    entry == entries@[index as int],
                    next_page_index(entries@, entry.virtual_address, j as int)
                        == next_page_index(entries@, entry.virtual_address, index + 1),
                decreases entries.len() - j,
            {
                j = j + 1;
            }
            let g = if j < entries.len() && entries[j].virtual_address - entry.virtual_address
                >= 1024 * 1024 * 1024 {
                TlbGranularity::Huge1G
            } else {
                TlbGranularity::Huge2M
            };
            out.push(g);
        }
        index = index + 1;
    }
    out
}

/// What a non-blank `info tlb` line parses to (`None`: nothing to record),
/// or the reason it is refused.
pub open spec fn tlb_row(t: Seq<char>) -> Result<Option<InfoTlbEntry>, Seq<char>> {
    let f = tokens(t);
    if f.len() == 0 {
        Ok(None)
    } else if f.len() < 2 {
        Err("expected `<vaddr>: <paddr> <flags>`"@)
    } else if f.len() < 3 {
        Err("flag field is missing"@)
    } else if f.len() > 3 {
        Err("unexpected trailing fields"@)
    } else if !ends_with(f[0], seq![':']) {
        Err(debug_quoted(f[0]) + " is not a `<vaddr>:` field"@)
    } else if hex_u64(f[0].drop_last()) is None || hex_u64(f[1]) is None {
        Err("address fields must be hexadecimal"@)
    } else if spec_tlb_flags(f[2]) is None {
        Err(
            "flag field "@ + debug_quoted(f[2])
                + " must be 9 characters drawn from `X G P D A C T U W` positionally with `-` for clear"@,
        )
    } else {
        Ok(
            Some(
                InfoTlbEntry {
                    virtual_address: hex_u64(f[0].drop_last())->0,
                    physical_address: hex_u64(f[1])->0,
                    flags: spec_tlb_flags(f[2])->0,
                },
            ),
        )
    }
}

/// `parse_info_tlb` from line `k` on, with the entries of earlier lines in
/// `acc`.  The error quotes the line as printed (not trimmed).
pub open spec fn info_tlb_from(lines: Seq<TextLine>, k: int, acc: Seq<InfoTlbEntry>) -> Result<
    Seq<InfoTlbEntry>,
    ParseFault,
>
    decreases lines.len() - k,
{
    if k < 0 || k >= lines.len() {
        Ok(acc)
    } else {
        let t = trim(lines[k].content);
        if t.len() == 0 {
            info_tlb_from(lines, k + 1, acc)
        } else {
            match tlb_row(t) {
                Ok(None) => info_tlb_from(lines, k + 1, acc),
                Ok(Some(e)) => info_tlb_from(lines, k + 1, acc.push(e)),
                Err(reason) => Err(fault_at("info tlb"@, lines, k, lines[k].content, reason)),
            }
        }
    }
}

/// The meaning of an `info tlb` reply.
pub open spec fn spec_info_tlb(text: Seq<char>) -> Result<Seq<InfoTlbEntry>, ParseFault> {
    info_tlb_from(text_lines(text), 0, Seq::empty())
}

fn tlb_row_exec(t: &Vec<char>) -> (r: Result<Option<InfoTlbEntry>, String>)
    ensures
        match tlb_row(t@) {
            Ok(row) => r == Ok::<Option<InfoTlbEntry>, String>(row),
            Err(reason) => r is Err && r->Err_0@ == reason,
        },
{
    let f = tokens_exec(t);
    let ghost fs = tokens(t@);
    if f.len() == 0 {
        return Ok(None);
    }
    if f.len() < 2 {
        return Err(text_of("expected `<vaddr>: <paddr> <flags>`"));
    }
    if f.len() < 3 {
        return Err(text_of("flag field is missing"));
    }
    if f.len() > 3 {
        return Err(text_of("unexpected trailing fields"));
    }
    assert(f[0]@ == fs[0] && f[1]@ == fs[1] && f[2]@ == fs[2]);
    let address = &f[0];
    if !ends_with_char(address, ':') {
        let mut reason = quote_chars(address);
        push_str(&mut reason, " is not a `<vaddr>:` field");
        return Err(reason);
    }
    let virtual_text = copy_range(address, 0, address.len() - 1);
    assert(virtual_text@ =~= address@.drop_last());
    let virtual_address = hex_u64_exec(&virtual_text);
    let physical_address = hex_u64_exec(&f[1]);
    if virtual_address.is_none() || physical_address.is_none() {
        return Err(text_of("address fields must be hexadecimal"));
    }
    match tlb_flags_of(&f[2]) {
        Some(flags) => Ok(
            Some(
                InfoTlbEntry {
                    virtual_address: virtual_address.unwrap(),
                    physical_address: physical_address.unwrap(),
                    flags,
                },
            ),
        ),
        None => {
            let mut reason = text_of("flag field ");
            let q = quote_chars(&f[2]);
            push_str(&mut reason, q.as_str());
            push_str(
                &mut reason,
                " must be 9 characters drawn from `X G P D A C T U W` positionally with `-` for clear",
            );
            Err(reason)
        },
    }
}

/// Parses `info tlb` output: `<vaddr>: <paddr> <9 flag characters>` per line.
///
/// The flags are decoded positionally as `X G P D A C T U W` (column 3 is
/// PS); a character that is neither its column's letter nor `-` is a
/// [`ParseError`], never a silently clear flag.
pub fn parse_info_tlb(text: &str) -> (r: Result<Vec<InfoTlbEntry>, ParseError>)
    ensures
        match spec_info_tlb(text@) {
            Ok(rows) => r is Ok && r->Ok_0@ == rows,
            Err(fault) => r is Err && r->Err_0@ == fault,
        },
{
    let lines = input_lines(text);
    let ghost tl = text_lines(text@);
    let mut out: Vec<InfoTlbEntry> = Vec::new();
    let mut k: usize = 0;
    while k < lines.len()
        invariant
            k <= lines.len(),
            tl == text_lines(text@),
            lines.len() == tl.len(),
            forall|j: int|
                0 <= j < lines.len() ==> {
                    &&& lines[j].offset == tl[j].offset
                    &&& lines[j].chars@ == tl[j].content
                },
            info_tlb_from(tl, k as int, out@) == spec_info_tlb(text@),
        decreases lines.len() - k,
    {
        let t = trim_exec(&lines[k].chars);
        if t.len() == 0 {
            k = k + 1;
            continue;
        }
        match tlb_row_exec(&t) {
            Ok(Some(entry)) => {
                out.push(entry);
            },
            Ok(None) => {},
            Err(reason) => {
                return Err(make_error("info tlb", k + 1, lines[k].offset, &lines[k].chars, reason));
            },
        }
        k = k + 1;
    }
    Ok(out)
}

// ---------------------------------------------------------- info cpus ---

/// One CPU's line from `info cpus`.
#[derive(Debug, Clone, PartialEq, Eq)]
pub struct CpuInfo {
    /// `CPU #N`, as printed.
    pub index: u32,
    /// Host thread id; it changes every run, so only its shape is checked.
    pub thread_id: u64,
    /// Was this the `*`-marked current CPU?
    pub current: bool,
}

/// First index at or after `i` whose character is not `c`
/// (`trim_start_matches(c)`).
pub open spec fn skip_char(s: Seq<char>, c: char, i: int) -> int
    decreases s.len() - i,
{
    if i < 0 || i >= s.len() {
        s.len() as int
    } else if s[i] == c {
        skip_char(s, c, i + 1)
    } else {
        i
    }
}

fn skip_char_exec(v: &Vec<char>, c: char) -> (r: usize)
    ensures
        r == skip_char(v@, c, 0),
        r <= v.len(),
{
    let mut i: usize = 0;
    while i < v.len() && v[i] == c
        invariant
            i <= v.len(),
            skip_char(v@, c, i as int) == skip_char(v@, c, 0),
        decreases v.len() - i,
    {
        i = i + 1;
    }
    i
}

/// What a trimmed, non-blank `info cpus` line parses to.
pub open spec fn cpu_row(t: Seq<char>) -> Result<CpuInfo, Seq<char>> {
    let rest = trim(t.skip(skip_char(t, '*', 0)));
    let after = rest.skip(5);
    let colon = find_char(after, ':', 0);
    let index_text = after.take(colon);
    let tail = trim(after.skip(colon + 1));
    let thread_text = tail.skip(10);
    if !starts_with(rest, "CPU #"@) {
        Err("expected `<*| > CPU #N: thread_id=M`"@)
    } else if colon >= after.len() {
        Err("missing `:` after the CPU index"@)
    } else if decimal_value(trim(index_text), u32::MAX as nat) is None {
        Err("CPU index "@ + debug_quoted(index_text) + " is not a decimal integer"@)
    } else if !starts_with(tail, "thread_id="@) {
        Err("expected `thread_id=<decimal>`"@)
    } else if decimal_value(trim(thread_text), u64::MAX as nat) is None {
        Err("thread id "@ + debug_quoted(thread_text) + " is not a decimal integer"@)
    } else {
        Ok(
            CpuInfo {
                index: decimal_value(trim(index_text), u32::MAX as nat)->0 as u32,
                thread_id: decimal_value(trim(thread_text), u64::MAX as nat)->0 as u64,
                current: t.len() > 0 && t[0] == '*',
            },
        )
    }
}

/// `parse_info_cpus` from line `k` on, with the CPUs of earlier lines in
/// `acc`.
pub open spec fn info_cpus_from(lines: Seq<TextLine>, k: int, acc: Seq<CpuInfo>) -> Result<
    Seq<CpuInfo>,
    ParseFault,
>
    decreases lines.len() - k,
{
    if k < 0 || k >= lines.len() {
        Ok(acc)
    } else {
        let t = trim(lines[k].content);
        if t.len() == 0 {
            info_cpus_from(lines, k + 1, acc)
        } else {
            match cpu_row(t) {
                Ok(c) => info_cpus_from(lines, k + 1, acc.push(c)),
                Err(reason) => Err(fault_at("info cpus"@, lines, k, t, reason)),
            }
        }
    }
}

/// The meaning of an `info cpus` reply.
pub open spec fn spec_info_cpus(text: Seq<char>) -> Result<Seq<CpuInfo>, ParseFault> {
    info_cpus_from(text_lines(text), 0, Seq::empty())
}

/// `str::parse::<u64>()` bounded by `max`, as an `Option`.
fn decimal_exec(v: &Vec<char>, max: u64) -> (r: Option<u64>)
    ensures
        match decimal_value(v@, max as nat) {
            Some(n) => r == Some(n as u64) && n <= max,
            None => r is None,
        },
{
    match parse_unsigned_exec(v, 10, max) {
        Ok(n) => Some(n),
        Err(_) => None,
    }
}

fn cpu_row_exec(t: &Vec<char>) -> (r: Result<CpuInfo, String>)
    ensures
        match cpu_row(t@) {
            Ok(row) => r == Ok::<CpuInfo, String>(row),
            Err(reason) => r is Err && r->Err_0@ == reason,
        },
{
    let current = t.len() > 0 && t[0] == '*';
    let stars = skip_char_exec(t, '*');
    let unstarred = copy_range(t, stars, t.len());
    assert(unstarred@ =~= t@.skip(stars as int));
    let rest = trim_exec(&unstarred);
    let after = match strip_prefix(&rest, "CPU #") {
        Some(after) => after,
        None => {
            return Err(text_of("expected `<*| > CPU #N: thread_id=M`"));
        },
    };
    proof {
        reveal_strlit("CPU #");
    }
    let colon = match find_char_exec(&after, ':') {
        Some(k) => k,
        None => {
            return Err(text_of("missing `:` after the CPU index"));
        },
    };
    let index_text = copy_range(&after, 0, colon);
    assert(index_text@ =~= after@.take(colon as int));
    let index_trimmed = trim_exec(&index_text);
    let index = match decimal_exec(&index_trimmed, u32::MAX as u64) {
        Some(n) => n as u32,
        None => {
            let mut reason = text_of("CPU index ");
            let q = quote_chars(&index_text);
            push_str(&mut reason, q.as_str());
            push_str(&mut reason, " is not a decimal integer");
            return Err(reason);
        },
    };
    let tail_raw = copy_range(&after, colon + 1, after.len());
    assert(tail_raw@ =~= after@.skip(colon + 1));
    let tail = trim_exec(&tail_raw);
    let thread_text = match strip_prefix(&tail, "thread_id=") {
        Some(x) => x,
        None => {
            return Err(text_of("expected `thread_id=<decimal>`"));
        },
    };
    proof {
        reveal_strlit("thread_id=");
    }
    let thread_trimmed = trim_exec(&thread_text);
    let thread_id = match decimal_exec(&thread_trimmed, u64::MAX) {
        Some(n) => n,
        None => {
            let mut reason = text_of("thread id ");
            let q = quote_chars(&thread_text);
            push_str(&mut reason, q.as_str());
            push_str(&mut reason, " is not a decimal integer");
            return Err(reason);
        },
    };
    Ok(CpuInfo { index, thread_id, current })
}

/// Parses `info cpus` output: `* CPU #0: thread_id=333695` per line, the
/// `*` marking the current CPU.
pub fn parse_info_cpus(text: &str) -> (r: Result<Vec<CpuInfo>, ParseError>)
    ensures
        match spec_info_cpus(text@) {
            Ok(rows) => r is Ok && r->Ok_0@ == rows,
            Err(fault) => r is Err && r->Err_0@ == fault,
        },
{
    let lines = input_lines(text);
    let ghost tl = text_lines(text@);
    let mut out: Vec<CpuInfo> = Vec::new();
    let mut k: usize = 0;
    while k < lines.len()
        invariant
            k <= lines.len(),
            tl == text_lines(text@),
            lines.len() == tl.len(),
            forall|j: int|
                0 <= j < lines.len() ==> {
                    &&& lines[j].offset == tl[j].offset
                    &&& lines[j].chars@ == tl[j].content
                },
            info_cpus_from(tl, k as int, out@) == spec_info_cpus(text@),
        decreases lines.len() - k,
    {
        let t = trim_exec(&lines[k].chars);
        if t.len() == 0 {
            k = k + 1;
            continue;
        }
        match cpu_row_exec(&t) {
            Ok(cpu) => {
                out.push(cpu);
            },
            Err(reason) => {
                return Err(make_error("info cpus", k + 1, lines[k].offset, &t, reason));
            },
        }
        k = k + 1;
    }
    Ok(out)
}

// ----------------------------------------------------- info registers ---

/// One segment register line from `info registers`.
#[derive(Debug, Clone, PartialEq, Eq)]
pub struct SegmentRegister {
    /// `ES` / `CS` / `SS` / `DS` / `FS` / `GS` / `LDT` / `TR`.
    pub name: String,
    /// Selector (`sel`).
    pub selector: u16,
    /// Base, as printed (ignored by the CPU in long mode except FS/GS).
    pub base: u64,
    /// Limit, as printed.
    pub limit: u32,
    /// The raw attribute dword, as printed.
    pub access: u32,
    /// DPL, as printed.
    pub dpl: u8,
    /// The type string verbatim (`CS64`, `DS`, `LDT`, `TSS64-busy`, ...).
    pub type_text: String,
    /// The trailing permission string (`-WA`, `-R-`), when present.
    pub permissions: Option<String>,
}

/// The content of a [`SegmentRegister`].
pub struct SegmentView {
    pub name: Seq<char>,
    pub selector: u16,
    pub base: u64,
    pub limit: u32,
    pub access: u32,
    pub dpl: u8,
    pub type_text: Seq<char>,
    pub permissions: Option<Seq<char>>,
}

/// The view of an optional string.
pub open spec fn opt_view(s: Option<String>) -> Option<Seq<char>> {
    match s {
        Some(t) => Some(t@),
        None => None,
    }
}

impl View for SegmentRegister {
    type V = SegmentView;

    open spec fn view(&self) -> SegmentView {
        SegmentView {
            name: self.name@,
            selector: self.selector,
            base: self.base,
            limit: self.limit,
            access: self.access,
            dpl: self.dpl,
            type_text: self.type_text@,
            permissions: opt_view(self.permissions),
        }
    }
}

/// Parsed `info registers` output.
#[derive(Debug, Clone, Default, PartialEq, Eq)]
pub struct RegistersReport {
    /// The `CPU#N` this report belongs to.
    pub cpu: Option<u32>,
    /// GPRs and control registers as `(upper-case name, QEMU's own hex
    /// text)`, one entry per name, in the order the names first appeared.
    pub registers: Vec<(String, String)>,
    /// `RFL`, as printed.
    pub rflags: Option<String>,
    /// The flag box from the `RFL` line, e.g. `---Z-P-`.
    pub flags_text: Option<String>,
    /// CPL, when present.
    pub cpl: Option<u8>,
    /// Every segment-register line, including `LDT` and `TR`.
    pub segments: Vec<SegmentRegister>,
    /// `GDT=` base.
    pub gdt_base: Option<u64>,
    /// `GDT=` limit: bytes minus one.
    pub gdt_limit: Option<u32>,
    /// `IDT=` base.
    pub idt_base: Option<u64>,
    /// `IDT=` limit: bytes minus one.
    pub idt_limit: Option<u32>,
    /// True when the `RIP` line carried `HLT=1`.
    pub halted: Option<bool>,
}

/// Index of the first pair at or after `i` whose name is `key`.
pub open spec fn key_index(pairs: Seq<(Seq<char>, Seq<char>)>, key: Seq<char>, i: int) -> int
    decreases pairs.len() - i,
{
    if i < 0 || i >= pairs.len() {
        pairs.len() as int
    } else if pairs[i].0 == key {
        i
    } else {
        key_index(pairs, key, i + 1)
    }
}

/// The name-to-text map a list of pairs stands for (the first pair of a
/// name wins).
pub open spec fn pairs_map(pairs: Seq<(Seq<char>, Seq<char>)>) -> Map<Seq<char>, Seq<char>> {
    Map::new(
        |k: Seq<char>| key_index(pairs, k, 0) < pairs.len(),
        |k: Seq<char>| pairs[key_index(pairs, k, 0)].1,
    )
}

/// The pairs of strings as pairs of character sequences.
pub open spec fn pairs_view(v: Seq<(String, String)>) -> Seq<(Seq<char>, Seq<char>)> {
    Seq::new(v.len(), |i: int| (v[i].0@, v[i].1@))
}

/// The content of a [`RegistersReport`].
pub struct ReportView {
    pub cpu: Option<u32>,
    pub registers: Map<Seq<char>, Seq<char>>,
    pub rflags: Option<Seq<char>>,
    pub flags_text: Option<Seq<char>>,
    pub cpl: Option<u8>,
    pub segments: Seq<SegmentView>,
    pub gdt_base: Option<u64>,
    pub gdt_limit: Option<u32>,
    pub idt_base: Option<u64>,
    pub idt_limit: Option<u32>,
    pub halted: Option<bool>,
}

impl View for RegistersReport {
    type V = ReportView;

    open spec fn view(&self) -> ReportView {
        ReportView {
            cpu: self.cpu,
            registers: pairs_map(pairs_view(self.registers@)),
            rflags: opt_view(self.rflags),
            flags_text: opt_view(self.flags_text),
            cpl: self.cpl,
            segments: self.segments@.map_values(|s: SegmentRegister| s@),
            gdt_base: self.gdt_base,
            gdt_limit: self.gdt_limit,
            idt_base: self.idt_base,
            idt_limit: self.idt_limit,
            halted: self.halted,
        }
    }
}

/// A report with nothing in it.
pub open spec fn empty_report() -> ReportView {
    ReportView {
        cpu: None,
        registers: Map::empty(),
        rflags: None,
        flags_text: None,
        cpl: None,
        segments: Seq::empty(),
        gdt_base: None,
        gdt_limit: None,
        idt_base: None,
        idt_limit: None,
        halted: None,
    }
}

proof fn lemma_key_index_keys(
    a: Seq<(Seq<char>, Seq<char>)>,
    b: Seq<(Seq<char>, Seq<char>)>,
    key: Seq<char>,
    i: int,
)
    requires
        a.len() == b.len(),
        forall|j: int| 0 <= j < a.len() ==> #[trigger] a[j].0 == b[j].0,
        0 <= i,
    ensures
        key_index(a, key, i) == key_index(b, key, i),
    decreases a.len() - i,
{
    if i < a.len() && a[i].0 != key {
        lemma_key_index_keys(a, b, key, i + 1);
    }
}

proof fn lemma_key_index_push(
    a: Seq<(Seq<char>, Seq<char>)>,
    p: (Seq<char>, Seq<char>),
    key: Seq<char>,
    i: int,
)
    requires
        0 <= i <= a.len(),
    ensures
        key_index(a.push(p), key, i) == if key_index(a, key, i) < a.len() {
            key_index(a, key, i)
        } else if p.0 == key {
            a.len() as int
        } else {
            a.len() + 1int
        },
    decreases a.len() - i,
{
    if i < a.len() {
        assert(a.push(p)[i] == a[i]);
        if a[i].0 != key {
            lemma_key_index_push(a, p, key, i + 1);
        }
    } else {
        assert(a.push(p)[i] == p);
        if p.0 != key {
            assert(key_index(a.push(p), key, i + 1) == a.len() + 1);
        }
    }
}

proof fn lemma_key_index_bounds(a: Seq<(Seq<char>, Seq<char>)>, key: Seq<char>, i: int)
    requires
        0 <= i <= a.len(),
    ensures
        i <= key_index(a, key, i) <= a.len(),
        key_index(a, key, i) < a.len() ==> a[key_index(a, key, i)].0 == key,
        forall|j: int| i <= j < key_index(a, key, i) ==> a[j].0 != key,
    decreases a.len() - i,
{
    if i < a.len() && a[i].0 != key {
        lemma_key_index_bounds(a, key, i + 1);
    }
}

/// Sets `name` to `value` in a register list (`BTreeMap::insert`).
fn insert_register(pairs: &mut Vec<(String, String)>, name: String, value: String)
    ensures
        pairs_map(pairs_view(final(pairs)@)) == pairs_map(pairs_view(old(pairs)@)).insert(
            name@,
            value@,
        ),
{
    let ghost before = pairs_view(pairs@);
    let mut i: usize = 0;
    while i < pairs.len()
        invariant
            i <= pairs.len(),
            pairs@ == old(pairs)@,
            before == pairs_view(pairs@),
            key_index(before, name@, i as int) == key_index(before, name@, 0),
        decreases pairs.len() - i,
    {
        if pairs[i].0 == name {
            let key = pairs[i].0.clone();
            pairs.set(i, (key, value));
            proof {
                let after = pairs_view(pairs@);
                assert forall|j: int| 0 <= j < before.len() implies #[trigger] before[j].0
                    == after[j].0 by {}
                let target = pairs_map(before).insert(name@, value@);
                assert(key_index(before, name@, i as int) == i);
                assert forall|k: Seq<char>|
                    #[trigger] pairs_map(after).dom().contains(k) == target.dom().contains(k) by {
                    lemma_key_index_keys(before, after, k, 0);
                    lemma_key_index_bounds(before, k, 0);
                }
                assert(pairs_map(after).dom() =~= target.dom());
                assert forall|k: Seq<char>| #[trigger]
                    pairs_map(after).dom().contains(k) implies pairs_map(after)[k] == target[k] by {
                    lemma_key_index_keys(before, after, k, 0);
                    lemma_key_index_bounds(before, k, 0);
                }
                assert(pairs_map(after) =~= target);
            }
            return;
        }
        i = i + 1;
    }
    let ghost old_view = pairs_view(pairs@);
    pairs.push((name, value));
    proof {
        let after = pairs_view(pairs@);
        assert(after =~= old_view.push((name@, value@)));
        let target = pairs_map(old_view).insert(name@, value@);
        assert forall|k: Seq<char>|
            #[trigger] pairs_map(after).dom().contains(k) == target.dom().contains(k) by {
            lemma_key_index_push(old_view, (name@, value@), k, 0);
            lemma_key_index_bounds(old_view, k, 0);
        }
        assert(pairs_map(after).dom() =~= target.dom());
        assert forall|k: Seq<char>| #[trigger]
            pairs_map(after).dom().contains(k) implies pairs_map(after)[k] == target[k] by {
            lemma_key_index_push(old_view, (name@, value@), k, 0);
            lemma_key_index_bounds(old_view, k, 0);
            if key_index(old_view, k, 0) < old_view.len() {
                assert(after[key_index(old_view, k, 0)] == old_view[key_index(old_view, k, 0)]);
            }
        }
        assert(pairs_map(after) =~= target);
    }
}

/// Strips every leading and trailing `[` and `]` (`trim_matches(['[', ']'])`).
pub open spec fn strip_brackets(s: Seq<char>) -> Seq<char> {
    let lo = skip_brackets(s, 0);
    let hi = rskip_brackets(s, s.len() as int);
    if hi <= lo {
        Seq::empty()
    } else {
        s.subrange(lo, hi)
    }
}

pub open spec fn is_bracket(c: char) -> bool {
    c == '[' || c == ']'
}

pub open spec fn skip_brackets(s: Seq<char>, i: int) -> int
    decreases s.len() - i,
{
    if i < 0 || i >= s.len() {
        s.len() as int
    } else if is_bracket(s[i]) {
        skip_brackets(s, i + 1)
    } else {
        i
    }
}

pub open spec fn rskip_brackets(s: Seq<char>, j: int) -> int
    decreases j,
{
    if j <= 0 {
        0
    } else if is_bracket(s[j - 1]) {
        rskip_brackets(s, j - 1)
    } else {
        j
    }
}

fn strip_brackets_exec(v: &Vec<char>) -> (r: Vec<char>)
    ensures
        r@ == strip_brackets(v@),
{
    let mut lo: usize = 0;
    while lo < v.len() && (v[lo] == '[' || v[lo] == ']')
        invariant
            lo <= v.len(),
            skip_brackets(v@, lo as int) == skip_brackets(v@, 0),
        decreases v.len() - lo,
    {
        lo = lo + 1;
    }
    let mut hi: usize = v.len();
    while hi > 0 && (v[hi - 1] == '[' || v[hi - 1] == ']')
        invariant
            hi <= v.len(),
            rskip_brackets(v@, hi as int) == rskip_brackets(v@, v.len() as int),
        decreases hi,
    {
        hi = hi - 1;
    }
    if hi <= lo {
        Vec::new()
    } else {
        copy_range(v, lo, hi)
    }
}

/// A field of the form `[...]`.
pub open spec fn is_bracketed(f: Seq<char>) -> bool {
    starts_with(f, seq!['[']) && ends_with(f, seq![']'])
}

fn is_bracketed_exec(v: &Vec<char>) -> (r: bool)
    ensures
        r == is_bracketed(v@),
{
    if v.len() == 0 {
        return false;
    }
    if v[0] != '[' {
        assert(v@.take(1)[0] != seq!['['][0]);
        return false;
    }
    assert(v@.take(1) =~= seq!['[']);
    ends_with_char(v, ']')
}

/// Does `f` contain `c`?
pub open spec fn has_char(f: Seq<char>, c: char) -> bool {
    exists|k: int| 0 <= k < f.len() && f[k] == c
}

fn has_char_exec(v: &Vec<char>, c: char) -> (r: bool)
    ensures
        r == has_char(v@, c),
{
    let r = find_char_exec(v, c);
    proof {
        lemma_find_char(v@, c, 0);
    }
    r.is_some()
}

/// What the tail of a segment line (fields after the access dword) sets:
/// DPL, type name, permissions; `None` when a second bare token appears.
pub open spec fn segment_tail(
    f: Seq<Seq<char>>,
    i: int,
    dpl: u8,
    type_text: Seq<char>,
    permissions: Option<Seq<char>>,
) -> Option<(u8, Seq<char>, Option<Seq<char>>)>
    decreases f.len() - i,
{
    if i < 0 || i >= f.len() {
        Some((dpl, type_text, permissions))
    } else if starts_with(f[i], "DPL="@) {
        let d = match decimal_value(f[i].skip(4), 255) {
            Some(n) => n as u8,
            None => 0u8,
        };
        segment_tail(f, i + 1, d, type_text, permissions)
    } else if is_bracketed(f[i]) {
        segment_tail(f, i + 1, dpl, type_text, Some(strip_brackets(f[i])))
    } else if !has_char(f[i], '=') {
        if type_text.len() == 0 {
            segment_tail(f, i + 1, dpl, f[i], permissions)
        } else {
            None
        }
    } else {
        segment_tail(f, i + 1, dpl, type_text, permissions)
    }
}

/// Characters that make up the first two bytes of `t` when those bytes end
/// on a character boundary.
pub open spec fn two_byte_prefix_len(t: Seq<char>) -> int {
    if t.len() >= 1 && utf8_width(t[0]) == 2 {
        1
    } else {
        2
    }
}

/// Splitting `t` after its second byte lands on a character boundary.
pub open spec fn splits_after_two_bytes(t: Seq<char>) -> bool {
    ||| (t.len() >= 1 && utf8_width(t[0]) == 2)
    ||| (t.len() >= 2 && utf8_width(t[0]) == 1 && utf8_width(t[1]) == 1)
}

/// An ASCII upper-case letter.
pub open spec fn is_upper(c: char) -> bool {
    65 <= (c as u32) <= 90
}

/// An ASCII letter or digit.
pub open spec fn is_alnum(c: char) -> bool {
    let u = c as u32;
    ||| 48 <= u <= 57
    ||| 65 <= u <= 90
    ||| 97 <= u <= 122
}

/// The name and remainder of a segment line, or `None` when the line does
/// not start like one.
pub open spec fn segment_head(t: Seq<char>) -> Option<(Seq<char>, Seq<char>)> {
    if starts_with(t, "LDT="@) {
        Some(("LDT"@, t.skip(4)))
    } else if starts_with(t, "TR "@) {
        Some(("TR"@, t.skip(3)))
    } else if starts_with(t, "TR="@) {
        Some(("TR"@, t.skip(3)))
    } else {
        let n = two_byte_prefix_len(t);
        let name = t.take(n);
        let rest = t.skip(n);
        let r0 = rest.skip(skip_ws(rest, 0));
        if (forall|k: int| 0 <= k < name.len() ==> is_upper(#[trigger] name[k])) && starts_with(
            r0,
            seq!['='],
        ) {
            Some((name, r0.skip(1)))
        } else {
            None
        }
    }
}

/// `CS =0008 0 ffffffff 00af9a00 DPL=0 CS64 [-R-]`, and the `LDT=` / `TR =`
/// forms: what such a line describes, or `None` for any other line.
pub open spec fn segment_line(t: Seq<char>) -> Option<SegmentView> {
    match segment_head(t) {
        None => None,
        Some((name, rest)) => {
            let r0 = rest.skip(skip_ws(rest, 0));
            let body = if starts_with(r0, seq!['=']) {
                r0.skip(1)
            } else {
                rest
            };
            let f = tokens(body);
            if f.len() < 4 || hex_u32(f[0]) is None || hex_u64(f[1]) is None || hex_u32(f[2]) is None
                || hex_u32(f[3]) is None {
                None
            } else {
                match segment_tail(f, 4, 0, Seq::empty(), None) {
                    None => None,
                    Some((dpl, type_text, permissions)) => Some(
                        SegmentView {
                            name,
                            selector: (hex_u32(f[0])->0) as u16,
                            base: hex_u64(f[1])->0,
                            limit: hex_u32(f[2])->0,
                            access: hex_u32(f[3])->0,
                            dpl,
                            type_text,
                            permissions,
                        },
                    ),
                }
            }
        },
    }
}

/// A segment line can be examined without splitting inside a character.
pub open spec fn segment_line_safe(t: Seq<char>) -> bool {
    ||| starts_with(t, "LDT="@)
    ||| starts_with(t, "TR "@)
    ||| starts_with(t, "TR="@)
    ||| splits_after_two_bytes(t)
}

/// `GDT=`/`IDT=` bodies: `<base> <limit>`, both bare hexadecimal.
pub open spec fn limit_pair(text: Seq<char>) -> Option<(u64, u32)> {
    let f = tokens(text);
    if f.len() == 2 && hex_u64(f[0]) is Some && hex_u32(f[1]) is Some {
        Some((hex_u64(f[0])->0, hex_u32(f[1])->0))
    } else {
        None
    }
}

/// `NAME=HEX` / `NAME =HEX` / `NAME = HEX` tokens from token `i` on, added to
/// `acc`; `None` as soon as a token is not of that shape.
pub open spec fn register_pairs_from(
    f: Seq<Seq<char>>,
    i: int,
    acc: Seq<(Seq<char>, Seq<char>)>,
) -> Option<Seq<(Seq<char>, Seq<char>)>>
    decreases f.len() - i,
{
    if i < 0 || i >= f.len() {
        Some(acc)
    } else {
        let token = f[i];
        let eq = find_char(token, '=', 0);
        if eq < token.len() {
            let name = token.take(eq);
            let value = token.skip(eq + 1);
            if name.len() == 0 || !(forall|k: int| 0 <= k < name.len() ==> is_alnum(#[trigger] name[k]))
                || !is_hex(value) {
                None
            } else {
                register_pairs_from(f, i + 1, acc.push((name, value)))
            }
        } else if token.len() == 0 || !(forall|k: int|
            0 <= k < token.len() ==> is_alnum(#[trigger] token[k])) {
            None
        } else if i + 1 >= f.len() || !starts_with(f[i + 1], seq!['=']) {
            None
        } else if f[i + 1].len() == 1 {
            if i + 2 >= f.len() || !is_hex(f[i + 2]) {
                None
            } else {
                register_pairs_from(f, i + 3, acc.push((token, f[i + 2])))
            }
        } else if !is_hex(f[i + 1].skip(1)) {
            None
        } else {
            register_pairs_from(f, i + 2, acc.push((token, f[i + 1].skip(1))))
        }
    }
}

/// Sets every pair, in order.
pub open spec fn insert_pairs(
    m: Map<Seq<char>, Seq<char>>,
    p: Seq<(Seq<char>, Seq<char>)>,
) -> Map<Seq<char>, Seq<char>>
    decreases p.len(),
{
    if p.len() == 0 {
        m
    } else {
        insert_pairs(m, p.drop_last()).insert(p.last().0, p.last().1)
    }
}

/// What the fields of the `RIP=... RFL=... [flags] CPL=n ... HLT=n` line set.
pub open spec fn rip_fields(f: Seq<Seq<char>>, i: int, rep: ReportView) -> ReportView
    decreases f.len() - i,
{
    if i < 0 || i >= f.len() {
        rep
    } else {
        let field = f[i];
        let next = if starts_with(field, "RIP="@) {
            ReportView { registers: rep.registers.insert("RIP"@, field.skip(4)), ..rep }
        } else if starts_with(field, "RFL="@) {
            ReportView { rflags: Some(field.skip(4)), ..rep }
        } else if starts_with(field, "CPL="@) {
            ReportView {
                cpl: match decimal_value(field.skip(4), 255) {
                    Some(n) => Some(n as u8),
                    None => None,
                },
                ..rep
            }
        } else if starts_with(field, "HLT="@) {
            ReportView { halted: Some(field.skip(4) == "1"@), ..rep }
        } else if is_bracketed(field) {
            ReportView { flags_text: Some(strip_brackets(field)), ..rep }
        } else {
            rep
        };
        rip_fields(f, i + 1, next)
    }
}

/// A line that is known but not modelled (FPU and vector registers).
pub open spec fn ignorable_register_line(t: Seq<char>) -> bool {
    ||| starts_with(t, "FCW="@)
    ||| starts_with(t, "FPR"@)
    ||| starts_with(t, "XMM"@)
    ||| starts_with(t, "YMM"@)
    ||| starts_with(t, "ZMM"@)
    ||| starts_with(t, "ST"@)
    ||| starts_with(t, "MM"@)
}

/// A line that is examined as a segment line.
pub open spec fn reaches_segment_check(t: Seq<char>) -> bool {
    !starts_with(t, "CPU#"@) && !starts_with(t, "GDT="@) && !starts_with(t, "IDT="@)
}

/// What one trimmed, non-blank `info registers` line does to the report.
pub open spec fn registers_line(t: Seq<char>, rep: ReportView) -> Result<ReportView, Seq<char>> {
    if starts_with(t, "CPU#"@) {
        match decimal_value(trim(t.skip(4)), u32::MAX as nat) {
            Some(n) => Ok(ReportView { cpu: Some(n as u32), ..rep }),
            None => Err("CPU header "@ + debug_quoted(t) + " does not end in a decimal number"@),
        }
    } else if starts_with(t, "GDT="@) {
        match limit_pair(t.skip(4)) {
            Some((b, l)) => Ok(ReportView { gdt_base: Some(b), gdt_limit: Some(l), ..rep }),
            None => Err("expected `GDT=<hex base> <hex limit>`"@),
        }
    } else if starts_with(t, "IDT="@) {
        match limit_pair(t.skip(4)) {
            Some((b, l)) => Ok(ReportView { idt_base: Some(b), idt_limit: Some(l), ..rep }),
            None => Err("expected `IDT=<hex base> <hex limit>`"@),
        }
    } else if segment_line(t) is Some {
        Ok(ReportView { segments: rep.segments.push(segment_line(t)->0), ..rep })
    } else if starts_with(t, "RIP="@) {
        Ok(rip_fields(tokens(t), 0, rep))
    } else if register_pairs_from(tokens(t), 0, Seq::empty()) is Some && register_pairs_from(
        tokens(t),
        0,
        Seq::empty(),
    )->0.len() > 0 {
        Ok(
            ReportView {
                registers: insert_pairs(
                    rep.registers,
                    register_pairs_from(tokens(t), 0, Seq::empty())->0,
                ),
                ..rep
            },
        )
    } else if ignorable_register_line(t) {
        Ok(rep)
    } else {
        Err("line matches no known `info registers` shape"@)
    }
}

/// `parse_info_registers` from line `k` on, with `rep` built from the
/// earlier lines.
pub open spec fn info_registers_from(lines: Seq<TextLine>, k: int, rep: ReportView) -> Result<
    ReportView,
    ParseFault,
>
    decreases lines.len() - k,
{
    if k < 0 || k >= lines.len() {
        Ok(rep)
    } else {
        let t = trim(lines[k].content);
        if t.len() == 0 {
            info_registers_from(lines, k + 1, rep)
        } else {
            match registers_line(t, rep) {
                Ok(next) => info_registers_from(lines, k + 1, next),
                Err(reason) => Err(fault_at("info registers"@, lines, k, t, reason)),
            }
        }
    }
}

/// Every line the parse reaches can be examined as a segment line when it
/// gets that far: a line of a single character, or one whose second byte
/// falls inside a character, is not examined.
pub open spec fn registers_reachable_safe(lines: Seq<TextLine>, k: int, rep: ReportView) -> bool
    decreases lines.len() - k,
{
    if k < 0 || k >= lines.len() {
        true
    } else {
        let t = trim(lines[k].content);
        if t.len() == 0 {
            registers_reachable_safe(lines, k + 1, rep)
        } else if reaches_segment_check(t) && !segment_line_safe(t) {
            false
        } else {
            match registers_line(t, rep) {
                Ok(next) => registers_reachable_safe(lines, k + 1, next),
                Err(_) => true,
            }
        }
    }
}

/// The meaning of an `info registers` reply.
pub open spec fn spec_info_registers(text: Seq<char>) -> Result<ReportView, ParseFault> {
    info_registers_from(text_lines(text), 0, empty_report())
}

/// The character sequences of optional character vectors.
pub open spec fn opt_chars(o: Option<Vec<char>>) -> Option<Seq<char>> {
    match o {
        Some(v) => Some(v@),
        None => None,
    }
}

fn opt_string(o: Option<Vec<char>>) -> (r: Option<String>)
    ensures
        opt_view(r) == opt_chars(o),
{
    match o {
        Some(v) => Some(string_of(&v)),
        None => None,
    }
}

fn starts_with_char_exec(v: &Vec<char>, c: char) -> (r: bool)
    ensures
        r == starts_with(v@, seq![c]),
{
    if v.len() == 0 {
        return false;
    }
    if v[0] != c {
        assert(v@.take(1)[0] != seq![c][0]);
        return false;
    }
    assert(v@.take(1) =~= seq![c]);
    true
}

fn skip_ws_exec(v: &Vec<char>) -> (r: Vec<char>)
    ensures
        r@ == v@.skip(skip_ws(v@, 0)),
{
    let mut i: usize = 0;
    while i < v.len() && is_ws_exec(v[i])
        invariant
            i <= v.len(),
            skip_ws(v@, i as int) == skip_ws(v@, 0),
        decreases v.len() - i,
    {
        i = i + 1;
    }
    copy_range(v, i, v.len())
}

fn all_upper_exec(v: &Vec<char>) -> (r: bool)
    ensures
        r == forall|k: int| 0 <= k < v@.len() ==> is_upper(#[trigger] v@[k]),
{
    let mut i: usize = 0;
    while i < v.len()
        invariant
            i <= v.len(),
            forall|k: int| 0 <= k < i ==> is_upper(#[trigger] v@[k]),
        decreases v.len() - i,
    {
        let u = v[i] as u32;
        if !(65 <= u && u <= 90) {
            return false;
        }
        i = i + 1;
    }
    true
}

fn all_alnum_exec(v: &Vec<char>) -> (r: bool)
    ensures
        r == forall|k: int| 0 <= k < v@.len() ==> is_alnum(#[trigger] v@[k]),
{
    let mut i: usize = 0;
    while i < v.len()
        invariant
            i <= v.len(),
            forall|k: int| 0 <= k < i ==> is_alnum(#[trigger] v@[k]),
        decreases v.len() - i,
    {
        let u = v[i] as u32;
        if !((48 <= u && u <= 57) || (65 <= u && u <= 90) || (97 <= u && u <= 122)) {
            return false;
        }
        i = i + 1;
    }
    true
}

fn segment_head_exec(t: &Vec<char>) -> (r: Option<(Vec<char>, Vec<char>)>)
    requires
        segment_line_safe(t@),
    ensures
        match segment_head(t@) {
            Some((n, rest)) => r matches Some(x) && x.0@ == n && x.1@ == rest,
            None => r is None,
        },
{
    proof {
        reveal_strlit("LDT=");
        reveal_strlit("TR ");
        reveal_strlit("TR=");
    }
    if has_prefix(t, "LDT=") {
        return Some((chars_of("LDT"), copy_range(t, 4, t.len())));
    }
    if has_prefix(t, "TR ") {
        return Some((chars_of("TR"), copy_range(t, 3, t.len())));
    }
    if has_prefix(t, "TR=") {
        return Some((chars_of("TR"), copy_range(t, 3, t.len())));
    }
    let n: usize = if t.len() >= 1 && utf8_width_exec(t[0]) == 2 {
        1
    } else {
        2
    };
    let name = copy_range(t, 0, n);
    let rest = copy_range(t, n, t.len());
    assert(name@ =~= t@.take(n as int));
    assert(rest@ =~= t@.skip(n as int));
    let r0 = skip_ws_exec(&rest);
    if all_upper_exec(&name) && starts_with_char_exec(&r0, '=') {
        let body = copy_range(&r0, 1, r0.len());
        assert(body@ =~= r0@.skip(1));
        Some((name, body))
    } else {
        None
    }
}

fn segment_tail_exec(f: &Vec<Vec<char>>) -> (r: Option<(u8, Vec<char>, Option<Vec<char>>)>)
    requires
        f.len() >= 4,
    ensures
        match segment_tail(f.deep_view(), 4, 0, Seq::empty(), None) {
            Some((d, tn, p)) => r matches Some(x) && x.0 == d && x.1@ == tn && opt_chars(x.2) == p,
            None => r is None,
        },
{
    let ghost fs = f.deep_view();
    let mut dpl: u8 = 0;
    let mut type_text: Vec<char> = Vec::new();
    let mut permissions: Option<Vec<char>> = None;
    let mut i: usize = 4;
    proof {
        reveal_strlit("DPL=");
    }
    while i < f.len()
        invariant
            4 <= i <= f.len(),
            fs == f.deep_view(),
            segment_tail(fs, i as int, dpl, type_text@, opt_chars(permissions)) == segment_tail(
                fs,
                4,
                0,
                Seq::empty(),
                None,
            ),
        decreases f.len() - i,
    {
        let field = &f[i];
        assert(field@ == fs[i as int]);
        proof {
            reveal_strlit("DPL=");
        }
        if has_prefix(field, "DPL=") {
            let digits = copy_range(field, 4, field.len());
            assert(digits@ =~= field@.skip(4));
            dpl = match parse_unsigned_exec(&digits, 10, 255) {
                Ok(n) => n as u8,
                Err(_) => 0u8,
            };
        } else if is_bracketed_exec(field) {
            permissions = Some(strip_brackets_exec(field));
        } else if !has_char_exec(field, '=') {
            if type_text.len() == 0 {
                type_text = copy_range(field, 0, field.len());
                assert(type_text@ =~= field@);
            } else {
                return None;
            }
        }
        i = i + 1;
    }
    Some((dpl, type_text, permissions))
}

fn segment_line_exec(t: &Vec<char>) -> (r: Option<SegmentRegister>)
    requires
        segment_line_safe(t@),
    ensures
        match segment_line(t@) {
            Some(seg) => r is Some && r->0@ == seg,
            None => r is None,
        },
{
    let (name, rest) = match segment_head_exec(t) {
        Some(p) => p,
        None => {
            return None;
        },
    };
    let r0 = skip_ws_exec(&rest);
    let body = if starts_with_char_exec(&r0, '=') {
        let b = copy_range(&r0, 1, r0.len());
        assert(b@ =~= r0@.skip(1));
        b
    } else {
        rest
    };
    let f = tokens_exec(&body);
    let ghost fs = tokens(body@);
    if f.len() < 4 {
        return None;
    }
    assert(f[0]@ == fs[0] && f[1]@ == fs[1] && f[2]@ == fs[2] && f[3]@ == fs[3]);
    let selector = hex_u32_exec(&f[0]);
    let base = hex_u64_exec(&f[1]);
    let limit = hex_u32_exec(&f[2]);
    let access = hex_u32_exec(&f[3]);
    if selector.is_none() || base.is_none() || limit.is_none() || access.is_none() {
        return None;
    }
    match segment_tail_exec(&f) {
        None => None,
        Some((dpl, type_text, permissions)) => Some(
            SegmentRegister {
                name: string_of(&name),
                selector: selector.unwrap() as u16,
                base: base.unwrap(),
                limit: limit.unwrap(),
                access: access.unwrap(),
                dpl,
                type_text: string_of(&type_text),
                permissions: opt_string(permissions),
            },
        ),
    }
}

fn limit_pair_exec(v: &Vec<char>) -> (r: Option<(u64, u32)>)
    ensures
        r == limit_pair(v@),
{
    let f = tokens_exec(v);
    let ghost fs = tokens(v@);
    if f.len() != 2 {
        return None;
    }
    assert(f[0]@ == fs[0] && f[1]@ == fs[1]);
    let base = hex_u64_exec(&f[0]);
    let limit = hex_u32_exec(&f[1]);
    match (base, limit) {
        (Some(b), Some(l)) => Some((b, l)),
        _ => None,
    }
}

/// The character sequences of pairs of character vectors.
pub open spec fn char_pairs_view(v: Seq<(Vec<char>, Vec<char>)>) -> Seq<(Seq<char>, Seq<char>)> {
    Seq::new(v.len(), |i: int| (v[i].0@, v[i].1@))
}

fn register_pairs_exec(f: &Vec<Vec<char>>) -> (r: Option<Vec<(Vec<char>, Vec<char>)>>)
    ensures
        match register_pairs_from(f.deep_view(), 0, Seq::empty()) {
            Some(p) => r is Some && char_pairs_view(r->0@) == p,
            None => r is None,
        },
{
    let ghost fs = f.deep_view();
    let mut acc: Vec<(Vec<char>, Vec<char>)> = Vec::new();
    assert(char_pairs_view(acc@) =~= Seq::<(Seq<char>, Seq<char>)>::empty());
    let mut i: usize = 0;
    while i < f.len()
        invariant
            i <= f.len(),
            fs == f.deep_view(),
            register_pairs_from(fs, i as int, char_pairs_view(acc@)) == register_pairs_from(
                fs,
                0,
                Seq::empty(),
            ),
        decreases f.len() - i,
    {
        let token = &f[i];
        assert(token@ == fs[i as int]);
        let ghost before = char_pairs_view(acc@);
        match find_char_exec(token, '=') {
            Some(eq) => {
                proof {
                    lemma_find_char(token@, '=', 0);
                }
                let name = copy_range(token, 0, eq);
                let value = copy_range(token, eq + 1, token.len());
                assert(name@ =~= token@.take(eq as int));
                assert(value@ =~= token@.skip(eq + 1));
                if name.len() == 0 || !all_alnum_exec(&name) || !is_hex_exec(&value) {
                    return None;
                }
                acc.push((name, value));
                assert(char_pairs_view(acc@) =~= before.push((name@, value@)));
                i = i + 1;
            },
            None => {
                if token.len() == 0 || !all_alnum_exec(token) {
                    return None;
                }
                if i + 1 >= f.len() {
                    return None;
                }
                let next = &f[i + 1];
                assert(next@ == fs[i + 1]);
                if !starts_with_char_exec(next, '=') {
                    return None;
                }
                if next.len() == 1 {
                    if i + 2 >= f.len() {
                        return None;
                    }
                    let value = &f[i + 2];
                    assert(value@ == fs[i + 2]);
                    if !is_hex_exec(value) {
                        return None;
                    }
                    let name_copy = copy_range(token, 0, token.len());
                    let value_copy = copy_range(value, 0, value.len());
                    assert(name_copy@ =~= token@);
                    assert(value_copy@ =~= value@);
                    acc.push((name_copy, value_copy));
                    assert(char_pairs_view(acc@) =~= before.push((token@, value@)));
                    i = i + 3;
                } else {
                    let value = copy_range(next, 1, next.len());
                    assert(value@ =~= next@.skip(1));
                    if !is_hex_exec(&value) {
                        return None;
                    }
                    let name_copy = copy_range(token, 0, token.len());
                    assert(name_copy@ =~= token@);
                    acc.push((name_copy, value));
                    assert(char_pairs_view(acc@) =~= before.push((token@, next@.skip(1))));
                    i = i + 2;
                }
            },
        }
    }
    Some(acc)
}

fn rip_fields_exec(f: &Vec<Vec<char>>, report: &mut RegistersReport)
    ensures
        final(report)@ == rip_fields(f.deep_view(), 0, old(report)@),
{
    let ghost fs = f.deep_view();
    let mut i: usize = 0;
    while i < f.len()
        invariant
            i <= f.len(),
            fs == f.deep_view(),
            rip_fields(fs, i as int, report@) == rip_fields(fs, 0, old(report)@),
        decreases f.len() - i,
    {
        let field = &f[i];
        assert(field@ == fs[i as int]);
        proof {
            reveal_strlit("RIP=");
            reveal_strlit("RFL=");
            reveal_strlit("CPL=");
            reveal_strlit("HLT=");
        }
        if has_prefix(field, "RIP=") {
            let value = copy_range(field, 4, field.len());
            assert(value@ =~= field@.skip(4));
            insert_register(&mut report.registers, text_of("RIP"), string_of(&value));
        } else if has_prefix(field, "RFL=") {
            let value = copy_range(field, 4, field.len());
            assert(value@ =~= field@.skip(4));
            report.rflags = Some(string_of(&value));
        } else if has_prefix(field, "CPL=") {
            let value = copy_range(field, 4, field.len());
            assert(value@ =~= field@.skip(4));
            report.cpl = match parse_unsigned_exec(&value, 10, 255) {
                Ok(n) => Some(n as u8),
                Err(_) => None,
            };
        } else if has_prefix(field, "HLT=") {
            let value = copy_range(field, 4, field.len());
            assert(value@ =~= field@.skip(4));
            report.halted = Some(equals_str(&value, "1"));
        } else if is_bracketed_exec(field) {
            report.flags_text = Some(string_of(&strip_brackets_exec(field)));
        }
        i = i + 1;
    }
}

fn insert_pairs_exec(report: &mut RegistersReport, p: Vec<(Vec<char>, Vec<char>)>)
    ensures
        final(report)@ == (ReportView {
            registers: insert_pairs(old(report)@.registers, char_pairs_view(p@)),
            ..old(report)@
        }),
{
    let ghost pv = char_pairs_view(p@);
    let mut j: usize = 0;
    while j < p.len()
        invariant
            j <= p.len(),
            pv == char_pairs_view(p@),
            report@ == (ReportView {
                registers: insert_pairs(old(report)@.registers, pv.take(j as int)),
                ..old(report)@
            }),
        decreases p.len() - j,
    {
        let name = string_of(&p[j].0);
        let value = string_of(&p[j].1);
        insert_register(&mut report.registers, name, value);
        assert(pv.take(j + 1).drop_last() =~= pv.take(j as int));
        j = j + 1;
    }
    assert(pv.take(p.len() as int) =~= pv);
}

/// An empty report.
fn new_report() -> (r: RegistersReport)
    ensures
        r@ == empty_report(),
{
    let r = RegistersReport {
        cpu: None,
        registers: Vec::new(),
        rflags: None,
        flags_text: None,
        cpl: None,
        segments: Vec::new(),
        gdt_base: None,
        gdt_limit: None,
        idt_base: None,
        idt_limit: None,
        halted: None,
    };
    assert(pairs_map(pairs_view(r.registers@)) =~= Map::<Seq<char>, Seq<char>>::empty());
    assert(r.segments@.map_values(|s: SegmentRegister| s@) =~= Seq::<SegmentView>::empty());
    r
}

fn ignorable_exec(t: &Vec<char>) -> (r: bool)
    ensures
        r == ignorable_register_line(t@),
{
    has_prefix(t, "FCW=") || has_prefix(t, "FPR") || has_prefix(t, "XMM") || has_prefix(t, "YMM")
        || has_prefix(t, "ZMM") || has_prefix(t, "ST") || has_prefix(t, "MM")
}

fn registers_line_exec(t: &Vec<char>, report: &mut RegistersReport) -> (r: Result<(), String>)
    requires
        !reaches_segment_check(t@) || segment_line_safe(t@),
    ensures
        match registers_line(t@, old(report)@) {
            Ok(next) => r is Ok && final(report)@ == next,
            Err(reason) => r is Err && r->Err_0@ == reason,
        },
{
    proof {
        reveal_strlit("CPU#");
        reveal_strlit("GDT=");
        reveal_strlit("IDT=");
    }
    if has_prefix(t, "CPU#") {
        let rest = copy_range(t, 4, t.len());
        assert(rest@ =~= t@.skip(4));
        let trimmed = trim_exec(&rest);
        return match parse_unsigned_exec(&trimmed, 10, u32::MAX as u64) {
            Ok(n) => {
                report.cpu = Some(n as u32);
                Ok(())
            },
            Err(_) => {
                let mut reason = text_of("CPU header ");
                let q = quote_chars(t);
                push_str(&mut reason, q.as_str());
                push_str(&mut reason, " does not end in a decimal number");
                Err(reason)
            },
        };
    }
    if has_prefix(t, "GDT=") {
        let rest = copy_range(t, 4, t.len());
        assert(rest@ =~= t@.skip(4));
        return match limit_pair_exec(&rest) {
            Some((b, l)) => {
                report.gdt_base = Some(b);
                report.gdt_limit = Some(l);
                Ok(())
            },
            None => Err(text_of("expected `GDT=<hex base> <hex limit>`")),
        };
    }
    if has_prefix(t, "IDT=") {
        let rest = copy_range(t, 4, t.len());
        assert(rest@ =~= t@.skip(4));
        return match limit_pair_exec(&rest) {
            Some((b, l)) => {
                report.idt_base = Some(b);
                report.idt_limit = Some(l);
                Ok(())
            },
            None => Err(text_of("expected `IDT=<hex base> <hex limit>`")),
        };
    }
    match segment_line_exec(t) {
        Some(seg) => {
            let ghost old_segments = report.segments@;
            let ghost sv = seg@;
            report.segments.push(seg);
            assert(report.segments@.map_values(|s: SegmentRegister| s@) =~= old_segments.map_values(
                |s: SegmentRegister| s@,
            ).push(sv));
            return Ok(());
        },
        None => {},
    }
    if has_prefix(t, "RIP=") {
        let f = tokens_exec(t);
        rip_fields_exec(&f, report);
        return Ok(());
    }
    let f = tokens_exec(t);
    match register_pairs_exec(&f) {
        Some(p) => {
            if p.len() > 0 {
                insert_pairs_exec(report, p);
                return Ok(());
            }
        },
        None => {},
    }
    if ignorable_exec(t) {
        return Ok(());
    }
    Err(text_of("line matches no known `info registers` shape"))
}

/// Parses `info registers` output.
///
/// Each line has its own grammar: the `CPU#N` header, `GDT=`/`IDT=`, the
/// segment registers (including `LDT=` and `TR =`), the `RIP=` line with its
/// flags, and `NAME=HEX` register blocks (QEMU pads `R8 =` with a space).
/// FPU and vector lines are skipped by name; any other line is a
/// [`ParseError`].  The input must not hold, among the lines the parse
/// reaches, a line of one character or one whose second byte falls inside a
/// character where a segment line is tried.
pub fn parse_info_registers(text: &str) -> (r: Result<RegistersReport, ParseError>)
    requires
        registers_reachable_safe(text_lines(text@), 0, empty_report()),
    ensures
        match spec_info_registers(text@) {
            Ok(report) => r is Ok && r->Ok_0@ == report,
            Err(fault) => r is Err && r->Err_0@ == fault,
        },
{
    let lines = input_lines(text);
    let ghost tl = text_lines(text@);
    let mut report = new_report();
    let mut k: usize = 0;
    while k < lines.len()
        invariant
            k <= lines.len(),
            tl == text_lines(text@),
            lines.len() == tl.len(),
            forall|j: int|
                0 <= j < lines.len() ==> {
                    &&& lines[j].offset == tl[j].offset
                    &&& lines[j].chars@ == tl[j].content
                },
            info_registers_from(tl, k as int, report@) == spec_info_registers(text@),
            registers_reachable_safe(tl, k as int, report@),
        decreases lines.len() - k,
    {
        let t = trim_exec(&lines[k].chars);
        if t.len() == 0 {
            k = k + 1;
            continue;
        }
        match registers_line_exec(&t, &mut report) {
            Ok(()) => {},
            Err(reason) => {
                return Err(make_error("info registers", k + 1, lines[k].offset, &t, reason));
            },
        }
        k = k + 1;
    }
    Ok(report)
}

/// The `Display` text of std's integer parse errors.
pub open spec fn int_error_text(kind: IntErrorKind) -> Seq<char> {
    match kind {
        IntErrorKind::Empty => "cannot parse integer from empty string"@,
        IntErrorKind::InvalidDigit => "invalid digit found in string"@,
        IntErrorKind::PosOverflow => "number too large to fit in target type"@,
    }
}

fn int_error_string(kind: IntErrorKind) -> (r: String)
    ensures
        r@ == int_error_text(kind),
{
    match kind {
        IntErrorKind::Empty => text_of("cannot parse integer from empty string"),
        IntErrorKind::InvalidDigit => text_of("invalid digit found in string"),
        IntErrorKind::PosOverflow => text_of("number too large to fit in target type"),
    }
}

/// What `register_u64` answers for `name` in a report.
pub open spec fn spec_register_u64(rep: ReportView, name: Seq<char>) -> Result<u64, Seq<char>> {
    if !rep.registers.contains_key(name) {
        Err("register "@ + name + " is not present in this report"@)
    } else {
        let text = rep.registers[name];
        match parse_unsigned(text, 16, u64::MAX as nat) {
            Ok(n) => Ok(n as u64),
            Err(kind) => Err(
                "register "@ + name + " value "@ + debug_quoted(text) + " is not hexadecimal: "@
                    + int_error_text(kind),
            ),
        }
    }
}

impl RegistersReport {
    /// Number of GDT slots implied by the limit: `(limit + 1) / 8`.
    pub fn gdt_entry_count(&self) -> (r: Option<u64>)
        ensures
            r == match self.gdt_limit {
                Some(limit) => Some(((limit as nat + 1) / 8) as u64),
                None => None::<u64>,
            },
    {
        match self.gdt_limit {
            Some(limit) => Some((limit as u64 + 1) / 8),
            None => None,
        }
    }

    /// Number of IDT gates implied by the limit: `(limit + 1) / 16`.
    pub fn idt_entry_count(&self) -> (r: Option<u64>)
        ensures
            r == match self.idt_limit {
                Some(limit) => Some(((limit as nat + 1) / 16) as u64),
                None => None::<u64>,
            },
    {
        match self.idt_limit {
            Some(limit) => Some((limit as u64 + 1) / 16),
            None => None,
        }
    }

    fn find_register(&self, name: &str) -> (r: Option<usize>)
        ensures
            match r {
                Some(i) => i < self.registers.len() && i == key_index(
                    pairs_view(self.registers@),
                    name@,
                    0,
                ),
                None => key_index(pairs_view(self.registers@), name@, 0) == self.registers.len(),
            },
    {
        let key = text_of(name);
        let ghost pv = pairs_view(self.registers@);
        let mut i: usize = 0;
        while i < self.registers.len()
            invariant
                i <= self.registers.len(),
                pv == pairs_view(self.registers@),
                key@ == name@,
                key_index(pv, name@, i as int) == key_index(pv, name@, 0),
            decreases self.registers.len() - i,
        {
            if self.registers[i].0 == key {
                return Some(i);
            }
            i = i + 1;
        }
        None
    }

    /// A register's raw text by name.
    pub fn register(&self, name: &str) -> (r: Option<&str>)
        ensures
            match r {
                Some(text) => self@.registers.contains_key(name@) && text@ == self@.registers[name@],
                None => !self@.registers.contains_key(name@),
            },
    {
        match self.find_register(name) {
            Some(i) => Some(self.registers[i].1.as_str()),
            None => None,
        }
    }

    /// A register parsed as hexadecimal.  The error says whether the
    /// register is missing or its text is not hexadecimal, with std's reason.
    pub fn register_u64(&self, name: &str) -> (r: Result<u64, String>)
        ensures
            match spec_register_u64(self@, name@) {
                Ok(n) => r == Ok::<u64, String>(n),
                Err(msg) => r is Err && r->Err_0@ == msg,
            },
    {
        match self.find_register(name) {
            None => {
                let mut msg = text_of("register ");
                push_str(&mut msg, name);
                push_str(&mut msg, " is not present in this report");
                Err(msg)
            },
            Some(i) => {
                let text = &self.registers[i].1;
                let chars = chars_of(text.as_str());
                match parse_unsigned_exec(&chars, 16, u64::MAX) {
                    Ok(n) => Ok(n),
                    Err(kind) => {
                        let mut msg = text_of("register ");
                        push_str(&mut msg, name);
                        push_str(&mut msg, " value ");
                        let q = debug_quote(text.as_str());
                        push_str(&mut msg, q.as_str());
                        push_str(&mut msg, " is not hexadecimal: ");
                        let e = int_error_string(kind);
                        push_str(&mut msg, e.as_str());
                        Err(msg)
                    },
                }
            },
        }
    }
}

/// A fully parsed snapshot of one monitor capture.
#[derive(Debug, Clone, Default, PartialEq, Eq)]
pub struct MonitorSnapshot {
    /// `info registers`.
    pub registers: Option<RegistersReport>,
    /// `info mem` ranges.
    pub mem: Vec<InfoMemRange>,
    /// `info tlb` entries.
    pub tlb: Vec<InfoTlbEntry>,
    /// `info cpus`.
    pub cpus: Vec<CpuInfo>,
    /// Granularity per `tlb` entry, inferred from the stride.
    pub tlb_granularities: Vec<TlbGranularity>,
}

// ----------------------------------------------------------- QMP shapes ---

/// `query-version`.
#[derive(Debug, Clone, PartialEq, Eq)]
pub struct QmpVersion {
    /// `qemu.major`.
    pub major: u32,
    /// `qemu.minor`.
    pub minor: u32,
    /// `qemu.micro`.
    pub micro: u32,
    /// Distribution package string, when present.
    pub package: Option<String>,
}

impl QmpVersion {
    /// The `7.2.22`-style version string.
    pub fn version_string(&self) -> (s: String)
        ensures
            s@ == spec_decimal(self.major as nat) + "."@ + spec_decimal(self.minor as nat) + "."@
                + spec_decimal(self.micro as nat),
    {
        let mut s = String::new();
        push_decimal(&mut s, self.major as u64);
        push_str(&mut s, ".");
        push_decimal(&mut s, self.minor as u64);
        push_str(&mut s, ".");
        push_decimal(&mut s, self.micro as u64);
        s
    }
}

/// `query-status`.
#[derive(Debug, Clone, PartialEq, Eq)]
pub struct QmpStatus {
    /// `running` / `paused` / `shutdown` / ...
    pub status: String,
    /// Present from QEMU 7.x onward.
    pub running: Option<bool>,
    /// Single-step mode.
    pub singlestep: Option<bool>,
}

/// One entry of `query-cpus-fast`.
#[derive(Debug, Clone, PartialEq, Eq)]
pub struct QmpCpuFast {
    /// Host thread id; changes every run.
    pub thread_id: i64,
    /// Guest CPU index.
    pub cpu_index: i64,
    /// Target architecture string, e.g. `x86_64`.
    pub target: Option<String>,
    /// QOM path; may change between QEMU versions.
    pub qom_path: Option<String>,
}

/// `query-memory-size-summary`.
#[derive(Debug, Clone, Copy, PartialEq, Eq)]
pub struct QmpMemorySummary {
    /// Base RAM size in bytes.
    pub base_memory: u64,
    /// Hot-plugged memory in bytes.
    pub plugged_memory: Option<u64>,
}

/// Total guest RAM: base plus plugged, saturating.
pub open spec fn spec_memory_total(m: QmpMemorySummary) -> u64 {
    let plugged: u64 = match m.plugged_memory {
        Some(p) => p,
        None => 0,
    };
    if m.base_memory + plugged > u64::MAX {
        u64::MAX
    } else {
        (m.base_memory + plugged) as u64
    }
}

impl QmpMemorySummary {
    /// Total guest RAM.
    pub fn total(&self) -> (t: u64)
        ensures
            t == spec_memory_total(*self),
    {
        let plugged = match self.plugged_memory {
            Some(p) => p,
            None => 0,
        };
        self.base_memory.saturating_add(plugged)
    }

    /// Is `physical_address` inside guest RAM?  A page-table walk must check
    /// this: reading a non-RAM address does not fail, it answers zeros.
    pub fn contains_physical(&self, physical_address: u64) -> (r: bool)
        ensures
            r == (physical_address < spec_memory_total(*self)),
    {
        physical_address < self.total()
    }
}

} // verus!
