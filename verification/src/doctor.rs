//! Parsing the toolchain doctor's report.
//!
//! The doctor prints one row per tool, `%-22s %-10s %s` (name, status,
//! version or note), the resolved path on an indented continuation line, and
//! a verification row for some tools it already reported.  Tool names may
//! contain spaces and `WRONG VER` is a status with a space in it, so a row is
//! split at the first status marker, scanning left to right from column 20,
//! that stands between whitespace (or before `(`), never at a fixed column or
//! the first blank.

use vstd::prelude::*;
use crate::contract::{ErrorCode, IpcFailure};
use crate::scan::{
    chars_of, copy_range, string_of, trim, trim_exec, find_seq, find_str, lemma_find_seq,
    starts_with, has_prefix, equals_str, line_spans, lemma_line_end,
};
use crate::text::push_str;
use vstd::string::StrSliceExecFns;

verus! {

broadcast use vstd::string::group_string_axioms;

/// `u8::is_ascii_whitespace` for a character.
pub open spec fn ascii_ws(c: char) -> bool {
    c == ' ' || c == '\t' || c == '\n' || c == '\x0C' || c == '\r'
}

/// The occurrence of `m` at `at` stands alone: whitespace before it, and
/// whitespace, `(` or the end of the line after it.
pub open spec fn marker_stands_alone(line: Seq<char>, m: Seq<char>, at: int) -> bool {
    let after = at + m.len();
    &&& at > 0 && ascii_ws(line[at - 1])
    &&& (after >= line.len() || ascii_ws(line[after]) || line[after] == '(')
}

/// The first occurrence of `m` at or after `from` that stands alone.
pub open spec fn marker_hit(line: Seq<char>, m: Seq<char>, from: int) -> Option<int>
    decreases line.len() - from,
    when 0 <= from && m.len() > 0
{
    let at = find_seq(line, m, from);
    proof {
        lemma_find_seq(line, m, from);
    }
    if at >= line.len() {
        None
    } else if marker_stands_alone(line, m, at) {
        Some(at)
    } else {
        marker_hit(line, m, at + m.len())
    }
}

/// The status markers, in the order they are tried.
pub open spec fn status_markers() -> Seq<Seq<char>> {
    seq!["WRONG VER"@, "MISSING"@, "ok"@]
}

/// A tool row split at marker `k`: `(name, status, value)`, or `None` for a
/// row whose name field is blank.
pub open spec fn split_at_marker(line: Seq<char>, k: int, at: int) -> Option<
    (Seq<char>, Seq<char>, Seq<char>),
> {
    let m = status_markers()[k];
    let name = trim(line.take(at));
    if name.len() == 0 {
        None
    } else {
        Some((name, m, trim(line.skip(at + m.len()))))
    }
}

/// The column from which status markers are looked for.
pub const STATUS_COLUMN: usize = 20;

/// The first stand-alone status marker at or after [`STATUS_COLUMN`],
/// scanning left to right: `(marker index, position)`.
pub open spec fn first_marker(line: Seq<char>) -> Option<(int, int)> {
    let m = status_markers();
    let h0 = marker_hit(line, m[0], STATUS_COLUMN as int);
    let h1 = marker_hit(line, m[1], STATUS_COLUMN as int);
    let h2 = marker_hit(line, m[2], STATUS_COLUMN as int);
    if h0 is Some && (h1 is None || h0->0 <= h1->0) && (h2 is None || h0->0 <= h2->0) {
        Some((0, h0->0))
    } else if h1 is Some && (h2 is None || h1->0 <= h2->0) {
        Some((1, h1->0))
    } else if h2 is Some {
        Some((2, h2->0))
    } else {
        None
    }
}

/// `split_tool_line`: the row is split at its first status marker.
pub open spec fn spec_split_tool_line(line: Seq<char>) -> Option<(Seq<char>, Seq<char>, Seq<char>)> {
    match first_marker(line) {
        Some((k, at)) => split_at_marker(line, k, at),
        None => None,
    }
}

proof fn lemma_marker_hit(line: Seq<char>, m: Seq<char>, from: int)
    requires
        0 <= from,
        m.len() > 0,
    ensures
        marker_hit(line, m, from) matches Some(at) ==> from <= at && at + m.len() <= line.len(),
    decreases line.len() - from,
{
    lemma_find_seq(line, m, from);
    let at = find_seq(line, m, from);
    if at < line.len() && !marker_stands_alone(line, m, at) {
        lemma_marker_hit(line, m, at + m.len());
    }
}

fn ascii_ws_exec(c: char) -> (r: bool)
    ensures
        r == ascii_ws(c),
{
    c == ' ' || c == '\t' || c == '\n' || c == '\x0C' || c == '\r'
}

fn marker_hit_exec(line: &Vec<char>, m: &str, start: usize) -> (r: Option<usize>)
    requires
        m@.len() > 0,
    ensures
        match marker_hit(line@, m@, start as int) {
            Some(at) => r matches Some(x) && x == at && at + m@.len() <= line.len(),
            None => r is None,
        },
{
    proof {
        lemma_marker_hit(line@, m@, start as int);
    }
    let mlen = m.unicode_len();
    if start > line.len() {
        proof {
            lemma_find_seq(line@, m@, start as int);
        }
        return None;
    }
    let mut from: usize = start;
    while from <= line.len()
        invariant
            mlen == m@.len(),
            mlen > 0,
            marker_hit(line@, m@, from as int) == marker_hit(line@, m@, start as int),
        decreases line.len() + 1 - from,
    {
        proof {
            lemma_find_seq(line@, m@, from as int);
        }
        let at = match find_str(line, m, from) {
            Some(at) => at,
            None => {
                return None;
            },
        };
        let after = at + mlen;
        let before_ok = at > 0 && ascii_ws_exec(line[at - 1]);
        let after_ok = after >= line.len() || ascii_ws_exec(line[after]) || line[after] == '(';
        if before_ok && after_ok {
            return Some(at);
        }
        from = after;
    }
    None
}

/// Splits one doctor row into `(name, status, value)`; `None` for a
/// continuation (path) line, a header, a separator or preamble.
pub fn split_tool_line(line: &str) -> (r: Option<(String, String, String)>)
    ensures
        match spec_split_tool_line(line@) {
            Some((n, s, v)) => r matches Some(t) && t.0@ == n && t.1@ == s && t.2@ == v,
            None => r is None,
        },
{
    let chars = chars_of(line);
    proof {
        reveal_strlit("WRONG VER");
        reveal_strlit("MISSING");
        reveal_strlit("ok");
    }
    let h0 = marker_hit_exec(&chars, "WRONG VER", STATUS_COLUMN);
    let h1 = marker_hit_exec(&chars, "MISSING", STATUS_COLUMN);
    let h2 = marker_hit_exec(&chars, "ok", STATUS_COLUMN);
    let (m, at): (&str, usize) = match (h0, h1, h2) {
        (Some(a0), _, _) if (h1.is_none() || a0 <= h1.unwrap()) && (h2.is_none() || a0
            <= h2.unwrap()) => ("WRONG VER", a0),
        (_, Some(a1), _) if h2.is_none() || a1 <= h2.unwrap() => ("MISSING", a1),
        (_, _, Some(a2)) => ("ok", a2),
        _ => {
            return None;
        },
    };
    proof {
        reveal_strlit("WRONG VER");
        reveal_strlit("MISSING");
        reveal_strlit("ok");
    }
    let mlen = m.unicode_len();
    let name = trim_exec(&copy_range(&chars, 0, at));
    assert(chars@.subrange(0, at as int) =~= chars@.take(at as int));
    if name.len() == 0 {
        return None;
    }
    let value = trim_exec(&copy_range(&chars, at + mlen, chars.len()));
    assert(chars@.subrange((at + mlen) as int, chars@.len() as int) =~= chars@.skip(
        (at + mlen) as int,
    ));
    let mut status = String::new();
    push_str(&mut status, m);
    Some((string_of(&name), status, string_of(&value)))
}

// ------------------------------------------------------------ reports ---

/// One resolved (or missing) toolchain entry.
#[derive(Debug, Clone, PartialEq, Eq)]
pub struct ToolInfo {
    pub name: String,
    /// Raw status as printed: `ok`, `MISSING`, `WRONG VER`.
    pub status: String,
    /// The version the doctor printed, if any (missing tools and
    /// verification rows have none).
    pub version: Option<String>,
    /// The path the doctor resolved, when it printed one.
    pub path: Option<String>,
    /// True only for status `ok` (and no failed check since).
    pub available: bool,
    /// True when the tool is required for the project to build.
    pub required: bool,
    /// Verification notes printed for this tool, verbatim.
    pub checks: Vec<String>,
}

/// The content of a [`ToolInfo`].
pub struct ToolView {
    pub name: Seq<char>,
    pub status: Seq<char>,
    pub version: Option<Seq<char>>,
    pub path: Option<Seq<char>>,
    pub available: bool,
    pub required: bool,
    pub checks: Seq<Seq<char>>,
}

/// The content of an optional string.
pub open spec fn opt_text(o: Option<String>) -> Option<Seq<char>> {
    match o {
        Some(s) => Some(s@),
        None => None,
    }
}

/// The contents of strings.
pub open spec fn texts(v: Seq<String>) -> Seq<Seq<char>> {
    Seq::new(v.len(), |i: int| v[i]@)
}

impl View for ToolInfo {
    type V = ToolView;

    open spec fn view(&self) -> ToolView {
        ToolView {
            name: self.name@,
            status: self.status@,
            version: opt_text(self.version),
            path: opt_text(self.path),
            available: self.available,
            required: self.required,
            checks: texts(self.checks@),
        }
    }
}

/// The contents of a list of tools.
pub open spec fn tool_views(v: Seq<ToolInfo>) -> Seq<ToolView> {
    Seq::new(v.len(), |i: int| v[i]@)
}

/// The lines of `s` as `str::lines` gives them: split after each `\n`, the
/// `\n` dropped and then one `\r` before it.
pub open spec fn std_lines(s: Seq<char>) -> Seq<Seq<char>> {
    let spans = line_spans(s, 0);
    Seq::new(
        spans.len(),
        |k: int|
            {
                let seg = s.subrange(spans[k].0, spans[k].1);
                if seg.len() > 0 && seg.last() == '\n' {
                    let body = seg.drop_last();
                    if body.len() > 0 && body.last() == '\r' {
                        body.drop_last()
                    } else {
                        body
                    }
                } else {
                    seg
                }
            },
    )
}

/// Index of the first tool named `name` (or `tools.len()`).
pub open spec fn tool_index(tools: Seq<ToolView>, name: Seq<char>, i: int) -> int
    decreases tools.len() - i,
{
    if i < 0 || i >= tools.len() {
        tools.len() as int
    } else if tools[i].name == name {
        i
    } else {
        tool_index(tools, name, i + 1)
    }
}

/// A row is a verification row (it checks a tool rather than report it).
pub open spec fn is_check_row(status: Seq<char>, value: Seq<char>) -> bool {
    starts_with(value, "version matches /"@) || status == "WRONG VER"@
}

/// What one line of the doctor's output does to the tool list.  The
/// doctor's own `doctor:` summary is not a row, and the note on a `MISSING`
/// row is not a version.
pub open spec fn doctor_step(tools: Seq<ToolView>, line: Seq<char>) -> Seq<ToolView> {
    if trim(line).len() == 0 {
        tools
    } else if line[0] == ' ' || line[0] == '\t' {
        let p = trim(line);
        if tools.len() > 0 && tools.last().path is None && p.len() > 0 && p[0] != '-' && p[0]
            != '=' {
            tools.update(tools.len() - 1, ToolView { path: Some(p), ..tools.last() })
        } else {
            tools
        }
    } else if starts_with(line, "doctor:"@) {
        tools
    } else {
        match spec_split_tool_line(line) {
            None => tools,
            Some((name, status, value)) => {
                let check = is_check_row(status, value);
                let versioned = !check && status != "MISSING"@;
                let k = tool_index(tools, name, 0);
                if k < tools.len() {
                    let t = tools[k];
                    tools.update(
                        k,
                        ToolView {
                            checks: if value.len() > 0 {
                                t.checks.push(value)
                            } else {
                                t.checks
                            },
                            available: if status == "WRONG VER"@ || status == "MISSING"@ {
                                false
                            } else {
                                t.available
                            },
                            status: if check {
                                t.status
                            } else {
                                status
                            },
                            version: if versioned && t.version is None && value.len() > 0 {
                                Some(value)
                            } else {
                                t.version
                            },
                            ..t
                        },
                    )
                } else {
                    tools.push(
                        ToolView {
                            name,
                            status,
                            version: if !versioned || value.len() == 0 {
                                None
                            } else {
                                Some(value)
                            },
                            path: None,
                            available: status == "ok"@,
                            required: true,
                            checks: if check && value.len() > 0 {
                                seq![value]
                            } else {
                                Seq::empty()
                            },
                        },
                    )
                }
            },
        }
    }
}

/// The tool list after the lines from `k` on.
pub open spec fn doctor_from(lines: Seq<Seq<char>>, k: int, tools: Seq<ToolView>) -> Seq<ToolView>
    decreases lines.len() - k,
{
    if k < 0 || k >= lines.len() {
        tools
    } else {
        doctor_from(lines, k + 1, doctor_step(tools, lines[k]))
    }
}

/// The meaning of the doctor's output: one row per tool, verification rows
/// merged into the tool they check, continuation lines giving the path.
pub open spec fn spec_doctor_output(stdout: Seq<char>) -> Seq<ToolView> {
    doctor_from(std_lines(stdout), 0, Seq::empty())
}

proof fn lemma_tool_index(tools: Seq<ToolView>, name: Seq<char>, i: int)
    requires
        0 <= i <= tools.len(),
    ensures
        i <= tool_index(tools, name, i) <= tools.len(),
        tool_index(tools, name, i) < tools.len() ==> tools[tool_index(tools, name, i)].name == name,
        forall|j: int| i <= j < tool_index(tools, name, i) ==> tools[j].name != name,
    decreases tools.len() - i,
{
    if i < tools.len() && tools[i].name != name {
        lemma_tool_index(tools, name, i + 1);
    }
}

/// No two rows share a name, and a row reads as available only with the
/// status `ok`.
pub open spec fn report_wf(tools: Seq<ToolView>) -> bool {
    &&& forall|i: int, j: int|
        0 <= i < j < tools.len() ==> #[trigger] tools[i].name != #[trigger] tools[j].name
    &&& forall|i: int| 0 <= i < tools.len() && #[trigger] tools[i].available ==> tools[i].status
        == "ok"@
}

proof fn lemma_step_wf(tools: Seq<ToolView>, line: Seq<char>)
    requires
        report_wf(tools),
    ensures
        report_wf(doctor_step(tools, line)),
{
    reveal_strlit("ok");
    reveal_strlit("MISSING");
    reveal_strlit("WRONG VER");
    if trim(line).len() != 0 && !(line[0] == ' ' || line[0] == '\t') && !starts_with(line, "doctor:"@) {
        match spec_split_tool_line(line) {
            None => {},
            Some((name, status, value)) => {
                lemma_tool_index(tools, name, 0);
                let after = doctor_step(tools, line);
                let k = tool_index(tools, name, 0);
                if k >= tools.len() {
                    assert forall|i: int, j: int| 0 <= i < j < after.len() implies #[trigger] after[i].name
                        != #[trigger] after[j].name by {
                        if j == tools.len() {
                            assert(after[i] == tools[i]);
                        }
                    }
                }
            },
        }
    }
}

proof fn lemma_doctor_from_wf(lines: Seq<Seq<char>>, k: int, tools: Seq<ToolView>)
    requires
        report_wf(tools),
    ensures
        report_wf(doctor_from(lines, k, tools)),
    decreases lines.len() - k,
{
    if 0 <= k < lines.len() {
        lemma_step_wf(tools, lines[k]);
        lemma_doctor_from_wf(lines, k + 1, doctor_step(tools, lines[k]));
    }
}

/// Whatever the doctor printed, the parsed report has one row per tool
/// name (later rows for a name are merged into its row), and a tool reads
/// as available only when its status is `ok`.
pub proof fn law_one_row_per_tool_and_available_means_ok(stdout: Seq<char>)
    ensures
        report_wf(spec_doctor_output(stdout)),
{
    lemma_doctor_from_wf(std_lines(stdout), 0, Seq::empty());
}

fn copy_strings(v: &Vec<String>) -> (r: Vec<String>)
    ensures
        r@ == v@,
        texts(r@) == texts(v@),
{
    let mut r: Vec<String> = Vec::new();
    let mut i: usize = 0;
    while i < v.len()
        invariant
            i <= v.len(),
            r@ == v@.take(i as int),
        decreases v.len() - i,
    {
        r.push(v[i].clone());
        i = i + 1;
        assert(r@ =~= v@.take(i as int));
    }
    assert(v@.take(v.len() as int) =~= v@);
    r
}

fn copy_opt(o: &Option<String>) -> (r: Option<String>)
    ensures
        opt_text(r) == opt_text(*o),
{
    match o {
        Some(s) => Some(s.clone()),
        None => None,
    }
}

fn find_tool(tools: &Vec<ToolInfo>, name: &String) -> (r: usize)
    ensures
        r == tool_index(tool_views(tools@), name@, 0),
        r <= tools.len(),
{
    let ghost tv = tool_views(tools@);
    let mut i: usize = 0;
    while i < tools.len()
        invariant
            i <= tools.len(),
            tv == tool_views(tools@),
            tool_index(tv, name@, i as int) == tool_index(tv, name@, 0),
        decreases tools.len() - i,
    {
        if tools[i].name == *name {
            assert(tv[i as int].name == name@);
            return i;
        }
        i = i + 1;
    }
    i
}

pub(crate) fn lines_of(text: &str) -> (r: Vec<Vec<char>>)
    ensures
        r.deep_view() == std_lines(text@),
{
    let chars = chars_of(text);
    let ghost s = chars@;
    let ghost spans = line_spans(s, 0);
    let mut out: Vec<Vec<char>> = Vec::new();
    let mut i: usize = 0;
    let ghost mut k: int = 0;
    while i < chars.len()
        invariant
            i <= chars.len(),
            s == chars@,
            s == text@,
            spans == line_spans(s, 0),
            0 <= k <= spans.len(),
            line_spans(s, i as int) == spans.skip(k),
            out.deep_view() == std_lines(s).take(k),
        decreases chars.len() - i,
    {
        proof {
            lemma_line_end(s, i as int);
        }
        let mut e = i;
        while e < chars.len() && chars[e] != '\n'
            invariant
                i <= e <= chars.len(),
                s == chars@,
                crate::scan::line_end(s, e as int) == crate::scan::line_end(s, i as int),
                forall|j: int| i <= j < e ==> s[j] != '\n',
            decreases chars.len() - e,
        {
            e = e + 1;
        }
        let end = if e < chars.len() {
            e + 1
        } else {
            e
        };
        assert(end == crate::scan::line_end(s, i as int));
        assert(line_spans(s, i as int) == seq![(i as int, end as int)] + line_spans(s, end as int));
        assert(spans[k] == (i as int, end as int)) by {
            assert(spans.skip(k)[0] == spans[k]);
        }
        let mut stop = e;
        if e < chars.len() && e > i && chars[e - 1] == '\r' {
            stop = e - 1;
        }
        let line = copy_range(&chars, i, stop);
        let ghost before = out.deep_view();
        let ghost old_out = out@;
        out.push(line);
        proof {
            let seg = s.subrange(i as int, end as int);
            if e < chars.len() {
                assert(seg.last() == '\n');
                assert(seg.drop_last() =~= s.subrange(i as int, e as int));
            }
            assert(k < spans.len()) by {
                assert(spans.skip(k).len() > 0);
            }
            let body = s.subrange(i as int, stop as int);
            if e < chars.len() {
                assert(seg.drop_last() =~= s.subrange(i as int, e as int));
                if stop < e {
                    assert(s.subrange(i as int, e as int).drop_last() =~= body);
                }
            } else {
                assert(seg =~= body);
                assert(seg.last() == s[e - 1]);
            }
            assert(std_lines(s)[k] == body);
            assert forall|j: int| 0 <= j < out.len() implies #[trigger] out.deep_view()[j]
                == before.push(body)[j] by {
                if j < old_out.len() {
                    assert(out@[j] == old_out[j]);
                }
            }
            assert(out.deep_view() =~= before.push(body));
            assert(std_lines(s).take(k + 1) =~= std_lines(s).take(k).push(body));
            assert(spans.skip(k + 1) =~= spans.skip(k).drop_first());
            k = k + 1;
        }
        i = end;
    }
    proof {
        assert(line_spans(s, i as int).len() == 0);
        assert(spans.skip(k).len() == 0);
        assert(std_lines(s).take(k) =~= std_lines(s));
    }
    out
}

/// Parses the doctor's output into tool rows (see [`spec_doctor_output`]).
pub fn parse_doctor_output(stdout: &str) -> (tools: Vec<ToolInfo>)
    ensures
        tool_views(tools@) == spec_doctor_output(stdout@),
{
    let lines = lines_of(stdout);
    let ghost lv = lines.deep_view();
    let mut tools: Vec<ToolInfo> = Vec::new();
    let mut k: usize = 0;
    assert(tool_views(tools@) =~= Seq::<ToolView>::empty());
    while k < lines.len()
        invariant
            k <= lines.len(),
            lv == lines.deep_view(),
            lv == std_lines(stdout@),
            doctor_from(lv, k as int, tool_views(tools@)) == spec_doctor_output(stdout@),
        decreases lines.len() - k,
    {
        let line = &lines[k];
        assert(line@ == lv[k as int]);
        let ghost before = tool_views(tools@);
        step_tools(&mut tools, line);
        k = k + 1;
    }
    tools
}

fn step_tools(tools: &mut Vec<ToolInfo>, line: &Vec<char>)
    ensures
        tool_views(final(tools)@) == doctor_step(tool_views(old(tools)@), line@),
{
    let ghost before = tool_views(tools@);
    let trimmed = trim_exec(line);
    if trimmed.len() == 0 {
        return;
    }
    if line[0] == ' ' || line[0] == '\t' {
        if tools.len() > 0 {
            let last = tools.len() - 1;
            if tools[last].path.is_none() && trimmed.len() > 0 && trimmed[0] != '-' && trimmed[0]
                != '=' {
                let old_tool = &tools[last];
                let updated = ToolInfo {
                    name: old_tool.name.clone(),
                    status: old_tool.status.clone(),
                    version: copy_opt(&old_tool.version),
                    path: Some(string_of(&trimmed)),
                    available: old_tool.available,
                    required: old_tool.required,
                    checks: copy_strings(&old_tool.checks),
                };
                tools.set(last, updated);
                assert(tool_views(tools@) =~= before.update(
                    before.len() - 1,
                    ToolView { path: Some(trimmed@), ..before.last() },
                ));
            }
        }
        return;
    }
    proof {
        reveal_strlit("doctor:");
    }
    if has_prefix(line, "doctor:") {
        return;
    }
    let text = string_of(line);
    let (name, status, value) = match split_tool_line(text.as_str()) {
        Some(parts) => parts,
        None => {
            return;
        },
    };
    proof {
        reveal_strlit("WRONG VER");
        reveal_strlit("MISSING");
        reveal_strlit("ok");
        reveal_strlit("version matches /");
    }
    let value_chars = chars_of(value.as_str());
    let status_chars = chars_of(status.as_str());
    let check = has_prefix(&value_chars, "version matches /") || equals_str(
        &status_chars,
        "WRONG VER",
    );
    let value_empty = value_chars.len() == 0;
    let versioned = !check && !equals_str(&status_chars, "MISSING");
    let k = find_tool(tools, &name);
    if k < tools.len() {
        let t = &tools[k];
        let mut checks = copy_strings(&t.checks);
        if !value_empty {
            let ghost cb = texts(checks@);
            checks.push(value.clone());
            assert(texts(checks@) =~= cb.push(value@));
        }
        let failed = equals_str(&status_chars, "WRONG VER") || equals_str(&status_chars, "MISSING");
        let updated = ToolInfo {
            name: t.name.clone(),
            status: if check {
                t.status.clone()
            } else {
                status.clone()
            },
            version: if versioned && t.version.is_none() && !value_empty {
                Some(value.clone())
            } else {
                copy_opt(&t.version)
            },
            path: copy_opt(&t.path),
            available: if failed {
                false
            } else {
                t.available
            },
            required: t.required,
            checks,
        };
        tools.set(k, updated);
        assert(tool_views(tools@) =~= doctor_step(before, line@));
    } else {
        let version = if !versioned || value_empty {
            None
        } else {
            Some(value.clone())
        };
        let mut checks: Vec<String> = Vec::new();
        if check && !value_empty {
            checks.push(value.clone());
        }
        assert(texts(checks@) =~= (if check && value@.len() > 0 {
            seq![value@]
        } else {
            Seq::<Seq<char>>::empty()
        }));
        let available = equals_str(&status_chars, "ok");
        tools.push(
            ToolInfo { name, status, version, path: None, available, required: true, checks },
        );
        assert(tool_views(tools@) =~= doctor_step(before, line@));
    }
}

/// Tools that are not required for the engine to work.
pub open spec fn optional_tool(name: Seq<char>) -> bool {
    name == "node"@ || name == "npm"@ || name == "pnpm"@
}

/// Requiredness of a tool given the doctor's exit code: a present tool is
/// required unless it is known-optional; a missing one only when the doctor
/// itself failed and it is not known-optional (an unknown name is required).
pub open spec fn spec_required(t: ToolView, exit_code: i32) -> bool {
    if t.available {
        !optional_tool(t.name)
    } else {
        exit_code != 0 && !optional_tool(t.name)
    }
}

/// Decides `required` for every row.
pub fn classify_required(tools: &mut Vec<ToolInfo>, doctor_exit_code: i32)
    ensures
        final(tools)@.len() == old(tools)@.len(),
        forall|i: int|
            0 <= i < old(tools)@.len() ==> #[trigger] final(tools)@[i]@ == (ToolView {
                required: spec_required(old(tools)@[i]@, doctor_exit_code),
                ..old(tools)@[i]@
            }),
{
    let mut i: usize = 0;
    while i < tools.len()
        invariant
            i <= tools.len(),
            tools@.len() == old(tools)@.len(),
            forall|j: int|
                0 <= j < i ==> #[trigger] tools@[j]@ == (ToolView {
                    required: spec_required(old(tools)@[j]@, doctor_exit_code),
                    ..old(tools)@[j]@
                }),
            forall|j: int| i <= j < tools@.len() ==> #[trigger] tools@[j] == old(tools)@[j],
        decreases tools.len() - i,
    {
        let t = &tools[i];
        let name = chars_of(t.name.as_str());
        proof {
            reveal_strlit("node");
            reveal_strlit("npm");
            reveal_strlit("pnpm");
        }
        let known_optional = equals_str(&name, "node") || equals_str(&name, "npm") || equals_str(
            &name,
            "pnpm",
        );
        let required = if t.available {
            !known_optional
        } else {
            doctor_exit_code != 0 && !known_optional
        };
        let updated = ToolInfo {
            name: t.name.clone(),
            status: t.status.clone(),
            version: copy_opt(&t.version),
            path: copy_opt(&t.path),
            available: t.available,
            required,
            checks: copy_strings(&t.checks),
        };
        tools.set(i, updated);
        i = i + 1;
    }
}

/// The names of tools that are missing and required, in order.
pub open spec fn spec_missing(tools: Seq<ToolView>) -> Seq<Seq<char>>
    decreases tools.len(),
{
    if tools.len() == 0 {
        Seq::empty()
    } else {
        let rest = spec_missing(tools.drop_last());
        if !tools.last().available && tools.last().required {
            rest.push(tools.last().name)
        } else {
            rest
        }
    }
}

/// The names of the required tools that are not available.
pub fn missing_names(tools: &Vec<ToolInfo>) -> (r: Vec<String>)
    ensures
        texts(r@) == spec_missing(tool_views(tools@)),
{
    let ghost tv = tool_views(tools@);
    let mut r: Vec<String> = Vec::new();
    let mut i: usize = 0;
    assert(texts(r@) =~= spec_missing(tv.take(0)));
    while i < tools.len()
        invariant
            i <= tools.len(),
            tv == tool_views(tools@),
            texts(r@) == spec_missing(tv.take(i as int)),
        decreases tools.len() - i,
    {
        let ghost before = r@;
        let t = &tools[i];
        assert(tv.take(i + 1).drop_last() =~= tv.take(i as int));
        assert(tv.take(i + 1).last() == tv[i as int]);
        if !t.available && t.required {
            r.push(t.name.clone());
            assert(texts(r@) =~= texts(before).push(t.name@));
        }
        i = i + 1;
    }
    assert(tv.take(i as int) =~= tv);
    r
}

/// Result of one doctor run, before it is wrapped in the reply.
#[derive(Debug, Clone)]
pub struct DoctorRun {
    pub tools: Vec<ToolInfo>,
    pub exit_code: i32,
    pub missing: Vec<String>,
    pub command: String,
    pub stdout: String,
    pub stderr: String,
}

/// Outcome of a run that can be cancelled or time out.
#[derive(Debug, Clone)]
pub enum DoctorOutcome {
    Done(DoctorRun),
    Cancelled(DoctorRun),
    TimedOut(DoctorRun),
}

/// Payload of `tools:detect`.
#[derive(Debug, Clone)]
pub struct ToolsDetectData {
    pub tools: Vec<ToolInfo>,
    pub exit_code: i32,
    pub missing: Vec<String>,
    pub root: String,
    pub command: String,
    pub raw_stdout: String,
    pub raw_stderr: String,
}

/// A run that never produced output (cancelled or killed): exit code -1,
/// no tools, the reason as stderr.
pub fn aborted_run(command: String, stderr: String) -> (r: DoctorRun)
    ensures
        r.tools@.len() == 0,
        r.exit_code == -1,
        r.missing@.len() == 0,
        r.command@ == command@,
        r.stdout@.len() == 0,
        r.stderr@ == stderr@,
{
    DoctorRun {
        tools: Vec::new(),
        exit_code: -1,
        missing: Vec::new(),
        command,
        stdout: String::new(),
        stderr,
    }
}

/// A completed run: the output parsed, requiredness decided by the exit
/// code, and the missing required tools listed.
pub fn finished_run(exit_code: i32, command: String, stdout: String, stderr: String) -> (r:
    DoctorRun)
    ensures
        r.exit_code == exit_code,
        r.command@ == command@,
        r.stdout@ == stdout@,
        r.stderr@ == stderr@,
        r.tools@.len() == spec_doctor_output(stdout@).len(),
        forall|i: int|
            0 <= i < r.tools@.len() ==> #[trigger] r.tools@[i]@ == (ToolView {
                required: spec_required(spec_doctor_output(stdout@)[i], exit_code),
                ..spec_doctor_output(stdout@)[i]
            }),
        texts(r.missing@) == spec_missing(tool_views(r.tools@)),
{
    let mut tools = parse_doctor_output(stdout.as_str());
    let ghost parsed = tools@;
    classify_required(&mut tools, exit_code);
    proof {
        assert forall|i: int| 0 <= i < parsed.len() implies #[trigger] parsed[i]@ == spec_doctor_output(
            stdout@,
        )[i] by {
            assert(tool_views(parsed)[i] == parsed[i]@);
        }
    }
    let missing = missing_names(&tools);
    DoctorRun { tools, exit_code, missing, command, stdout, stderr }
}

/// The body of a single-quoted word: `'` becomes `'\''`.
pub open spec fn spec_shell_quote_body(path: Seq<char>) -> Seq<char>
    decreases path.len(),
{
    if path.len() == 0 {
        Seq::empty()
    } else {
        spec_shell_quote_body(path.drop_last()) + if path.last() == '\'' {
            seq!['\'', '\\', '\'', '\'']
        } else {
            seq![path.last()]
        }
    }
}

/// Quotes a path for a POSIX shell command line.
pub fn shell_quote(path: &str) -> (r: String)
    ensures
        r@ == seq!['\''] + spec_shell_quote_body(path@) + seq!['\''],
{
    let chars = chars_of(path);
    let mut out = String::new();
    crate::text::push_char(&mut out, '\'');
    let ghost start = out@;
    let mut i: usize = 0;
    while i < chars.len()
        invariant
            i <= chars.len(),
            chars@ == path@,
            start == seq!['\''],
            out@ == start + spec_shell_quote_body(chars@.take(i as int)),
        decreases chars.len() - i,
    {
        let c = chars[i];
        assert(chars@.take(i + 1).drop_last() =~= chars@.take(i as int));
        assert(chars@.take(i + 1).last() == c);
        if c == '\'' {
            crate::text::push_char(&mut out, '\'');
            crate::text::push_char(&mut out, '\\');
            crate::text::push_char(&mut out, '\'');
            crate::text::push_char(&mut out, '\'');
        } else {
            crate::text::push_char(&mut out, c);
        }
        i = i + 1;
        assert(out@ =~= start + spec_shell_quote_body(chars@.take(i as int)));
    }
    assert(chars@.take(chars.len() as int) =~= chars@);
    crate::text::push_char(&mut out, '\'');
    out
}

/// What is known of one candidate workspace root.
#[derive(Debug, Clone)]
pub struct RootCandidate {
    /// The candidate as given (its display form).
    pub shown: String,
    /// Its canonical form, when it exists.
    pub canonical: Option<String>,
    /// It holds both `scripts/doctor.sh` and `scripts/env.sh`.
    pub has_scripts: bool,
}

/// The "tried" line for a rejected candidate.
pub open spec fn tried_line(c: RootCandidate) -> Seq<char> {
    match c.canonical {
        None => c.shown@ + " (does not exist)"@,
        Some(canon) => canon@ + " (no scripts/doctor.sh)"@,
    }
}

/// The tried lines joined with `\n  `.
pub open spec fn join_tried(v: Seq<Seq<char>>) -> Seq<char>
    decreases v.len(),
{
    if v.len() == 0 {
        Seq::empty()
    } else if v.len() == 1 {
        v[0]
    } else {
        join_tried(v.drop_last()) + "\n  "@ + v.last()
    }
}

/// Index of the first candidate that is a workspace (exists and has the
/// scripts), or `cands.len()`.
pub open spec fn first_workspace(cands: Seq<RootCandidate>, i: int) -> int
    decreases cands.len() - i,
{
    if i < 0 || i >= cands.len() {
        cands.len() as int
    } else if cands[i].canonical is Some && cands[i].has_scripts {
        i
    } else {
        first_workspace(cands, i + 1)
    }
}

/// The detail of the not-found failure listing every candidate tried.
pub open spec fn root_not_found_detail(cands: Seq<RootCandidate>) -> Seq<char> {
    "looked for a directory containing scripts/doctor.sh + scripts/env.sh.\ntried:\n  "@
        + join_tried(Seq::new(cands.len(), |i: int| tried_line(cands[i])))
        + "\nset PRINCESSIDE_ROOT to override."@
}

/// Picks the first candidate that really is a workspace: its canonical
/// form; when none is, an `E_NOT_FOUND` failure listing every candidate
/// tried.
pub fn pick_root(candidates: Vec<RootCandidate>) -> (r: Result<String, IpcFailure>)
    ensures
        ({
            let k = first_workspace(candidates@, 0);
            if k < candidates@.len() {
                r matches Ok(root) && Some(root@) == opt_text(candidates@[k].canonical)
            } else {
                r matches Err(f) && f.code == ErrorCode::NotFound && f.message@
                    == "PrincessIDE workspace root not found"@ && f.detail@ == root_not_found_detail(
                    candidates@,
                )
            }
        }),
{
    let ghost lines = Seq::new(candidates@.len(), |i: int| tried_line(candidates@[i]));
    let mut tried = String::new();
    let mut i: usize = 0;
    while i < candidates.len()
        invariant
            i <= candidates.len(),
            lines == Seq::new(candidates@.len(), |i: int| tried_line(candidates@[i])),
            first_workspace(candidates@, i as int) == first_workspace(candidates@, 0),
            tried@ == join_tried(lines.take(i as int)),
        decreases candidates.len() - i,
    {
        let c = &candidates[i];
        let ghost before = tried@;
        match &c.canonical {
            Some(canon) => {
                if c.has_scripts {
                    return Ok(canon.clone());
                }
                if i > 0 {
                    push_str(&mut tried, "\n  ");
                }
                push_str(&mut tried, canon.as_str());
                push_str(&mut tried, " (no scripts/doctor.sh)");
            },
            None => {
                if i > 0 {
                    push_str(&mut tried, "\n  ");
                }
                push_str(&mut tried, c.shown.as_str());
                push_str(&mut tried, " (does not exist)");
            },
        }
        proof {
            assert(lines.take(i + 1).drop_last() =~= lines.take(i as int));
            assert(lines.take(i + 1).last() == tried_line(candidates@[i as int]));
            if i == 0 {
                assert(lines.take(1).len() == 1);
            }
        }
        assert(tried@ =~= join_tried(lines.take(i + 1)));
        i = i + 1;
    }
    assert(lines.take(i as int) =~= lines);
    let mut detail = String::new();
    push_str(
        &mut detail,
        "looked for a directory containing scripts/doctor.sh + scripts/env.sh.\ntried:\n  ",
    );
    push_str(&mut detail, tried.as_str());
    push_str(&mut detail, "\nset PRINCESSIDE_ROOT to override.");
    let mut message = String::new();
    push_str(&mut message, "PrincessIDE workspace root not found");
    Err(IpcFailure::new(ErrorCode::NotFound, message, detail))
}

} // verus!
