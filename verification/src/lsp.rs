//! The language-server bridge's own logic: which server a project gets,
//! the server ids, and the `Content-Length` framing of JSON-RPC in both
//! directions.  Spawning the server and moving bytes through its pipes is
//! the shell's job.

use vstd::prelude::*;
use vstd::utf8::{valid_utf8, decode_utf8};
use crate::scan::{chars_of, trim, trim_exec, starts_with, has_prefix, parse_unsigned,
    parse_unsigned_exec, copy_range, string_of, equals_str, line_spans};
use crate::text::{push_str, push_decimal, push_hex_padded, spec_decimal, spec_hex_padded,
    lossy_utf8, utf8_lossy, utf8_text};
use crate::doctor::{texts, std_lines, lines_of};
use crate::scan::{find_char, find_char_exec, lemma_find_char};

verus! {

broadcast use vstd::string::group_string_axioms;

// ------------------------------------------------------------ language ---

/// The value of a manifest line `language = "..."`: the text after the
/// first `=` up to the next one, trimmed, one layer of quotes dropped
/// (`trim_matches('"')`), trimmed again.
pub open spec fn language_value(line: Seq<char>) -> Seq<char> {
    let t = trim(line);
    let eq = find_char(t, '=', 0);
    let rest = if eq < t.len() {
        t.skip(eq + 1)
    } else {
        Seq::empty()
    };
    let next = find_char(rest, '=', 0);
    trim(strip_quotes(trim(rest.take(next))))
}

/// `trim_matches('"')`: every leading and trailing `"` removed.
pub open spec fn strip_quotes(s: Seq<char>) -> Seq<char>
    decreases s.len(),
{
    if s.len() > 0 && s[0] == '"' {
        strip_quotes(s.drop_first())
    } else if s.len() > 0 && s.last() == '"' {
        strip_quotes(s.drop_last())
    } else {
        s
    }
}

/// The first manifest line at or after `k` that names a language.
pub open spec fn language_from(lines: Seq<Seq<char>>, k: int) -> Option<Seq<char>>
    decreases lines.len() - k,
{
    if k < 0 || k >= lines.len() {
        None
    } else {
        let t = trim(lines[k]);
        if starts_with(t, "language"@) && find_char(t, '=', 0) < t.len()
            && language_value(lines[k]).len() > 0 {
            Some(language_value(lines[k]))
        } else {
            language_from(lines, k + 1)
        }
    }
}

/// The project's language from its manifest text: the first non-empty
/// `language = ...` value, else `c`.
pub open spec fn spec_detect_language(manifest: Seq<char>) -> Seq<char> {
    match language_from(std_lines(manifest), 0) {
        Some(v) => v,
        None => "c"@,
    }
}

fn strip_quotes_exec(v: &Vec<char>) -> (r: Vec<char>)
    ensures
        r@ == strip_quotes(v@),
{
    let mut a: usize = 0;
    let mut b: usize = v.len();
    assert(v@.subrange(0, v.len() as int) =~= v@);
    while a < b && (v[a] == '"' || v[b - 1] == '"')
        invariant
            a <= b <= v.len(),
            strip_quotes(v@.subrange(a as int, b as int)) == strip_quotes(v@),
        decreases b - a,
    {
        let ghost cur = v@.subrange(a as int, b as int);
        if v[a] == '"' {
            assert(cur.drop_first() =~= v@.subrange(a + 1, b as int));
            a = a + 1;
        } else {
            assert(cur.drop_last() =~= v@.subrange(a as int, b - 1));
            b = b - 1;
        }
    }
    copy_range(v, a, b)
}

fn language_value_exec(line: &Vec<char>) -> (r: Vec<char>)
    ensures
        r@ == language_value(line@),
{
    let t = trim_exec(line);
    proof {
        lemma_find_char(t@, '=', 0);
    }
    let eq = match find_char_exec(&t, '=') {
        Some(k) => k,
        None => t.len(),
    };
    let rest = if eq < t.len() {
        copy_range(&t, eq + 1, t.len())
    } else {
        Vec::new()
    };
    assert(eq < t.len() ==> rest@ =~= t@.skip(eq + 1));
    proof {
        lemma_find_char(rest@, '=', 0);
    }
    let next = match find_char_exec(&rest, '=') {
        Some(k) => k,
        None => rest.len(),
    };
    let piece = copy_range(&rest, 0, next);
    assert(piece@ =~= rest@.take(next as int));
    let inner = strip_quotes_exec(&trim_exec(&piece));
    trim_exec(&inner)
}

/// The project's language from its manifest text (see
/// [`spec_detect_language`]); a project without a manifest is C.
pub fn detect_language(manifest: &str) -> (r: String)
    ensures
        r@ == spec_detect_language(manifest@),
{
    let lines = lines_of(manifest);
    let ghost lv = lines.deep_view();
    proof {
        reveal_strlit("language");
        reveal_strlit("c");
    }
    let mut k: usize = 0;
    while k < lines.len()
        invariant
            k <= lines.len(),
            lv == lines.deep_view(),
            lv == std_lines(manifest@),
            language_from(lv, k as int) == language_from(lv, 0),
        decreases lines.len() - k,
    {
        let line = &lines[k];
        assert(line@ == lv[k as int]);
        let t = trim_exec(line);
        proof {
            lemma_find_char(t@, '=', 0);
        }
        if has_prefix(&t, "language") && find_char_exec(&t, '=').is_some() {
            let value = language_value_exec(line);
            if value.len() > 0 {
                return string_of(&value);
            }
        }
        k = k + 1;
    }
    let mut r = String::new();
    push_str(&mut r, "c");
    r
}

// -------------------------------------------------------------- servers ---

/// The server a language gets: `jdtls` with no arguments for Java, else
/// `clangd-16` pointed at the project root.
pub open spec fn spec_server_command(language: Seq<char>, root: Seq<char>, clangd: Seq<char>, jdtls: Seq<char>) -> (
    Seq<char>,
    Seq<Seq<char>>,
) {
    if language == "java"@ {
        (jdtls, Seq::empty())
    } else {
        (
            clangd,
            seq![
                "--compile-commands-dir="@ + root,
                "--resource-dir="@ + root,
                "--pch-storage=memory"@,
                "--log=error"@,
                "-j=2"@,
            ],
        )
    }
}

fn text_from(s: &str) -> (r: String)
    ensures
        r@ == s@,
{
    let mut r = String::new();
    push_str(&mut r, s);
    r
}

fn prefixed(prefix: &str, rest: &str) -> (r: String)
    ensures
        r@ == prefix@ + rest@,
{
    let mut r = text_from(prefix);
    push_str(&mut r, rest);
    r
}

/// The binary and arguments for a project's language server (see
/// [`spec_server_command`]); `clangd` and `jdtls` are the resolved binaries.
pub fn server_command(language: &str, root: &str, clangd: String, jdtls: String) -> (r: (String, Vec<String>))
    ensures
        r.0@ == spec_server_command(language@, root@, clangd@, jdtls@).0,
        texts(r.1@) == spec_server_command(language@, root@, clangd@, jdtls@).1,
{
    proof {
        reveal_strlit("java");
    }
    if equals_str(&chars_of(language), "java") {
        let args: Vec<String> = Vec::new();
        assert(texts(args@) =~= Seq::<Seq<char>>::empty());
        return (jdtls, args);
    }
    let mut args: Vec<String> = Vec::new();
    args.push(prefixed("--compile-commands-dir=", root));
    args.push(prefixed("--resource-dir=", root));
    args.push(text_from("--pch-storage=memory"));
    args.push(text_from("--log=error"));
    args.push(text_from("-j=2"));
    assert(texts(args@) =~= spec_server_command(language@, root@, clangd@, jdtls@).1);
    (clangd, args)
}

/// The id of the `n`-th server started: `lsp-` and at least four lower-case
/// hex digits.
pub fn server_id(n: u64) -> (r: String)
    ensures
        r@ == "lsp-"@ + spec_hex_padded(n as nat, 4),
{
    let mut r = text_from("lsp-");
    push_hex_padded(&mut r, n, 4);
    r
}

/// The command line as it is shown to the user: the binary, then the
/// arguments, separated by single spaces.
pub open spec fn spec_command_display(bin: Seq<char>, args: Seq<Seq<char>>) -> Seq<char>
    decreases args.len(),
{
    if args.len() == 0 {
        bin + " "@
    } else if args.len() == 1 {
        bin + " "@ + args[0]
    } else {
        spec_command_display(bin, args.drop_last()) + " "@ + args.last()
    }
}

/// Renders the command line (see [`spec_command_display`]).
pub fn command_display(bin: &str, args: &Vec<String>) -> (r: String)
    ensures
        r@ == spec_command_display(bin@, texts(args@)),
{
    let mut r = text_from(bin);
    push_str(&mut r, " ");
    let ghost tv = texts(args@);
    let mut i: usize = 0;
    while i < args.len()
        invariant
            i <= args.len(),
            tv == texts(args@),
            i == 0 ==> r@ == bin@ + " "@,
            i > 0 ==> r@ == spec_command_display(bin@, tv.take(i as int)),
        decreases args.len() - i,
    {
        let ghost before = r@;
        if i > 0 {
            push_str(&mut r, " ");
        }
        push_str(&mut r, args[i].as_str());
        assert(tv.take(i + 1).drop_last() =~= tv.take(i as int));
        assert(tv.take(i + 1).last() == args@[i as int]@);
        if i == 0 {
            assert(tv.take(1).len() == 1);
        }
        assert(r@ =~= spec_command_display(bin@, tv.take(i + 1)));
        i = i + 1;
    }
    assert(tv.take(i as int) =~= tv);
    if i == 0 {
        assert(tv.len() == 0);
    }
    r
}

// -------------------------------------------------------------- framing ---

/// An outgoing message with its frame: `Content-Length: N\r\n\r\n` (N the
/// byte length of the body) followed by the body.
pub open spec fn spec_frame(message: Seq<char>) -> Seq<u8> {
    vstd::utf8::encode_utf8(
        "Content-Length: "@ + spec_decimal(vstd::utf8::encode_utf8(message).len()) + "\r\n\r\n"@ + message,
    )
}

/// Frames an outgoing JSON-RPC message.
pub fn frame_message(message: &str) -> (r: Vec<u8>)
    ensures
        r@ == spec_frame(message@),
{
    let body_len = message.as_bytes().len();
    let mut head = text_from("Content-Length: ");
    push_decimal(&mut head, body_len as u64);
    push_str(&mut head, "\r\n\r\n");
    push_str(&mut head, message);
    let encoded = head.as_str().as_bytes();
    let mut r: Vec<u8> = Vec::new();
    let mut i: usize = 0;
    while i < encoded.len()
        invariant
            i <= encoded.len(),
            r@ == encoded@.take(i as int),
        decreases encoded.len() - i,
    {
        r.push(encoded[i]);
        i = i + 1;
        assert(r@ =~= encoded@.take(i as int));
    }
    assert(encoded@.take(encoded.len() as int) =~= encoded@);
    r
}

// ------------------------------------------------------ incoming frames ---

/// Where the header block that starts at some position stands.
pub enum HeaderScan {
    /// A header line is still incomplete.
    NeedMore,
    /// A header line is not valid UTF-8: the stream cannot be read on.
    Broken,
    /// The blank line arrived: the declared `Content-Length` (the last valid
    /// one, if any) and where the body starts.
    Complete(Option<nat>, int),
}

/// The first `\n` at or after `i` (or `s.len()`).
pub open spec fn newline_from(s: Seq<u8>, i: int) -> int
    decreases s.len() - i,
{
    if i < 0 || i >= s.len() {
        s.len() as int
    } else if s[i] == 10u8 {
        i
    } else {
        newline_from(s, i + 1)
    }
}

pub proof fn lemma_newline_from(s: Seq<u8>, i: int)
    requires
        0 <= i,
    ensures
        newline_from(s, i) == s.len() || (i <= newline_from(s, i) < s.len() && s[newline_from(
            s,
            i,
        )] == 10u8),
        newline_from(s, i) <= s.len(),
        forall|k: int| i <= k < newline_from(s, i) ==> s[k] != 10u8,
    decreases s.len() - i,
{
    if i < s.len() && s[i] != 10u8 {
        lemma_newline_from(s, i + 1);
    }
}

/// The `Content-Length` a trimmed header line declares, if it declares one.
pub open spec fn declared_length(t: Seq<char>) -> Option<nat> {
    if starts_with(t, "Content-Length:"@) {
        match parse_unsigned(trim(t.skip(15)), 10, usize::MAX as nat) {
            Ok(n) => Some(n),
            Err(_) => None,
        }
    } else {
        None
    }
}

/// Reads header lines from `pos` (each up to and including its `\n`) until
/// a line that is blank once trimmed.
pub open spec fn scan_headers(s: Seq<u8>, pos: int, len: Option<nat>) -> HeaderScan
    decreases s.len() - pos,
{
    if pos < 0 || pos >= s.len() {
        HeaderScan::NeedMore
    } else {
        let e = newline_from(s, pos);
        proof {
            lemma_newline_from(s, pos);
        }
        if e >= s.len() {
            HeaderScan::NeedMore
        } else {
            let raw = s.subrange(pos, e + 1);
            if !valid_utf8(raw) {
                HeaderScan::Broken
            } else {
                let t = trim(decode_utf8(raw));
                if t.len() == 0 {
                    HeaderScan::Complete(len, e + 1)
                } else if declared_length(t) is Some {
                    scan_headers(s, e + 1, declared_length(t))
                } else {
                    scan_headers(s, e + 1, len)
                }
            }
        }
    }
}

pub proof fn lemma_scan_headers(s: Seq<u8>, pos: int, len: Option<nat>)
    requires
        0 <= pos,
    ensures
        scan_headers(s, pos, len) matches HeaderScan::Complete(_, q) ==> pos < q <= s.len(),
    decreases s.len() - pos,
{
    if pos < s.len() {
        lemma_newline_from(s, pos);
        let e = newline_from(s, pos);
        if e < s.len() {
            lemma_scan_headers(s, e + 1, len);
            let raw = s.subrange(pos, e + 1);
            if valid_utf8(raw) {
                let t = trim(decode_utf8(raw));
                lemma_scan_headers(s, e + 1, declared_length(t));
            }
        }
    }
}

/// The messages whose frames are complete from `pos` on, where reading
/// stops, and whether the stream can still be read.  A header block without
/// a `Content-Length` is skipped; each body is decoded lossily.
pub open spec fn scan_messages(s: Seq<u8>, pos: int) -> (Seq<Seq<char>>, int, bool)
    decreases s.len() - pos,
{
    if pos < 0 || pos > s.len() {
        (Seq::empty(), pos, true)
    } else {
        proof {
            lemma_scan_headers(s, pos, None);
        }
        match scan_headers(s, pos, None) {
            HeaderScan::NeedMore => (Seq::empty(), pos, true),
            HeaderScan::Broken => (Seq::empty(), pos, false),
            HeaderScan::Complete(len, q) => match len {
                None => scan_messages(s, q),
                Some(n) => if q + n <= s.len() {
                    let rest = scan_messages(s, q + n);
                    (seq![lossy_utf8(s.subrange(q, q + n))] + rest.0, rest.1, rest.2)
                } else {
                    (Seq::empty(), pos, true)
                },
            },
        }
    }
}

/// What a decoder in `state` (pending bytes, broken) hands out for the next
/// `bytes`, and the state it is left in.
pub open spec fn feed(state: (Seq<u8>, bool), bytes: Seq<u8>) -> (Seq<Seq<char>>, (Seq<u8>, bool)) {
    if state.1 {
        (Seq::empty(), state)
    } else {
        let all = state.0 + bytes;
        let (m, p, alive) = scan_messages(all, 0);
        (m, (all.skip(p), !alive))
    }
}

proof fn lemma_newline_extend(s: Seq<u8>, b: Seq<u8>, i: int)
    requires
        0 <= i,
        newline_from(s, i) < s.len(),
    ensures
        newline_from(s + b, i) == newline_from(s, i),
    decreases s.len() - i,
{
    assert((s + b)[i] == s[i]);
    if s[i] != 10u8 {
        lemma_newline_extend(s, b, i + 1);
    }
}

proof fn lemma_newline_shift(x: Seq<u8>, p: int, i: int)
    requires
        0 <= p <= x.len(),
        0 <= i,
    ensures
        newline_from(x.skip(p), i) == newline_from(x, i + p) - p,
    decreases x.len() - i - p,
{
    if i + p < x.len() {
        assert(x.skip(p)[i] == x[i + p]);
        if x[i + p] != 10u8 {
            lemma_newline_shift(x, p, i + 1);
        }
    }
}

/// A header block read to its end, or found broken, stays so whatever
/// bytes follow.
proof fn lemma_headers_extend(s: Seq<u8>, b: Seq<u8>, pos: int, len: Option<nat>)
    requires
        0 <= pos,
        !(scan_headers(s, pos, len) is NeedMore),
    ensures
        scan_headers(s + b, pos, len) == scan_headers(s, pos, len),
    decreases s.len() - pos,
{
    lemma_newline_from(s, pos);
    let e = newline_from(s, pos);
    lemma_newline_extend(s, b, pos);
    let raw = s.subrange(pos, e + 1);
    assert((s + b).subrange(pos, e + 1) =~= raw);
    if valid_utf8(raw) {
        let t = trim(decode_utf8(raw));
        if t.len() != 0 {
            if declared_length(t) is Some {
                lemma_headers_extend(s, b, e + 1, declared_length(t));
            } else {
                lemma_headers_extend(s, b, e + 1, len);
            }
        }
    }
}

/// `h` with its body position moved back by `p`.
pub open spec fn shifted(h: HeaderScan, p: int) -> HeaderScan {
    match h {
        HeaderScan::Complete(l, q) => HeaderScan::Complete(l, q - p),
        _ => h,
    }
}

proof fn lemma_headers_shift(x: Seq<u8>, p: int, i: int, len: Option<nat>)
    requires
        0 <= p <= x.len(),
        0 <= i,
    ensures
        scan_headers(x.skip(p), i, len) == shifted(scan_headers(x, i + p, len), p),
    decreases x.len() - i - p,
{
    if i + p < x.len() {
        lemma_newline_from(x, i + p);
        lemma_newline_shift(x, p, i);
        let e = newline_from(x, i + p);
        if e < x.len() {
            let raw = x.subrange(i + p, e + 1);
            assert(x.skip(p).subrange(i, e - p + 1) =~= raw);
            if valid_utf8(raw) {
                let t = trim(decode_utf8(raw));
                lemma_headers_shift(x, p, e + 1 - p, declared_length(t));
                lemma_headers_shift(x, p, e + 1 - p, len);
            }
        }
    }
}

/// Reading stops between where it started and the end of the bytes.
proof fn lemma_messages_pos(s: Seq<u8>, pos: int)
    requires
        0 <= pos <= s.len(),
    ensures
        pos <= scan_messages(s, pos).1 <= s.len(),
    decreases s.len() - pos,
{
    lemma_scan_headers(s, pos, None);
    match scan_headers(s, pos, None) {
        HeaderScan::Complete(len, q) => {
            match len {
                None => {
                    lemma_messages_pos(s, q);
                },
                Some(n) => {
                    if q + n <= s.len() {
                        lemma_messages_pos(s, q + n);
                    }
                },
            }
        },
        _ => {},
    }
}

/// Reading on after more bytes arrive continues where reading stopped.
proof fn lemma_messages_extend(s: Seq<u8>, b: Seq<u8>, pos: int)
    requires
        0 <= pos,
    ensures
        ({
            let (m, p, a) = scan_messages(s, pos);
            let r = scan_messages(s + b, p);
            if a {
                scan_messages(s + b, pos) == (m + r.0, r.1, r.2)
            } else {
                scan_messages(s + b, pos) == (m, p, a)
            }
        }),
    decreases s.len() - pos,
{
    let r0 = scan_messages(s + b, pos);
    assert(Seq::<Seq<char>>::empty() + r0.0 =~= r0.0);
    if pos <= s.len() {
        lemma_scan_headers(s, pos, None);
        match scan_headers(s, pos, None) {
            HeaderScan::NeedMore => {},
            HeaderScan::Broken => {
                lemma_headers_extend(s, b, pos, None);
            },
            HeaderScan::Complete(len, q) => {
                lemma_headers_extend(s, b, pos, None);
                match len {
                    None => {
                        lemma_messages_extend(s, b, q);
                    },
                    Some(n) => {
                        if q + n <= s.len() {
                            lemma_messages_extend(s, b, q + n);
                            assert((s + b).subrange(q, q + n) =~= s.subrange(q, q + n));
                            let rest = scan_messages(s, q + n);
                            let body = seq![lossy_utf8(s.subrange(q, q + n))];
                            let r = scan_messages(s + b, rest.1);
                            assert(body + (rest.0 + r.0) =~= (body + rest.0) + r.0);
                        }
                    },
                }
            },
        }
    }
}

/// Reading from `p` bytes in is reading the shorter stream.
proof fn lemma_messages_shift(x: Seq<u8>, p: int, i: int)
    requires
        0 <= p <= x.len(),
        0 <= i,
    ensures
        ({
            let r = scan_messages(x, i + p);
            scan_messages(x.skip(p), i) == (r.0, r.1 - p, r.2)
        }),
    decreases x.len() - i - p,
{
    if i + p <= x.len() {
        lemma_headers_shift(x, p, i, None);
        lemma_scan_headers(x, i + p, None);
        match scan_headers(x, i + p, None) {
            HeaderScan::Complete(len, q) => {
                match len {
                    None => {
                        lemma_messages_shift(x, p, q - p);
                    },
                    Some(n) => {
                        if q + n <= x.len() {
                            assert(x.skip(p).subrange(q - p, q - p + n) =~= x.subrange(q, q + n));
                            lemma_messages_shift(x, p, q + n - p);
                        }
                    },
                }
            },
            _ => {},
        }
    }
}

/// Framing does not depend on how the output is cut: feeding `a` and then
/// `b` hands out the messages that feeding `a + b` at once does, in order,
/// and leaves the stream broken or not alike; the pending bytes agree too
/// unless the stream broke within `a` (a broken decoder keeps no more input).
pub proof fn law_frames_split_anywhere(state: (Seq<u8>, bool), a: Seq<u8>, b: Seq<u8>)
    ensures
        ({
            let (m1, st1) = feed(state, a);
            let (m2, st2) = feed(st1, b);
            let (m, st) = feed(state, a + b);
            &&& m == m1 + m2
            &&& st.1 == st2.1
            &&& !st1.1 ==> st == st2
        }),
{
    assert(Seq::<Seq<char>>::empty() + Seq::<Seq<char>>::empty() =~= Seq::<Seq<char>>::empty());
    if !state.1 {
        let s = state.0 + a;
        assert(state.0 + (a + b) =~= s + b);
        lemma_messages_extend(s, b, 0);
        let (m1, p1, al1) = scan_messages(s, 0);
        lemma_scan_headers(s, 0, None);
        if al1 {
            lemma_messages_pos(s, 0);
            let r = scan_messages(s + b, p1);
            assert(s.skip(p1) + b =~= (s + b).skip(p1));
            lemma_messages_shift(s + b, p1, 0);
            lemma_messages_pos(s + b, p1);
            assert((s + b).skip(p1).skip(r.1 - p1) =~= (s + b).skip(r.1));
        } else {
            assert(m1 + Seq::<Seq<char>>::empty() =~= m1);
        }
    }
}

/// A reader of a server's `Content-Length` framed output: the bytes that
/// do not yet form a whole message, and whether the stream broke.
pub struct LspFrameDecoder {
    pending: Vec<u8>,
    broken: bool,
}

impl View for LspFrameDecoder {
    type V = (Seq<u8>, bool);

    closed spec fn view(&self) -> (Seq<u8>, bool) {
        (self.pending@, self.broken)
    }
}

fn newline_exec(v: &Vec<u8>, from: usize) -> (r: usize)
    requires
        from <= v.len(),
    ensures
        r == newline_from(v@, from as int),
{
    let mut i = from;
    while i < v.len() && v[i] != 10u8
        invariant
            from <= i <= v.len(),
            newline_from(v@, i as int) == newline_from(v@, from as int),
        decreases v.len() - i,
    {
        i = i + 1;
    }
    i
}

fn slice_of(v: &Vec<u8>, from: usize, to: usize) -> (r: Vec<u8>)
    requires
        from <= to <= v.len(),
    ensures
        r@ == v@.subrange(from as int, to as int),
{
    let mut r: Vec<u8> = Vec::new();
    let mut i = from;
    while i < to
        invariant
            from <= i <= to <= v.len(),
            r@ == v@.subrange(from as int, i as int),
        decreases to - i,
    {
        r.push(v[i]);
        i = i + 1;
        assert(r@ =~= v@.subrange(from as int, i as int));
    }
    r
}

fn declared_length_exec(t: &Vec<char>) -> (r: Option<usize>)
    ensures
        match declared_length(t@) {
            Some(n) => r matches Some(m) && m == n,
            None => r is None,
        },
{
    proof {
        reveal_strlit("Content-Length:");
    }
    if !has_prefix(t, "Content-Length:") {
        return None;
    }
    let rest = copy_range(t, 15, t.len());
    assert(rest@ =~= t@.skip(15));
    match parse_unsigned_exec(&trim_exec(&rest), 10, usize::MAX as u64) {
        Ok(n) => Some(n as usize),
        Err(_) => None,
    }
}

/// [`HeaderScan`] in executable form.
enum HeaderEnd {
    NeedMore,
    Broken,
    Complete(Option<usize>, usize),
}

spec fn header_end_is(r: HeaderEnd, h: HeaderScan) -> bool {
    match h {
        HeaderScan::NeedMore => r is NeedMore,
        HeaderScan::Broken => r is Broken,
        HeaderScan::Complete(len, q) => r matches HeaderEnd::Complete(l, e) && e == q && match len {
            Some(n) => l matches Some(m) && m == n,
            None => l is None,
        },
    }
}

fn scan_headers_exec(s: &Vec<u8>, pos: usize) -> (r: HeaderEnd)
    requires
        pos <= s.len(),
    ensures
        header_end_is(r, scan_headers(s@, pos as int, None)),
{
    let mut at = pos;
    let mut len: Option<usize> = None;
    let ghost mut len_spec: Option<nat> = None;
    loop
        invariant
            pos <= at <= s.len(),
            len_spec == (match len {
                Some(n) => Some(n as nat),
                None => None::<nat>,
            }),
            scan_headers(s@, at as int, len_spec) == scan_headers(s@, pos as int, None),
        decreases s.len() - at,
    {
        if at >= s.len() {
            return HeaderEnd::NeedMore;
        }
        proof {
            lemma_newline_from(s@, at as int);
        }
        let e = newline_exec(s, at);
        if e >= s.len() {
            return HeaderEnd::NeedMore;
        }
        let raw = slice_of(s, at, e + 1);
        let text = match utf8_text(raw.as_slice()) {
            Some(t) => t,
            None => {
                return HeaderEnd::Broken;
            },
        };
        let t = trim_exec(&chars_of(text.as_str()));
        if t.len() == 0 {
            return HeaderEnd::Complete(len, e + 1);
        }
        match declared_length_exec(&t) {
            Some(n) => {
                len = Some(n);
                proof {
                    len_spec = Some(n as nat);
                }
            },
            None => {},
        }
        at = e + 1;
    }
}

impl LspFrameDecoder {
    /// Nothing read yet.
    pub fn new() -> (d: Self)
        ensures
            d@ == (Seq::<u8>::empty(), false),
    {
        LspFrameDecoder { pending: Vec::new(), broken: false }
    }

    /// The stream can no longer be read (a header line was not UTF-8).
    pub fn is_broken(&self) -> (r: bool)
        ensures
            r == self@.1,
    {
        self.broken
    }

    /// Takes the next bytes of the server's output and returns the messages
    /// they complete, in order (see [`scan_messages`]).
    pub fn push(&mut self, bytes: &[u8]) -> (msgs: Vec<String>)
        ensures
            texts(msgs@) == feed(old(self)@, bytes@).0,
            final(self)@ == feed(old(self)@, bytes@).1,
    {
        if self.broken {
            let none: Vec<String> = Vec::new();
            assert(texts(none@) =~= Seq::<Seq<char>>::empty());
            return none;
        }
        let mut all: Vec<u8> = Vec::new();
        std::mem::swap(&mut all, &mut self.pending);
        let mut i: usize = 0;
        let ghost start = all@;
        while i < bytes.len()
            invariant
                i <= bytes.len(),
                all@ == start + bytes@.take(i as int),
            decreases bytes.len() - i,
        {
            all.push(bytes[i]);
            i = i + 1;
            assert(all@ =~= start + bytes@.take(i as int));
        }
        assert(bytes@.take(bytes.len() as int) =~= bytes@);
        let ghost s = all@;
        let mut out: Vec<String> = Vec::new();
        let mut pos: usize = 0;
        let mut alive = true;
        loop
            invariant_except_break
                alive,
            invariant
                pos <= all.len(),
                s == all@,
                ({
                    let (m, p, a) = scan_messages(s, pos as int);
                    let (m0, p0, a0) = scan_messages(s, 0);
                    texts(out@) + m == m0 && p == p0 && a == a0
                }),
            ensures
                ({
                    let (m0, p0, a0) = scan_messages(s, 0);
                    texts(out@) == m0 && pos == p0 && alive == a0
                }),
            decreases all.len() - pos,
        {
            proof {
                lemma_scan_headers(s, pos as int, None);
            }
            let ghost before = texts(out@);
            match scan_headers_exec(&all, pos) {
                HeaderEnd::NeedMore => {
                    assert(texts(out@) =~= texts(out@) + Seq::<Seq<char>>::empty());
                    break;
                },
                HeaderEnd::Broken => {
                    alive = false;
                    assert(texts(out@) =~= texts(out@) + Seq::<Seq<char>>::empty());
                    break;
                },
                HeaderEnd::Complete(len, q) => {
                    match len {
                        None => {
                            pos = q;
                        },
                        Some(n) => {
                            if n > all.len() - q {
                                assert(texts(out@) =~= texts(out@) + Seq::<Seq<char>>::empty());
                                break;
                            }
                            let body = slice_of(&all, q, q + n);
                            out.push(utf8_lossy(body.as_slice()));
                            assert(texts(out@) =~= before.push(lossy_utf8(s.subrange(q as int, (q + n) as int))));
                            pos = q + n;
                        },
                    }
                },
            }
        }
        let rest = slice_of(&all, pos, all.len());
        assert(rest@ =~= s.skip(pos as int));
        self.pending = rest;
        self.broken = !alive;
        out
    }
}

} // verus!
