//! Character-level scanning shared by the line-oriented parsers: Unicode
//! whitespace, trimming, whitespace tokenisation, line splitting with byte
//! offsets, and strict hexadecimal / decimal number parsing.
//!
//! Every parser in the crate works on the `char` sequence of its input (the
//! view of a `str`), so the specifications below are stated over `Seq<char>`.

use vstd::prelude::*;
use vstd::utf8::*;
use vstd::string::StrSliceExecFns;
use crate::text::push_char;

verus! {

broadcast use vstd::string::group_string_axioms;

// ------------------------------------------------------------ characters ---

/// Unicode `White_Space`, the set `char::is_whitespace` (and therefore
/// `str::trim` and `str::split_whitespace`) tests against.
pub open spec fn is_ws(c: char) -> bool {
    let u = c as u32;
    ||| 0x09 <= u <= 0x0D
    ||| u == 0x20
    ||| u == 0x85
    ||| u == 0xA0
    ||| u == 0x1680
    ||| 0x2000 <= u <= 0x200A
    ||| u == 0x2028
    ||| u == 0x2029
    ||| u == 0x202F
    ||| u == 0x205F
    ||| u == 0x3000
}

/// `char::is_whitespace`.
pub fn is_ws_exec(c: char) -> (r: bool)
    ensures
        r == is_ws(c),
{
    let u = c as u32;
    (0x09 <= u && u <= 0x0D) || u == 0x20 || u == 0x85 || u == 0xA0 || u == 0x1680 || (0x2000
        <= u && u <= 0x200A) || u == 0x2028 || u == 0x2029 || u == 0x202F || u == 0x205F || u
        == 0x3000
}

/// Number of bytes of the UTF-8 encoding of `c`.
pub open spec fn utf8_width(c: char) -> nat {
    let u = c as u32;
    if u < 0x80 {
        1
    } else if u < 0x800 {
        2
    } else if u < 0x10000 {
        3
    } else {
        4
    }
}

/// Number of bytes of the UTF-8 encoding of `s`.
pub open spec fn utf8_len(s: Seq<char>) -> nat
    decreases s.len(),
{
    if s.len() == 0 {
        0
    } else {
        utf8_width(s[0]) + utf8_len(s.drop_first())
    }
}

/// `utf8_len` counts exactly the bytes that vstd's `encode_utf8` produces.
pub proof fn lemma_utf8_len_is_encoded_len(s: Seq<char>)
    ensures
        utf8_len(s) == encode_utf8(s).len(),
    decreases s.len(),
{
    if s.len() > 0 {
        char_is_scalar(s[0]);
        lemma_utf8_len_is_encoded_len(s.drop_first());
    }
}

/// `utf8_len` is additive over concatenation.
pub proof fn lemma_utf8_len_append(a: Seq<char>, b: Seq<char>)
    ensures
        utf8_len(a + b) == utf8_len(a) + utf8_len(b),
    decreases a.len(),
{
    if a.len() > 0 {
        assert((a + b).drop_first() =~= a.drop_first() + b);
        lemma_utf8_len_append(a.drop_first(), b);
    } else {
        assert(a + b =~= b);
    }
}

/// The UTF-8 byte length of a prefix grows by the width of the next char.
pub proof fn lemma_utf8_len_take_step(s: Seq<char>, i: int)
    requires
        0 <= i < s.len(),
    ensures
        utf8_len(s.take(i + 1)) == utf8_len(s.take(i)) + utf8_width(s[i]),
{
    assert(s.take(i + 1) =~= s.take(i) + seq![s[i]]);
    lemma_utf8_len_append(s.take(i), seq![s[i]]);
    assert(seq![s[i]].drop_first() =~= Seq::<char>::empty());
    assert(utf8_len(seq![s[i]]) == utf8_width(s[i]) + utf8_len(Seq::<char>::empty()));
}

/// A prefix never encodes to more bytes than the whole.
pub proof fn lemma_utf8_len_take_le(s: Seq<char>, i: int)
    requires
        0 <= i <= s.len(),
    ensures
        utf8_len(s.take(i)) <= utf8_len(s),
{
    assert(s =~= s.take(i) + s.skip(i));
    lemma_utf8_len_append(s.take(i), s.skip(i));
}

/// A slice never encodes to more bytes than the whole.
pub proof fn lemma_utf8_len_subrange_le(s: Seq<char>, a: int, b: int)
    requires
        0 <= a <= b <= s.len(),
    ensures
        utf8_len(s.subrange(a, b)) <= utf8_len(s),
{
    assert(s =~= s.take(a) + (s.subrange(a, b) + s.skip(b)));
    lemma_utf8_len_append(s.take(a), s.subrange(a, b) + s.skip(b));
    lemma_utf8_len_append(s.subrange(a, b), s.skip(b));
}

/// Trimming never lengthens the encoding.
pub proof fn lemma_utf8_len_trim_le(s: Seq<char>)
    ensures
        utf8_len(trim(s)) <= utf8_len(s),
{
    lemma_skip_ws(s, 0);
    lemma_rskip_ws(s, s.len() as int);
    let a = skip_ws(s, 0);
    let b = rskip_ws(s, s.len() as int);
    if b > a {
        lemma_utf8_len_subrange_le(s, a, b);
    }
}

pub fn utf8_width_exec(c: char) -> (w: usize)
    ensures
        w == utf8_width(c),
{
    let u = c as u32;
    if u < 0x80 {
        1
    } else if u < 0x800 {
        2
    } else if u < 0x10000 {
        3
    } else {
        4
    }
}

/// The characters of `text`, in order.
pub fn chars_of(text: &str) -> (out: Vec<char>)
    ensures
        out@ == text@,
{
    let mut out: Vec<char> = Vec::new();
    for c in it: text.chars()
        invariant
            out@ == it.seq().take(it.index()),
            it.seq() == text@,
    {
        out.push(c);
    }
    out
}

/// A `String` holding exactly the characters of `v`.
pub fn string_of(v: &Vec<char>) -> (s: String)
    ensures
        s@ == v@,
{
    let mut s = String::new();
    let mut i: usize = 0;
    while i < v.len()
        invariant
            i <= v.len(),
            s@ == v@.take(i as int),
        decreases v.len() - i,
    {
        push_char(&mut s, v[i]);
        i = i + 1;
        assert(s@ =~= v@.take(i as int));
    }
    assert(v@.take(v.len() as int) =~= v@);
    s
}

/// A copy of `v[lo..hi]`.
pub fn copy_range(v: &Vec<char>, lo: usize, hi: usize) -> (out: Vec<char>)
    requires
        lo <= hi <= v.len(),
    ensures
        out@ == v@.subrange(lo as int, hi as int),
{
    let mut out: Vec<char> = Vec::new();
    let mut i = lo;
    while i < hi
        invariant
            lo <= i <= hi <= v.len(),
            out@ == v@.subrange(lo as int, i as int),
        decreases hi - i,
    {
        out.push(v[i]);
        i = i + 1;
        assert(out@ =~= v@.subrange(lo as int, i as int));
    }
    out
}

/// Does `v` start with `prefix`?
pub open spec fn starts_with(v: Seq<char>, prefix: Seq<char>) -> bool {
    prefix.len() <= v.len() && v.take(prefix.len() as int) == prefix
}

/// Does `v` end with `suffix`?
pub open spec fn ends_with(v: Seq<char>, suffix: Seq<char>) -> bool {
    suffix.len() <= v.len() && v.skip(v.len() - suffix.len()) == suffix
}

/// `str::starts_with` on a character vector.
pub fn has_prefix(v: &Vec<char>, prefix: &str) -> (r: bool)
    ensures
        r == starts_with(v@, prefix@),
{
    let p = chars_of(prefix);
    if p.len() > v.len() {
        return false;
    }
    let mut i: usize = 0;
    while i < p.len()
        invariant
            p@ == prefix@,
            p.len() <= v.len(),
            i <= p.len(),
            forall|k: int| 0 <= k < i ==> v@[k] == p@[k],
        decreases p.len() - i,
    {
        if v[i] != p[i] {
            assert(v@.take(p.len() as int)[i as int] != p@[i as int]);
            return false;
        }
        i = i + 1;
    }
    assert(v@.take(p.len() as int) =~= p@);
    true
}

/// `str::ends_with` for a single character.
pub fn ends_with_char(v: &Vec<char>, c: char) -> (r: bool)
    ensures
        r == ends_with(v@, seq![c]),
{
    if v.len() == 0 {
        false
    } else {
        let r = v[v.len() - 1] == c;
        assert(r ==> v@.skip(v.len() - 1) =~= seq![c]);
        assert(v@.skip(v.len() - 1)[0] == v@[v.len() - 1]);
        r
    }
}

/// Does `v` equal the text `lit`?
pub fn equals_str(v: &Vec<char>, lit: &str) -> (r: bool)
    ensures
        r == (v@ == lit@),
{
    let p = chars_of(lit);
    if p.len() != v.len() {
        return false;
    }
    let r = has_prefix(v, lit);
    assert(r ==> v@ =~= v@.take(p.len() as int));
    assert(!r ==> v@.take(v@.len() as int) =~= v@);
    r
}

/// `str::strip_prefix` on a character vector.
pub fn strip_prefix(v: &Vec<char>, prefix: &str) -> (r: Option<Vec<char>>)
    ensures
        match r {
            Some(rest) => starts_with(v@, prefix@) && rest@ == v@.skip(prefix@.len() as int),
            None => !starts_with(v@, prefix@),
        },
{
    if has_prefix(v, prefix) {
        let n = prefix.unicode_len();
        Some(copy_range(v, n, v.len()))
    } else {
        None
    }
}

/// First index of `c` in `s` at or after `i` (or `s.len()`).
pub open spec fn find_char(s: Seq<char>, c: char, i: int) -> int
    decreases s.len() - i,
{
    if i >= s.len() {
        s.len() as int
    } else if s[i] == c {
        i
    } else {
        find_char(s, c, i + 1)
    }
}

pub proof fn lemma_find_char(s: Seq<char>, c: char, i: int)
    requires
        0 <= i <= s.len(),
    ensures
        i <= find_char(s, c, i) <= s.len(),
        find_char(s, c, i) < s.len() ==> s[find_char(s, c, i)] == c,
        forall|k: int| i <= k < find_char(s, c, i) ==> s[k] != c,
    decreases s.len() - i,
{
    if i < s.len() && s[i] != c {
        lemma_find_char(s, c, i + 1);
    }
}

/// Position of the first `c` in `v`, as `str::split_once` finds it.
pub fn find_char_exec(v: &Vec<char>, c: char) -> (r: Option<usize>)
    ensures
        match r {
            Some(k) => k < v.len() && k == find_char(v@, c, 0),
            None => find_char(v@, c, 0) == v.len(),
        },
{
    let mut i: usize = 0;
    while i < v.len()
        invariant
            i <= v.len(),
            find_char(v@, c, i as int) == find_char(v@, c, 0),
        decreases v.len() - i,
    {
        if v[i] == c {
            return Some(i);
        }
        i = i + 1;
    }
    None
}

// ------------------------------------------------------------ trimming ---

/// First index at or after `i` whose character is not whitespace.
pub open spec fn skip_ws(s: Seq<char>, i: int) -> int
    decreases s.len() - i,
{
    if i >= s.len() {
        s.len() as int
    } else if is_ws(s[i]) {
        skip_ws(s, i + 1)
    } else {
        i
    }
}

/// End of `s[..j]` once trailing whitespace is dropped.
pub open spec fn rskip_ws(s: Seq<char>, j: int) -> int
    decreases j,
{
    if j <= 0 {
        0
    } else if is_ws(s[j - 1]) {
        rskip_ws(s, j - 1)
    } else {
        j
    }
}

/// `str::trim`: `s` without leading and trailing Unicode whitespace.
pub open spec fn trim(s: Seq<char>) -> Seq<char> {
    let a = skip_ws(s, 0);
    let b = rskip_ws(s, s.len() as int);
    if b <= a {
        Seq::empty()
    } else {
        s.subrange(a, b)
    }
}

pub proof fn lemma_skip_ws(s: Seq<char>, i: int)
    requires
        0 <= i <= s.len(),
    ensures
        i <= skip_ws(s, i) <= s.len(),
        skip_ws(s, i) < s.len() ==> !is_ws(s[skip_ws(s, i)]),
        forall|k: int| i <= k < skip_ws(s, i) ==> is_ws(s[k]),
    decreases s.len() - i,
{
    if i < s.len() && is_ws(s[i]) {
        lemma_skip_ws(s, i + 1);
    }
}

pub proof fn lemma_rskip_ws(s: Seq<char>, j: int)
    requires
        0 <= j <= s.len(),
    ensures
        0 <= rskip_ws(s, j) <= j,
        rskip_ws(s, j) > 0 ==> !is_ws(s[rskip_ws(s, j) - 1]),
        forall|k: int| rskip_ws(s, j) <= k < j ==> is_ws(s[k]),
    decreases j,
{
    if j > 0 && is_ws(s[j - 1]) {
        lemma_rskip_ws(s, j - 1);
    }
}

/// `str::trim` on a character vector.
pub fn trim_exec(v: &Vec<char>) -> (out: Vec<char>)
    ensures
        out@ == trim(v@),
{
    let mut a: usize = 0;
    while a < v.len() && is_ws_exec(v[a])
        invariant
            a <= v.len(),
            skip_ws(v@, a as int) == skip_ws(v@, 0),
        decreases v.len() - a,
    {
        a = a + 1;
    }
    let mut b: usize = v.len();
    while b > 0 && is_ws_exec(v[b - 1])
        invariant
            b <= v.len(),
            rskip_ws(v@, b as int) == rskip_ws(v@, v.len() as int),
        decreases b,
    {
        b = b - 1;
    }
    if b <= a {
        Vec::new()
    } else {
        copy_range(v, a, b)
    }
}

// ------------------------------------------------------------ tokens ---

/// End of the run of non-whitespace characters starting at `i`.
pub open spec fn word_end(s: Seq<char>, i: int) -> int
    decreases s.len() - i,
{
    if i >= s.len() || is_ws(s[i]) {
        i
    } else {
        word_end(s, i + 1)
    }
}

pub proof fn lemma_word_end(s: Seq<char>, i: int)
    requires
        0 <= i <= s.len(),
    ensures
        i <= word_end(s, i) <= s.len(),
        word_end(s, i) < s.len() ==> is_ws(s[word_end(s, i)]),
        forall|k: int| i <= k < word_end(s, i) ==> !is_ws(s[k]),
    decreases s.len() - i,
{
    if i < s.len() && !is_ws(s[i]) {
        lemma_word_end(s, i + 1);
    }
}

/// The whitespace-separated words of `s[i..]` (`str::split_whitespace`).
pub open spec fn tokens_from(s: Seq<char>, i: int) -> Seq<Seq<char>>
    decreases s.len() - i,
{
    if i < 0 || i >= s.len() {
        Seq::empty()
    } else {
        let a = skip_ws(s, i);
        if a >= s.len() {
            Seq::empty()
        } else {
            let b = word_end(s, a);
            proof {
                lemma_skip_ws(s, i);
                lemma_word_end(s, a);
            }
            if b <= i {
                Seq::empty()
            } else {
                seq![s.subrange(a, b)] + tokens_from(s, b)
            }
        }
    }
}

/// The whitespace-separated words of `s`.
pub open spec fn tokens(s: Seq<char>) -> Seq<Seq<char>> {
    tokens_from(s, 0)
}

/// `str::split_whitespace`, collected.
pub fn tokens_exec(v: &Vec<char>) -> (out: Vec<Vec<char>>)
    ensures
        out.deep_view() == tokens(v@),
{
    let mut out: Vec<Vec<char>> = Vec::new();
    let mut i: usize = 0;
    while i < v.len()
        invariant
            i <= v.len(),
            out.deep_view() + tokens_from(v@, i as int) == tokens(v@),
        decreases v.len() - i,
    {
        let ghost before = out.deep_view();
        let mut a = i;
        while a < v.len() && is_ws_exec(v[a])
            invariant
                i <= a <= v.len(),
                skip_ws(v@, a as int) == skip_ws(v@, i as int),
            decreases v.len() - a,
        {
            a = a + 1;
        }
        proof {
            lemma_skip_ws(v@, i as int);
        }
        if a == v.len() {
            assert(tokens_from(v@, i as int) =~= Seq::<Seq<char>>::empty());
            assert(out.deep_view() + tokens_from(v@, i as int) =~= out.deep_view());
            i = a;
            assert(tokens_from(v@, i as int) =~= Seq::<Seq<char>>::empty());
            assert(out.deep_view() + tokens_from(v@, i as int) =~= out.deep_view());
        } else {
            let mut b = a;
            while b < v.len() && !is_ws_exec(v[b])
                invariant
                    a <= b <= v.len(),
                    word_end(v@, b as int) == word_end(v@, a as int),
                decreases v.len() - b,
            {
                b = b + 1;
            }
            proof {
                lemma_word_end(v@, a as int);
            }
            let word = copy_range(v, a, b);
            let ghost old_out = out@;
            out.push(word);
            assert forall|k: int| 0 <= k < out.len() implies #[trigger] out.deep_view()[k]
                == before.push(v@.subrange(a as int, b as int))[k] by {
                if k < old_out.len() {
                    assert(out@[k] == old_out[k]);
                }
            }
            assert(out.deep_view() =~= before.push(v@.subrange(a as int, b as int)));
            assert(tokens_from(v@, i as int) == seq![v@.subrange(a as int, b as int)]
                + tokens_from(v@, b as int));
            assert(out.deep_view() + tokens_from(v@, b as int) =~= before + tokens_from(
                v@,
                i as int,
            ));
            i = b;
        }
    }
    assert(tokens_from(v@, i as int) =~= Seq::<Seq<char>>::empty());
    assert(out.deep_view() + tokens_from(v@, i as int) =~= out.deep_view());
    out
}

// ------------------------------------------------------------- lines ---

/// End (exclusive) of the line that starts at `i`, its `\n` included.
pub open spec fn line_end(s: Seq<char>, i: int) -> int
    decreases s.len() - i,
{
    if i >= s.len() {
        s.len() as int
    } else if s[i] == '\n' {
        i + 1
    } else {
        line_end(s, i + 1)
    }
}

pub proof fn lemma_line_end(s: Seq<char>, i: int)
    requires
        0 <= i < s.len(),
    ensures
        i < line_end(s, i) <= s.len(),
        forall|k: int| i <= k < line_end(s, i) - 1 ==> s[k] != '\n',
        line_end(s, i) < s.len() ==> s[line_end(s, i) - 1] == '\n',
    decreases s.len() - i,
{
    if s[i] != '\n' {
        if i + 1 < s.len() {
            lemma_line_end(s, i + 1);
        } else {
            assert(line_end(s, i + 1) == s.len());
        }
    }
}

/// The `[start, end)` spans of the lines of `s[i..]`, each `\n`-terminated
/// except possibly the last (`str::split_inclusive('\n')`).
pub open spec fn line_spans(s: Seq<char>, i: int) -> Seq<(int, int)>
    decreases s.len() - i,
{
    if i < 0 || i >= s.len() {
        Seq::empty()
    } else {
        let e = line_end(s, i);
        proof {
            lemma_line_end(s, i);
        }
        if e <= i {
            Seq::empty()
        } else {
            seq![(i, e)] + line_spans(s, e)
        }
    }
}

/// End of `s[lo..j]` once trailing `\n` and `\r` characters are dropped
/// (`trim_end_matches(['\n', '\r'])`).
pub open spec fn rstrip_newline(s: Seq<char>, lo: int, j: int) -> int
    decreases j - lo,
{
    if j <= lo {
        lo
    } else if s[j - 1] == '\n' || s[j - 1] == '\r' {
        rstrip_newline(s, lo, j - 1)
    } else {
        j
    }
}

/// One input line: where it starts, in bytes, and its text without the
/// line terminator.
pub struct TextLine {
    pub offset: nat,
    pub content: Seq<char>,
}

/// The lines of `s`, numbered from 1 by position in the sequence.
pub open spec fn text_lines(s: Seq<char>) -> Seq<TextLine> {
    let spans = line_spans(s, 0);
    Seq::new(
        spans.len(),
        |k: int|
            TextLine {
                offset: utf8_len(s.take(spans[k].0)),
                content: s.subrange(spans[k].0, rstrip_newline(s, spans[k].0, spans[k].1)),
            },
    )
}

/// A line of input, as the parsers consume it.
pub struct Line {
    /// Byte offset of the line's first character in the whole input.
    pub offset: usize,
    /// The line's characters, terminator removed.
    pub chars: Vec<char>,
}

/// Splits `v` into lines with their byte offsets.
pub fn lines_exec(v: &Vec<char>) -> (out: Vec<Line>)
    requires
        utf8_len(v@) <= usize::MAX,
    ensures
        out.len() == text_lines(v@).len(),
        forall|k: int|
            0 <= k < out.len() ==> {
                &&& out[k].offset == text_lines(v@)[k].offset
                &&& out[k].chars@ == text_lines(v@)[k].content
            },
{
    let ghost all = line_spans(v@, 0);
    let mut out: Vec<Line> = Vec::new();
    let mut i: usize = 0;
    let mut offset: usize = 0;
    let ghost mut done: Seq<(int, int)> = Seq::empty();
    while i < v.len()
        invariant
            i <= v.len(),
            utf8_len(v@) <= usize::MAX,
            offset == utf8_len(v@.take(i as int)),
            all == line_spans(v@, 0),
            done + line_spans(v@, i as int) == all,
            out.len() == done.len(),
            forall|k: int|
                0 <= k < out.len() ==> {
                    &&& out[k].offset == utf8_len(v@.take(done[k].0))
                    &&& out[k].chars@ == v@.subrange(
                        done[k].0,
                        rstrip_newline(v@, done[k].0, done[k].1),
                    )
                },
        decreases v.len() - i,
    {
        let start = i;
        let start_offset = offset;
        proof {
            lemma_line_end(v@, i as int);
        }
        let mut e = i;
        loop
            invariant_except_break
                e < v.len(),
                line_end(v@, e as int) == line_end(v@, start as int),
            invariant
                start <= e <= v.len(),
                utf8_len(v@) <= usize::MAX,
                offset == utf8_len(v@.take(e as int)),
            ensures
                start < e <= v.len(),
                e == line_end(v@, start as int),
            decreases v.len() - e,
        {
            proof {
                lemma_utf8_len_take_step(v@, e as int);
                lemma_utf8_len_take_le(v@, e as int + 1);
            }
            let c = v[e];
            proof {
                if c == '\n' {
                    assert(line_end(v@, e as int) == e + 1);
                } else {
                    assert(line_end(v@, e as int) == line_end(v@, e + 1));
                }
            }
            offset = offset + utf8_width_exec(c);
            e = e + 1;
            if c == '\n' || e == v.len() {
                break;
            }
        }
        assert(e == line_end(v@, start as int));
        let mut j = e;
        while j > start && (v[j - 1] == '\n' || v[j - 1] == '\r')
            invariant
                start <= j <= e <= v.len(),
                rstrip_newline(v@, start as int, j as int) == rstrip_newline(
                    v@,
                    start as int,
                    e as int,
                ),
            decreases j - start,
        {
            j = j - 1;
        }
        let chars = copy_range(v, start, j);
        out.push(Line { offset: start_offset, chars });
        proof {
            assert(line_spans(v@, start as int) == seq![(start as int, e as int)] + line_spans(
                v@,
                e as int,
            ));
            done = done.push((start as int, e as int));
            assert(done + line_spans(v@, e as int) =~= all);
        }
        i = e;
    }
    assert(line_spans(v@, i as int) =~= Seq::<(int, int)>::empty());
    assert(done =~= all);
    out
}

// ----------------------------------------------------------- numbers ---

/// An ASCII decimal digit.
pub open spec fn is_dec_char(c: char) -> bool {
    48 <= (c as u32) <= 57
}

/// An ASCII hexadecimal digit, either case.
pub open spec fn is_hex_char(c: char) -> bool {
    let u = c as u32;
    ||| 48 <= u <= 57
    ||| 97 <= u <= 102
    ||| 65 <= u <= 70
}

/// Value of a hexadecimal (hence also decimal) digit.
pub open spec fn digit_value(c: char) -> nat {
    let u = c as u32;
    if 48 <= u <= 57 {
        (u - 48) as nat
    } else if 97 <= u <= 102 {
        (u - 87) as nat
    } else {
        (u - 55) as nat
    }
}

/// Is `c` a digit in base `radix` (10 or 16)?
pub open spec fn is_digit_of(c: char, radix: nat) -> bool {
    if radix == 16 {
        is_hex_char(c)
    } else {
        is_dec_char(c)
    }
}

/// Non-empty and made of ASCII hexadecimal digits only.
pub open spec fn is_hex(s: Seq<char>) -> bool {
    s.len() > 0 && forall|k: int| 0 <= k < s.len() ==> is_hex_char(#[trigger] s[k])
}

/// Why an integer could not be parsed (std's `IntErrorKind` for unsigned
/// targets).
#[derive(Debug, Clone, Copy, PartialEq, Eq)]
pub enum IntErrorKind {
    Empty,
    InvalidDigit,
    PosOverflow,
}

/// Accumulates the digits `d` in base `radix` onto `acc`, failing on the
/// first non-digit or as soon as the value would exceed `max`.
pub open spec fn accumulate_digits(d: Seq<char>, radix: nat, max: nat, acc: nat) -> Result<
    nat,
    IntErrorKind,
>
    decreases d.len(),
{
    if d.len() == 0 {
        Ok(acc)
    } else if !is_digit_of(d[0], radix) {
        Err(IntErrorKind::InvalidDigit)
    } else if acc * radix + digit_value(d[0]) > max {
        Err(IntErrorKind::PosOverflow)
    } else {
        accumulate_digits(d.drop_first(), radix, max, acc * radix + digit_value(d[0]))
    }
}

/// `uN::from_str_radix(t, radix)` for an unsigned type whose maximum is
/// `max`: an optional `+`, then at least one digit.
pub open spec fn parse_unsigned(t: Seq<char>, radix: nat, max: nat) -> Result<nat, IntErrorKind> {
    if t.len() == 0 {
        Err(IntErrorKind::Empty)
    } else if t.len() == 1 && (t[0] == '+' || t[0] == '-') {
        Err(IntErrorKind::InvalidDigit)
    } else if t[0] == '+' {
        accumulate_digits(t.drop_first(), radix, max, 0)
    } else {
        accumulate_digits(t, radix, max, 0)
    }
}

pub proof fn lemma_accumulate_bounded(d: Seq<char>, radix: nat, max: nat, acc: nat)
    requires
        acc <= max,
    ensures
        accumulate_digits(d, radix, max, acc) matches Ok(n) ==> n <= max,
    decreases d.len(),
{
    if d.len() > 0 && is_digit_of(d[0], radix) && acc * radix + digit_value(d[0]) <= max {
        lemma_accumulate_bounded(d.drop_first(), radix, max, acc * radix + digit_value(d[0]));
    }
}

fn digit_value_exec(c: char) -> (r: u64)
    requires
        is_hex_char(c),
    ensures
        r == digit_value(c),
        r < 16,
{
    let u = c as u32;
    if 48 <= u && u <= 57 {
        (u - 48) as u64
    } else if 97 <= u && u <= 102 {
        (u - 87) as u64
    } else {
        (u - 55) as u64
    }
}

/// Strict unsigned parse in base 10 or 16, bounded by `max`.
pub fn parse_unsigned_exec(v: &Vec<char>, radix: u64, max: u64) -> (r: Result<u64, IntErrorKind>)
    requires
        radix == 10 || radix == 16,
    ensures
        match parse_unsigned(v@, radix as nat, max as nat) {
            Ok(n) => r == Ok::<u64, IntErrorKind>(n as u64) && n <= max,
            Err(e) => r == Err::<u64, IntErrorKind>(e),
        },
{
    if v.len() == 0 {
        return Err(IntErrorKind::Empty);
    }
    if v.len() == 1 && (v[0] == '+' || v[0] == '-') {
        return Err(IntErrorKind::InvalidDigit);
    }
    let start: usize = if v[0] == '+' {
        1
    } else {
        0
    };
    let ghost digits = v@.skip(start as int);
    assert(start == 1 ==> digits =~= v@.drop_first());
    assert(start == 0 ==> digits =~= v@);
    let mut acc: u64 = 0;
    let mut i = start;
    while i < v.len()
        invariant
            start <= i <= v.len(),
            radix == 10 || radix == 16,
            acc <= max,
            digits == v@.skip(start as int),
            parse_unsigned(v@, radix as nat, max as nat) == accumulate_digits(
                digits,
                radix as nat,
                max as nat,
                0,
            ),
            accumulate_digits(v@.skip(i as int), radix as nat, max as nat, acc as nat)
                == accumulate_digits(digits, radix as nat, max as nat, 0),
        decreases v.len() - i,
    {
        let c = v[i];
        let ghost rest = v@.skip(i as int);
        assert(rest[0] == c);
        assert(rest.drop_first() =~= v@.skip(i + 1));
        let u = c as u32;
        let ok = if radix == 16 {
            (48 <= u && u <= 57) || (97 <= u && u <= 102) || (65 <= u && u <= 70)
        } else {
            48 <= u && u <= 57
        };
        if !ok {
            return Err(IntErrorKind::InvalidDigit);
        }
        let d = digit_value_exec(c);
        let next: u128 = if radix == 16 {
            (acc as u128) * 16 + (d as u128)
        } else {
            (acc as u128) * 10 + (d as u128)
        };
        assert(next == acc * radix + digit_value(c));
        if next > max as u128 {
            return Err(IntErrorKind::PosOverflow);
        }
        acc = next as u64;
        i = i + 1;
    }
    assert(v@.skip(i as int) =~= Seq::<char>::empty());
    proof {
        lemma_accumulate_bounded(digits, radix as nat, max as nat, 0);
    }
    Ok(acc)
}

/// `is_hex` on a character vector.
pub fn is_hex_exec(v: &Vec<char>) -> (r: bool)
    ensures
        r == is_hex(v@),
{
    if v.len() == 0 {
        return false;
    }
    let mut i: usize = 0;
    while i < v.len()
        invariant
            i <= v.len(),
            forall|k: int| 0 <= k < i ==> is_hex_char(#[trigger] v@[k]),
        decreases v.len() - i,
    {
        let u = v[i] as u32;
        if !((48 <= u && u <= 57) || (97 <= u && u <= 102) || (65 <= u && u <= 70)) {
            return false;
        }
        i = i + 1;
    }
    true
}

/// Bare hexadecimal (no sign, no prefix) that fits in a `u64`.
pub open spec fn hex_u64(s: Seq<char>) -> Option<u64> {
    if is_hex(s) {
        match parse_unsigned(s, 16, u64::MAX as nat) {
            Ok(n) => Some(n as u64),
            Err(_) => None,
        }
    } else {
        None
    }
}

/// Bare hexadecimal that fits in a `u32`.
pub open spec fn hex_u32(s: Seq<char>) -> Option<u32> {
    if is_hex(s) {
        match parse_unsigned(s, 16, u32::MAX as nat) {
            Ok(n) => Some(n as u32),
            Err(_) => None,
        }
    } else {
        None
    }
}

/// `hex_u64` on a character vector.
pub fn hex_u64_exec(v: &Vec<char>) -> (r: Option<u64>)
    ensures
        r == hex_u64(v@),
{
    if is_hex_exec(v) {
        match parse_unsigned_exec(v, 16, u64::MAX) {
            Ok(n) => Some(n),
            Err(_) => None,
        }
    } else {
        None
    }
}

/// `hex_u32` on a character vector.
pub fn hex_u32_exec(v: &Vec<char>) -> (r: Option<u32>)
    ensures
        r == hex_u32(v@),
{
    if is_hex_exec(v) {
        match parse_unsigned_exec(v, 16, u32::MAX as u64) {
            Ok(n) => Some(n as u32),
            Err(_) => None,
        }
    } else {
        None
    }
}

/// `str::parse::<uN>()` succeeding, for a type whose maximum is `max`.
pub open spec fn decimal_value(s: Seq<char>, max: nat) -> Option<nat> {
    match parse_unsigned(s, 10, max) {
        Ok(n) => Some(n),
        Err(_) => None,
    }
}

// ------------------------------------------------------ ascii helpers ---

/// `char::to_ascii_lowercase`.
pub open spec fn lower_char(c: char) -> char {
    if 65 <= (c as u32) <= 90 {
        ((c as u32) + 32) as char
    } else {
        c
    }
}

/// `str::to_ascii_lowercase`.
pub open spec fn ascii_lower(s: Seq<char>) -> Seq<char> {
    Seq::new(s.len(), |i: int| lower_char(s[i]))
}

/// `str::to_ascii_lowercase` on a character vector.
pub fn ascii_lower_exec(v: &Vec<char>) -> (r: Vec<char>)
    ensures
        r@ == ascii_lower(v@),
{
    let mut r: Vec<char> = Vec::new();
    let mut i: usize = 0;
    while i < v.len()
        invariant
            i <= v.len(),
            r@ == ascii_lower(v@).take(i as int),
        decreases v.len() - i,
    {
        let c = v[i];
        let u = c as u32;
        let l = if 65 <= u && u <= 90 {
            let lowered = ((u + 32) as u8) as char;
            assert(lowered == lower_char(c)) by {
                assert(((u + 32) as u8) as u32 == u + 32);
            }
            lowered
        } else {
            c
        };
        r.push(l);
        i = i + 1;
        assert(r@ =~= ascii_lower(v@).take(i as int));
    }
    assert(ascii_lower(v@).take(v.len() as int) =~= ascii_lower(v@));
    r
}

/// First index at or after `i` where `pat` occurs in `s` (or `s.len()`).
pub open spec fn find_seq(s: Seq<char>, pat: Seq<char>, i: int) -> int
    decreases s.len() - i,
{
    if i < 0 || i >= s.len() || i + pat.len() > s.len() {
        s.len() as int
    } else if s.subrange(i, i + pat.len()) == pat {
        i
    } else {
        find_seq(s, pat, i + 1)
    }
}

pub proof fn lemma_find_seq(s: Seq<char>, pat: Seq<char>, i: int)
    requires
        0 <= i,
    ensures
        find_seq(s, pat, i) == s.len() || (i <= find_seq(s, pat, i) && find_seq(s, pat, i)
            + pat.len() <= s.len() && s.subrange(
            find_seq(s, pat, i),
            find_seq(s, pat, i) + pat.len(),
        ) == pat),
        find_seq(s, pat, i) <= s.len(),
    decreases s.len() - i,
{
    if i < s.len() && i + pat.len() <= s.len() && s.subrange(i, i + pat.len()) != pat {
        lemma_find_seq(s, pat, i + 1);
    }
}

/// Does `pat` occur in `s`?
pub open spec fn contains_seq(s: Seq<char>, pat: Seq<char>) -> bool {
    exists|i: int| 0 <= i && i + pat.len() <= s.len() && #[trigger] s.subrange(i, i + pat.len()) == pat
}

pub proof fn lemma_find_seq_none(s: Seq<char>, pat: Seq<char>, i: int)
    requires
        0 <= i,
        find_seq(s, pat, i) == s.len(),
        pat.len() > 0,
    ensures
        forall|j: int| i <= j && j + pat.len() <= s.len() ==> #[trigger] s.subrange(j, j + pat.len()) != pat,
    decreases s.len() - i,
{
    if i < s.len() && i + pat.len() <= s.len() {
        lemma_find_seq_none(s, pat, i + 1);
    }
}

/// Position of the first occurrence of `pat` at or after `from`.
pub fn find_str(v: &Vec<char>, pat: &str, from: usize) -> (r: Option<usize>)
    requires
        from <= v.len(),
    ensures
        match r {
            Some(k) => k == find_seq(v@, pat@, from as int) && k < v.len(),
            None => find_seq(v@, pat@, from as int) == v.len(),
        },
{
    let p = chars_of(pat);
    let mut i = from;
    while i < v.len()
        invariant
            from <= i <= v.len(),
            p@ == pat@,
            find_seq(v@, pat@, i as int) == find_seq(v@, pat@, from as int),
        decreases v.len() - i,
    {
        if p.len() > v.len() - i {
            return None;
        }
        let mut j: usize = 0;
        let mut same = true;
        while j < p.len()
            invariant
                j <= p.len(),
                i + p.len() <= v.len(),
                same == (forall|t: int| 0 <= t < j ==> v@[i + t] == p@[t]),
            decreases p.len() - j,
        {
            if v[i + j] != p[j] {
                same = false;
            }
            j = j + 1;
        }
        if same {
            assert(v@.subrange(i as int, i + p.len()) =~= p@);
            return Some(i);
        } else {
            proof {
                let t = choose|t: int| 0 <= t < p.len() && v@[i + t] != p@[t];
                assert(v@.subrange(i as int, i + p.len())[t] != p@[t]);
            }
        }
        i = i + 1;
    }
    None
}

/// `str::contains` for a pattern.
pub fn contains_str(v: &Vec<char>, pat: &str) -> (r: bool)
    ensures
        r == contains_seq(v@, pat@),
{
    let p = chars_of(pat);
    if p.len() == 0 {
        assert(v@.subrange(0int, 0int + pat@.len()) =~= pat@);
        return true;
    }
    proof {
        lemma_find_seq(v@, pat@, 0);
    }
    match find_str(v, pat, 0) {
        Some(k) => {
            assert(v@.subrange(k as int, k + pat@.len()) == pat@);
            true
        },
        None => {
            proof {
                lemma_find_seq_none(v@, pat@, 0);
            }
            false
        },
    }
}

/// `str::ends_with` for a pattern.
pub fn ends_with_str(v: &Vec<char>, pat: &str) -> (r: bool)
    ensures
        r == ends_with(v@, pat@),
{
    let p = chars_of(pat);
    if p.len() > v.len() {
        return false;
    }
    let off = v.len() - p.len();
    let mut j: usize = 0;
    while j < p.len()
        invariant
            j <= p.len(),
            off + p.len() == v.len(),
            p@ == pat@,
            forall|t: int| 0 <= t < j ==> v@[off + t] == p@[t],
        decreases p.len() - j,
    {
        if v[off + j] != p[j] {
            assert(v@.skip(off as int)[j as int] != p@[j as int]);
            return false;
        }
        j = j + 1;
    }
    assert(v@.skip(off as int) =~= p@);
    true
}

} // verus!
