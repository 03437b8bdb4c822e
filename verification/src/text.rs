//! Text building blocks shared by every module: decimal and hexadecimal
//! rendering with exact specifications, and the one `String` mutation that
//! vstd does not specify.

use vstd::prelude::*;
use vstd::string::StrSliceExecFns;
use vstd::utf8::{valid_utf8, decode_utf8};

verus! {

/// The lower-case hexadecimal digit for `d` (`d < 16`).
pub open spec fn hex_digit(d: nat) -> char {
    if d < 10 {
        (('0' as nat) + d) as char
    } else {
        (('a' as nat) + (d - 10)) as char
    }
}

/// The decimal digit for `d` (`d < 10`).
pub open spec fn dec_digit(d: nat) -> char {
    (('0' as nat) + d) as char
}

/// Shortest lower-case hexadecimal rendering of `n` (no prefix, no padding).
pub open spec fn spec_hex(n: nat) -> Seq<char>
    decreases n,
{
    if n < 16 {
        seq![hex_digit(n)]
    } else {
        spec_hex(n / 16).push(hex_digit(n % 16))
    }
}

/// Shortest decimal rendering of `n`.
pub open spec fn spec_decimal(n: nat) -> Seq<char>
    decreases n,
{
    if n < 10 {
        seq![dec_digit(n)]
    } else {
        spec_decimal(n / 10).push(dec_digit(n % 10))
    }
}

/// `count` copies of `c`.
pub open spec fn repeat_char(c: char, count: nat) -> Seq<char> {
    Seq::new(count, |_i: int| c)
}

/// Hexadecimal rendering of `n`, left-padded with zeros to at least `width`
/// digits (the `{:0width$x}` format).
pub open spec fn spec_hex_padded(n: nat, width: nat) -> Seq<char> {
    let digits = spec_hex(n);
    if digits.len() >= width {
        digits
    } else {
        repeat_char('0', (width - digits.len()) as nat) + digits
    }
}

/// `0x` followed by the shortest hexadecimal rendering (the `{:#x}` format).
pub open spec fn spec_prefixed_hex(n: nat) -> Seq<char> {
    seq!['0', 'x'] + spec_hex(n)
}

/// `0x` followed by the zero-padded rendering whose total width, prefix
/// included, is at least `width` (the `{:#0width$x}` format).
pub open spec fn spec_prefixed_hex_padded(n: nat, width: nat) -> Seq<char> {
    seq!['0', 'x'] + spec_hex_padded(n, if width >= 2 { (width - 2) as nat } else { 0 })
}

/// A byte renders as exactly two zero-padded hexadecimal digits.
pub proof fn lemma_hex_padded_two(n: nat)
    requires
        n < 256,
    ensures
        spec_hex_padded(n, 2).len() == 2,
{
    reveal_with_fuel(spec_hex, 2);
    if n >= 16 {
        assert(n / 16 < 16);
    }
}

/// The hexadecimal digits are `0`-`9` then `a`-`f`, in order.
pub proof fn law_hex_digits(d: nat)
    requires
        d < 16,
    ensures
        hex_digit(d) == "0123456789abcdef"@[d as int],
{
    reveal_strlit("0123456789abcdef");
    assert(('0' as nat) == 48 && ('a' as nat) == 97);
    if d == 0 {} else if d == 1 {} else if d == 2 {} else if d == 3 {} else if d == 4 {} else if d == 5 {}
    else if d == 6 {} else if d == 7 {} else if d == 8 {} else if d == 9 {} else if d == 10 {}
    else if d == 11 {} else if d == 12 {} else if d == 13 {} else if d == 14 {} else {}
}

/// A byte renders in two hex digits: the high nibble, then the low one.
pub proof fn law_byte_in_two_hex_digits(n: nat)
    requires
        n < 256,
    ensures
        spec_hex_padded(n, 2) == seq![hex_digit(n / 16), hex_digit(n % 16)],
{
    reveal_with_fuel(spec_hex, 2);
    if n < 16 {
        assert(spec_hex(n) =~= seq![hex_digit(n)]);
        assert(repeat_char('0', 1) =~= seq!['0']);
        assert(hex_digit(0) == '0');
        assert(n / 16 == 0 && n % 16 == n);
        assert(spec_hex_padded(n, 2) =~= seq![hex_digit(n / 16), hex_digit(n % 16)]);
    } else {
        assert(n / 16 < 16);
        assert(spec_hex(n / 16) =~= seq![hex_digit(n / 16)]);
        assert(spec_hex(n) =~= seq![hex_digit(n / 16), hex_digit(n % 16)]);
    }
}

/// Appends one character (std `String::push`).
#[verifier::external_body]
pub fn push_char(s: &mut String, c: char)
    ensures
        final(s)@ == old(s)@.push(c),
{
    s.push(c);
}

/// Appends `text`.
pub fn push_str(s: &mut String, text: &str)
    ensures
        final(s)@ == old(s)@ + text@,
{
    s.append(text);
}

fn hex_digit_exec(d: u64) -> (c: char)
    requires
        d < 16,
    ensures
        c == hex_digit(d as nat),
{
    if d < 10 {
        ((d as u8) + 48u8) as char
    } else {
        ((d as u8) - 10 + 97u8) as char
    }
}

/// Appends the shortest lower-case hexadecimal rendering of `n`.
pub fn push_hex(out: &mut String, n: u64)
    ensures
        final(out)@ == old(out)@ + spec_hex(n as nat),
    decreases n,
{
    if n >= 16 {
        push_hex(out, n / 16);
    }
    push_char(out, hex_digit_exec(n % 16));
}

/// Appends the shortest decimal rendering of `n`.
pub fn push_decimal(out: &mut String, n: u64)
    ensures
        final(out)@ == old(out)@ + spec_decimal(n as nat),
    decreases n,
{
    if n >= 10 {
        push_decimal(out, n / 10);
    }
    push_char(out, ((n % 10) as u8 + 48u8) as char);
}

/// Appends `n` in hexadecimal, zero-padded to at least `width` digits.
pub fn push_hex_padded(out: &mut String, n: u64, width: usize)
    ensures
        final(out)@ == old(out)@ + spec_hex_padded(n as nat, width as nat),
{
    let mut rendered = String::new();
    push_hex(&mut rendered, n);
    let digits = rendered.as_str().unicode_len();
    let ghost start = out@;
    if digits < width {
        let mut i = digits;
        while i < width
            invariant
                digits <= i <= width,
                out@ == start + repeat_char('0', (i - digits) as nat),
            decreases width - i,
        {
            push_char(out, '0');
            i = i + 1;
            assert(out@ =~= start + repeat_char('0', (i - digits) as nat));
        }
    }
    push_str(out, rendered.as_str());
    assert(out@ =~= start + spec_hex_padded(n as nat, width as nat));
}

/// Decimal rendering of `n`, left-padded with zeros to at least `width`
/// digits (the `{:0width$}` format).
pub open spec fn spec_decimal_padded(n: nat, width: nat) -> Seq<char> {
    let digits = spec_decimal(n);
    if digits.len() >= width {
        digits
    } else {
        repeat_char('0', (width - digits.len()) as nat) + digits
    }
}

/// Appends `n` in decimal, zero-padded to at least `width` digits.
pub fn push_decimal_padded(out: &mut String, n: u64, width: usize)
    ensures
        final(out)@ == old(out)@ + spec_decimal_padded(n as nat, width as nat),
{
    let mut rendered = String::new();
    push_decimal(&mut rendered, n);
    let digits = rendered.as_str().unicode_len();
    let ghost start = out@;
    if digits < width {
        let mut i = digits;
        while i < width
            invariant
                digits <= i <= width,
                out@ == start + repeat_char('0', (i - digits) as nat),
            decreases width - i,
        {
            push_char(out, '0');
            i = i + 1;
            assert(out@ =~= start + repeat_char('0', (i - digits) as nat));
        }
    }
    push_str(out, rendered.as_str());
    assert(out@ =~= start + spec_decimal_padded(n as nat, width as nat));
}

/// `{:#x}`: `0x` and the shortest hexadecimal rendering.
pub fn push_prefixed_hex(out: &mut String, n: u64)
    ensures
        final(out)@ == old(out)@ + spec_prefixed_hex(n as nat),
{
    let ghost start = out@;
    push_char(out, '0');
    push_char(out, 'x');
    push_hex(out, n);
    assert(out@ =~= start + spec_prefixed_hex(n as nat));
}

/// `{:#0width$x}`: `0x` and a zero-padded rendering of total width `width`.
pub fn push_prefixed_hex_padded(out: &mut String, n: u64, width: usize)
    ensures
        final(out)@ == old(out)@ + spec_prefixed_hex_padded(n as nat, width as nat),
{
    let ghost start = out@;
    push_char(out, '0');
    push_char(out, 'x');
    let digits = if width >= 2 { width - 2 } else { 0 };
    push_hex_padded(out, n, digits);
    assert(out@ =~= start + spec_prefixed_hex_padded(n as nat, width as nat));
}

/// `format!("{:?}", s)` for a string: the quoted, escaped rendering std's
/// `Debug` gives it.
pub uninterp spec fn debug_quoted(s: Seq<char>) -> Seq<char>;

/// std's `Debug` rendering of a string (quotes and escapes).
#[verifier::external_body]
pub fn debug_quote(s: &str) -> (r: String)
    ensures
        r@ == debug_quoted(s@),
{
    format!("{s:?}")
}

/// `String::from_utf8_lossy`: the bytes decoded as UTF-8, each invalid
/// sequence replaced by U+FFFD.
pub uninterp spec fn lossy_utf8(b: Seq<u8>) -> Seq<char>;

/// std `String::from_utf8_lossy`; on valid UTF-8 it is plain decoding.
#[verifier::external_body]
pub fn utf8_lossy(bytes: &[u8]) -> (r: String)
    ensures
        r@ == lossy_utf8(bytes@),
        valid_utf8(bytes@) ==> r@ == decode_utf8(bytes@),
{
    String::from_utf8_lossy(bytes).into_owned()
}

/// `std::str::from_utf8`: the text of `bytes` when they are valid UTF-8
/// (the standard's definition, which `valid_utf8` states), else `None`.
#[verifier::external_body]
pub fn utf8_text(bytes: &[u8]) -> (r: Option<String>)
    ensures
        r is Some == valid_utf8(bytes@),
        r is Some ==> r->Some_0@ == decode_utf8(bytes@),
{
    std::str::from_utf8(bytes).ok().map(|s| s.to_string())
}

} // verus!
