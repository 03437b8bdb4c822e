//! Symbol-name demangling for the two schemes a kernel IDE meets: Rust
//! (v0 `_R...` and legacy `_ZN...17h<hash>E`, through `rustc-demangle`) and
//! Itanium C++ (`_Z...`, through `cpp_demangle`).  Dispatch is by prefix,
//! Rust first; a name neither library accepts is returned verbatim, never
//! half-demangled.  Variant suffixes survive demangling; [`group_key`] is
//! what folds them.

use vstd::prelude::*;
use crate::scan::{chars_of, contains_seq, find_seq, find_str, lemma_find_seq, starts_with};
use crate::text::push_str;
use vstd::string::StrSliceExecFns;
use std::fmt::Write;

verus! {

broadcast use vstd::string::group_string_axioms;

/// What `rustc_demangle::try_demangle` makes of a name, rendered in its
/// alternate form (without the disambiguating hash); `None` when it does not
/// accept the name.
pub uninterp spec fn rust_demangled(name: Seq<char>) -> Option<Seq<char>>;

/// What `cpp_demangle` makes of a name with the return type left out;
/// `None` when the name does not parse or cannot be rendered.
pub uninterp spec fn cpp_demangled(name: Seq<char>) -> Option<Seq<char>>;

/// Calls `rustc_demangle::try_demangle` and renders the result with `{:#}`.
/// The contract names the outcome ([`rust_demangled`]) and claims nothing
/// else of it.  A rendering over the crate's size cap is not a failure: the
/// crate writes a `{size limit reached}` marker in its place; only an error
/// from the output itself would make the rendering `None`.
#[verifier::external_body]
fn try_rust_demangle(name: &str) -> (r: Option<String>)
    ensures
        match r {
            Some(s) => rust_demangled(name@) == Some(s@),
            None => rust_demangled(name@) is None,
        },
{
    let demangled = rustc_demangle::try_demangle(name).ok()?;
    let mut out = String::new();
    match write!(out, "{demangled:#}") {
        Ok(()) => Some(out),
        Err(_) => None,
    }
}

/// Calls `cpp_demangle::Symbol::new` and `demangle_with_options` with
/// `DemangleOptions::new().no_return_type()`.  The contract names the
/// outcome ([`cpp_demangled`]) and claims nothing else of it.
#[verifier::external_body]
fn try_cpp_demangle(name: &str) -> (r: Option<String>)
    ensures
        match r {
            Some(s) => cpp_demangled(name@) == Some(s@),
            None => cpp_demangled(name@) is None,
        },
{
    let symbol = cpp_demangle::Symbol::new(name).ok()?;
    let options = cpp_demangle::DemangleOptions::new().no_return_type();
    symbol.demangle_with_options(&options).ok()
}

/// The name to display: empty stays empty; a Rust-shaped name (`_R`, `_ZN`)
/// that `rust` demangles is shown demangled; otherwise an Itanium-shaped
/// name (`_Z`, `__Z`) that `cpp` demangles is; anything else is verbatim.
pub open spec fn spec_demangle(
    name: Seq<char>,
    rust: Option<Seq<char>>,
    cpp: Option<Seq<char>>,
) -> Seq<char> {
    if name.len() == 0 {
        Seq::empty()
    } else if (starts_with(name, "_R"@) || starts_with(name, "_ZN"@)) && rust is Some {
        rust->0
    } else if (starts_with(name, "_Z"@) || starts_with(name, "__Z"@)) && cpp is Some {
        cpp->0
    } else {
        name
    }
}

fn is_rust_shaped(chars: &Vec<char>) -> (r: bool)
    ensures
        r == (starts_with(chars@, "_R"@) || starts_with(chars@, "_ZN"@)),
{
    crate::scan::has_prefix(chars, "_R") || crate::scan::has_prefix(chars, "_ZN")
}

fn is_itanium_shaped(chars: &Vec<char>) -> (r: bool)
    ensures
        r == (starts_with(chars@, "_Z"@) || starts_with(chars@, "__Z"@)),
{
    crate::scan::has_prefix(chars, "_Z") || crate::scan::has_prefix(chars, "__Z")
}

/// Picks the displayed name from the two libraries' answers (see
/// [`spec_demangle`]).
pub fn choose_demangled(name: &str, rust: Option<String>, cpp: Option<String>) -> (r: String)
    ensures
        r@ == spec_demangle(
            name@,
            match rust {
                Some(s) => Some(s@),
                None => None,
            },
            match cpp {
                Some(s) => Some(s@),
                None => None,
            },
        ),
{
    let chars = chars_of(name);
    if chars.len() == 0 {
        return String::new();
    }
    if is_rust_shaped(&chars) {
        match rust {
            Some(s) => {
                return s;
            },
            None => {},
        }
    }
    if is_itanium_shaped(&chars) {
        match cpp {
            Some(s) => {
                return s;
            },
            None => {},
        }
    }
    let mut out = String::new();
    push_str(&mut out, name);
    out
}

/// Demangles `name`, or returns it unchanged when it is not a mangled name
/// either library accepts.  Infallible by design.
pub fn demangle_name(name: &str) -> (r: String)
    ensures
        r@ == spec_demangle(name@, rust_demangled(name@), cpp_demangled(name@)),
{
    let chars = chars_of(name);
    let rust = if chars.len() > 0 && is_rust_shaped(&chars) {
        try_rust_demangle(name)
    } else {
        None
    };
    let cpp = if chars.len() > 0 && (rust.is_none() || !is_rust_shaped(&chars)) && is_itanium_shaped(
        &chars,
    ) {
        try_cpp_demangle(name)
    } else {
        None
    };
    choose_demangled(name, rust, cpp)
}

/// End of the group key: the first `.llvm.` or `.cold`, whichever comes
/// first (or the whole name).
pub open spec fn group_end(name: Seq<char>) -> int {
    let a = find_seq(name, ".llvm."@, 0);
    let b = find_seq(name, ".cold"@, 0);
    if a < b {
        a
    } else {
        b
    }
}

/// The name with its Rust variant suffixes (`.llvm.<hash>`, `.cold`,
/// `.cold.1`) cut off, so variants of one function group together.
pub fn group_key(name: &str) -> (r: &str)
    ensures
        r@ == name@.take(group_end(name@)),
{
    let chars = chars_of(name);
    proof {
        lemma_find_seq(name@, ".llvm."@, 0);
        lemma_find_seq(name@, ".cold"@, 0);
    }
    let a = match find_str(&chars, ".llvm.", 0) {
        Some(k) => k,
        None => chars.len(),
    };
    let b = match find_str(&chars, ".cold", 0) {
        Some(k) => k,
        None => chars.len(),
    };
    let end = if a < b {
        a
    } else {
        b
    };
    name.substring_char(0, end)
}

proof fn lemma_find_seq_first(s: Seq<char>, pat: Seq<char>, i: int)
    requires
        0 <= i,
    ensures
        forall|j: int|
            i <= j < find_seq(s, pat, i) && j + pat.len() <= s.len() ==> #[trigger] s.subrange(
                j,
                j + pat.len(),
            ) != pat,
    decreases s.len() - i,
{
    if i < s.len() && i + pat.len() <= s.len() && s.subrange(i, i + pat.len()) != pat {
        lemma_find_seq_first(s, pat, i + 1);
    }
}

proof fn lemma_find_seq_absent(s: Seq<char>, pat: Seq<char>, i: int)
    requires
        0 <= i,
        !contains_seq(s, pat),
    ensures
        find_seq(s, pat, i) == s.len(),
    decreases s.len() - i,
{
    if i < s.len() && i + pat.len() <= s.len() {
        assert(s.subrange(i, i + pat.len()) != pat);
        lemma_find_seq_absent(s, pat, i + 1);
    }
}

proof fn lemma_prefix_before_first(s: Seq<char>, pat: Seq<char>, e: int)
    requires
        0 <= e <= find_seq(s, pat, 0),
        e <= s.len(),
        pat.len() > 0,
    ensures
        !contains_seq(s.take(e), pat),
{
    lemma_find_seq_first(s, pat, 0);
    if contains_seq(s.take(e), pat) {
        let j = choose|j: int| 0 <= j && j + pat.len() <= s.take(e).len() && #[trigger] s.take(e).subrange(j, j + pat.len()) == pat;
        assert(s.subrange(j, j + pat.len()) =~= s.take(e).subrange(j, j + pat.len()));
        assert(j < find_seq(s, pat, 0));
        assert(s.subrange(j, j + pat.len()) != pat);
    }
}

/// The group key is a prefix of the name, holds no `.llvm.` and no `.cold`,
/// and is its own group key.
pub proof fn law_group_key_is_a_clean_fixed_prefix(name: Seq<char>)
    ensures
        ({
            let k = name.take(group_end(name));
            &&& name.len() >= k.len() && name.subrange(0, k.len() as int) == k
            &&& !contains_seq(k, ".llvm."@)
            &&& !contains_seq(k, ".cold"@)
            &&& k.take(group_end(k)) == k
        }),
{
    lemma_find_seq(name, ".llvm."@, 0);
    lemma_find_seq(name, ".cold"@, 0);
    let e = group_end(name);
    let k = name.take(e);
    reveal_strlit(".llvm.");
    reveal_strlit(".cold");
    lemma_prefix_before_first(name, ".llvm."@, e);
    lemma_prefix_before_first(name, ".cold"@, e);
    lemma_find_seq_absent(k, ".llvm."@, 0);
    lemma_find_seq_absent(k, ".cold"@, 0);
    assert(k.take(k.len() as int) =~= k);
    assert(name.subrange(0, k.len() as int) =~= k);
}

} // verus!
