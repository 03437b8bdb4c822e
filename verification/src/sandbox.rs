//! The confinement rules of the editor's file I/O.
//!
//! Every path the editor reads or writes is resolved against the project
//! root, and anything that escapes it is refused with `E_SANDBOX_DENIED`
//! instead of being touched.  A `..` segment is refused before the file
//! system is consulted (it is the one segment that can climb out of a root
//! reached through a symlink); what the file system resolves (symlinks
//! included) must then still lie under the root.  Paths are POSIX paths:
//! `/` separates segments and empty segments (`a//b`, a trailing `/`) do not
//! count.

use vstd::prelude::*;
use crate::contract::{ErrorCode, IpcFailure};
use crate::scan::{chars_of, trim, trim_exec};
use crate::text::{push_str, push_decimal, spec_decimal};

verus! {

broadcast use vstd::string::group_string_axioms;

/// Most bytes the editor pulls in at once.
pub const MAX_READ_BYTES: u64 = 8388608;

/// The non-empty `/`-separated segments of `p[i..]`, `cur` being the
/// segment in progress.
pub open spec fn segments_from(p: Seq<char>, i: int, cur: Seq<char>) -> Seq<Seq<char>>
    decreases p.len() - i,
{
    if i < 0 || i >= p.len() {
        if cur.len() > 0 {
            seq![cur]
        } else {
            Seq::empty()
        }
    } else if p[i] == '/' {
        (if cur.len() > 0 {
            seq![cur]
        } else {
            Seq::empty()
        }) + segments_from(p, i + 1, Seq::empty())
    } else {
        segments_from(p, i + 1, cur.push(p[i]))
    }
}

/// The non-empty segments of a path.
pub open spec fn segments(p: Seq<char>) -> Seq<Seq<char>> {
    segments_from(p, 0, Seq::empty())
}

/// The path starts at the root directory.
pub open spec fn is_absolute(p: Seq<char>) -> bool {
    p.len() > 0 && p[0] == '/'
}

/// One of the segments is `..`.
pub open spec fn climbs(p: Seq<char>) -> bool {
    exists|k: int| 0 <= k < segments(p).len() && #[trigger] segments(p)[k] == ".."@
}

/// `root.join(path)`: an absolute path replaces the root, a relative one is
/// appended after a `/` (none is added when the root already ends in one).
pub open spec fn spec_join(root: Seq<char>, path: Seq<char>) -> Seq<char> {
    if is_absolute(path) {
        path
    } else if root.len() > 0 && root.last() == '/' {
        root + path
    } else {
        root + "/"@ + path
    }
}

/// `resolved` lies at or under `root`: both absolute or both relative, and the
/// segments of `root` begin the segments of `resolved` (`Path::starts_with` on
/// paths without `.` segments, which is what canonical paths are).
pub open spec fn spec_within(resolved: Seq<char>, root: Seq<char>) -> bool {
    &&& is_absolute(resolved) == is_absolute(root)
    &&& segments(root).len() <= segments(resolved).len()
    &&& segments(resolved).take(segments(root).len() as int) == segments(root)
}

/// The refusal for a path that leaves the root.
pub open spec fn spec_denied(path: Seq<char>, root: Seq<char>) -> (ErrorCode, Seq<char>, Seq<char>) {
    (
        ErrorCode::SandboxDenied,
        "path escapes the project root: "@ + path,
        "resolved against "@ + root
            + ".  Pick a file inside the opened project, or open that project first."@,
    )
}

fn text_from(s: &str) -> (r: String)
    ensures
        r@ == s@,
{
    let mut r = String::new();
    push_str(&mut r, s);
    r
}

/// Builds the refusal for a path that leaves the root.
pub fn denied(path: &str, root: &str) -> (f: IpcFailure)
    ensures
        (f.code, f.message@, f.detail@) == spec_denied(path@, root@),
{
    let mut message = text_from("path escapes the project root: ");
    push_str(&mut message, path);
    let mut detail = text_from("resolved against ");
    push_str(&mut detail, root);
    push_str(&mut detail, ".  Pick a file inside the opened project, or open that project first.");
    IpcFailure::new(ErrorCode::SandboxDenied, message, detail)
}

/// The segments of a path, computed.
pub fn path_segments(p: &str) -> (r: Vec<Vec<char>>)
    ensures
        r.deep_view() == segments(p@),
{
    let chars = chars_of(p);
    let mut out: Vec<Vec<char>> = Vec::new();
    let mut cur: Vec<char> = Vec::new();
    let mut i: usize = 0;
    while i < chars.len()
        invariant
            i <= chars.len(),
            chars@ == p@,
            out.deep_view() + segments_from(p@, i as int, cur@) == segments(p@),
        decreases chars.len() - i,
    {
        let ghost before = out.deep_view();
        if chars[i] == '/' {
            if cur.len() > 0 {
                let ghost old_out = out@;
                let ghost seg = cur@;
                let mut done: Vec<char> = Vec::new();
                std::mem::swap(&mut done, &mut cur);
                out.push(done);
                assert forall|k: int| 0 <= k < out.len() implies #[trigger] out.deep_view()[k]
                    == before.push(seg)[k] by {
                    if k < old_out.len() {
                        assert(out@[k] == old_out[k]);
                    }
                }
                assert(out.deep_view() =~= before.push(seg));
                assert(out.deep_view() + segments_from(p@, i + 1, cur@) =~= before + (seq![seg]
                    + segments_from(p@, i + 1, Seq::empty())));
            } else {
                assert(cur@ =~= Seq::<char>::empty());
                assert(segments_from(p@, i as int, cur@) =~= Seq::<Seq<char>>::empty()
                    + segments_from(p@, i + 1, Seq::empty()));
            }
        } else {
            cur.push(chars[i]);
        }
        i = i + 1;
    }
    if cur.len() > 0 {
        let ghost before = out.deep_view();
        let ghost old_out = out@;
        let ghost seg = cur@;
        out.push(cur);
        assert forall|k: int| 0 <= k < out.len() implies #[trigger] out.deep_view()[k]
            == before.push(seg)[k] by {
            if k < old_out.len() {
                assert(out@[k] == old_out[k]);
            }
        }
        assert(out.deep_view() =~= before.push(seg));
    } else {
        assert(out.deep_view() =~= out.deep_view() + Seq::<Seq<char>>::empty());
    }
    out
}

fn is_dot_dot(v: &Vec<char>) -> (r: bool)
    ensures
        r == (v@ == ".."@),
{
    proof {
        reveal_strlit("..");
        assert(".."@ =~= seq!['.', '.']);
    }
    if v.len() == 2 && v[0] == '.' && v[1] == '.' {
        assert(v@ =~= seq!['.', '.']);
        true
    } else {
        false
    }
}

/// Resolves `path` against `root` for the editor: a blank path is an
/// `E_INVALID_CONFIG` failure, a path with a `..` segment is refused
/// before anything is read, and otherwise the joined path is returned.
pub fn join_checked(root: &str, path: &str) -> (r: Result<String, IpcFailure>)
    ensures
        trim(path@).len() == 0 ==> (r matches Err(f) && f.code == ErrorCode::InvalidConfig
            && f.message@ == "path is required"@ && f.detail@ == "received an empty path"@),
        trim(path@).len() > 0 && climbs(spec_join(root@, path@)) ==> (r matches Err(f) && (
        f.code, f.message@, f.detail@) == spec_denied(path@, root@)),
        trim(path@).len() > 0 && !climbs(spec_join(root@, path@)) ==> (r matches Ok(c) && c@
            == spec_join(root@, path@)),
{
    if trim_exec(&chars_of(path)).len() == 0 {
        return Err(
            IpcFailure::new(
                ErrorCode::InvalidConfig,
                text_from("path is required"),
                text_from("received an empty path"),
            ),
        );
    }
    let path_chars = chars_of(path);
    let root_chars = chars_of(root);
    let candidate = if path_chars.len() > 0 && path_chars[0] == '/' {
        text_from(path)
    } else if root_chars.len() > 0 && root_chars[root_chars.len() - 1] == '/' {
        let mut c = text_from(root);
        push_str(&mut c, path);
        c
    } else {
        let mut c = text_from(root);
        push_str(&mut c, "/");
        push_str(&mut c, path);
        c
    };
    assert(candidate@ == spec_join(root@, path@));
    let segs = path_segments(candidate.as_str());
    let ghost sv = segs.deep_view();
    let mut k: usize = 0;
    while k < segs.len()
        invariant
            k <= segs.len(),
            sv == segs.deep_view(),
            sv == segments(candidate@),
            candidate@ == spec_join(root@, path@),
            trim(path@).len() > 0,
            forall|j: int| 0 <= j < k ==> #[trigger] sv[j] != ".."@,
        decreases segs.len() - k,
    {
        assert(segs@[k as int]@ == sv[k as int]);
        if is_dot_dot(&segs[k]) {
            return Err(denied(path, root));
        }
        k = k + 1;
    }
    Ok(candidate)
}

fn same_chars(a: &Vec<char>, b: &Vec<char>) -> (r: bool)
    ensures
        r == (a@ == b@),
{
    if a.len() != b.len() {
        return false;
    }
    let mut i: usize = 0;
    while i < a.len()
        invariant
            i <= a.len(),
            a.len() == b.len(),
            forall|j: int| 0 <= j < i ==> a@[j] == b@[j],
        decreases a.len() - i,
    {
        if a[i] != b[i] {
            return false;
        }
        i = i + 1;
    }
    assert(a@ =~= b@);
    true
}

/// Does the resolved path `resolved` stay at or under `root` (see
/// [`spec_within`])?
pub fn within_root(resolved: &str, root: &str) -> (r: bool)
    ensures
        r == spec_within(resolved@, root@),
{
    let real_chars = chars_of(resolved);
    let root_chars = chars_of(root);
    let real_abs = real_chars.len() > 0 && real_chars[0] == '/';
    let root_abs = root_chars.len() > 0 && root_chars[0] == '/';
    if real_abs != root_abs {
        return false;
    }
    let a = path_segments(resolved);
    let b = path_segments(root);
    let ghost av = a.deep_view();
    let ghost bv = b.deep_view();
    assert(av == segments(resolved@) && bv == segments(root@));
    if b.len() > a.len() {
        return false;
    }
    let mut k: usize = 0;
    while k < b.len()
        invariant
            k <= b.len() <= a.len(),
            av == a.deep_view(),
            bv == b.deep_view(),
            av == segments(resolved@),
            bv == segments(root@),
            forall|j: int| 0 <= j < k ==> av[j] == bv[j],
        decreases b.len() - k,
    {
        assert(a@[k as int]@ == av[k as int]);
        assert(b@[k as int]@ == bv[k as int]);
        if !same_chars(&a[k], &b[k]) {
            assert(av.take(bv.len() as int)[k as int] != bv[k as int]);
            return false;
        }
        k = k + 1;
    }
    assert(av.take(bv.len() as int) =~= bv);
    true
}

/// A file larger than [`MAX_READ_BYTES`] is shown truncated.
pub fn is_truncated(len: u64) -> (r: bool)
    ensures
        r == (len > MAX_READ_BYTES),
{
    len > MAX_READ_BYTES
}

/// The sibling a write goes to before it is renamed over the target:
/// `.<name>.princesside-<pid>.tmp`.
pub fn temp_name(name: &str, pid: u32) -> (r: String)
    ensures
        r@ == "."@ + name@ + ".princesside-"@ + spec_decimal(pid as nat) + ".tmp"@,
{
    let mut r = text_from(".");
    push_str(&mut r, name);
    push_str(&mut r, ".princesside-");
    push_decimal(&mut r, pid as u64);
    push_str(&mut r, ".tmp");
    r
}

} // verus!
