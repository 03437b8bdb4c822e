//! ELF container facts, the way `readelf` shows them.
//!
//! The container is parsed by the `object` crate; what this module adds, and
//! proves, is everything after the parse: `readelf`'s flag letters and
//! three-column program-header flags, its `Type` names, the build-id as
//! lower-case hex (absent, never invented, when the image has none), the
//! per-segment address translation, and the errors a caller sees.  Nothing
//! is filtered: zero-length sections and zero-size segments are reported like
//! any other.

use vstd::prelude::*;
use object::{Object, ObjectSection, ObjectSegment, ObjectSymbol};
use crate::contract::{ErrorCode, PrincessError};
use crate::scan::{chars_of, string_of, ascii_lower, ascii_lower_exec, equals_str};
use crate::text::{push_str, push_char, push_decimal, spec_decimal, spec_hex_padded, push_hex_padded};

verus! {

broadcast use vstd::string::group_string_axioms;

/// Largest artifact read into memory for a table walk: 512 MiB.
pub const MAX_ARTIFACT_BYTES: u64 = 536870912;

/// ELF header facts (`readelf -h`).
#[derive(Debug, Clone, PartialEq, Eq)]
pub struct ElfHeader {
    /// The artifact's path.
    pub path: String,
    /// `elf64` / `elf32`; another container keeps its own name, lower-cased.
    pub format: String,
    /// `EXEC` / `DYN` / `REL` / `CORE` / `OTHER`.
    pub kind: String,
    /// The architecture as the parser names it (`X86_64`, `Aarch64`, ...).
    pub architecture: String,
    /// `little` / `big`.
    pub endianness: String,
    /// `ELFCLASS64` / `ELFCLASS32`; another container keeps its own name.
    pub class: String,
    /// `e_entry`.
    pub entry_point: u64,
    /// Number of section headers.
    pub section_count: usize,
    /// Number of program headers.
    pub segment_count: usize,
    /// The GNU build-id as lower-case hex; `None` when the image has none.
    pub build_id: Option<String>,
}

/// One program header, as `readelf -l` prints it.
#[derive(Debug, Clone, PartialEq, Eq)]
pub struct SegmentInfo {
    /// `LOAD` / `PHDR` / `GNU_STACK` / ... / `OTHER`.
    pub kind: String,
    /// `p_offset`.
    pub file_offset: u64,
    /// `p_vaddr`.
    pub virtual_address: u64,
    /// `p_filesz`.
    pub file_size: u64,
    /// `p_memsz`; beyond `file_size` lies BSS, with no bytes in the file.
    pub memory_size: u64,
    /// `readelf -l`'s three-character flag field, e.g. `R E`, `RW `.
    pub flags: String,
    /// `p_align`.
    pub alignment: u64,
}

/// One section header, as `readelf -S` prints it.
#[derive(Debug, Clone, PartialEq, Eq)]
pub struct SectionInfo {
    pub name: String,
    pub address: u64,
    pub size: u64,
    /// `readelf`'s flag letters, in its order.
    pub flags: String,
}

/// One symbol of the static table, in link order.
#[derive(Debug, Clone, PartialEq, Eq)]
pub struct SymbolInfo {
    pub name: String,
    pub address: u64,
    pub size: u64,
    /// `FUNC` / `OBJECT` / `SECTION` / `FILE` / `NOTYPE` / `TLS`.
    pub kind: String,
}

/// `p_vaddr + p_filesz`, sticking at `u64::MAX`.
pub open spec fn file_backed_end(s: SegmentInfo) -> int {
    if s.virtual_address + s.file_size > u64::MAX {
        u64::MAX as int
    } else {
        s.virtual_address + s.file_size
    }
}

impl SegmentInfo {
    /// Does this segment carry file bytes at `vaddr`?  False in the BSS tail.
    pub fn has_file_bytes_for_vaddr(&self, vaddr: u64) -> (r: bool)
        ensures
            r == (self.virtual_address <= vaddr && vaddr < file_backed_end(*self)),
    {
        vaddr >= self.virtual_address && vaddr < self.virtual_address.saturating_add(
            self.file_size,
        )
    }

    /// The file offset of `vaddr`, by this segment's own `vaddr - offset`
    /// delta; `None` outside its file-backed range.
    pub fn file_offset_for_vaddr(&self, vaddr: u64) -> (r: Option<u64>)
        requires
            self.file_offset + self.file_size <= u64::MAX,
        ensures
            r == (if self.virtual_address <= vaddr && vaddr < file_backed_end(*self) {
                Some((self.file_offset + (vaddr - self.virtual_address)) as u64)
            } else {
                None
            }),
    {
        if self.has_file_bytes_for_vaddr(vaddr) {
            Some(self.file_offset + (vaddr - self.virtual_address))
        } else {
            None
        }
    }
}

/// A file-backed segment translates its own start to its own `p_offset`,
/// and the first address past `p_filesz` (where BSS begins) has no file
/// bytes: the terms in which [`SegmentInfo::has_file_bytes_for_vaddr`] and
/// [`SegmentInfo::file_offset_for_vaddr`] state their results.
pub proof fn law_segment_start_and_bss_boundary(s: SegmentInfo)
    requires
        s.file_size > 0,
        s.virtual_address + s.file_size <= u64::MAX,
    ensures
        s.virtual_address <= s.virtual_address < file_backed_end(s),
        s.file_offset + (s.virtual_address - s.virtual_address) == s.file_offset,
        !(s.virtual_address + s.file_size < file_backed_end(s)),
{
}

/// `{path} is {size} bytes, above the 536870912-byte in-memory parse limit`.
pub open spec fn too_large_message(path: Seq<char>, size: nat) -> Seq<char> {
    path + " is "@ + spec_decimal(size) + " bytes, above the "@ + spec_decimal(
        MAX_ARTIFACT_BYTES as nat,
    ) + "-byte in-memory parse limit"@
}

/// What a too-large artifact's error carries as its detail.
pub open spec fn too_large_detail() -> Seq<char> {
    "use the hex reader (crate::hex::HexReader) for images this large; it is windowed and never reads the whole file"@
}

/// The size gate before an artifact is read whole: `E_INTERNAL`, naming the
/// size and the limit, above [`MAX_ARTIFACT_BYTES`].
pub fn check_artifact_size(path: &str, size: u64) -> (r: Result<(), PrincessError>)
    ensures
        size <= MAX_ARTIFACT_BYTES ==> r is Ok,
        size > MAX_ARTIFACT_BYTES ==> (r matches Err(e) && e.code == ErrorCode::Internal
            && e.message@ == too_large_message(path@, size as nat)
            && (e.detail matches Some(d) && d@ == too_large_detail())),
{
    if size <= MAX_ARTIFACT_BYTES {
        return Ok(());
    }
    let mut message = String::new();
    push_str(&mut message, path);
    push_str(&mut message, " is ");
    push_decimal(&mut message, size);
    push_str(&mut message, " bytes, above the ");
    push_decimal(&mut message, MAX_ARTIFACT_BYTES);
    push_str(&mut message, "-byte in-memory parse limit");
    let mut detail = String::new();
    push_str(
        &mut detail,
        "use the hex reader (crate::hex::HexReader) for images this large; it is windowed and never reads the whole file",
    );
    assert(message@ =~= too_large_message(path@, size as nat));
    Err(PrincessError::internal(message).with_detail(detail))
}

// ------------------------------------------------------------ rendering ---

/// `c` when `bit` is set in `flags`, else nothing.
pub open spec fn letter_if(flags: u64, bit: u64, c: char) -> Seq<char> {
    if flags & bit != 0 {
        seq![c]
    } else {
        Seq::empty()
    }
}

/// `readelf -S`'s flag letters in its order: `W A X M S I L G T C E`.
pub open spec fn spec_section_flags(f: u64) -> Seq<char> {
    letter_if(f, 0x1, 'W') + letter_if(f, 0x2, 'A') + letter_if(f, 0x4, 'X') + letter_if(f, 0x10, 'M')
        + letter_if(f, 0x20, 'S') + letter_if(f, 0x40, 'I') + letter_if(f, 0x80, 'L')
        + letter_if(f, 0x200, 'G') + letter_if(f, 0x400, 'T') + letter_if(f, 0x800, 'C')
        + letter_if(f, 0x8000_0000, 'E')
}

/// `readelf`'s section-flag letters with the `sh_flags` bit each stands
/// for, in the order `readelf` prints them.
pub open spec fn readelf_section_letters() -> Seq<(u64, char)> {
    seq![
        (0x1u64, 'W'),
        (0x2u64, 'A'),
        (0x4u64, 'X'),
        (0x10u64, 'M'),
        (0x20u64, 'S'),
        (0x40u64, 'I'),
        (0x80u64, 'L'),
        (0x200u64, 'G'),
        (0x400u64, 'T'),
        (0x800u64, 'C'),
        (0x8000_0000u64, 'E'),
    ]
}

/// The letters of the first `n` entries of `table` whose bit is set in `f`,
/// in table order.
pub open spec fn set_letters(f: u64, table: Seq<(u64, char)>, n: int) -> Seq<char>
    decreases n,
{
    if n <= 0 || n > table.len() {
        Seq::empty()
    } else {
        set_letters(f, table, n - 1) + (if f & table[n - 1].0 != 0 {
            seq![table[n - 1].1]
        } else {
            Seq::empty()
        })
    }
}

/// A section's flag field is the letters of its set `sh_flags` bits, in
/// `readelf`'s order: `W` write, `A` alloc, `X` exec, `M` merge, `S`
/// strings, `I` info link, `L` link order, `G` group, `T` TLS, `C`
/// compressed, `E` exclude.
pub proof fn law_section_flags_follow_readelf(f: u64)
    ensures
        spec_section_flags(f) == set_letters(f, readelf_section_letters(), 11),
{
    let t = readelf_section_letters();
    assert(set_letters(f, t, 0) == Seq::<char>::empty());
    assert(set_letters(f, t, 1) =~= letter_if(f, 0x1, 'W'));
    assert(set_letters(f, t, 2) == set_letters(f, t, 1) + letter_if(f, 0x2, 'A'));
    assert(set_letters(f, t, 3) == set_letters(f, t, 2) + letter_if(f, 0x4, 'X'));
    assert(set_letters(f, t, 4) == set_letters(f, t, 3) + letter_if(f, 0x10, 'M'));
    assert(set_letters(f, t, 5) == set_letters(f, t, 4) + letter_if(f, 0x20, 'S'));
    assert(set_letters(f, t, 6) == set_letters(f, t, 5) + letter_if(f, 0x40, 'I'));
    assert(set_letters(f, t, 7) == set_letters(f, t, 6) + letter_if(f, 0x80, 'L'));
    assert(set_letters(f, t, 8) == set_letters(f, t, 7) + letter_if(f, 0x200, 'G'));
    assert(set_letters(f, t, 9) == set_letters(f, t, 8) + letter_if(f, 0x400, 'T'));
    assert(set_letters(f, t, 10) == set_letters(f, t, 9) + letter_if(f, 0x800, 'C'));
    assert(set_letters(f, t, 11) == set_letters(f, t, 10) + letter_if(f, 0x8000_0000, 'E'));
}

fn push_letter_if(out: &mut String, flags: u64, bit: u64, c: char)
    ensures
        final(out)@ == old(out)@ + letter_if(flags, bit, c),
{
    if flags & bit != 0 {
        push_char(out, c);
    } else {
        assert(old(out)@ + letter_if(flags, bit, c) =~= old(out)@);
    }
}

/// The flag letters of an ELF section's `sh_flags`.
pub fn section_flag_letters(sh_flags: u64) -> (r: String)
    ensures
        r@ == spec_section_flags(sh_flags),
{
    let mut out = String::new();
    push_letter_if(&mut out, sh_flags, 0x1, 'W');
    push_letter_if(&mut out, sh_flags, 0x2, 'A');
    push_letter_if(&mut out, sh_flags, 0x4, 'X');
    push_letter_if(&mut out, sh_flags, 0x10, 'M');
    push_letter_if(&mut out, sh_flags, 0x20, 'S');
    push_letter_if(&mut out, sh_flags, 0x40, 'I');
    push_letter_if(&mut out, sh_flags, 0x80, 'L');
    push_letter_if(&mut out, sh_flags, 0x200, 'G');
    push_letter_if(&mut out, sh_flags, 0x400, 'T');
    push_letter_if(&mut out, sh_flags, 0x800, 'C');
    push_letter_if(&mut out, sh_flags, 0x8000_0000, 'E');
    assert(out@ =~= spec_section_flags(sh_flags));
    out
}

/// `readelf -l`'s flag field: `R`, `W`, `E` in three fixed columns.
pub open spec fn spec_segment_flags(p_flags: u32) -> Seq<char> {
    seq![
        if p_flags & 4 != 0 { 'R' } else { ' ' },
        if p_flags & 2 != 0 { 'W' } else { ' ' },
        if p_flags & 1 != 0 { 'E' } else { ' ' },
    ]
}

/// The flag field of a program header's `p_flags`.
pub fn segment_flag_field(p_flags: u32) -> (r: String)
    ensures
        r@ == spec_segment_flags(p_flags),
{
    let mut out = String::new();
    push_char(&mut out, if p_flags & 4 != 0 { 'R' } else { ' ' });
    push_char(&mut out, if p_flags & 2 != 0 { 'W' } else { ' ' });
    push_char(&mut out, if p_flags & 1 != 0 { 'E' } else { ' ' });
    assert(out@ =~= spec_segment_flags(p_flags));
    out
}

/// `readelf -l`'s `Type` column for `p_type`.
pub open spec fn spec_segment_type(p_type: u32) -> Seq<char> {
    if p_type == 1 {
        "LOAD"@
    } else if p_type == 2 {
        "DYNAMIC"@
    } else if p_type == 3 {
        "INTERP"@
    } else if p_type == 4 {
        "NOTE"@
    } else if p_type == 6 {
        "PHDR"@
    } else if p_type == 7 {
        "TLS"@
    } else if p_type == 0x6474_e550 {
        "GNU_EH_FRAME"@
    } else if p_type == 0x6474_e551 {
        "GNU_STACK"@
    } else if p_type == 0x6474_e552 {
        "GNU_RELRO"@
    } else if p_type == 0x6474_e553 {
        "GNU_PROPERTY"@
    } else {
        "OTHER"@
    }
}

/// The `Type` name of a program header.
pub fn segment_type_name(p_type: u32) -> (r: &'static str)
    ensures
        r@ == spec_segment_type(p_type),
{
    if p_type == 1 {
        "LOAD"
    } else if p_type == 2 {
        "DYNAMIC"
    } else if p_type == 3 {
        "INTERP"
    } else if p_type == 4 {
        "NOTE"
    } else if p_type == 6 {
        "PHDR"
    } else if p_type == 7 {
        "TLS"
    } else if p_type == 0x6474_e550 {
        "GNU_EH_FRAME"
    } else if p_type == 0x6474_e551 {
        "GNU_STACK"
    } else if p_type == 0x6474_e552 {
        "GNU_RELRO"
    } else if p_type == 0x6474_e553 {
        "GNU_PROPERTY"
    } else {
        "OTHER"
    }
}

/// `readelf -h`'s `Type:` token for the parser's object kind.
pub open spec fn spec_object_kind(kind: Seq<char>) -> Seq<char> {
    if kind == "Relocatable"@ {
        "REL"@
    } else if kind == "Executable"@ {
        "EXEC"@
    } else if kind == "Dynamic"@ {
        "DYN"@
    } else if kind == "Core"@ {
        "CORE"@
    } else {
        "OTHER"@
    }
}

/// The `Type:` token of an object kind.
pub fn object_kind_name(kind: &str) -> (r: &'static str)
    ensures
        r@ == spec_object_kind(kind@),
{
    let v = chars_of(kind);
    if equals_str(&v, "Relocatable") {
        "REL"
    } else if equals_str(&v, "Executable") {
        "EXEC"
    } else if equals_str(&v, "Dynamic") {
        "DYN"
    } else if equals_str(&v, "Core") {
        "CORE"
    } else {
        "OTHER"
    }
}

/// `readelf -s`'s `Type` for the parser's symbol kind; labels and anything
/// unknown are `NOTYPE`.
pub open spec fn spec_symbol_kind(kind: Seq<char>) -> Seq<char> {
    if kind == "Text"@ {
        "FUNC"@
    } else if kind == "Data"@ {
        "OBJECT"@
    } else if kind == "Section"@ {
        "SECTION"@
    } else if kind == "File"@ {
        "FILE"@
    } else if kind == "Tls"@ {
        "TLS"@
    } else {
        "NOTYPE"@
    }
}

/// `readelf`'s symbol types by the parser's kind names.
pub open spec fn readelf_symbol_types() -> Map<Seq<char>, Seq<char>> {
    map![
        "Text"@ => "FUNC"@,
        "Data"@ => "OBJECT"@,
        "Section"@ => "SECTION"@,
        "File"@ => "FILE"@,
        "Tls"@ => "TLS"@,
    ]
}

/// A symbol's type is `readelf`'s token for its kind (code is `FUNC`, data
/// `OBJECT`, a section `SECTION`, a source file `FILE`, thread-local data
/// `TLS`), and `NOTYPE` for any other kind.
pub proof fn law_symbol_types_follow_readelf(kind: Seq<char>)
    ensures
        spec_symbol_kind(kind) == (if readelf_symbol_types().dom().contains(kind) {
            readelf_symbol_types()[kind]
        } else {
            "NOTYPE"@
        }),
{
    reveal_strlit("Text");
    reveal_strlit("Data");
    reveal_strlit("Section");
    reveal_strlit("File");
    reveal_strlit("Tls");
    reveal_strlit("FUNC");
    reveal_strlit("OBJECT");
    reveal_strlit("SECTION");
    reveal_strlit("FILE");
    reveal_strlit("TLS");
    reveal_strlit("NOTYPE");
    let names = seq!["Text"@, "Data"@, "Section"@, "File"@, "Tls"@];
    assert forall|i: int, j: int| 0 <= i < j < 5 implies #[trigger] names[i] != #[trigger] names[j] by {
        if names[i].len() == names[j].len() {
            assert(names[i][0] != names[j][0]);
        }
    }
    assert("Text"@ != "Data"@ && "Text"@ != "Section"@ && "Text"@ != "File"@ && "Text"@ != "Tls"@) by {
        assert(names[0] != names[1] && names[0] != names[2] && names[0] != names[3] && names[0] != names[4]);
    }
    assert("Data"@ != "Section"@ && "Data"@ != "File"@ && "Data"@ != "Tls"@) by {
        assert(names[1] != names[2] && names[1] != names[3] && names[1] != names[4]);
    }
    assert("Section"@ != "File"@ && "Section"@ != "Tls"@ && "File"@ != "Tls"@) by {
        assert(names[2] != names[3] && names[2] != names[4] && names[3] != names[4]);
    }
    let m = readelf_symbol_types();
    assert(m.dom().contains("Text"@) && m["Text"@] == "FUNC"@);
    assert(m.dom().contains("Data"@) && m["Data"@] == "OBJECT"@);
    assert(m.dom().contains("Section"@) && m["Section"@] == "SECTION"@);
    assert(m.dom().contains("File"@) && m["File"@] == "FILE"@);
    assert(m.dom().contains("Tls"@) && m["Tls"@] == "TLS"@);
    assert(m.dom() =~= set!["Text"@, "Data"@, "Section"@, "File"@, "Tls"@]);
}

/// The three columns of a program header's flag field: `R` exactly when
/// `PF_R` (4) is set, `W` when `PF_W` (2) is, `E` when `PF_X` (1) is, and a
/// blank otherwise.
pub proof fn law_segment_flag_columns(p_flags: u32)
    ensures
        spec_segment_flags(p_flags).len() == 3,
        spec_segment_flags(p_flags)[0] == (if (p_flags / 4) % 2 == 1 { 'R' } else { ' ' }),
        spec_segment_flags(p_flags)[1] == (if (p_flags / 2) % 2 == 1 { 'W' } else { ' ' }),
        spec_segment_flags(p_flags)[2] == (if p_flags % 2 == 1 { 'E' } else { ' ' }),
{
    assert(((p_flags & 4 != 0) == ((p_flags / 4) % 2 == 1)) && ((p_flags & 2 != 0) == ((p_flags / 2)
        % 2 == 1)) && ((p_flags & 1 != 0) == (p_flags % 2 == 1))) by (bit_vector);
}

/// `readelf`'s program-header types by `p_type`.
pub open spec fn readelf_segment_types() -> Map<u32, Seq<char>> {
    map![
        1u32 => "LOAD"@,
        2u32 => "DYNAMIC"@,
        3u32 => "INTERP"@,
        4u32 => "NOTE"@,
        6u32 => "PHDR"@,
        7u32 => "TLS"@,
        0x6474_e550u32 => "GNU_EH_FRAME"@,
        0x6474_e551u32 => "GNU_STACK"@,
        0x6474_e552u32 => "GNU_RELRO"@,
        0x6474_e553u32 => "GNU_PROPERTY"@,
    ]
}

/// A program header's type is `readelf`'s name for its `p_type`, and
/// `OTHER` for any type without one.
pub proof fn law_segment_types_follow_readelf(p_type: u32)
    ensures
        spec_segment_type(p_type) == (if readelf_segment_types().dom().contains(p_type) {
            readelf_segment_types()[p_type]
        } else {
            "OTHER"@
        }),
{
    let m = readelf_segment_types();
    assert(m.dom() =~= set![1u32, 2u32, 3u32, 4u32, 6u32, 7u32, 0x6474_e550u32, 0x6474_e551u32,
        0x6474_e552u32, 0x6474_e553u32]);
}

/// `readelf`'s object types by the parser's kind names.
pub open spec fn readelf_object_types() -> Map<Seq<char>, Seq<char>> {
    map![
        "Relocatable"@ => "REL"@,
        "Executable"@ => "EXEC"@,
        "Dynamic"@ => "DYN"@,
        "Core"@ => "CORE"@,
    ]
}

/// An object's type is `readelf`'s token for its kind (`REL`, `EXEC`,
/// `DYN`, `CORE`), and `OTHER` for any other kind.
pub proof fn law_object_types_follow_readelf(kind: Seq<char>)
    ensures
        spec_object_kind(kind) == (if readelf_object_types().dom().contains(kind) {
            readelf_object_types()[kind]
        } else {
            "OTHER"@
        }),
{
    reveal_strlit("Relocatable");
    reveal_strlit("Executable");
    reveal_strlit("Dynamic");
    reveal_strlit("Core");
    let names = seq!["Relocatable"@, "Executable"@, "Dynamic"@, "Core"@];
    assert forall|i: int, j: int| 0 <= i < j < 4 implies #[trigger] names[i] != #[trigger] names[j] by {
        if names[i].len() == names[j].len() {
            assert(names[i][0] != names[j][0]);
        }
    }
    assert("Relocatable"@ != "Executable"@ && "Relocatable"@ != "Dynamic"@ && "Relocatable"@ != "Core"@
        && "Executable"@ != "Dynamic"@ && "Executable"@ != "Core"@ && "Dynamic"@ != "Core"@) by {
        assert(names[0] != names[1] && names[0] != names[2] && names[0] != names[3] && names[1]
            != names[2] && names[1] != names[3] && names[2] != names[3]);
    }
    let m = readelf_object_types();
    assert(m.dom().contains("Relocatable"@) && m["Relocatable"@] == "REL"@);
    assert(m.dom().contains("Executable"@) && m["Executable"@] == "EXEC"@);
    assert(m.dom().contains("Dynamic"@) && m["Dynamic"@] == "DYN"@);
    assert(m.dom().contains("Core"@) && m["Core"@] == "CORE"@);
    assert(m.dom() =~= set!["Relocatable"@, "Executable"@, "Dynamic"@, "Core"@]);
}

/// The `Type` of a symbol kind.
pub fn symbol_kind_name(kind: &str) -> (r: &'static str)
    ensures
        r@ == spec_symbol_kind(kind@),
{
    let v = chars_of(kind);
    if equals_str(&v, "Text") {
        "FUNC"
    } else if equals_str(&v, "Data") {
        "OBJECT"
    } else if equals_str(&v, "Section") {
        "SECTION"
    } else if equals_str(&v, "File") {
        "FILE"
    } else if equals_str(&v, "Tls") {
        "TLS"
    } else {
        "NOTYPE"
    }
}

/// The bytes as lower-case hex, two digits each.
pub open spec fn hex_bytes(b: Seq<u8>) -> Seq<char>
    decreases b.len(),
{
    if b.len() == 0 {
        Seq::empty()
    } else {
        hex_bytes(b.drop_last()) + spec_hex_padded(b.last() as nat, 2)
    }
}

/// Appends `bytes` as lower-case hex.
pub fn push_hex_bytes(out: &mut String, bytes: &[u8])
    ensures
        final(out)@ == old(out)@ + hex_bytes(bytes@),
{
    let ghost start = out@;
    let mut i: usize = 0;
    while i < bytes.len()
        invariant
            i <= bytes@.len(),
            out@ == start + hex_bytes(bytes@.take(i as int)),
        decreases bytes.len() - i,
    {
        push_hex_padded(out, bytes[i] as u64, 2);
        assert(bytes@.take(i + 1).drop_last() =~= bytes@.take(i as int));
        i = i + 1;
    }
    assert(bytes@.take(bytes.len() as int) =~= bytes@);
}

/// The build-id note's payload as hex: `None` when the image has none, or
/// an empty one; never a substitute.
pub open spec fn spec_build_id(data: Option<Seq<u8>>) -> Option<Seq<char>> {
    match data {
        Some(d) => if d.len() == 0 {
            None
        } else {
            Some(hex_bytes(d))
        },
        None => None,
    }
}

/// Renders a build-id payload (see [`spec_build_id`]).
pub fn build_id_hex(data: Option<Vec<u8>>) -> (r: Option<String>)
    ensures
        r matches Some(s) ==> spec_build_id(match data {
            Some(d) => Some(d@),
            None => None,
        }) == Some(s@),
        r is None ==> spec_build_id(match data {
            Some(d) => Some(d@),
            None => None,
        }) is None,
{
    match data {
        Some(d) => {
            if d.len() == 0 {
                None
            } else {
                let mut out = String::new();
                push_hex_bytes(&mut out, d.as_slice());
                assert(out@ =~= hex_bytes(d@));
                Some(out)
            }
        },
        None => None,
    }
}

// --------------------------------------------------------------- parsing ---

/// Header facts as the `object` parser reports them; the names are those
/// of its enums' variants.
#[derive(Debug, Clone, PartialEq, Eq)]
pub struct HeaderFacts {
    /// The container format (`Elf`, `Pe`, ...).
    pub format: String,
    /// The object kind (`Executable`, `Dynamic`, ...).
    pub kind: String,
    /// The architecture (`X86_64`, ...).
    pub architecture: String,
    /// `Little` / `Big`.
    pub endianness: String,
    pub is_64: bool,
    pub entry: u64,
    pub section_count: usize,
    pub segment_count: usize,
    /// The build-id note's payload; `None` without one (or unreadable).
    pub build_id: Option<Vec<u8>>,
}

/// One section as the parser reports it: its name (or why it could not be
/// read), address, size, and `sh_flags` for an ELF section.
#[derive(Debug, PartialEq, Eq)]
pub struct RawSection {
    pub name: Result<String, String>,
    pub address: u64,
    pub size: u64,
    pub elf_flags: Option<u64>,
}

/// One program header as the parser reports it: `(p_type, p_flags)` for an
/// ELF segment, then `p_offset`, `p_filesz`, `p_vaddr`, `p_memsz`, `p_align`.
#[derive(Debug, Clone, PartialEq, Eq)]
pub struct RawSegment {
    pub elf: Option<(u32, u32)>,
    pub file_offset: u64,
    pub file_size: u64,
    pub address: u64,
    pub size: u64,
    pub align: u64,
}

/// One symbol as the parser reports it; `name` is `None` when unreadable,
/// `kind` the name of the parser's symbol-kind variant.
#[derive(Debug, Clone, PartialEq, Eq)]
pub struct RawSymbol {
    pub name: Option<String>,
    pub address: u64,
    pub size: u64,
    pub kind: String,
}

/// What `object::File::parse` and the file's header accessors give for an
/// image: the facts, or the parse error's text.
pub uninterp spec fn parsed_header(bytes: Seq<u8>) -> Result<HeaderFacts, String>;

/// The sections of an image in file order, or the parse error's text.
pub uninterp spec fn parsed_sections(bytes: Seq<u8>) -> Result<Vec<RawSection>, String>;

/// The program headers of an image in file order, or the parse error's text.
pub uninterp spec fn parsed_segments(bytes: Seq<u8>) -> Result<Vec<RawSegment>, String>;

/// The static symbols of an image in table order, or the parse error's text.
pub uninterp spec fn parsed_symbols(bytes: Seq<u8>) -> Result<Vec<RawSymbol>, String>;

/// `object::File::parse`, then the header accessors: `format`, `kind`,
/// `architecture` and `endianness` by their variants' names, `is_64`,
/// `entry`, the section and segment counts, and `build_id` (a note that
/// cannot be read counting as none).  The contract names the result, a
/// function of the bytes.
#[verifier::external_body]
pub(crate) fn object_header(bytes: &[u8]) -> (r: Result<HeaderFacts, String>)
    ensures
        r == parsed_header(bytes@),
{
    let f = object::File::parse(bytes).map_err(|e| e.to_string())?;
    Ok(HeaderFacts {
        format: format!("{:?}", f.format()),
        kind: format!("{:?}", f.kind()),
        architecture: format!("{:?}", f.architecture()),
        endianness: format!("{:?}", f.endianness()),
        is_64: f.is_64(),
        entry: f.entry(),
        section_count: f.sections().count(),
        segment_count: f.segments().count(),
        build_id: f.build_id().ok().flatten().map(|d| d.to_vec()),
    })
}

/// `object::File::parse`, then each section's `name`, `address`, `size` and
/// ELF `sh_flags`.
#[verifier::external_body]
fn object_sections(bytes: &[u8]) -> (r: Result<Vec<RawSection>, String>)
    ensures
        r == parsed_sections(bytes@),
{
    let f = object::File::parse(bytes).map_err(|e| e.to_string())?;
    Ok(f.sections().map(|s| RawSection {
        name: s.name().map(|n| n.to_string()).map_err(|e| e.to_string()),
        address: s.address(),
        size: s.size(),
        elf_flags: match s.flags() {
            object::SectionFlags::Elf { sh_flags, .. } => Some(sh_flags.0),
            _ => None,
        },
    }).collect())
}

/// `object::File::parse`, then each segment's ELF `p_type` and `p_flags`,
/// `file_range`, `address`, `size` and `align`.
#[verifier::external_body]
fn object_segments(bytes: &[u8]) -> (r: Result<Vec<RawSegment>, String>)
    ensures
        r == parsed_segments(bytes@),
{
    let f = object::File::parse(bytes).map_err(|e| e.to_string())?;
    Ok(f.segments().map(|s| RawSegment {
        elf: match s.flags() {
            object::SegmentFlags::Elf { p_type, p_flags } => Some((p_type.0, p_flags.0)),
            _ => None,
        },
        file_offset: s.file_range().0,
        file_size: s.file_range().1,
        address: s.address(),
        size: s.size(),
        align: s.align(),
    }).collect())
}

/// `object::File::parse`, then each symbol's `name` (if readable),
/// `address`, `size` and `kind` by its variant's name.
#[verifier::external_body]
fn object_symbols(bytes: &[u8]) -> (r: Result<Vec<RawSymbol>, String>)
    ensures
        r == parsed_symbols(bytes@),
{
    let f = object::File::parse(bytes).map_err(|e| e.to_string())?;
    Ok(f.symbols().map(|s| RawSymbol {
        name: s.name().ok().map(|n| n.to_string()),
        address: s.address(),
        size: s.size(),
        kind: format!("{:?}", s.kind()),
    }).collect())
}

// ------------------------------------------------------------- results ---

/// `{path} is not a parseable object file: {err}`, with `err` as detail.
pub open spec fn is_unparseable(e: PrincessError, path: Seq<char>, err: Seq<char>) -> bool {
    &&& e.code == ErrorCode::Internal
    &&& e.message@ == path + " is not a parseable object file: "@ + err
    &&& e.detail matches Some(d) && d@ == err
}

fn copy_text(s: &str) -> (r: String)
    ensures
        r@ == s@,
{
    let mut r = String::new();
    push_str(&mut r, s);
    r
}

/// The error for bytes the parser refused.
pub fn unparseable(path: &str, err: &str) -> (e: PrincessError)
    ensures
        is_unparseable(e, path@, err@),
{
    let mut message = String::new();
    push_str(&mut message, path);
    push_str(&mut message, " is not a parseable object file: ");
    push_str(&mut message, err);
    PrincessError::internal(message).with_detail(copy_text(err))
}

/// `elf64` / `elf32` for an ELF, else the format's name lower-cased.
pub open spec fn spec_format(f: HeaderFacts) -> Seq<char> {
    if f.format@ == "Elf"@ {
        if f.is_64 {
            "elf64"@
        } else {
            "elf32"@
        }
    } else {
        ascii_lower(f.format@)
    }
}

/// `ELFCLASS64` / `ELFCLASS32` for an ELF, else the format's name.
pub open spec fn spec_class(f: HeaderFacts) -> Seq<char> {
    if f.format@ == "Elf"@ {
        if f.is_64 {
            "ELFCLASS64"@
        } else {
            "ELFCLASS32"@
        }
    } else {
        f.format@
    }
}

/// The view of an optional byte buffer.
pub open spec fn bytes_view(b: Option<Vec<u8>>) -> Option<Seq<u8>> {
    match b {
        Some(v) => Some(v@),
        None => None,
    }
}

/// `h` is what `readelf -h` shows for the parsed facts `f` of `path`.
pub open spec fn header_matches(h: ElfHeader, path: Seq<char>, f: HeaderFacts) -> bool {
    &&& h.path@ == path
    &&& h.format@ == spec_format(f)
    &&& h.kind@ == spec_object_kind(f.kind@)
    &&& h.architecture@ == f.architecture@
    &&& h.endianness@ == ascii_lower(f.endianness@)
    &&& h.class@ == spec_class(f)
    &&& h.entry_point == f.entry
    &&& h.section_count == f.section_count
    &&& h.segment_count == f.segment_count
    &&& match (h.build_id, spec_build_id(bytes_view(f.build_id))) {
        (Some(a), Some(b)) => a@ == b,
        (None, None) => true,
        _ => false,
    }
}

/// The header of `path` from what the parser made of it.
pub fn header_from_facts(path: &str, facts: Result<HeaderFacts, String>) -> (r: Result<
    ElfHeader,
    PrincessError,
>)
    ensures
        match facts {
            Ok(f) => r matches Ok(h) && header_matches(h, path@, f),
            Err(e) => r matches Err(x) && is_unparseable(x, path@, e@),
        },
{
    match facts {
        Err(e) => Err(unparseable(path, e.as_str())),
        Ok(f) => {
            let is_elf = equals_str(&chars_of(f.format.as_str()), "Elf");
            let format = if is_elf {
                copy_text(if f.is_64 { "elf64" } else { "elf32" })
            } else {
                string_of(&ascii_lower_exec(&chars_of(f.format.as_str())))
            };
            let class = if is_elf {
                copy_text(if f.is_64 { "ELFCLASS64" } else { "ELFCLASS32" })
            } else {
                copy_text(f.format.as_str())
            };
            let kind = copy_text(object_kind_name(f.kind.as_str()));
            let endianness = string_of(&ascii_lower_exec(&chars_of(f.endianness.as_str())));
            let build_id = build_id_hex(f.build_id);
            Ok(ElfHeader {
                path: copy_text(path),
                format,
                kind,
                architecture: f.architecture,
                endianness,
                class,
                entry_point: f.entry,
                section_count: f.section_count,
                segment_count: f.segment_count,
                build_id,
            })
        },
    }
}

/// Reads the header facts of an image's bytes (see [`header_from_facts`]).
pub fn read_header_from(path: &str, bytes: &[u8]) -> (r: Result<ElfHeader, PrincessError>)
    ensures
        match parsed_header(bytes@) {
            Ok(f) => r matches Ok(h) && header_matches(h, path@, f),
            Err(e) => r matches Err(x) && is_unparseable(x, path@, e@),
        },
{
    header_from_facts(path, object_header(bytes))
}

/// The first section at or after `i` whose name could not be read
/// (`raw.len()` when none).
pub open spec fn first_bad_name(raw: Seq<RawSection>, i: int) -> int
    decreases raw.len() - i,
{
    if i >= raw.len() {
        raw.len() as int
    } else if raw[i].name is Err {
        i
    } else {
        first_bad_name(raw, i + 1)
    }
}

proof fn lemma_first_bad_name(raw: Seq<RawSection>, i: int)
    requires
        0 <= i <= raw.len(),
    ensures
        i <= first_bad_name(raw, i) <= raw.len(),
        first_bad_name(raw, i) < raw.len() ==> raw[first_bad_name(raw, i)].name is Err,
        forall|j: int| i <= j < first_bad_name(raw, i) ==> raw[j].name is Ok,
    decreases raw.len() - i,
{
    if i < raw.len() && raw[i].name is Ok {
        lemma_first_bad_name(raw, i + 1);
    }
}

/// `s` is `readelf -S`'s row for the parsed section `r`.
pub open spec fn section_matches(s: SectionInfo, r: RawSection) -> bool {
    &&& r.name matches Ok(n) && s.name@ == n@
    &&& s.address == r.address
    &&& s.size == r.size
    &&& s.flags@ == match r.elf_flags {
        Some(f) => spec_section_flags(f),
        None => Seq::empty(),
    }
}

/// `{path} has a section with an unreadable name: {err}`, `err` as detail.
pub open spec fn is_bad_section_name(e: PrincessError, path: Seq<char>, err: Seq<char>) -> bool {
    &&& e.code == ErrorCode::Internal
    &&& e.message@ == path + " has a section with an unreadable name: "@ + err
    &&& e.detail matches Some(d) && d@ == err
}

/// The sections of `path` from what the parser made of it: every one, in
/// order, unless a name could not be read (then that is the error: a
/// guessed name would be invented).
pub fn sections_from_facts(path: &str, facts: Result<Vec<RawSection>, String>) -> (r: Result<
    Vec<SectionInfo>,
    PrincessError,
>)
    ensures
        match facts {
            Err(e) => r matches Err(x) && is_unparseable(x, path@, e@),
            Ok(raw) => {
                let b = first_bad_name(raw@, 0);
                if b < raw@.len() {
                    r matches Err(x) && is_bad_section_name(x, path@, raw@[b].name->Err_0@)
                } else {
                    r matches Ok(v) && v@.len() == raw@.len() && forall|i: int|
                        0 <= i < v@.len() ==> section_matches(#[trigger] v@[i], raw@[i])
                }
            },
        },
{
    let raw = match &facts {
        Err(e) => {
            return Err(unparseable(path, e.as_str()));
        },
        Ok(raw) => raw,
    };
    proof {
        lemma_first_bad_name(raw@, 0);
    }
    let mut out: Vec<SectionInfo> = Vec::new();
    let mut i: usize = 0;
    while i < raw.len()
        invariant
            facts == Ok::<Vec<RawSection>, String>(*raw),
            i <= raw@.len(),
            i <= first_bad_name(raw@, 0),
            first_bad_name(raw@, 0) <= raw@.len(),
            first_bad_name(raw@, 0) < raw@.len() ==> raw@[first_bad_name(raw@, 0)].name is Err,
            forall|j: int| 0 <= j < first_bad_name(raw@, 0) ==> raw@[j].name is Ok,
            out@.len() == i,
            forall|j: int| 0 <= j < i ==> section_matches(#[trigger] out@[j], raw@[j]),
        decreases raw.len() - i,
    {
        let s = &raw[i];
        match &s.name {
            Err(e) => {
                let mut message = String::new();
                push_str(&mut message, path);
                push_str(&mut message, " has a section with an unreadable name: ");
                push_str(&mut message, e.as_str());
                assert(message@ =~= path@ + " has a section with an unreadable name: "@ + e@);
                return Err(PrincessError::internal(message).with_detail(copy_text(e.as_str())));
            },
            Ok(n) => {
                let flags = match s.elf_flags {
                    Some(f) => section_flag_letters(f),
                    None => String::new(),
                };
                out.push(SectionInfo { name: copy_text(n.as_str()), address: s.address, size: s.size, flags });
            },
        }
        i = i + 1;
    }
    Ok(out)
}

/// Reads the sections of an image's bytes (see [`sections_from_facts`]).
pub fn read_sections_from(path: &str, bytes: &[u8]) -> (r: Result<Vec<SectionInfo>, PrincessError>)
    ensures
        match parsed_sections(bytes@) {
            Err(e) => r matches Err(x) && is_unparseable(x, path@, e@),
            Ok(raw) => {
                let b = first_bad_name(raw@, 0);
                if b < raw@.len() {
                    r matches Err(x) && is_bad_section_name(x, path@, raw@[b].name->Err_0@)
                } else {
                    r matches Ok(v) && v@.len() == raw@.len() && forall|i: int|
                        0 <= i < v@.len() ==> section_matches(#[trigger] v@[i], raw@[i])
                }
            },
        },
{
    sections_from_facts(path, object_sections(bytes))
}

/// `s` is `readelf -l`'s row for the parsed program header `r`; a non-ELF
/// segment is `OTHER` with blank flags.
pub open spec fn segment_matches(s: SegmentInfo, r: RawSegment) -> bool {
    &&& s.kind@ == match r.elf {
        Some(e) => spec_segment_type(e.0),
        None => "OTHER"@,
    }
    &&& s.flags@ == match r.elf {
        Some(e) => spec_segment_flags(e.1),
        None => "   "@,
    }
    &&& s.file_offset == r.file_offset
    &&& s.virtual_address == r.address
    &&& s.file_size == r.file_size
    &&& s.memory_size == r.size
    &&& s.alignment == r.align
}

/// The program headers from what the parser made of them, every one, in
/// order.
pub fn segments_from_facts(path: &str, facts: Result<Vec<RawSegment>, String>) -> (r: Result<
    Vec<SegmentInfo>,
    PrincessError,
>)
    ensures
        match facts {
            Err(e) => r matches Err(x) && is_unparseable(x, path@, e@),
            Ok(raw) => r matches Ok(v) && v@.len() == raw@.len() && forall|i: int|
                0 <= i < v@.len() ==> segment_matches(#[trigger] v@[i], raw@[i]),
        },
{
    let raw = match facts {
        Err(e) => {
            return Err(unparseable(path, e.as_str()));
        },
        Ok(raw) => raw,
    };
    let mut out: Vec<SegmentInfo> = Vec::new();
    let mut i: usize = 0;
    while i < raw.len()
        invariant
            i <= raw@.len(),
            out@.len() == i,
            forall|j: int| 0 <= j < i ==> segment_matches(#[trigger] out@[j], raw@[j]),
        decreases raw.len() - i,
    {
        let s = &raw[i];
        let (kind, flags) = match s.elf {
            Some(e) => (copy_text(segment_type_name(e.0)), segment_flag_field(e.1)),
            None => (copy_text("OTHER"), copy_text("   ")),
        };
        out.push(SegmentInfo {
            kind,
            file_offset: s.file_offset,
            virtual_address: s.address,
            file_size: s.file_size,
            memory_size: s.size,
            flags,
            alignment: s.align,
        });
        i = i + 1;
    }
    Ok(out)
}

/// Reads the program headers of an image's bytes.
pub fn read_segments_from(path: &str, bytes: &[u8]) -> (r: Result<Vec<SegmentInfo>, PrincessError>)
    ensures
        match parsed_segments(bytes@) {
            Err(e) => r matches Err(x) && is_unparseable(x, path@, e@),
            Ok(raw) => r matches Ok(v) && v@.len() == raw@.len() && forall|i: int|
                0 <= i < v@.len() ==> segment_matches(#[trigger] v@[i], raw@[i]),
        },
{
    segments_from_facts(path, object_segments(bytes))
}

/// `s` is the table row for the parsed symbol `r`: an unreadable name shows
/// as `<unreadable name>`, never as an empty one.
pub open spec fn symbol_matches(s: SymbolInfo, r: RawSymbol) -> bool {
    &&& s.name@ == match r.name {
        Some(n) => n@,
        None => "<unreadable name>"@,
    }
    &&& s.address == r.address
    &&& s.size == r.size
    &&& s.kind@ == spec_symbol_kind(r.kind@)
}

/// The static symbols from what the parser made of them, in link order, none
/// dropped or merged.
pub fn symbols_from_facts(path: &str, facts: Result<Vec<RawSymbol>, String>) -> (r: Result<
    Vec<SymbolInfo>,
    PrincessError,
>)
    ensures
        match facts {
            Err(e) => r matches Err(x) && is_unparseable(x, path@, e@),
            Ok(raw) => r matches Ok(v) && v@.len() == raw@.len() && forall|i: int|
                0 <= i < v@.len() ==> symbol_matches(#[trigger] v@[i], raw@[i]),
        },
{
    let raw = match facts {
        Err(e) => {
            return Err(unparseable(path, e.as_str()));
        },
        Ok(raw) => raw,
    };
    let mut out: Vec<SymbolInfo> = Vec::new();
    let mut i: usize = 0;
    while i < raw.len()
        invariant
            i <= raw@.len(),
            out@.len() == i,
            forall|j: int| 0 <= j < i ==> symbol_matches(#[trigger] out@[j], raw@[j]),
        decreases raw.len() - i,
    {
        let s = &raw[i];
        let name = match &s.name {
            Some(n) => copy_text(n.as_str()),
            None => copy_text("<unreadable name>"),
        };
        out.push(SymbolInfo {
            name,
            address: s.address,
            size: s.size,
            kind: copy_text(symbol_kind_name(s.kind.as_str())),
        });
        i = i + 1;
    }
    Ok(out)
}

/// Reads the static symbols of an image's bytes.
pub fn read_symbols_from(path: &str, bytes: &[u8]) -> (r: Result<Vec<SymbolInfo>, PrincessError>)
    ensures
        match parsed_symbols(bytes@) {
            Err(e) => r matches Err(x) && is_unparseable(x, path@, e@),
            Ok(raw) => r matches Ok(v) && v@.len() == raw@.len() && forall|i: int|
                0 <= i < v@.len() ==> symbol_matches(#[trigger] v@[i], raw@[i]),
        },
{
    symbols_from_facts(path, object_symbols(bytes))
}

} // verus!
