//! Source positions from an image's DWARF: the line rows, the point
//! location of an address, and the function around it.
//!
//! The sections are found by `object`, the DWARF is read by `gimli` and
//! `addr2line`; what those crates hand back is named here as a function of
//! the image's bytes.  What this module decides, and proves, is what is made
//! of it: rows without a file or a line are dropped (the DWARF
//! "end of sequence" rows), a location without a file or a line is no
//! location, and the function of an address is the innermost frame that
//! names one, demangled.

use vstd::prelude::*;
use crate::contract::PrincessError;
use crate::demangle::{demangle_name, spec_demangle, rust_demangled, cpp_demangled};
use crate::elf::{object_header, parsed_header, is_unparseable, unparseable};
use crate::source::{LineRow, RowView, SourceLocation, row_views};
use crate::text::push_str;

verus! {

broadcast use vstd::string::group_string_axioms;

#[verifier::external_type_specification]
#[verifier::external_body]
pub struct ExSectionId(gimli::SectionId);

/// A line row as the DWARF reader yields it: start address, file, line,
/// column.
pub type RawLineRow = (u64, Option<String>, Option<u32>, Option<u32>);

/// A point location as the DWARF reader yields it: file, line, column.
pub type RawLocation = (Option<String>, Option<u32>, Option<u32>);

/// The content of an optional string.
pub open spec fn opt_view(o: Option<String>) -> Option<Seq<char>> {
    match o {
        Some(s) => Some(s@),
        None => None,
    }
}

pub open spec fn raw_row_view(r: RawLineRow) -> (u64, Option<Seq<char>>, Option<u32>, Option<u32>) {
    (r.0, opt_view(r.1), r.2, r.3)
}

pub open spec fn raw_rows_view(v: Seq<RawLineRow>) -> Seq<(u64, Option<Seq<char>>, Option<u32>, Option<u32>)> {
    Seq::new(v.len(), |i: int| raw_row_view(v[i]))
}

pub open spec fn raw_location_view(l: RawLocation) -> (Option<Seq<char>>, Option<u32>, Option<u32>) {
    (opt_view(l.0), l.1, l.2)
}

pub open spec fn opt_views(v: Seq<Option<String>>) -> Seq<Option<Seq<char>>> {
    Seq::new(v.len(), |i: int| opt_view(v[i]))
}

/// What `object` gives for the section called `name`: its (uncompressed)
/// data, `None` when the image has no such section, or the error's text.
pub uninterp spec fn object_section_bytes(bytes: Seq<u8>, name: Seq<char>) -> Result<Option<Seq<u8>>, Seq<char>>;

/// Every line row `addr2line` enumerates over the whole address space, in
/// its order, or the error's text.
pub uninterp spec fn dwarf_line_rows(bytes: Seq<u8>, little: bool) -> Result<
    Seq<(u64, Option<Seq<char>>, Option<u32>, Option<u32>)>,
    Seq<char>,
>;

/// The location `addr2line` finds for `address`, or the error's text.
pub uninterp spec fn dwarf_location(bytes: Seq<u8>, little: bool, address: u64) -> Result<
    Option<(Option<Seq<char>>, Option<u32>, Option<u32>)>,
    Seq<char>,
>;

/// The frames `addr2line` finds at `address`, innermost first, each by its
/// function's raw (mangled) name when it names one, or the error's text.
pub uninterp spec fn dwarf_frame_functions(bytes: Seq<u8>, little: bool, address: u64) -> Result<
    Seq<Option<Seq<char>>>,
    Seq<char>,
>;

/// `gimli::SectionId::name`: the section's canonical `.debug_*` name.
#[verifier::external_body]
fn section_name(id: gimli::SectionId) -> (r: &'static str) {
    id.name()
}

/// `object::File::parse`, then `section_by_name` and `uncompressed_data`
/// (which undoes `SHF_COMPRESSED` and `.zdebug_*`).  The contract names the
/// result, a function of the bytes and the name.
#[verifier::external_body]
fn object_section_data(bytes: &[u8], name: &str) -> (r: Result<Option<Vec<u8>>, String>)
    ensures
        match (r, object_section_bytes(bytes@, name@)) {
            (Ok(Some(d)), Ok(Some(e))) => d@ == e,
            (Ok(None), Ok(None)) => true,
            (Err(x), Err(e)) => x@ == e,
            _ => false,
        },
{
    let file = object::File::parse(bytes).map_err(|e| e.to_string())?;
    match object::Object::section_by_name(&file, name) {
        Some(s) => Ok(Some(object::ObjectSection::uncompressed_data(&s).map_err(|e| e.to_string())?.into_owned())),
        None => Ok(None),
    }
}

/// The data `gimli` loads for section `id`: the section's data, nothing for
/// a section the image does not have, or the error.
fn dwarf_section(bytes: &[u8], id: gimli::SectionId) -> (r: Result<Vec<u8>, String>)
    ensures
        match r {
            Ok(d) => d@.len() == 0 || exists|name: Seq<char>| object_section_bytes(bytes@, name) == Ok::<Option<Seq<u8>>, Seq<char>>(Some(d@)),
            Err(x) => exists|name: Seq<char>| object_section_bytes(bytes@, name) == Err::<Option<Seq<u8>>, Seq<char>>(x@),
        },
{
    let name = section_name(id);
    match object_section_data(bytes, name) {
        Ok(Some(d)) => Ok(d),
        Ok(None) => Ok(Vec::new()),
        Err(e) => Err(e),
    }
}

/// `addr2line::Context::from_dwarf` over the sections `gimli` loads (each
/// wrapped as a `gimli::EndianSlice` in the image's byte order), then
/// `find_location_range(0, u64::MAX)`, each row's start, file, line and
/// column.
#[verifier::external_body]
fn read_line_rows(bytes: &[u8], little: bool) -> (r: Result<Vec<RawLineRow>, String>)
    ensures
        match (r, dwarf_line_rows(bytes@, little)) {
            (Ok(v), Ok(w)) => raw_rows_view(v@) == w,
            (Err(x), Err(e)) => x@ == e,
            _ => false,
        },
{
    let endian = if little { gimli::RunTimeEndian::Little } else { gimli::RunTimeEndian::Big };
    let sections = gimli::DwarfSections::load(|id| dwarf_section(bytes, id))?;
    let context = addr2line::Context::from_dwarf(sections.borrow(|s| gimli::EndianSlice::new(s, endian))).map_err(|e| e.to_string())?;
    let mut rows = context.find_location_range(0, u64::MAX).map_err(|e| e.to_string())?;
    let mut out = Vec::new();
    while let Some((start, _, l)) = fallible_iterator::FallibleIterator::next(&mut rows).map_err(|e| e.to_string())? {
        out.push((start, l.file.map(|f| f.to_string()), l.line, l.column));
    }
    Ok(out)
}

/// As [`read_line_rows`], then `find_location(address)`.
#[verifier::external_body]
fn read_location(bytes: &[u8], little: bool, address: u64) -> (r: Result<Option<RawLocation>, String>)
    ensures
        match (r, dwarf_location(bytes@, little, address)) {
            (Ok(Some(l)), Ok(Some(m))) => raw_location_view(l) == m,
            (Ok(None), Ok(None)) => true,
            (Err(x), Err(e)) => x@ == e,
            _ => false,
        },
{
    let endian = if little { gimli::RunTimeEndian::Little } else { gimli::RunTimeEndian::Big };
    let sections = gimli::DwarfSections::load(|id| dwarf_section(bytes, id))?;
    let context = addr2line::Context::from_dwarf(sections.borrow(|s| gimli::EndianSlice::new(s, endian))).map_err(|e| e.to_string())?;
    let found = context.find_location(address).map_err(|e| e.to_string())?;
    Ok(found.map(|l| (l.file.map(|f| f.to_string()), l.line, l.column)))
}

/// As [`read_line_rows`], then `find_frames(address)` with its loads
/// skipped, each frame's function by `raw_name`.
#[verifier::external_body]
fn read_frame_functions(bytes: &[u8], little: bool, address: u64) -> (r: Result<Vec<Option<String>>, String>)
    ensures
        match (r, dwarf_frame_functions(bytes@, little, address)) {
            (Ok(v), Ok(w)) => opt_views(v@) == w,
            (Err(x), Err(e)) => x@ == e,
            _ => false,
        },
{
    let endian = if little { gimli::RunTimeEndian::Little } else { gimli::RunTimeEndian::Big };
    let sections = gimli::DwarfSections::load(|id| dwarf_section(bytes, id))?;
    let context = addr2line::Context::from_dwarf(sections.borrow(|s| gimli::EndianSlice::new(s, endian))).map_err(|e| e.to_string())?;
    let mut frames = context.find_frames(address).skip_all_loads().map_err(|e| e.to_string())?;
    let mut out = Vec::new();
    while let Some(frame) = frames.next().map_err(|e| e.to_string())? {
        out.push(match frame.function { Some(f) => Some(f.raw_name().map_err(|e| e.to_string())?.into_owned()), None => None });
    }
    Ok(out)
}

// ------------------------------------------------------------- decisions ---

/// The rows that name both a file and a line, in order.
pub open spec fn kept_rows(raw: Seq<(u64, Option<Seq<char>>, Option<u32>, Option<u32>)>) -> Seq<RowView>
    decreases raw.len(),
{
    if raw.len() == 0 {
        Seq::empty()
    } else {
        let rest = kept_rows(raw.drop_last());
        let r = raw.last();
        match (r.1, r.2) {
            (Some(file), Some(line)) => rest.push(RowView { start: r.0, file, line, column: r.3 }),
            _ => rest,
        }
    }
}

/// Keeps, in order, the raw rows that have both a file and a line.
pub fn line_rows(raw: Vec<RawLineRow>) -> (rows: Vec<LineRow>)
    ensures
        row_views(rows@) == kept_rows(raw_rows_view(raw@)),
{
    let mut rows: Vec<LineRow> = Vec::new();
    let mut i: usize = 0;
    while i < raw.len()
        invariant
            i <= raw.len(),
            row_views(rows@) == kept_rows(raw_rows_view(raw@.take(i as int))),
        decreases raw.len() - i,
    {
        assert(raw_rows_view(raw@.take(i + 1)).drop_last() =~= raw_rows_view(raw@.take(i as int)));
        let r = &raw[i];
        match (&r.1, r.2) {
            (Some(file), Some(line)) => {
                rows.push(LineRow { start: r.0, file: file.clone(), line, column: r.3 });
                assert(row_views(rows@) =~= kept_rows(raw_rows_view(raw@.take(i as int))).push(
                    RowView { start: r.0, file: file@, line, column: r.3 },
                ));
            },
            _ => {},
        }
        i = i + 1;
    }
    assert(raw@.take(raw.len() as int) =~= raw@);
    rows
}

/// The byte order `object` reports for the image, or the parse error.
pub open spec fn image_is_little(bytes: Seq<u8>) -> Result<bool, Seq<char>> {
    match parsed_header(bytes) {
        Ok(f) => Ok(f.endianness@ == "Little"@),
        Err(e) => Err(e@),
    }
}

fn is_little(path: &str, bytes: &[u8]) -> (r: Result<bool, PrincessError>)
    ensures
        match image_is_little(bytes@) {
            Ok(b) => r == Ok::<bool, PrincessError>(b),
            Err(e) => r matches Err(x) && is_unparseable(x, path@, e),
        },
{
    proof {
        reveal_strlit("Little");
    }
    match object_header(bytes) {
        Ok(f) => Ok(crate::scan::equals_str(&crate::scan::chars_of(f.endianness.as_str()), "Little")),
        Err(e) => Err(unparseable(path, e.as_str())),
    }
}

/// `{what} {path}: {err}`, with `err` as detail.
pub open spec fn is_dwarf_failure(e: PrincessError, what: Seq<char>, path: Seq<char>, err: Seq<char>) -> bool {
    &&& e.code == crate::contract::ErrorCode::Internal
    &&& e.message@ == what + " "@ + path + ": "@ + err
    &&& e.detail matches Some(d) && d@ == err
}

fn dwarf_failure(what: &str, path: &str, err: String) -> (e: PrincessError)
    ensures
        is_dwarf_failure(e, what@, path@, err@),
{
    let mut message = String::new();
    push_str(&mut message, what);
    push_str(&mut message, " ");
    push_str(&mut message, path);
    push_str(&mut message, ": ");
    push_str(&mut message, err.as_str());
    PrincessError::internal(message).with_detail(err)
}

/// The line rows of the image at `path` that name a file and a line, in
/// the order the DWARF reader yields them (see [`kept_rows`]).
pub fn read_rows(path: &str, bytes: &[u8]) -> (r: Result<Vec<LineRow>, PrincessError>)
    ensures
        match image_is_little(bytes@) {
            Err(e) => r matches Err(x) && is_unparseable(x, path@, e),
            Ok(little) => match dwarf_line_rows(bytes@, little) {
                Ok(raw) => r matches Ok(rows) && row_views(rows@) == kept_rows(raw),
                Err(e) => r matches Err(x) && is_dwarf_failure(x, "cannot read DWARF line rows in"@, path@, e),
            },
        },
{
    let little = is_little(path, bytes)?;
    match read_line_rows(bytes, little) {
        Ok(raw) => Ok(line_rows(raw)),
        Err(e) => Err(dwarf_failure("cannot read DWARF line rows in", path, e)),
    }
}

/// What a point lookup reports: `None` unless the row names both a file
/// and a line.
pub open spec fn spec_location(l: Option<(Option<Seq<char>>, Option<u32>, Option<u32>)>) -> Option<(Seq<char>, u32, Option<u32>)> {
    match l {
        Some((Some(file), Some(line), column)) => Some((file, line, column)),
        _ => None,
    }
}

/// The source position of `address`: `Ok(None)` when nothing claims it, or
/// when the row found names no file or no line (a DWARF end-of-sequence
/// row is no position).
pub fn location_for_address(path: &str, bytes: &[u8], address: u64) -> (r: Result<Option<SourceLocation>, PrincessError>)
    ensures
        match image_is_little(bytes@) {
            Err(e) => r matches Err(x) && is_unparseable(x, path@, e),
            Ok(little) => match dwarf_location(bytes@, little, address) {
                Ok(l) => r matches Ok(o) && match spec_location(l) {
                    Some((file, line, column)) => o matches Some(s) && s.file@ == file && s.line == line && s.column == column,
                    None => o is None,
                },
                Err(e) => r matches Err(x) && is_dwarf_failure(x, "DWARF line lookup failed in"@, path@, e),
            },
        },
{
    let little = is_little(path, bytes)?;
    match read_location(bytes, little, address) {
        Ok(Some((Some(file), Some(line), column))) => Ok(Some(SourceLocation { file, line, column })),
        Ok(_) => Ok(None),
        Err(e) => Err(dwarf_failure("DWARF line lookup failed in", path, e)),
    }
}

/// The first frame, innermost first, that names a function.
pub open spec fn first_named(frames: Seq<Option<Seq<char>>>) -> Option<Seq<char>>
    decreases frames.len(),
{
    if frames.len() == 0 {
        None
    } else if frames[0] is Some {
        frames[0]
    } else {
        first_named(frames.skip(1))
    }
}

/// The function around `address`: the innermost frame that names one (on
/// optimised code the inlined body), demangled; `Ok(None)` when no frame
/// names a function.
pub fn function_for_address(path: &str, bytes: &[u8], address: u64) -> (r: Result<Option<String>, PrincessError>)
    ensures
        match image_is_little(bytes@) {
            Err(e) => r matches Err(x) && is_unparseable(x, path@, e),
            Ok(little) => match dwarf_frame_functions(bytes@, little, address) {
                Ok(frames) => r matches Ok(o) && match first_named(frames) {
                    Some(name) => o matches Some(s) && s@ == spec_demangle(name, rust_demangled(name), cpp_demangled(name)),
                    None => o is None,
                },
                Err(e) => r matches Err(x) && is_dwarf_failure(x, "DWARF frame lookup failed in"@, path@, e),
            },
        },
{
    let little = is_little(path, bytes)?;
    let frames = match read_frame_functions(bytes, little, address) {
        Ok(f) => f,
        Err(e) => {
            return Err(dwarf_failure("DWARF frame lookup failed in", path, e));
        },
    };
    let ghost all = opt_views(frames@);
    assert(all.skip(0) =~= all);
    let mut i: usize = 0;
    while i < frames.len()
        invariant
            i <= frames.len(),
            all == opt_views(frames@),
            first_named(all.skip(i as int)) == first_named(all),
            image_is_little(bytes@) == Ok::<bool, Seq<char>>(little),
            dwarf_frame_functions(bytes@, little, address) == Ok::<Seq<Option<Seq<char>>>, Seq<char>>(all),
        decreases frames.len() - i,
    {
        assert(all.skip(i as int).skip(1) =~= all.skip(i + 1));
        assert(all.skip(i as int)[0] == opt_view(frames@[i as int]));
        match &frames[i] {
            Some(name) => {
                return Ok(Some(demangle_name(name.as_str())));
            },
            None => {},
        }
        i = i + 1;
    }
    Ok(None)
}

} // verus!
