//! Address ↔ source-line intervals, the form the side-by-side disassembly
//! view needs.
//!
//! The line rows a DWARF line program yields are start addresses; this
//! module turns them into half-open address intervals `[start, end)`, each
//! ending where the next row starts, and coalesces adjacent rows that name
//! the same line, so a view sees one entry per source line.  The rows of
//! several compilation units are not globally ordered, so they are sorted
//! first (stably, by start address).

use vstd::prelude::*;
use crate::text::push_str;

verus! {

broadcast use vstd::string::group_string_axioms;

/// One DWARF line row: where it starts and the source position it names.
#[derive(Debug, Clone, PartialEq, Eq)]
pub struct LineRow {
    pub start: u64,
    pub file: String,
    pub line: u32,
    pub column: Option<u32>,
}

/// Half-open address interval `[start, end)` belonging to one source line.
#[derive(Debug, Clone, PartialEq, Eq)]
pub struct LineRange {
    /// First address (inclusive) attributed to the line.
    pub start: u64,
    /// One past the last address attributed to the line.
    pub end: u64,
    /// Source path as DWARF records it.
    pub file: String,
    /// 1-based line number.
    pub line: u32,
    /// 1-based column, when the line program records one.
    pub column: Option<u32>,
    /// Innermost inlined function covering the range, when known.
    pub inlined_into: Option<String>,
}

/// A point source position: file, line and column.
#[derive(Debug, Clone, PartialEq, Eq)]
pub struct SourceLocation {
    pub file: String,
    pub line: u32,
    pub column: Option<u32>,
}

/// The content of a row.
pub struct RowView {
    pub start: u64,
    pub file: Seq<char>,
    pub line: u32,
    pub column: Option<u32>,
}

/// The content of a range.
pub struct RangeView {
    pub start: u64,
    pub end: u64,
    pub file: Seq<char>,
    pub line: u32,
    pub column: Option<u32>,
    pub inlined_into: Option<Seq<char>>,
}

impl View for LineRow {
    type V = RowView;

    open spec fn view(&self) -> RowView {
        RowView { start: self.start, file: self.file@, line: self.line, column: self.column }
    }
}

impl View for LineRange {
    type V = RangeView;

    open spec fn view(&self) -> RangeView {
        RangeView {
            start: self.start,
            end: self.end,
            file: self.file@,
            line: self.line,
            column: self.column,
            inlined_into: match self.inlined_into {
                Some(s) => Some(s@),
                None => None,
            },
        }
    }
}

/// The contents of a list of rows.
pub open spec fn row_views(v: Seq<LineRow>) -> Seq<RowView> {
    Seq::new(v.len(), |i: int| v[i]@)
}

/// The contents of a list of ranges.
pub open spec fn range_views(v: Seq<LineRange>) -> Seq<RangeView> {
    Seq::new(v.len(), |i: int| v[i]@)
}

impl LineRange {
    /// Does this range contain `address`?
    pub fn contains(&self, address: u64) -> (r: bool)
        ensures
            r == (self.start <= address < self.end),
    {
        address >= self.start && address < self.end
    }

    /// Number of bytes covered (zero for a degenerate range).
    pub fn len(&self) -> (r: u64)
        ensures
            r == if self.end >= self.start {
                self.end - self.start
            } else {
                0
            },
    {
        if self.end >= self.start {
            self.end - self.start
        } else {
            0
        }
    }

    /// Covers no address at all.
    pub fn is_empty(&self) -> (r: bool)
        ensures
            r == (self.end <= self.start),
    {
        self.end <= self.start
    }

    /// The point projection: the range's file, line and column.
    pub fn to_location(&self) -> (r: SourceLocation)
        ensures
            r.file@ == self.file@,
            r.line == self.line,
            r.column == self.column,
    {
        let mut file = String::new();
        push_str(&mut file, self.file.as_str());
        SourceLocation { file, line: self.line, column: self.column }
    }
}

// ------------------------------------------------------------- sorting ---

/// `rows` with `r` inserted after every row whose start is at most its own
/// (so rows with equal starts keep their order).
pub open spec fn insert_row(rows: Seq<RowView>, r: RowView) -> Seq<RowView>
    decreases rows.len(),
{
    if rows.len() == 0 {
        seq![r]
    } else if rows.last().start <= r.start {
        rows.push(r)
    } else {
        insert_row(rows.drop_last(), r).push(rows.last())
    }
}

/// The rows sorted stably by start address (insertion order among equal
/// starts).
pub open spec fn sorted_rows(rows: Seq<RowView>) -> Seq<RowView>
    decreases rows.len(),
{
    if rows.len() == 0 {
        Seq::empty()
    } else {
        insert_row(sorted_rows(rows.drop_last()), rows.last())
    }
}

/// Ordered by start address.
pub open spec fn starts_ascending(rows: Seq<RowView>) -> bool {
    forall|i: int, j: int| 0 <= i < j < rows.len() ==> rows[i].start <= rows[j].start
}

proof fn lemma_insert_row(rows: Seq<RowView>, r: RowView)
    requires
        starts_ascending(rows),
    ensures
        starts_ascending(insert_row(rows, r)),
        insert_row(rows, r).len() == rows.len() + 1,
        insert_row(rows, r).to_multiset() == rows.to_multiset().insert(r),
    decreases rows.len(),
{
    broadcast use vstd::seq_lib::group_to_multiset_ensures;

    if rows.len() == 0 {
        assert(seq![r] =~= Seq::<RowView>::empty().push(r));
    } else if rows.last().start <= r.start {
    } else {
        let rest = rows.drop_last();
        assert(starts_ascending(rest));
        lemma_insert_row(rest, r);
        let ins = insert_row(rest, r);
        assert forall|i: int, j: int| 0 <= i < j < ins.push(rows.last()).len() implies ins.push(
            rows.last(),
        )[i].start <= ins.push(rows.last())[j].start by {
            if j == ins.len() {
                let x = ins[i];
                assert(ins.to_multiset().count(x) > 0);
                assert(rest.to_multiset().insert(r).count(x) > 0);
                if x != r {
                    assert(rest.to_multiset().count(x) > 0);
                    assert(rest.contains(x));
                    let k = choose|k: int| 0 <= k < rest.len() && rest[k] == x;
                    assert(rows[k] == x);
                    assert(rows[rows.len() - 1] == rows.last());
                }
            }
        }
        assert(rows =~= rest.push(rows.last()));
    }
}

/// Sorting keeps every row and orders them by start address.
pub proof fn law_sorting_is_an_ordered_permutation(rows: Seq<RowView>)
    ensures
        starts_ascending(sorted_rows(rows)),
        sorted_rows(rows).to_multiset() == rows.to_multiset(),
    decreases rows.len(),
{
    broadcast use vstd::seq_lib::group_to_multiset_ensures;

    if rows.len() > 0 {
        law_sorting_is_an_ordered_permutation(rows.drop_last());
        lemma_insert_row(sorted_rows(rows.drop_last()), rows.last());
        assert(rows =~= rows.drop_last().push(rows.last()));
    }
}

fn copy_row(r: &LineRow) -> (c: LineRow)
    ensures
        c@ == r@,
{
    LineRow { start: r.start, file: r.file.clone(), line: r.line, column: r.column }
}

fn insert_row_exec(sorted: &mut Vec<LineRow>, r: LineRow)
    ensures
        row_views(final(sorted)@) == insert_row(row_views(old(sorted)@), r@),
    decreases old(sorted)@.len(),
{
    let ghost before = row_views(sorted@);
    if sorted.len() == 0 {
        sorted.push(r);
        assert(row_views(sorted@) =~= seq![r@]);
        return;
    }
    let last_index = sorted.len() - 1;
    if sorted[last_index].start <= r.start {
        sorted.push(r);
        assert(row_views(sorted@) =~= before.push(r@));
        return;
    }
    let last = sorted.pop().unwrap();
    assert(row_views(sorted@) =~= before.drop_last());
    insert_row_exec(sorted, r);
    sorted.push(last);
    assert(row_views(sorted@) =~= insert_row(before.drop_last(), r@).push(before.last()));
}

/// Sorts rows stably by start address (see [`sorted_rows`]).
pub fn sort_rows(rows: Vec<LineRow>) -> (r: Vec<LineRow>)
    ensures
        row_views(r@) == sorted_rows(row_views(rows@)),
{
    let ghost all = row_views(rows@);
    let mut out: Vec<LineRow> = Vec::new();
    let mut i: usize = 0;
    assert(all.take(0) =~= Seq::<RowView>::empty());
    assert(row_views(out@) =~= sorted_rows(all.take(0)));
    while i < rows.len()
        invariant
            i <= rows.len(),
            all == row_views(rows@),
            row_views(out@) == sorted_rows(all.take(i as int)),
        decreases rows.len() - i,
    {
        let row = copy_row(&rows[i]);
        insert_row_exec(&mut out, row);
        assert(all.take(i + 1).drop_last() =~= all.take(i as int));
        assert(all.take(i + 1).last() == rows@[i as int]@);
        i = i + 1;
    }
    assert(all.take(i as int) =~= all);
    out
}

// ----------------------------------------------------------- intervals ---

/// Where the interval of row `k` of sorted rows ends: at the next row's
/// start, but always at least one byte past its own start (saturating).
pub open spec fn row_end(rows: Seq<RowView>, k: int) -> u64 {
    let own = if rows[k].start == u64::MAX {
        u64::MAX
    } else {
        (rows[k].start + 1) as u64
    };
    if k + 1 < rows.len() && rows[k + 1].start > own {
        rows[k + 1].start
    } else {
        own
    }
}

/// The intervals of the first `n` sorted rows, coalesced: a row continues
/// the previous interval when that interval ends at the row's start and
/// names the same file, line and column.
pub open spec fn intervals(rows: Seq<RowView>, n: int) -> Seq<RangeView>
    decreases n,
{
    if n <= 0 {
        Seq::empty()
    } else {
        let prev = intervals(rows, n - 1);
        let r = rows[n - 1];
        let end = row_end(rows, n - 1);
        if prev.len() > 0 && prev.last().end == r.start && prev.last().file == r.file
            && prev.last().line == r.line && prev.last().column == r.column {
            prev.update(prev.len() - 1, RangeView { end, ..prev.last() })
        } else {
            prev.push(
                RangeView {
                    start: r.start,
                    end,
                    file: r.file,
                    line: r.line,
                    column: r.column,
                    inlined_into: None,
                },
            )
        }
    }
}

/// The line intervals of a set of rows: sorted, then coalesced.
pub open spec fn spec_segments(rows: Seq<RowView>) -> Seq<RangeView> {
    let s = sorted_rows(rows);
    intervals(s, s.len() as int)
}

fn same_file(a: &String, b: &String) -> (r: bool)
    ensures
        r == (a@ == b@),
{
    *a == *b
}

/// Turns line rows into coalesced line intervals, in address order (see
/// [`spec_segments`]).
pub fn build_segments(rows: Vec<LineRow>) -> (r: Vec<LineRange>)
    ensures
        range_views(r@) == spec_segments(row_views(rows@)),
{
    let sorted = sort_rows(rows);
    let ghost s = row_views(sorted@);
    let mut out: Vec<LineRange> = Vec::new();
    let mut k: usize = 0;
    assert(range_views(out@) =~= intervals(s, 0));
    while k < sorted.len()
        invariant
            k <= sorted.len(),
            s == row_views(sorted@),
            range_views(out@) == intervals(s, k as int),
        decreases sorted.len() - k,
    {
        let row = &sorted[k];
        let own = if row.start == u64::MAX {
            u64::MAX
        } else {
            row.start + 1
        };
        let end = if k + 1 < sorted.len() && sorted[k + 1].start > own {
            sorted[k + 1].start
        } else {
            own
        };
        assert(end == row_end(s, k as int));
        let ghost before = range_views(out@);
        let n = out.len();
        let merge = n > 0 && out[n - 1].end == row.start && same_file(&out[n - 1].file, &row.file)
            && out[n - 1].line == row.line && out[n - 1].column == row.column;
        if merge {
            let prev = &out[n - 1];
            let updated = LineRange {
                start: prev.start,
                end,
                file: prev.file.clone(),
                line: prev.line,
                column: prev.column,
                inlined_into: match &prev.inlined_into {
                    Some(t) => Some(t.clone()),
                    None => None,
                },
            };
            out.set(n - 1, updated);
            assert(range_views(out@) =~= before.update(
                before.len() - 1,
                RangeView { end, ..before.last() },
            ));
        } else {
            out.push(
                LineRange {
                    start: row.start,
                    end,
                    file: row.file.clone(),
                    line: row.line,
                    column: row.column,
                    inlined_into: None,
                },
            );
            assert(range_views(out@) =~= before.push(
                RangeView {
                    start: row.start,
                    end,
                    file: row.file@,
                    line: row.line,
                    column: row.column,
                    inlined_into: None,
                },
            ));
        }
        k = k + 1;
    }
    out
}

// ---------------------------------------------------------- the laws ---

/// Ordered by start address with no two starts equal.
pub open spec fn starts_distinct_ascending(rows: Seq<RowView>) -> bool {
    forall|i: int, j: int| 0 <= i < j < rows.len() ==> rows[i].start < rows[j].start
}

/// Non-empty intervals in address order that do not overlap.
pub open spec fn disjoint_ascending(v: Seq<RangeView>) -> bool {
    &&& forall|i: int| 0 <= i < v.len() ==> #[trigger] v[i].start < v[i].end
    &&& forall|i: int, j: int| 0 <= i < j < v.len() ==> v[i].end <= v[j].start
}

proof fn lemma_intervals(rows: Seq<RowView>, n: int)
    requires
        starts_distinct_ascending(rows),
        0 <= n <= rows.len(),
        forall|i: int| 0 <= i < rows.len() ==> #[trigger] rows[i].start < u64::MAX,
    ensures
        disjoint_ascending(intervals(rows, n)),
        n > 0 ==> intervals(rows, n).len() > 0 && intervals(rows, n).last().end == row_end(
            rows,
            n - 1,
        ),
        n > 0 ==> intervals(rows, n)[0].start == rows[0].start,
        forall|i: int|
            0 <= i < intervals(rows, n).len() ==> rows[0].start <= #[trigger] intervals(
                rows,
                n,
            )[i].start,
        n > 0 ==> forall|i: int|
            0 <= i < intervals(rows, n).len() ==> #[trigger] intervals(rows, n)[i].end
                <= row_end(rows, n - 1),
    decreases n,
{
    if n > 0 {
        lemma_intervals(rows, n - 1);
        let prev = intervals(rows, n - 1);
        let r = rows[n - 1];
        if n - 1 > 0 {
            assert(rows[n - 2].start < rows[n - 1].start);
            assert(row_end(rows, n - 2) <= r.start);
        }
    }
}

/// The segments are non-empty intervals in address order that never
/// overlap, whenever no two rows share a start address (and no row starts
/// at the very last address).
pub proof fn law_segments_are_disjoint_and_ordered(rows: Seq<RowView>)
    requires
        forall|i: int, j: int| 0 <= i < j < rows.len() ==> rows[i].start != rows[j].start,
        forall|i: int| 0 <= i < rows.len() ==> #[trigger] rows[i].start < u64::MAX,
    ensures
        disjoint_ascending(spec_segments(rows)),
{
    broadcast use vstd::seq_lib::group_to_multiset_ensures;

    let s = sorted_rows(rows);
    law_sorting_is_an_ordered_permutation(rows);
    assert(rows.no_duplicates());
    rows.lemma_multiset_has_no_duplicates();
    assert forall|x: RowView| s.to_multiset().contains(x) implies s.to_multiset().count(x)
        == 1 by {
        assert(rows.to_multiset().contains(x));
    }
    s.lemma_multiset_has_no_duplicates_conv();
    assert forall|i: int| 0 <= i < s.len() implies #[trigger] s[i].start < u64::MAX by {
        assert(s.to_multiset().count(s[i]) > 0);
        assert(rows.to_multiset().count(s[i]) > 0);
        assert(rows.contains(s[i]));
    }
    assert forall|i: int, j: int| 0 <= i < j < s.len() implies s[i].start < s[j].start by {
        assert(s[i].start <= s[j].start);
        if s[i].start == s[j].start {
            assert(s[i] != s[j]);
            assert(s.to_multiset().count(s[i]) > 0);
            assert(s.to_multiset().count(s[j]) > 0);
            assert(rows.contains(s[i]));
            assert(rows.contains(s[j]));
            let a = choose|a: int| 0 <= a < rows.len() && rows[a] == s[i];
            let b = choose|b: int| 0 <= b < rows.len() && rows[b] == s[j];
            if a < b {
                assert(rows[a].start != rows[b].start);
            } else {
                assert(rows[b].start != rows[a].start);
            }
        }
    }
    lemma_intervals(s, s.len() as int);
}

// -------------------------------------------------------------- lookup ---

fn copy_line_range(r: &LineRange) -> (c: LineRange)
    ensures
        c@ == r@,
{
    LineRange {
        start: r.start,
        end: r.end,
        file: r.file.clone(),
        line: r.line,
        column: r.column,
        inlined_into: match &r.inlined_into {
            Some(t) => Some(t.clone()),
            None => None,
        },
    }
}

/// The segment holding `address`, by binary search.  Whatever the list, an
/// answer is a segment of it that holds the address; over disjoint segments
/// in address order (what [`build_segments`] produces from distinct rows)
/// the answer is `None` exactly when no segment holds the address.
pub fn range_for_address(segments: &Vec<LineRange>, address: u64) -> (r: Option<LineRange>)
    ensures
        r matches Some(s) ==> s.start <= address < s.end && exists|i: int|
            0 <= i < segments@.len() && #[trigger] segments@[i]@ == s@,
        disjoint_ascending(range_views(segments@)) ==> (r is None <==> forall|i: int|
            0 <= i < segments@.len() ==> !(#[trigger] segments@[i].start <= address
                < segments@[i].end)),
{
    let ghost v = range_views(segments@);
    let mut lo: usize = 0;
    let mut hi: usize = segments.len();
    while lo < hi
        invariant
            lo <= hi <= segments.len(),
            v == range_views(segments@),
            disjoint_ascending(v) ==> forall|i: int|
                0 <= i < lo || hi <= i < segments@.len() ==> !(#[trigger] segments@[i].start
                    <= address < segments@[i].end),
        decreases hi - lo,
    {
        let mid = lo + (hi - lo) / 2;
        let seg = &segments[mid];
        if address < seg.start {
            proof {
                if disjoint_ascending(v) {
                    assert forall|i: int| mid <= i < segments@.len() implies !(
                    #[trigger] segments@[i].start <= address < segments@[i].end) by {
                        if i > mid {
                            assert(v[mid as int].end <= v[i].start);
                            assert(v[mid as int].start < v[mid as int].end);
                        }
                    }
                }
            }
            hi = mid;
        } else if address >= seg.end {
            proof {
                if disjoint_ascending(v) {
                    assert forall|i: int| 0 <= i <= mid implies !(#[trigger] segments@[i].start
                        <= address < segments@[i].end) by {
                        if i < mid {
                            assert(v[i].end <= v[mid as int].start);
                            assert(v[mid as int].start < v[mid as int].end);
                        }
                    }
                }
            }
            lo = mid + 1;
        } else {
            let found = copy_line_range(seg);
            assert(segments@[mid as int]@ == found@);
            return Some(found);
        }
    }
    None
}

} // verus!
