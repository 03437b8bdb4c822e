use princess::source::{build_segments, range_for_address, sort_rows, LineRange, LineRow};

fn row(start: u64, file: &str, line: u32, column: Option<u32>) -> LineRow {
    LineRow { start, file: file.to_string(), line, column }
}

#[test]
fn rows_become_intervals_that_end_at_the_next_row() {
    let segments = build_segments(vec![
        row(0x100b40, "kernel.c", 101, None),
        row(0x100b30, "kernel.c", 99, None),
        row(0x100b39, "kernel.c", 100, None),
    ]);
    assert_eq!(segments.len(), 3);
    assert_eq!((segments[0].start, segments[0].end, segments[0].line), (0x100b30, 0x100b39, 99));
    assert_eq!((segments[1].start, segments[1].end, segments[1].line), (0x100b39, 0x100b40, 100));
    assert_eq!((segments[2].start, segments[2].end, segments[2].line), (0x100b40, 0x100b41, 101));
    assert!(segments.iter().all(|s| s.inlined_into.is_none()));
}

#[test]
fn adjacent_rows_of_one_line_are_coalesced() {
    let segments = build_segments(vec![
        row(0x10, "a.c", 5, Some(1)),
        row(0x14, "a.c", 5, Some(1)),
        row(0x18, "a.c", 5, Some(2)),
        row(0x20, "b.c", 5, Some(2)),
    ]);
    let spans: Vec<(u64, u64)> = segments.iter().map(|s| (s.start, s.end)).collect();
    assert_eq!(spans, vec![(0x10, 0x18), (0x18, 0x20), (0x20, 0x21)]);
}

#[test]
fn sorting_is_stable_for_equal_starts() {
    let sorted = sort_rows(vec![row(5, "x", 2, None), row(1, "y", 1, None), row(5, "z", 3, None)]);
    let order: Vec<&str> = sorted.iter().map(|r| r.file.as_str()).collect();
    assert_eq!(order, vec!["y", "x", "z"]);
}

#[test]
fn line_range_covers_the_line_and_stops_at_the_next_one() {
    let segments = build_segments(vec![
        row(0x100b39, "refkernel/kernel.c", 100, None),
        row(0x100b4e, "refkernel/kernel.c", 101, None),
        row(0x100b20, "refkernel/kernel.c", 98, None),
    ]);
    let range = range_for_address(&segments, 0x100b3d).expect("range");
    assert_eq!(range.line, 100);
    assert!(range.start <= 0x100b3d);
    assert!(range.end > 0x100b3d);
    assert!(range.contains(0x100b3d));
    assert!(!range.contains(range.end));
    assert!(!range.contains(range.start.saturating_sub(1)));
    assert!(range.len() >= 1);
    assert!(!range.is_empty());
}

#[test]
fn segments_are_sorted_non_overlapping_and_cover_the_range_query() {
    let rows: Vec<LineRow> = (0..50u64).rev().map(|i| row(0x1000 + i * 3, "k.c", (i % 7) as u32, None)).collect();
    let segments = build_segments(rows);
    assert!(!segments.is_empty());
    for pair in segments.windows(2) {
        assert!(pair[0].end <= pair[1].start, "segments must not overlap: {:?} then {:?}", pair[0], pair[1]);
    }
    for segment in &segments {
        let point = range_for_address(&segments, segment.start).expect("a segment start must resolve");
        assert_eq!(point.line, segment.line, "at {:#x}", segment.start);
        assert_eq!(point.file, segment.file);
    }
}

#[test]
fn an_address_with_no_line_info_is_none_not_an_error() {
    let segments = build_segments(vec![row(0x10, "a.c", 1, None), row(0x20, "a.c", 2, None)]);
    assert_eq!(range_for_address(&segments, 0xdead_beef_0000), None);
    assert_eq!(range_for_address(&segments, 0x0f), None);
    assert_eq!(range_for_address(&Vec::new(), 0x10), None);
}

#[test]
fn a_degenerate_range_is_empty() {
    let degenerate = LineRange { start: 9, end: 9, file: "a".into(), line: 1, column: None, inlined_into: None };
    assert!(degenerate.is_empty());
    assert_eq!(degenerate.len(), 0);
    let segments = build_segments(vec![row(u64::MAX, "end.c", 1, None)]);
    assert_eq!((segments[0].start, segments[0].end), (u64::MAX, u64::MAX));
}

#[test]
fn dwarf_rows_without_a_file_or_a_line_are_dropped_in_order() {
    let raw = vec![
        (0x1000u64, Some("a.c".to_string()), Some(3u32), Some(1u32)),
        (0x1004u64, None, Some(4u32), None),
        (0x1008u64, Some("a.c".to_string()), None, None),
        (0x100cu64, Some("b.c".to_string()), Some(9u32), None),
    ];
    let rows = princess::dwarf::line_rows(raw);
    assert_eq!(rows.len(), 2);
    assert_eq!((rows[0].start, rows[0].file.as_str(), rows[0].line, rows[0].column), (0x1000, "a.c", 3, Some(1)));
    assert_eq!((rows[1].start, rows[1].file.as_str(), rows[1].line, rows[1].column), (0x100c, "b.c", 9, None));
}

#[test]
fn dwarf_queries_on_a_non_object_are_internal_errors() {
    let bytes = b"not an elf";
    let err = princess::dwarf::read_rows("nope.elf", bytes).unwrap_err();
    assert_eq!(err.code, princess::contract::ErrorCode::Internal);
    assert!(err.message.starts_with("nope.elf is not a parseable object file: "));
    assert!(princess::dwarf::location_for_address("nope.elf", bytes, 0x1000).is_err());
    assert!(princess::dwarf::function_for_address("nope.elf", bytes, 0x1000).is_err());
}
