use patchview::rows::{
    build_rows, hunk_label_text, Cell, DiffRow, FileDiff, FileStatus, Hunk, LineKind, PrDiff, Row,
    ViewMode,
};
use std::ops::Range;

fn ctx(old_no: u32, new_no: u32, text: &str) -> DiffRow {
    DiffRow::Context {
        old_no,
        new_no,
        text: text.to_string(),
    }
}

fn add(new_no: u32, text: &str, intra: Vec<Range<usize>>) -> DiffRow {
    DiffRow::Added {
        new_no,
        text: text.to_string(),
        intra,
    }
}

fn rem(old_no: u32, text: &str, intra: Vec<Range<usize>>) -> DiffRow {
    DiffRow::Removed {
        old_no,
        text: text.to_string(),
        intra,
    }
}

fn hunk(old_start: u32, new_start: u32, rows: Vec<DiffRow>) -> Hunk {
    Hunk {
        old_start,
        old_count: 0,
        new_start,
        new_count: 0,
        section: String::new(),
        rows,
    }
}

fn sample_diff() -> PrDiff {
    PrDiff {
        files: vec![
            FileDiff {
                display_path: "a.rs".into(),
                old_path: Some("a.rs".into()),
                status: FileStatus::Modified,
                hunks: vec![
                    // Equal-count modified run, flanked by context.
                    hunk(
                        1,
                        1,
                        vec![
                            ctx(1, 1, "ctx"),
                            rem(2, "old1", vec![0..3]),
                            rem(3, "old2", Vec::new()),
                            add(2, "new1", vec![0..3]),
                            add(3, "new2", Vec::new()),
                            ctx(4, 4, "tail"),
                        ],
                    ),
                    // Unequal run (2 removed, 1 added) + a lone added run.
                    hunk(
                        10,
                        10,
                        vec![
                            rem(10, "r1", Vec::new()),
                            rem(11, "r2", Vec::new()),
                            add(10, "a1", Vec::new()),
                            ctx(12, 11, "c"),
                            add(12, "lone", Vec::new()),
                        ],
                    ),
                ],
                additions: 4,
                deletions: 4,
            },
            FileDiff {
                display_path: "b.png".into(),
                old_path: Some("b.png".into()),
                status: FileStatus::Binary,
                hunks: Vec::new(),
                additions: 0,
                deletions: 0,
            },
        ],
    }
}

fn cell(cell: &Option<Cell>) -> (u32, LineKind, &str, &[Range<usize>]) {
    let cell = cell.as_ref().expect("expected a cell");
    (cell.no, cell.kind, cell.text.as_ref(), &cell.intra)
}

#[test]
fn split_context_fills_both_cells() {
    let (rows, _, _) = build_rows(&sample_diff(), ViewMode::Split);
    // rows[0] = FileHeader, rows[1] = HunkHeader, rows[2] = first context.
    match &rows[2] {
        Row::SplitLine { left, right } => {
            assert_eq!(cell(left), (1, LineKind::Context, "ctx", &[][..]));
            assert_eq!(cell(right), (1, LineKind::Context, "ctx", &[][..]));
        }
        _ => panic!("expected split line"),
    }
}

#[test]
fn split_pairs_equal_runs_positionally() {
    let (rows, _, _) = build_rows(&sample_diff(), ViewMode::Split);
    match &rows[3] {
        Row::SplitLine { left, right } => {
            assert_eq!(cell(left), (2, LineKind::Removed, "old1", &[0..3][..]));
            assert_eq!(cell(right), (2, LineKind::Added, "new1", &[0..3][..]));
        }
        _ => panic!("expected split line"),
    }
    match &rows[4] {
        Row::SplitLine { left, right } => {
            assert_eq!(cell(left), (3, LineKind::Removed, "old2", &[][..]));
            assert_eq!(cell(right), (3, LineKind::Added, "new2", &[][..]));
        }
        _ => panic!("expected split line"),
    }
    // Equal run + 2 context rows: 4 split lines for a 6-row hunk.
    match &rows[5] {
        Row::SplitLine { left, right } => {
            assert_eq!(cell(left).2, "tail");
            assert_eq!(cell(right).2, "tail");
        }
        _ => panic!("expected split line"),
    }
}

#[test]
fn split_unequal_and_lone_runs_are_one_sided() {
    let (rows, _, hunk_rows) = build_rows(&sample_diff(), ViewMode::Split);
    let h2 = hunk_rows[1];
    // 2 removed / 1 added: first row paired, second left-only.
    match &rows[h2 + 1] {
        Row::SplitLine { left, right } => {
            assert_eq!(cell(left), (10, LineKind::Removed, "r1", &[][..]));
            assert_eq!(cell(right), (10, LineKind::Added, "a1", &[][..]));
        }
        _ => panic!("expected split line"),
    }
    match &rows[h2 + 2] {
        Row::SplitLine { left, right } => {
            assert_eq!(cell(left), (11, LineKind::Removed, "r2", &[][..]));
            assert!(right.is_none());
        }
        _ => panic!("expected split line"),
    }
    // Lone added run after context: right-only.
    match &rows[h2 + 4] {
        Row::SplitLine { left, right } => {
            assert!(left.is_none());
            assert_eq!(cell(right), (12, LineKind::Added, "lone", &[][..]));
        }
        _ => panic!("expected split line"),
    }
}

#[test]
fn header_indices_are_correct_in_both_modes() {
    let diff = sample_diff();
    for mode in [ViewMode::Unified, ViewMode::Split] {
        let (rows, file_rows, hunk_rows) = build_rows(&diff, mode);
        assert_eq!(file_rows.len(), 2);
        assert_eq!(hunk_rows.len(), 2);
        for &ix in &file_rows {
            assert!(matches!(rows[ix], Row::FileHeader { .. }));
        }
        for &ix in &hunk_rows {
            assert!(matches!(rows[ix], Row::HunkHeader { .. }));
        }
        // Binary file: header immediately followed by the binary row.
        assert!(matches!(rows[file_rows[1] + 1], Row::Binary));
    }
    // Unified emits one row per diff row; split collapses the equal run.
    let (unified, _, _) = build_rows(&diff, ViewMode::Unified);
    let (split, _, _) = build_rows(&diff, ViewMode::Split);
    let unified_lines = unified
        .iter()
        .filter(|r| matches!(r, Row::Line { .. }))
        .count();
    let split_lines = split
        .iter()
        .filter(|r| matches!(r, Row::SplitLine { .. }))
        .count();
    assert_eq!(unified_lines, 11);
    assert_eq!(split_lines, 8); // 4 (hunk 1) + 4 (hunk 2)
}

#[test]
fn unified_rows_keep_numbers_kinds_and_highlights() {
    let (rows, file_rows, hunk_rows) = build_rows(&sample_diff(), ViewMode::Unified);
    assert_eq!(file_rows, vec![0, 15]);
    assert_eq!(hunk_rows, vec![1, 8]);
    match &rows[3] {
        Row::Line { old_no, new_no, kind, text, intra } => {
            assert_eq!((*old_no, *new_no), (Some(2), None));
            assert_eq!(*kind, LineKind::Removed);
            assert_eq!(text, "old1");
            assert_eq!(intra, &vec![0..3]);
        }
        _ => panic!("expected line"),
    }
    match &rows[2] {
        Row::Line { old_no, new_no, kind, intra, .. } => {
            assert_eq!((*old_no, *new_no), (Some(1), Some(1)));
            assert_eq!(*kind, LineKind::Context);
            assert!(intra.is_empty());
        }
        _ => panic!("expected line"),
    }
    assert!(matches!(rows[14], Row::Spacer));
}

#[test]
fn both_layouts_show_the_same_lines() {
    let diff = sample_diff();
    let (unified, _, _) = build_rows(&diff, ViewMode::Unified);
    let (split, _, _) = build_rows(&diff, ViewMode::Split);
    let old_unified: Vec<&str> = unified
        .iter()
        .filter_map(|row| match row {
            Row::Line { old_no: Some(_), text, .. } => Some(text.as_str()),
            _ => None,
        })
        .collect();
    let old_split: Vec<&str> = split
        .iter()
        .filter_map(|row| match row {
            Row::SplitLine { left: Some(cell), .. } => Some(cell.text.as_str()),
            _ => None,
        })
        .collect();
    assert_eq!(old_unified, vec!["ctx", "old1", "old2", "tail", "r1", "r2", "c"]);
    assert_eq!(old_split, old_unified);
}

#[test]
fn both_layouts_have_the_same_frame() {
    let diff = sample_diff();
    let frame = |mode| -> Vec<String> {
        let (rows, _, _) = build_rows(&diff, mode);
        rows.iter()
            .filter(|row| !matches!(row, Row::Line { .. } | Row::SplitLine { .. }))
            .map(|row| format!("{row:?}"))
            .collect()
    };
    assert_eq!(frame(ViewMode::Unified), frame(ViewMode::Split));
    assert_eq!(frame(ViewMode::Split).len(), 6);
    let (unified, _, _) = build_rows(&diff, ViewMode::Unified);
    let (split, _, _) = build_rows(&diff, ViewMode::Split);
    assert!(split.len() <= unified.len());
}

#[test]
fn only_renamed_files_show_where_they_come_from() {
    for (status, expected) in [
        (FileStatus::Renamed, Some("old.rs".to_string())),
        (FileStatus::Modified, None),
        (FileStatus::Deleted, None),
    ] {
        let diff = PrDiff {
            files: vec![FileDiff {
                display_path: "new.rs".into(),
                old_path: Some("old.rs".into()),
                status,
                hunks: Vec::new(),
                additions: 7,
                deletions: 5,
            }],
        };
        let (rows, _, _) = build_rows(&diff, ViewMode::Unified);
        assert_eq!(rows.len(), 1);
        match &rows[0] {
            Row::FileHeader { path, old_path, additions, deletions, .. } => {
                assert_eq!(path, "new.rs");
                assert_eq!(old_path, &expected);
                assert_eq!((*additions, *deletions), (7, 5));
            }
            _ => panic!("expected file header"),
        }
    }
}

#[test]
fn hunk_labels_show_ranges_and_section() {
    let mut h = hunk(3, 40, Vec::new());
    h.old_count = 12;
    h.new_count = 9;
    assert_eq!(hunk_label_text(&h), "@@ -3,12 +40,9 @@");
    h.section = "fn main()".into();
    assert_eq!(hunk_label_text(&h), "@@ -3,12 +40,9 @@ fn main()");
}

#[test]
fn an_empty_diff_has_no_rows() {
    let (rows, file_rows, hunk_rows) = build_rows(&PrDiff { files: Vec::new() }, ViewMode::Split);
    assert!(rows.is_empty());
    assert!(file_rows.is_empty());
    assert!(hunk_rows.is_empty());
}
