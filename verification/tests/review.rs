use patchview::paint::{
    key_for, kind_style, line_content, paint_row, render_titlebar, status_style, window_title,
    LineContent, PrMeta, RowPaint, Tone,
};
use patchview::review::{Action, HeaderKind, ReviewApp};
use patchview::rows::{DiffRow, FileDiff, FileStatus, Hunk, LineKind, PrDiff, Row, ViewMode};

fn file(path: &str, lines: u32) -> FileDiff {
    let mut rows = Vec::new();
    for n in 1..=lines {
        rows.push(DiffRow::Removed {
            old_no: n,
            text: format!("old {n}"),
            intra: vec![0..3],
        });
    }
    for n in 1..=lines {
        rows.push(DiffRow::Added {
            new_no: n,
            text: format!("new {n}"),
            intra: Vec::new(),
        });
    }
    FileDiff {
        display_path: path.to_string(),
        old_path: None,
        status: FileStatus::Modified,
        hunks: vec![Hunk {
            old_start: 1,
            old_count: lines,
            new_start: 1,
            new_count: lines,
            section: String::new(),
            rows,
        }],
        additions: lines,
        deletions: lines,
    }
}

fn app() -> ReviewApp {
    // Unified: headers at 0, 7 (spacer at 6) and 12 (spacer at 11).
    ReviewApp::new(PrDiff {
        files: vec![file("a.rs", 2), file("b.rs", 1), file("c.rs", 1)],
    })
}

#[test]
fn a_diff_opens_unified_at_the_top() {
    let app = app();
    assert_eq!(app.mode, ViewMode::Unified);
    assert_eq!(app.cursor, 0);
    assert_eq!(app.file_rows, vec![0, 7, 12]);
    assert_eq!(app.hunk_rows, vec![1, 8, 13]);
    assert_eq!(app.rows.len(), 16);
}

#[test]
fn keys_move_between_headers() {
    let mut app = app();
    app.apply(Action::NextFile);
    assert_eq!(app.cursor, 7);
    app.apply(Action::NextHunk);
    assert_eq!(app.cursor, 8);
    app.apply(Action::PrevHunk);
    assert_eq!(app.cursor, 1);
    app.apply(Action::PrevFile);
    assert_eq!(app.cursor, 0);
    // Nothing above the first header.
    app.apply(Action::PrevFile);
    assert_eq!(app.cursor, 0);
    app.apply(Action::GoToBottom);
    assert_eq!(app.cursor, 15);
    // Nothing below the last header.
    app.apply(Action::NextFile);
    assert_eq!(app.cursor, 15);
    app.apply(Action::GoToTop);
    assert_eq!(app.cursor, 0);
}

#[test]
fn stepping_forth_and_back_returns_to_the_header() {
    let mut app = app();
    app.jump_next(HeaderKind::File);
    app.jump_next(HeaderKind::File);
    assert_eq!(app.cursor, 12);
    app.jump_prev(HeaderKind::File);
    assert_eq!(app.cursor, 7);
    app.jump_next(HeaderKind::File);
    assert_eq!(app.cursor, 12);
}

#[test]
fn toggling_the_layout_stays_in_the_file() {
    let mut app = app();
    app.jump(9);
    app.toggle_view();
    assert_eq!(app.mode, ViewMode::Split);
    // Split: headers at 0, 5 and 9.
    assert_eq!(app.file_rows, vec![0, 5, 9]);
    assert_eq!(app.cursor, 5);
    app.apply(Action::ToggleView);
    assert_eq!(app.mode, ViewMode::Unified);
    assert_eq!(app.cursor, 7);
}

#[test]
fn an_empty_diff_can_be_navigated() {
    let mut app = ReviewApp::new(PrDiff { files: Vec::new() });
    for action in [
        Action::NextFile,
        Action::PrevFile,
        Action::NextHunk,
        Action::PrevHunk,
        Action::GoToTop,
        Action::GoToBottom,
        Action::ToggleView,
    ] {
        app.apply(action);
        assert_eq!(app.cursor, 0);
    }
    assert_eq!(app.mode, ViewMode::Split);
}

#[test]
fn lines_are_painted_by_kind() {
    let app = app();
    match app.render_row(2) {
        RowPaint::Line { tint, old_number, new_number, marker, marker_tone, content } => {
            assert_eq!(tint, Some(Tone::RemovedRow));
            assert_eq!(old_number, "1");
            assert_eq!(new_number, "");
            assert_eq!(marker, "−");
            assert_eq!(marker_tone, Tone::Red);
            match content {
                LineContent::Highlighted { text, ranges, tone } => {
                    assert_eq!(text, "old 1");
                    assert_eq!(ranges, vec![0..3]);
                    assert_eq!(tone, Tone::RemovedWord);
                }
                LineContent::Plain(_) => panic!("expected highlights"),
            }
        }
        _ => panic!("expected a line"),
    }
    match app.render_row(4) {
        RowPaint::Line { tint, old_number, new_number, marker, content, .. } => {
            assert_eq!(tint, Some(Tone::AddedRow));
            assert_eq!((old_number.as_str(), new_number.as_str()), ("", "1"));
            assert_eq!(marker, "+");
            assert!(matches!(content, LineContent::Plain(text) if text == "new 1"));
        }
        _ => panic!("expected a line"),
    }
    assert!(matches!(app.render_row(6), RowPaint::Spacer));
    assert!(matches!(app.render_row(1), RowPaint::HunkHeader(label) if label == "@@ -1,2 +1,2 @@"));
}

#[test]
fn split_rows_are_painted_side_by_side() {
    let mut app = app();
    app.toggle_view();
    match app.render_row(2) {
        RowPaint::SplitLine { left: Some(left), right: Some(right) } => {
            assert_eq!((left.number.as_str(), left.marker), ("1", "−"));
            assert_eq!((right.number.as_str(), right.marker), ("1", "+"));
            assert_eq!(right.tint, Some(Tone::AddedRow));
        }
        _ => panic!("expected two sides"),
    }
}

#[test]
fn headers_and_binary_rows_have_their_texts() {
    let row = Row::FileHeader {
        path: "new.rs".into(),
        old_path: Some("old.rs".into()),
        status: FileStatus::Renamed,
        additions: 12,
        deletions: 0,
    };
    match paint_row(&row) {
        RowPaint::FileHeader { status, status_tone, path, origin, additions, deletions } => {
            assert_eq!((status, status_tone), ("renamed", Tone::Mauve));
            assert_eq!(path, "new.rs");
            assert_eq!(origin.as_deref(), Some("← old.rs"));
            assert_eq!((additions.as_str(), deletions.as_str()), ("+12", "−0"));
        }
        _ => panic!("expected a header"),
    }
    assert!(matches!(paint_row(&Row::Binary), RowPaint::Note("binary file changed")));
    assert_eq!(status_style(FileStatus::Added), ("added", Tone::Green));
    assert_eq!(status_style(FileStatus::Deleted), ("deleted", Tone::Red));
    assert_eq!(status_style(FileStatus::Modified), ("modified", Tone::Blue));
    assert_eq!(status_style(FileStatus::Binary), ("binary", Tone::Peach));
}

#[test]
fn context_lines_have_no_tint() {
    let style = kind_style(LineKind::Context);
    assert_eq!((style.row, style.word), (None, None));
    assert_eq!(style.marker, "");
    let content = line_content(&"text".to_string(), &Vec::new(), style.word);
    assert!(matches!(content, LineContent::Plain(text) if text == "text"));
}

#[test]
fn the_title_bar_names_the_state() {
    for (state, name, tone) in [
        ("OPEN", "open", Tone::Green),
        ("MERGED", "merged", Tone::Mauve),
        ("CLOSED", "closed", Tone::Red),
        ("DRAFT", "DRAFT", Tone::Overlay0),
    ] {
        let title = render_titlebar(&PrMeta {
            number: 123,
            title: "Fix it".into(),
            state: state.into(),
            author: "octocat".into(),
            base_ref_name: "main".into(),
            head_ref_name: "fix".into(),
            additions: 10,
            deletions: 2,
            url: "https://example.com/pull/123".into(),
        });
        assert_eq!((title.state.as_str(), title.state_tone), (name, tone));
        assert_eq!(title.title, "Fix it");
        assert_eq!(title.number, "#123");
        assert_eq!(title.author, "by octocat");
        assert_eq!(title.branches, "main ← fix");
        assert_eq!((title.additions.as_str(), title.deletions.as_str()), ("+10", "−2"));
    }
    assert_eq!(
        window_title("owner/repo", 123, "Fix it"),
        "review — owner/repo#123: Fix it"
    );
}

#[test]
fn every_action_has_a_key_of_its_own() {
    let actions = [
        Action::NextFile,
        Action::PrevFile,
        Action::NextHunk,
        Action::PrevHunk,
        Action::GoToTop,
        Action::GoToBottom,
        Action::ToggleView,
    ];
    let keys: Vec<&str> = actions.iter().map(|&a| key_for(a)).collect();
    assert_eq!(keys, vec!["]", "[", "n", "p", "home", "end", "v"]);
}
