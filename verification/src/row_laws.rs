//! What the display rows of a diff say about the diff, line by line and file by
//! file, read off the fields of the rows and of the diff.
use vstd::prelude::*;

use crate::number;
use crate::rows;
use crate::rows::{
    Cell,
    CellView,
    DiffRow,
    DiffRowView,
    FileDiff,
    FileStatus,
    FileView,
    Hunk,
    HunkView,
    LineKind,
    Row,
    RowView,
    ViewMode,
};

verus! {

proof fn lemma_kept<A>(s: Seq<A>, f: spec_fn(A) -> Option<CellView>)
    ensures
        s.filter_map(f) == rows::present(s.map_values(f)),
    decreases s.len(),
{
    if s.len() > 0 {
        lemma_kept(s.drop_last(), f);
        assert(s.map_values(f).drop_last() =~= s.drop_last().map_values(f));
        assert(s.filter_map(f) =~= rows::present(s.map_values(f)));
    }
}

/// In either layout, what the rows of a hunk show on the new side is exactly
/// its context and added lines, in order, each under its number in the new
/// version, with its kind, text and highlights.
pub proof fn new_sides_carry_new_numbers(lines: Seq<DiffRowView>, mode: ViewMode)
    ensures
        rows::hunk_body(lines, mode).filter_map(
            |row: RowView|
                match row {
                    RowView::Line { new_no: Some(no), kind, text, intra, .. } => Some(
                        CellView { no, kind, text, intra },
                    ),
                    RowView::SplitLine { right, .. } => right,
                    _ => None::<CellView>,
                },
        ) == lines.filter_map(
            |line: DiffRowView|
                match line {
                    DiffRowView::Context { new_no, text, .. } => Some(
                        CellView { no: new_no, kind: LineKind::Context, text, intra: Seq::empty() },
                    ),
                    DiffRowView::Added { new_no, text, intra } => Some(
                        CellView { no: new_no, kind: LineKind::Added, text, intra },
                    ),
                    DiffRowView::Removed { .. } => None::<CellView>,
                },
        ),
{
    let shown = |row: RowView|
        match row {
            RowView::Line { new_no: Some(no), kind, text, intra, .. } => Some(
                CellView { no, kind, text, intra },
            ),
            RowView::SplitLine { right, .. } => right,
            _ => None::<CellView>,
        };
    let given = |line: DiffRowView|
        match line {
            DiffRowView::Context { new_no, text, .. } => Some(
                CellView { no: new_no, kind: LineKind::Context, text, intra: Seq::empty() },
            ),
            DiffRowView::Added { new_no, text, intra } => Some(
                CellView { no: new_no, kind: LineKind::Added, text, intra },
            ),
            DiffRowView::Removed { .. } => None::<CellView>,
        };
    let body = rows::hunk_body(lines, mode);
    rows::layouts_show_every_line(lines, mode);
    lemma_kept(body, shown);
    lemma_kept(lines, given);
    assert(body.map_values(shown) =~= Seq::new(body.len(), |i: int| rows::new_cell(body[i])));
    assert(lines.map_values(given) =~= Seq::new(lines.len(), |i: int| rows::right_cell(lines[i])));
}

/// In either layout, what the rows of a hunk show on the old side is exactly
/// its context and removed lines, in order, each under its number in the old
/// version, with its kind, text and highlights.
pub proof fn old_sides_carry_old_numbers(lines: Seq<DiffRowView>, mode: ViewMode)
    ensures
        rows::hunk_body(lines, mode).filter_map(
            |row: RowView|
                match row {
                    RowView::Line { old_no: Some(no), kind, text, intra, .. } => Some(
                        CellView { no, kind, text, intra },
                    ),
                    RowView::SplitLine { left, .. } => left,
                    _ => None::<CellView>,
                },
        ) == lines.filter_map(
            |line: DiffRowView|
                match line {
                    DiffRowView::Context { old_no, text, .. } => Some(
                        CellView { no: old_no, kind: LineKind::Context, text, intra: Seq::empty() },
                    ),
                    DiffRowView::Removed { old_no, text, intra } => Some(
                        CellView { no: old_no, kind: LineKind::Removed, text, intra },
                    ),
                    DiffRowView::Added { .. } => None::<CellView>,
                },
        ),
{
    let shown = |row: RowView|
        match row {
            RowView::Line { old_no: Some(no), kind, text, intra, .. } => Some(
                CellView { no, kind, text, intra },
            ),
            RowView::SplitLine { left, .. } => left,
            _ => None::<CellView>,
        };
    let given = |line: DiffRowView|
        match line {
            DiffRowView::Context { old_no, text, .. } => Some(
                CellView { no: old_no, kind: LineKind::Context, text, intra: Seq::empty() },
            ),
            DiffRowView::Removed { old_no, text, intra } => Some(
                CellView { no: old_no, kind: LineKind::Removed, text, intra },
            ),
            DiffRowView::Added { .. } => None::<CellView>,
        };
    let body = rows::hunk_body(lines, mode);
    rows::layouts_show_every_line(lines, mode);
    lemma_kept(body, shown);
    lemma_kept(lines, given);
    assert(body.map_values(shown) =~= Seq::new(body.len(), |i: int| rows::old_cell(body[i])));
    assert(lines.map_values(given) =~= Seq::new(lines.len(), |i: int| rows::left_cell(lines[i])));
}

/// In either layout, the numbers on the new side of a hunk's rows are exactly
/// the new numbers of its context and added lines, and those on the old side
/// the old numbers of its context and removed lines, both in order.
pub proof fn sides_are_numbered_in_order(lines: Seq<DiffRowView>, mode: ViewMode)
    ensures
        rows::hunk_body(lines, mode).filter_map(
            |row: RowView|
                match row {
                    RowView::Line { new_no, .. } => new_no,
                    RowView::SplitLine { right: Some(cell), .. } => Some(cell.no),
                    _ => None::<u32>,
                },
        ) == lines.filter_map(
            |line: DiffRowView|
                match line {
                    DiffRowView::Context { new_no, .. } => Some(new_no),
                    DiffRowView::Added { new_no, .. } => Some(new_no),
                    DiffRowView::Removed { .. } => None::<u32>,
                },
        ),
        rows::hunk_body(lines, mode).filter_map(
            |row: RowView|
                match row {
                    RowView::Line { old_no, .. } => old_no,
                    RowView::SplitLine { left: Some(cell), .. } => Some(cell.no),
                    _ => None::<u32>,
                },
        ) == lines.filter_map(
            |line: DiffRowView|
                match line {
                    DiffRowView::Context { old_no, .. } => Some(old_no),
                    DiffRowView::Removed { old_no, .. } => Some(old_no),
                    DiffRowView::Added { .. } => None::<u32>,
                },
        ),
{
    new_sides_carry_new_numbers(lines, mode);
    old_sides_carry_old_numbers(lines, mode);
    let body = rows::hunk_body(lines, mode);
    lemma_numbers(
        body,
        |row: RowView|
            match row {
                RowView::Line { new_no: Some(no), kind, text, intra, .. } => Some(
                    CellView { no, kind, text, intra },
                ),
                RowView::SplitLine { right, .. } => right,
                _ => None::<CellView>,
            },
        |row: RowView|
            match row {
                RowView::Line { new_no, .. } => new_no,
                RowView::SplitLine { right: Some(cell), .. } => Some(cell.no),
                _ => None::<u32>,
            },
    );
    lemma_numbers(
        lines,
        |line: DiffRowView|
            match line {
                DiffRowView::Context { new_no, text, .. } => Some(
                    CellView { no: new_no, kind: LineKind::Context, text, intra: Seq::empty() },
                ),
                DiffRowView::Added { new_no, text, intra } => Some(
                    CellView { no: new_no, kind: LineKind::Added, text, intra },
                ),
                DiffRowView::Removed { .. } => None::<CellView>,
            },
        |line: DiffRowView|
            match line {
                DiffRowView::Context { new_no, .. } => Some(new_no),
                DiffRowView::Added { new_no, .. } => Some(new_no),
                DiffRowView::Removed { .. } => None::<u32>,
            },
    );
    lemma_numbers(
        body,
        |row: RowView|
            match row {
                RowView::Line { old_no: Some(no), kind, text, intra, .. } => Some(
                    CellView { no, kind, text, intra },
                ),
                RowView::SplitLine { left, .. } => left,
                _ => None::<CellView>,
            },
        |row: RowView|
            match row {
                RowView::Line { old_no, .. } => old_no,
                RowView::SplitLine { left: Some(cell), .. } => Some(cell.no),
                _ => None::<u32>,
            },
    );
    lemma_numbers(
        lines,
        |line: DiffRowView|
            match line {
                DiffRowView::Context { old_no, text, .. } => Some(
                    CellView { no: old_no, kind: LineKind::Context, text, intra: Seq::empty() },
                ),
                DiffRowView::Removed { old_no, text, intra } => Some(
                    CellView { no: old_no, kind: LineKind::Removed, text, intra },
                ),
                DiffRowView::Added { .. } => None::<CellView>,
            },
        |line: DiffRowView|
            match line {
                DiffRowView::Context { old_no, .. } => Some(old_no),
                DiffRowView::Removed { old_no, .. } => Some(old_no),
                DiffRowView::Added { .. } => None::<u32>,
            },
    );
}

proof fn lemma_numbers<A>(
    s: Seq<A>,
    cell: spec_fn(A) -> Option<CellView>,
    number: spec_fn(A) -> Option<u32>,
)
    requires
        forall|a: A| #[trigger]
            number(a) == match cell(a) {
                Some(c) => Some(c.no),
                None => None,
            },
    ensures
        s.filter_map(number) == s.filter_map(cell).map_values(|c: CellView| c.no),
    decreases s.len(),
{
    if s.len() > 0 {
        lemma_numbers(s.drop_last(), cell, number);
        let before = s.drop_last().filter_map(cell);
        assert(number(s.last()) == match cell(s.last()) {
            Some(c) => Some(c.no),
            None => None,
        });
        assert(s.filter_map(number) =~= s.filter_map(cell).map_values(|c: CellView| c.no));
    }
}

/// In the unified layout every line of a hunk has a row of its own, in order.
/// A context line shows both its numbers, an added line only the new one, a
/// removed line only the old one.
pub proof fn unified_rows_show_their_lines(lines: Seq<DiffRowView>, i: int)
    requires
        0 <= i < lines.len(),
    ensures
        rows::hunk_body(lines, ViewMode::Unified).len() == lines.len(),
        lines[i] matches DiffRowView::Context { old_no, new_no, text } ==> rows::hunk_body(
            lines,
            ViewMode::Unified,
        )[i] == (RowView::Line {
            old_no: Some(old_no),
            new_no: Some(new_no),
            kind: LineKind::Context,
            text,
            intra: Seq::empty(),
        }),
        lines[i] matches DiffRowView::Added { new_no, text, intra } ==> rows::hunk_body(
            lines,
            ViewMode::Unified,
        )[i] == (RowView::Line {
            old_no: None,
            new_no: Some(new_no),
            kind: LineKind::Added,
            text,
            intra,
        }),
        lines[i] matches DiffRowView::Removed { old_no, text, intra } ==> rows::hunk_body(
            lines,
            ViewMode::Unified,
        )[i] == (RowView::Line {
            old_no: Some(old_no),
            new_no: None,
            kind: LineKind::Removed,
            text,
            intra,
        }),
{
}

/// In the split layout a context line fills both columns of one row, the old
/// number on the left and the new one on the right, and the rows behind it are
/// those of the lines behind it.
pub proof fn context_fills_both_columns(
    old_no: u32,
    new_no: u32,
    text: Seq<char>,
    rest: Seq<DiffRowView>,
)
    ensures
        rows::hunk_body(
            seq![DiffRowView::Context { old_no, new_no, text }] + rest,
            ViewMode::Split,
        ) == seq![
            RowView::SplitLine {
                left: Some(
                    CellView { no: old_no, kind: LineKind::Context, text, intra: Seq::empty() },
                ),
                right: Some(
                    CellView { no: new_no, kind: LineKind::Context, text, intra: Seq::empty() },
                ),
            },
        ] + rows::hunk_body(rest, ViewMode::Split),
{
    let all = seq![DiffRowView::Context { old_no, new_no, text }] + rest;
    assert(all.skip(1) =~= rest);
}

/// In the split layout an added line that no removed line stands before has
/// the right column of one row to itself.
pub proof fn lone_additions_stand_on_the_right(
    new_no: u32,
    text: Seq<char>,
    intra: Seq<core::ops::Range<usize>>,
    rest: Seq<DiffRowView>,
)
    ensures
        rows::hunk_body(
            seq![DiffRowView::Added { new_no, text, intra }] + rest,
            ViewMode::Split,
        ) == seq![
            RowView::SplitLine {
                left: None,
                right: Some(CellView { no: new_no, kind: LineKind::Added, text, intra }),
            },
        ] + rows::hunk_body(rest, ViewMode::Split),
{
    let all = seq![DiffRowView::Added { new_no, text, intra }] + rest;
    assert(all.skip(1) =~= rest);
}

/// In the split layout a run of removed lines stands beside the run of added
/// lines right behind it: the k-th removed line on the left of the k-th row, the
/// k-th added line on its right, the longer run alone at the end. The rows
/// behind them are those of the lines behind them.
pub proof fn runs_stand_side_by_side(
    removed: Seq<DiffRowView>,
    added: Seq<DiffRowView>,
    rest: Seq<DiffRowView>,
)
    requires
        removed.len() > 0,
        forall|k: int| 0 <= k < removed.len() ==> removed[k] is Removed,
        forall|k: int| 0 <= k < added.len() ==> added[k] is Added,
        rest.len() > 0 ==> !(rest[0] is Added),
        rest.len() > 0 && added.len() == 0 ==> !(rest[0] is Removed),
    ensures
        rows::hunk_body(removed + added + rest, ViewMode::Split).len() == rows::hunk_body(
            rest,
            ViewMode::Split,
        ).len() + if removed.len() > added.len() {
            removed.len()
        } else {
            added.len()
        },
        rows::hunk_body(removed + added + rest, ViewMode::Split).skip(
            if removed.len() > added.len() {
                removed.len() as int
            } else {
                added.len() as int
            },
        ) == rows::hunk_body(rest, ViewMode::Split),
        forall|k: int|
            #![trigger rows::hunk_body(removed + added + rest, ViewMode::Split)[k]]
            0 <= k < removed.len() || 0 <= k < added.len() ==> {
                let row = rows::hunk_body(removed + added + rest, ViewMode::Split)[k];
                &&& row is SplitLine
                &&& k < removed.len() ==> row->left == Some(
                    CellView {
                        no: removed[k]->Removed_old_no,
                        kind: LineKind::Removed,
                        text: removed[k]->Removed_text,
                        intra: removed[k]->Removed_intra,
                    },
                )
                &&& k >= removed.len() ==> row->left is None
                &&& k < added.len() ==> row->right == Some(
                    CellView {
                        no: added[k]->Added_new_no,
                        kind: LineKind::Added,
                        text: added[k]->Added_text,
                        intra: added[k]->Added_intra,
                    },
                )
                &&& k >= added.len() ==> row->right is None
            },
{
    let all = removed + added + rest;
    let m = removed.len() as int;
    let n = added.len() as int;
    assert(all[0] == removed[0]);
    rows::lemma_removed_run(all);
    let k = rows::removed_run(all) as int;
    if k < m {
        assert(all[k] == removed[k]);
    }
    if m < k {
        assert(all[m] is Removed);
        if n > 0 {
            assert(all[m] == added[0]);
        } else {
            assert(all[m] == rest[0]);
        }
    }
    let tail = all.skip(m);
    assert(tail =~= added + rest);
    rows::lemma_added_run(tail);
    let j = rows::added_run(tail) as int;
    if j < n {
        assert(tail[j] == added[j]);
    }
    if n < j {
        assert(tail[n] is Added);
        assert(tail[n] == rest[0]);
    }
    assert(all.take(m) =~= removed);
    assert(all.subrange(m, m + n) =~= added);
    assert(all.skip(m + n) =~= rest);
    let pairs = rows::paired(removed, added);
    assert(rows::split_rows(all) == pairs + rows::split_rows(rest));
    assert((pairs + rows::split_rows(rest)).skip(pairs.len() as int) =~= rows::split_rows(rest));
}

/// No line shows no row, in either layout.
pub proof fn empty_hunks_show_nothing(mode: ViewMode)
    ensures
        rows::hunk_body(Seq::empty(), mode).len() == 0,
{
}

/// The header of a hunk gives where it starts and how long it is in the old and
/// in the new version, and its section where it has one.
pub proof fn hunk_headers_give_their_ranges(hunk: HunkView)
    ensures
        rows::hunk_label(hunk) == "@@ -"@ + number::decimal(hunk.old_start as nat) + ","@
            + number::decimal(hunk.old_count as nat) + " +"@ + number::decimal(
            hunk.new_start as nat,
        ) + ","@ + number::decimal(hunk.new_count as nat) + " @@"@ + (if hunk.section.len() == 0 {
            Seq::<char>::empty()
        } else {
            seq![' '] + hunk.section
        }),
{
    let ranges = "@@ -"@ + number::decimal(hunk.old_start as nat) + ","@ + number::decimal(
        hunk.old_count as nat,
    ) + " +"@ + number::decimal(hunk.new_start as nat) + ","@ + number::decimal(
        hunk.new_count as nat,
    ) + " @@"@;
    assert(ranges.push(' ') + hunk.section =~= ranges + (seq![' '] + hunk.section));
    assert(ranges + Seq::<char>::empty() =~= ranges);
}

/// Hunks stand one behind the other: adding a hunk adds its header and its
/// lines at the end, and changes nothing before.
pub proof fn hunks_follow_each_other(hunks: Seq<HunkView>, hunk: HunkView, mode: ViewMode)
    ensures
        rows::hunk_rows_of(Seq::empty(), mode).len() == 0,
        rows::hunk_rows_of(hunks.push(hunk), mode) == rows::hunk_rows_of(hunks, mode) + seq![
            RowView::HunkHeader { label: rows::hunk_label(hunk) },
        ] + rows::hunk_body(hunk.rows, mode),
{
    assert(hunks.push(hunk).drop_last() =~= hunks);
    let before = rows::hunk_rows_of(hunks, mode);
    let header = RowView::HunkHeader { label: rows::hunk_label(hunk) };
    assert(before.push(header) =~= before + seq![header]);
}

/// A diff of one file is its header and then its hunks, or a note in their
/// place where the file is binary. The header has the file's path, status and
/// counts, and the old path only of a renamed file.
pub proof fn files_start_with_their_headers(file: FileView, mode: ViewMode)
    ensures
        rows::diff_rows(seq![file], mode) == seq![
            RowView::FileHeader {
                path: file.display_path,
                old_path: match file.status {
                    FileStatus::Renamed => file.old_path,
                    _ => None,
                },
                status: file.status,
                additions: file.additions,
                deletions: file.deletions,
            },
        ] + (if file.status is Binary {
            seq![RowView::Binary]
        } else {
            rows::hunk_rows_of(file.hunks, mode)
        }),
{
}

/// Files stand one behind the other: adding a file to a diff adds its rows at
/// the end, behind a spacer unless it is the first, and changes nothing before.
pub proof fn files_follow_each_other(files: Seq<FileView>, file: FileView, mode: ViewMode)
    ensures
        rows::diff_rows(Seq::empty(), mode).len() == 0,
        files.len() > 0 ==> rows::diff_rows(files.push(file), mode) == rows::diff_rows(files, mode)
            + seq![RowView::Spacer] + rows::diff_rows(seq![file], mode),
{
    assert(files.push(file).drop_last() =~= files);
    let before = rows::diff_rows(files, mode);
    assert(before.push(RowView::Spacer) =~= before + seq![RowView::Spacer]);
}

/// The models of lines and rows hold every field of them unchanged.
pub proof fn models_hold_every_field(line: DiffRow, hunk: Hunk, file: FileDiff, cell: Cell, row: Row)
    ensures
        line matches DiffRow::Context { old_no, new_no, text } ==> line@ == (DiffRowView::Context {
            old_no,
            new_no,
            text: text@,
        }),
        line matches DiffRow::Added { new_no, text, intra } ==> line@ == (DiffRowView::Added {
            new_no,
            text: text@,
            intra: intra@,
        }),
        line matches DiffRow::Removed { old_no, text, intra } ==> line@ == (DiffRowView::Removed {
            old_no,
            text: text@,
            intra: intra@,
        }),
        hunk@.old_start == hunk.old_start,
        hunk@.old_count == hunk.old_count,
        hunk@.new_start == hunk.new_start,
        hunk@.new_count == hunk.new_count,
        hunk@.section == hunk.section@,
        hunk@.rows == hunk.rows@.map_values(|line: DiffRow| line@),
        file@.display_path == file.display_path@,
        file@.old_path == match file.old_path {
            Some(path) => Some(path@),
            None => None,
        },
        file@.status == file.status,
        file@.hunks == file.hunks@.map_values(|hunk: Hunk| hunk@),
        file@.additions == file.additions,
        file@.deletions == file.deletions,
        cell@.no == cell.no && cell@.kind == cell.kind && cell@.text == cell.text@ && cell@.intra
            == cell.intra@,
        row is Spacer ==> row@ is Spacer,
        row is Binary ==> row@ is Binary,
        row matches Row::HunkHeader { label } ==> row@ == (RowView::HunkHeader { label: label@ }),
        row matches Row::FileHeader { path, old_path, status, additions, deletions } ==> row@
            == (RowView::FileHeader {
            path: path@,
            old_path: match old_path {
                Some(path) => Some(path@),
                None => None,
            },
            status,
            additions,
            deletions,
        }),
        row matches Row::Line { old_no, new_no, kind, text, intra } ==> row@ == (RowView::Line {
            old_no,
            new_no,
            kind,
            text: text@,
            intra: intra@,
        }),
        row matches Row::SplitLine { left, right } ==> row@ == (RowView::SplitLine {
            left: match left {
                Some(cell) => Some(cell@),
                None => None,
            },
            right: match right {
                Some(cell) => Some(cell@),
                None => None,
            },
        }),
{
    assert(hunk@.rows =~= hunk.rows@.map_values(|line: DiffRow| line@));
    assert(file@.hunks =~= file.hunks@.map_values(|hunk: Hunk| hunk@));
}

} // verus!
