//! Parsed diffs and the display rows they flatten into.
use crate::number;
use crate::number::decimal_text;
use crate::text;
use std::ops::Range;
use vstd::prelude::*;
use vstd::string::*;

verus! {

#[derive(Clone, Copy, PartialEq, Eq, Debug, Structural)]
pub enum FileStatus {
    Added,
    Deleted,
    Modified,
    Renamed,
    Binary,
}

/// One line of a hunk. `intra` holds the byte ranges that differ from the
/// paired line on the other side.
#[derive(Debug)]
pub enum DiffRow {
    Context { old_no: u32, new_no: u32, text: String },
    Added { new_no: u32, text: String, intra: Vec<Range<usize>> },
    Removed { old_no: u32, text: String, intra: Vec<Range<usize>> },
}

#[derive(Debug)]
pub struct Hunk {
    pub old_start: u32,
    pub old_count: u32,
    pub new_start: u32,
    pub new_count: u32,
    pub section: String,
    pub rows: Vec<DiffRow>,
}

#[derive(Debug)]
pub struct FileDiff {
    /// The path the file is shown under.
    pub display_path: String,
    pub old_path: Option<String>,
    pub status: FileStatus,
    pub hunks: Vec<Hunk>,
    pub additions: u32,
    pub deletions: u32,
}

#[derive(Debug)]
pub struct PrDiff {
    pub files: Vec<FileDiff>,
}

#[derive(Clone, Copy, PartialEq, Eq, Debug, Structural)]
pub enum LineKind {
    Context,
    Added,
    Removed,
}

#[derive(Clone, Copy, PartialEq, Eq, Debug, Structural)]
pub enum ViewMode {
    Unified,
    Split,
}

/// One side of a split row: line number, kind, text, and word-level highlights.
#[derive(Debug)]
pub struct Cell {
    pub no: u32,
    pub kind: LineKind,
    pub text: String,
    pub intra: Vec<Range<usize>>,
}

#[derive(Debug)]
pub enum Row {
    Spacer,
    FileHeader {
        path: String,
        old_path: Option<String>,
        status: FileStatus,
        additions: u32,
        deletions: u32,
    },
    HunkHeader { label: String },
    Binary,
    Line {
        old_no: Option<u32>,
        new_no: Option<u32>,
        kind: LineKind,
        text: String,
        intra: Vec<Range<usize>>,
    },
    SplitLine { left: Option<Cell>, right: Option<Cell> },
}

/// The model of a [`DiffRow`].
pub enum DiffRowView {
    Context { old_no: u32, new_no: u32, text: Seq<char> },
    Added { new_no: u32, text: Seq<char>, intra: Seq<Range<usize>> },
    Removed { old_no: u32, text: Seq<char>, intra: Seq<Range<usize>> },
}

/// The model of a [`Hunk`].
pub struct HunkView {
    pub old_start: u32,
    pub old_count: u32,
    pub new_start: u32,
    pub new_count: u32,
    pub section: Seq<char>,
    pub rows: Seq<DiffRowView>,
}

/// The model of a [`FileDiff`].
pub struct FileView {
    pub display_path: Seq<char>,
    pub old_path: Option<Seq<char>>,
    pub status: FileStatus,
    pub hunks: Seq<HunkView>,
    pub additions: u32,
    pub deletions: u32,
}

/// The model of a [`Cell`].
pub struct CellView {
    pub no: u32,
    pub kind: LineKind,
    pub text: Seq<char>,
    pub intra: Seq<Range<usize>>,
}

/// The model of a [`Row`].
pub enum RowView {
    Spacer,
    FileHeader {
        path: Seq<char>,
        old_path: Option<Seq<char>>,
        status: FileStatus,
        additions: u32,
        deletions: u32,
    },
    HunkHeader { label: Seq<char> },
    Binary,
    Line {
        old_no: Option<u32>,
        new_no: Option<u32>,
        kind: LineKind,
        text: Seq<char>,
        intra: Seq<Range<usize>>,
    },
    SplitLine { left: Option<CellView>, right: Option<CellView> },
}

impl View for DiffRow {
    type V = DiffRowView;

    open spec fn view(&self) -> DiffRowView {
        match *self {
            DiffRow::Context { old_no, new_no, text } => DiffRowView::Context {
                old_no,
                new_no,
                text: text@,
            },
            DiffRow::Added { new_no, text, intra } => DiffRowView::Added {
                new_no,
                text: text@,
                intra: intra@,
            },
            DiffRow::Removed { old_no, text, intra } => DiffRowView::Removed {
                old_no,
                text: text@,
                intra: intra@,
            },
        }
    }
}

impl View for Hunk {
    type V = HunkView;

    open spec fn view(&self) -> HunkView {
        HunkView {
            old_start: self.old_start,
            old_count: self.old_count,
            new_start: self.new_start,
            new_count: self.new_count,
            section: self.section@,
            rows: Seq::new(self.rows@.len(), |i: int| self.rows@[i]@),
        }
    }
}

impl View for FileDiff {
    type V = FileView;

    open spec fn view(&self) -> FileView {
        FileView {
            display_path: self.display_path@,
            old_path: text::opt_text(self.old_path),
            status: self.status,
            hunks: Seq::new(self.hunks@.len(), |i: int| self.hunks@[i]@),
            additions: self.additions,
            deletions: self.deletions,
        }
    }
}

impl View for PrDiff {
    type V = Seq<FileView>;

    open spec fn view(&self) -> Seq<FileView> {
        Seq::new(self.files@.len(), |i: int| self.files@[i]@)
    }
}

impl View for Cell {
    type V = CellView;

    open spec fn view(&self) -> CellView {
        CellView { no: self.no, kind: self.kind, text: self.text@, intra: self.intra@ }
    }
}

/// The model of one side of a split row.
pub open spec fn side_view(cell: Option<Cell>) -> Option<CellView> {
    match cell {
        Some(cell) => Some(cell@),
        None => None,
    }
}

impl View for Row {
    type V = RowView;

    open spec fn view(&self) -> RowView {
        match *self {
            Row::Spacer => RowView::Spacer,
            Row::FileHeader { path, old_path, status, additions, deletions } => RowView::FileHeader {
                path: path@,
                old_path: text::opt_text(old_path),
                status,
                additions,
                deletions,
            },
            Row::HunkHeader { label } => RowView::HunkHeader { label: label@ },
            Row::Binary => RowView::Binary,
            Row::Line { old_no, new_no, kind, text, intra } => RowView::Line {
                old_no,
                new_no,
                kind,
                text: text@,
                intra: intra@,
            },
            Row::SplitLine { left, right } => RowView::SplitLine {
                left: side_view(left),
                right: side_view(right),
            },
        }
    }
}

/// The models of a list of rows.
pub open spec fn row_views(rows: Seq<Row>) -> Seq<RowView> {
    Seq::new(rows.len(), |i: int| rows[i]@)
}

/// Machine integers as mathematical ones.
pub open spec fn ints(v: Seq<usize>) -> Seq<int> {
    Seq::new(v.len(), |i: int| v[i] as int)
}

/// `@@ -old,count +new,count @@`, and the section behind it where there is one.
pub open spec fn hunk_label(hunk: HunkView) -> Seq<char> {
    let ranges = "@@ -"@ + number::decimal(hunk.old_start as nat) + ","@ + number::decimal(hunk.old_count as nat)
        + " +"@ + number::decimal(hunk.new_start as nat) + ","@ + number::decimal(hunk.new_count as nat) + " @@"@;
    if hunk.section.len() == 0 {
        ranges
    } else {
        ranges.push(' ') + hunk.section
    }
}

/// A hunk line in the unified layout.
pub open spec fn unified_row(row: DiffRowView) -> RowView {
    match row {
        DiffRowView::Context { old_no, new_no, text } => RowView::Line {
            old_no: Some(old_no),
            new_no: Some(new_no),
            kind: LineKind::Context,
            text,
            intra: Seq::empty(),
        },
        DiffRowView::Added { new_no, text, intra } => RowView::Line {
            old_no: None,
            new_no: Some(new_no),
            kind: LineKind::Added,
            text,
            intra,
        },
        DiffRowView::Removed { old_no, text, intra } => RowView::Line {
            old_no: Some(old_no),
            new_no: None,
            kind: LineKind::Removed,
            text,
            intra,
        },
    }
}

/// A hunk line as a cell of the left column, where old lines stand.
pub open spec fn left_cell(row: DiffRowView) -> Option<CellView> {
    match row {
        DiffRowView::Context { old_no, new_no, text } => Some(
            CellView { no: old_no, kind: LineKind::Context, text, intra: Seq::empty() },
        ),
        DiffRowView::Removed { old_no, text, intra } => Some(
            CellView { no: old_no, kind: LineKind::Removed, text, intra },
        ),
        DiffRowView::Added { .. } => None,
    }
}

/// A hunk line as a cell of the right column, where new lines stand.
pub open spec fn right_cell(row: DiffRowView) -> Option<CellView> {
    match row {
        DiffRowView::Context { old_no, new_no, text } => Some(
            CellView { no: new_no, kind: LineKind::Context, text, intra: Seq::empty() },
        ),
        DiffRowView::Added { new_no, text, intra } => Some(
            CellView { no: new_no, kind: LineKind::Added, text, intra },
        ),
        DiffRowView::Removed { .. } => None,
    }
}

/// How many removed lines the list starts with.
pub open spec fn removed_run(rows: Seq<DiffRowView>) -> nat
    decreases rows.len(),
{
    if rows.len() > 0 && rows[0] is Removed {
        1 + removed_run(rows.skip(1))
    } else {
        0
    }
}

/// How many added lines the list starts with.
pub open spec fn added_run(rows: Seq<DiffRowView>) -> nat
    decreases rows.len(),
{
    if rows.len() > 0 && rows[0] is Added {
        1 + added_run(rows.skip(1))
    } else {
        0
    }
}

/// Removed and added lines side by side, the first with the first and so on;
/// the excess of the longer run stands alone.
pub open spec fn paired(removed: Seq<DiffRowView>, added: Seq<DiffRowView>) -> Seq<RowView> {
    Seq::new(
        if removed.len() < added.len() {
            added.len()
        } else {
            removed.len()
        },
        |i: int|
            RowView::SplitLine {
                left: if i < removed.len() {
                    left_cell(removed[i])
                } else {
                    None
                },
                right: if i < added.len() {
                    right_cell(added[i])
                } else {
                    None
                },
            },
    )
}

/// The split layout of a hunk: context fills both columns, a run of removed
/// lines pairs up with the run of added lines right behind it, and an added
/// line without removed lines before it stands alone.
pub open spec fn split_rows(rows: Seq<DiffRowView>) -> Seq<RowView>
    decreases rows.len(),
{
    if rows.len() == 0 {
        Seq::empty()
    } else if rows[0] is Removed {
        let removed = removed_run(rows) as int;
        let added = added_run(rows.skip(removed)) as int;
        proof {
            lemma_removed_run(rows);
            lemma_added_run(rows.skip(removed));
        }
        paired(rows.take(removed), rows.subrange(removed, removed + added)) + split_rows(
            rows.skip(removed + added),
        )
    } else {
        seq![RowView::SplitLine { left: left_cell(rows[0]), right: right_cell(rows[0]) }]
            + split_rows(rows.skip(1))
    }
}

/// The lines of a hunk in the given layout.
pub open spec fn hunk_body(rows: Seq<DiffRowView>, mode: ViewMode) -> Seq<RowView> {
    match mode {
        ViewMode::Unified => Seq::new(rows.len(), |i: int| unified_row(rows[i])),
        ViewMode::Split => split_rows(rows),
    }
}

/// Hunks one after the other, each under its header.
pub open spec fn hunk_rows_of(hunks: Seq<HunkView>, mode: ViewMode) -> Seq<RowView>
    decreases hunks.len(),
{
    if hunks.len() == 0 {
        Seq::empty()
    } else {
        hunk_rows_of(hunks.drop_last(), mode).push(
            RowView::HunkHeader { label: hunk_label(hunks.last()) },
        ) + hunk_body(hunks.last().rows, mode)
    }
}

/// The header of a file. Only a rename shows the old path.
pub open spec fn file_header(file: FileView) -> RowView {
    RowView::FileHeader {
        path: file.display_path,
        old_path: if file.status == FileStatus::Renamed {
            file.old_path
        } else {
            None
        },
        status: file.status,
        additions: file.additions,
        deletions: file.deletions,
    }
}

/// The rows of one file: its header, then its hunks, or one note for a binary file.
pub open spec fn file_block(file: FileView, mode: ViewMode) -> Seq<RowView> {
    seq![file_header(file)] + if file.status == FileStatus::Binary {
        seq![RowView::Binary]
    } else {
        hunk_rows_of(file.hunks, mode)
    }
}

/// The rows of a diff: the blocks of its files with a spacer between them.
pub open spec fn diff_rows(files: Seq<FileView>, mode: ViewMode) -> Seq<RowView>
    decreases files.len(),
{
    if files.len() == 0 {
        Seq::empty()
    } else if files.len() == 1 {
        file_block(files[0], mode)
    } else {
        diff_rows(files.drop_last(), mode).push(RowView::Spacer) + file_block(files.last(), mode)
    }
}

/// The positions of the file headers, in order.
pub open spec fn file_header_positions(rows: Seq<RowView>) -> Seq<int>
    decreases rows.len(),
{
    if rows.len() == 0 {
        Seq::empty()
    } else {
        let before = file_header_positions(rows.drop_last());
        if rows.last() is FileHeader {
            before.push(rows.len() - 1)
        } else {
            before
        }
    }
}

/// The positions of the hunk headers, in order.
pub open spec fn hunk_header_positions(rows: Seq<RowView>) -> Seq<int>
    decreases rows.len(),
{
    if rows.len() == 0 {
        Seq::empty()
    } else {
        let before = hunk_header_positions(rows.drop_last());
        if rows.last() is HunkHeader {
            before.push(rows.len() - 1)
        } else {
            before
        }
    }
}

pub proof fn lemma_removed_run(rows: Seq<DiffRowView>)
    ensures
        removed_run(rows) <= rows.len(),
        forall|i: int| 0 <= i < removed_run(rows) ==> rows[i] is Removed,
        removed_run(rows) < rows.len() ==> !(rows[removed_run(rows) as int] is Removed),
    decreases rows.len(),
{
    if rows.len() > 0 && rows[0] is Removed {
        let rest = rows.skip(1);
        lemma_removed_run(rest);
        assert forall|i: int| 0 <= i < removed_run(rows) implies rows[i] is Removed by {
            if i > 0 {
                assert(rest[i - 1] == rows[i]);
            }
        }
    }
}

pub proof fn lemma_added_run(rows: Seq<DiffRowView>)
    ensures
        added_run(rows) <= rows.len(),
        forall|i: int| 0 <= i < added_run(rows) ==> rows[i] is Added,
        added_run(rows) < rows.len() ==> !(rows[added_run(rows) as int] is Added),
    decreases rows.len(),
{
    if rows.len() > 0 && rows[0] is Added {
        let rest = rows.skip(1);
        lemma_added_run(rest);
        assert forall|i: int| 0 <= i < added_run(rows) implies rows[i] is Added by {
            if i > 0 {
                assert(rest[i - 1] == rows[i]);
            }
        }
    }
}

proof fn lemma_removed_run_is(rows: Seq<DiffRowView>, n: int)
    requires
        0 <= n <= rows.len(),
        forall|i: int| 0 <= i < n ==> rows[i] is Removed,
        n < rows.len() ==> !(rows[n] is Removed),
    ensures
        removed_run(rows) == n,
{
    lemma_removed_run(rows);
    let k = removed_run(rows) as int;
    if k < n {
        assert(rows[k] is Removed);
    }
    if n < k {
        assert(rows[n] is Removed);
    }
}

proof fn lemma_added_run_is(rows: Seq<DiffRowView>, n: int)
    requires
        0 <= n <= rows.len(),
        forall|i: int| 0 <= i < n ==> rows[i] is Added,
        n < rows.len() ==> !(rows[n] is Added),
    ensures
        added_run(rows) == n,
{
    lemma_added_run(rows);
    let k = added_run(rows) as int;
    if k < n {
        assert(rows[k] is Added);
    }
    if n < k {
        assert(rows[n] is Added);
    }
}

/// A copy of a list of byte ranges.
pub(crate) fn copy_ranges(ranges: &Vec<Range<usize>>) -> (r: Vec<Range<usize>>)
    ensures
        r@ == ranges@,
{
    let mut out: Vec<Range<usize>> = Vec::new();
    let mut i: usize = 0;
    while i < ranges.len()
        invariant
            i <= ranges@.len(),
            out@ == ranges@.take(i as int),
        decreases ranges@.len() - i,
    {
        out.push(Range { start: ranges[i].start, end: ranges[i].end });
        i = i + 1;
        assert(out@ =~= ranges@.take(i as int));
    }
    assert(ranges@.take(i as int) =~= ranges@);
    out
}

fn unified_of(row: &DiffRow) -> (r: Row)
    ensures
        r@ == unified_row(row@),
{
    match row {
        DiffRow::Context { old_no, new_no, text } => {
            let intra: Vec<Range<usize>> = Vec::new();
            Row::Line {
                old_no: Some(*old_no),
                new_no: Some(*new_no),
                kind: LineKind::Context,
                text: text.clone(),
                intra,
            }
        },
        DiffRow::Added { new_no, text, intra } => Row::Line {
            old_no: None,
            new_no: Some(*new_no),
            kind: LineKind::Added,
            text: text.clone(),
            intra: copy_ranges(intra),
        },
        DiffRow::Removed { old_no, text, intra } => Row::Line {
            old_no: Some(*old_no),
            new_no: None,
            kind: LineKind::Removed,
            text: text.clone(),
            intra: copy_ranges(intra),
        },
    }
}

fn left_of(row: &DiffRow) -> (r: Option<Cell>)
    ensures
        side_view(r) == left_cell(row@),
{
    match row {
        DiffRow::Context { old_no, new_no: _, text } => {
            let intra: Vec<Range<usize>> = Vec::new();
            Some(Cell { no: *old_no, kind: LineKind::Context, text: text.clone(), intra })
        },
        DiffRow::Removed { old_no, text, intra } => Some(
            Cell {
                no: *old_no,
                kind: LineKind::Removed,
                text: text.clone(),
                intra: copy_ranges(intra),
            },
        ),
        DiffRow::Added { new_no: _, text: _, intra: _ } => None,
    }
}

fn right_of(row: &DiffRow) -> (r: Option<Cell>)
    ensures
        side_view(r) == right_cell(row@),
{
    match row {
        DiffRow::Context { old_no: _, new_no, text } => {
            let intra: Vec<Range<usize>> = Vec::new();
            Some(Cell { no: *new_no, kind: LineKind::Context, text: text.clone(), intra })
        },
        DiffRow::Added { new_no, text, intra } => Some(
            Cell {
                no: *new_no,
                kind: LineKind::Added,
                text: text.clone(),
                intra: copy_ranges(intra),
            },
        ),
        DiffRow::Removed { old_no: _, text: _, intra: _ } => None,
    }
}

fn is_removed(row: &DiffRow) -> (r: bool)
    ensures
        r == (row@ is Removed),
{
    match row {
        DiffRow::Removed { old_no: _, text: _, intra: _ } => true,
        _ => false,
    }
}

fn is_added(row: &DiffRow) -> (r: bool)
    ensures
        r == (row@ is Added),
{
    match row {
        DiffRow::Added { new_no: _, text: _, intra: _ } => true,
        _ => false,
    }
}

/// The header text of a hunk.
pub fn hunk_label_text(hunk: &Hunk) -> (r: String)
    ensures
        r@ == hunk_label(hunk@),
{
    let mut label = String::new();
    label.append("@@ -");
    label.append(decimal_text(hunk.old_start as u64).as_str());
    label.append(",");
    label.append(decimal_text(hunk.old_count as u64).as_str());
    label.append(" +");
    label.append(decimal_text(hunk.new_start as u64).as_str());
    label.append(",");
    label.append(decimal_text(hunk.new_count as u64).as_str());
    label.append(" @@");
    proof {
        assert(label@ =~= "@@ -"@ + number::decimal(hunk.old_start as nat) + ","@ + number::decimal(
            hunk.old_count as nat,
        ) + " +"@ + number::decimal(hunk.new_start as nat) + ","@ + number::decimal(hunk.new_count as nat)
            + " @@"@);
    }
    if !hunk.section.as_str().is_empty() {
        label.push(' ');
        label.append(hunk.section.as_str());
    }
    label
}

/// The models of hunk lines.
pub open spec fn line_views(rows: Seq<DiffRow>) -> Seq<DiffRowView> {
    Seq::new(rows.len(), |i: int| rows[i]@)
}

proof fn lemma_row_views_push(rows: Seq<Row>, row: Row)
    ensures
        row_views(rows.push(row)) == row_views(rows).push(row@),
{
    assert(row_views(rows.push(row)) =~= row_views(rows).push(row@));
}

fn push_unified(rows: &mut Vec<Row>, lines: &Vec<DiffRow>)
    ensures
        row_views(final(rows)@) == row_views(old(rows)@) + hunk_body(
            line_views(lines@),
            ViewMode::Unified,
        ),
{
    let ghost start = row_views(rows@);
    let ghost body = hunk_body(line_views(lines@), ViewMode::Unified);
    let mut i: usize = 0;
    assert(start + body.take(0) =~= start);
    while i < lines.len()
        invariant
            i <= lines@.len(),
            body == hunk_body(line_views(lines@), ViewMode::Unified),
            row_views(rows@) == start + body.take(i as int),
        decreases lines@.len() - i,
    {
        let ghost before = rows@;
        let row = unified_of(&lines[i]);
        rows.push(row);
        i = i + 1;
        proof {
            lemma_row_views_push(before, row);
            assert(body[i - 1] == row@);
            assert(row_views(rows@) =~= start + body.take(i as int));
        }
    }
    assert(body.take(i as int) =~= body);
}

fn push_split(rows: &mut Vec<Row>, lines: &Vec<DiffRow>)
    ensures
        row_views(final(rows)@) == row_views(old(rows)@) + hunk_body(
            line_views(lines@),
            ViewMode::Split,
        ),
{
    let ghost start = row_views(rows@);
    let ghost views = line_views(lines@);
    let mut i: usize = 0;
    assert(views.skip(0) =~= views);
    while i < lines.len()
        invariant
            i <= lines@.len(),
            views == line_views(lines@),
            row_views(rows@) + split_rows(views.skip(i as int)) == start + split_rows(views),
        decreases lines@.len() - i,
    {
        let ghost rest = views.skip(i as int);
        let ghost before = rows@;
        proof {
            assert(rest[0] == lines@[i as int]@);
        }
        if is_removed(&lines[i]) {
            let first: usize = i;
            while i < lines.len() && is_removed(&lines[i])
                invariant
                    first <= i <= lines@.len(),
                    views == line_views(lines@),
                    forall|k: int| first <= k < i ==> lines@[k]@ is Removed,
                decreases lines@.len() - i,
            {
                i = i + 1;
            }
            let mid: usize = i;
            while i < lines.len() && is_added(&lines[i])
                invariant
                    mid <= i <= lines@.len(),
                    views == line_views(lines@),
                    forall|k: int| mid <= k < i ==> lines@[k]@ is Added,
                decreases lines@.len() - i,
            {
                i = i + 1;
            }
            let removed: usize = mid - first;
            let added: usize = i - mid;
            proof {
                assert forall|k: int| 0 <= k < removed implies rest[k] is Removed by {
                    assert(rest[k] == lines@[first + k]@);
                }
                if mid < lines@.len() {
                    assert(rest[removed as int] == lines@[mid as int]@);
                }
                lemma_removed_run_is(rest, removed as int);
                let tail = rest.skip(removed as int);
                assert forall|k: int| 0 <= k < added implies tail[k] is Added by {
                    assert(tail[k] == lines@[mid + k]@);
                }
                if i < lines@.len() {
                    assert(tail[added as int] == lines@[i as int]@);
                }
                lemma_added_run_is(tail, added as int);
            }
            let count: usize = if removed < added {
                added
            } else {
                removed
            };
            let ghost pairs = paired(
                rest.take(removed as int),
                rest.subrange(removed as int, removed + added),
            );
            let mut pair: usize = 0;
            assert(row_views(rows@) =~= row_views(before) + pairs.take(0));
            while pair < count
                invariant
                    pair <= count,
                    count == if removed < added { added } else { removed },
                    first + removed == mid,
                    mid + added == i,
                    i <= lines@.len(),
                    views == line_views(lines@),
                    rest == views.skip(first as int),
                    forall|k: int| first <= k < mid ==> lines@[k]@ is Removed,
                    forall|k: int| mid <= k < i ==> lines@[k]@ is Added,
                    pairs == paired(
                        rest.take(removed as int),
                        rest.subrange(removed as int, removed + added),
                    ),
                    row_views(rows@) == row_views(before) + pairs.take(pair as int),
                decreases count - pair,
            {
                let ghost so_far = rows@;
                let left = if pair < removed {
                    left_of(&lines[first + pair])
                } else {
                    None
                };
                let right = if pair < added {
                    right_of(&lines[mid + pair])
                } else {
                    None
                };
                let row = Row::SplitLine { left, right };
                rows.push(row);
                proof {
                    lemma_row_views_push(so_far, row);
                    if pair < removed {
                        assert(rest.take(removed as int)[pair as int] == lines@[first + pair]@);
                    }
                    if pair < added {
                        assert(rest.subrange(removed as int, removed + added)[pair as int]
                            == lines@[mid + pair]@);
                    }
                    assert(pairs[pair as int] == row@);
                    assert(row_views(rows@) =~= row_views(before) + pairs.take(pair + 1));
                }
                pair = pair + 1;
            }
            proof {
                assert(pairs.take(count as int) =~= pairs);
                assert(rest.skip(removed + added) =~= views.skip(i as int));
                assert(split_rows(rest) == pairs + split_rows(views.skip(i as int)));
                assert(row_views(rows@) + split_rows(views.skip(i as int)) =~= row_views(before)
                    + split_rows(rest));
            }
        } else {
            let row = Row::SplitLine { left: left_of(&lines[i]), right: right_of(&lines[i]) };
            rows.push(row);
            i = i + 1;
            proof {
                lemma_row_views_push(before, row);
                assert(rest.skip(1) =~= views.skip(i as int));
                assert(split_rows(rest) == seq![row@] + split_rows(views.skip(i as int)));
                assert(row_views(rows@) + split_rows(views.skip(i as int)) =~= row_views(before)
                    + split_rows(rest));
            }
        }
    }
    assert(views.skip(i as int).len() == 0);
    assert(row_views(rows@) + split_rows(views.skip(i as int)) =~= row_views(rows@));
}

/// Rows that are no file header leave the positions of the file headers alone.
proof fn lemma_no_file_header(rows: Seq<RowView>, more: Seq<RowView>)
    requires
        forall|i: int| 0 <= i < more.len() ==> !(more[i] is FileHeader),
    ensures
        file_header_positions(rows + more) == file_header_positions(rows),
    decreases more.len(),
{
    if more.len() == 0 {
        assert(rows + more =~= rows);
    } else {
        assert((rows + more).drop_last() =~= rows + more.drop_last());
        assert((rows + more).last() == more.last());
        lemma_no_file_header(rows, more.drop_last());
    }
}

/// Rows that are no hunk header leave the positions of the hunk headers alone.
proof fn lemma_no_hunk_header(rows: Seq<RowView>, more: Seq<RowView>)
    requires
        forall|i: int| 0 <= i < more.len() ==> !(more[i] is HunkHeader),
    ensures
        hunk_header_positions(rows + more) == hunk_header_positions(rows),
    decreases more.len(),
{
    if more.len() == 0 {
        assert(rows + more =~= rows);
    } else {
        assert((rows + more).drop_last() =~= rows + more.drop_last());
        assert((rows + more).last() == more.last());
        lemma_no_hunk_header(rows, more.drop_last());
    }
}

proof fn lemma_split_rows_are_lines(lines: Seq<DiffRowView>)
    ensures
        forall|i: int| 0 <= i < split_rows(lines).len() ==> split_rows(lines)[i] is SplitLine,
    decreases lines.len(),
{
    if lines.len() == 0 {
    } else if lines[0] is Removed {
        let removed = removed_run(lines) as int;
        let added = added_run(lines.skip(removed)) as int;
        lemma_removed_run(lines);
        lemma_added_run(lines.skip(removed));
        lemma_split_rows_are_lines(lines.skip(removed + added));
    } else {
        lemma_split_rows_are_lines(lines.skip(1));
    }
}

/// The body of a hunk holds no headers.
proof fn lemma_hunk_body_has_no_headers(lines: Seq<DiffRowView>, mode: ViewMode)
    ensures
        forall|i: int|
            0 <= i < hunk_body(lines, mode).len() ==> !(hunk_body(lines, mode)[i] is FileHeader)
                && !(hunk_body(lines, mode)[i] is HunkHeader),
{
    match mode {
        ViewMode::Unified => {},
        ViewMode::Split => {
            lemma_split_rows_are_lines(lines);
        },
    }
}

/// Whether the two index lists are the positions of the headers among the rows.
pub open spec fn headers_indexed(
    rows: Seq<Row>,
    file_rows: Seq<usize>,
    hunk_rows: Seq<usize>,
) -> bool {
    &&& ints(file_rows) == file_header_positions(row_views(rows))
    &&& ints(hunk_rows) == hunk_header_positions(row_views(rows))
}

proof fn lemma_push_file_header(rows: Seq<Row>, file_rows: Seq<usize>, hunk_rows: Seq<usize>, row: Row)
    requires
        headers_indexed(rows, file_rows, hunk_rows),
        row@ is FileHeader,
        rows.len() <= usize::MAX,
    ensures
        headers_indexed(rows.push(row), file_rows.push(rows.len() as usize), hunk_rows),
{
    lemma_row_views_push(rows, row);
    let views = row_views(rows);
    assert(views.push(row@).drop_last() =~= views);
    assert(ints(file_rows.push(rows.len() as usize)) =~= ints(file_rows).push(rows.len() as int));
}

proof fn lemma_push_hunk_header(rows: Seq<Row>, file_rows: Seq<usize>, hunk_rows: Seq<usize>, row: Row)
    requires
        headers_indexed(rows, file_rows, hunk_rows),
        row@ is HunkHeader,
        rows.len() <= usize::MAX,
    ensures
        headers_indexed(rows.push(row), file_rows, hunk_rows.push(rows.len() as usize)),
{
    lemma_row_views_push(rows, row);
    let views = row_views(rows);
    assert(views.push(row@).drop_last() =~= views);
    assert(ints(hunk_rows.push(rows.len() as usize)) =~= ints(hunk_rows).push(rows.len() as int));
}

proof fn lemma_push_plain(rows: Seq<Row>, file_rows: Seq<usize>, hunk_rows: Seq<usize>, row: Row)
    requires
        headers_indexed(rows, file_rows, hunk_rows),
        !(row@ is FileHeader),
        !(row@ is HunkHeader),
    ensures
        headers_indexed(rows.push(row), file_rows, hunk_rows),
{
    lemma_row_views_push(rows, row);
    assert(row_views(rows).push(row@).drop_last() =~= row_views(rows));
}

/// Append the hunks of a file and record where their headers stand.
fn push_hunks(
    rows: &mut Vec<Row>,
    hunk_rows: &mut Vec<usize>,
    hunks: &Vec<Hunk>,
    mode: ViewMode,
    Ghost(file_rows): Ghost<Seq<usize>>,
)
    requires
        headers_indexed(old(rows)@, file_rows, old(hunk_rows)@),
    ensures
        row_views(final(rows)@) == row_views(old(rows)@) + hunk_rows_of(
            Seq::new(hunks@.len(), |i: int| hunks@[i]@),
            mode,
        ),
        headers_indexed(final(rows)@, file_rows, final(hunk_rows)@),
{
    let ghost start = row_views(rows@);
    let ghost views = Seq::new(hunks@.len(), |i: int| hunks@[i]@);
    let mut h: usize = 0;
    assert(start + hunk_rows_of(views.take(0), mode) =~= start);
    while h < hunks.len()
        invariant
            h <= hunks@.len(),
            views == Seq::new(hunks@.len(), |i: int| hunks@[i]@),
            row_views(rows@) == start + hunk_rows_of(views.take(h as int), mode),
            headers_indexed(rows@, file_rows, hunk_rows@),
        decreases hunks@.len() - h,
    {
        let ghost before = rows@;
        let hunk = &hunks[h];
        let row = Row::HunkHeader { label: hunk_label_text(hunk) };
        let at: usize = rows.len();
        proof {
            lemma_push_hunk_header(rows@, file_rows, hunk_rows@, row);
            lemma_row_views_push(rows@, row);
        }
        hunk_rows.push(at);
        rows.push(row);
        let ghost headed = row_views(rows@);
        match mode {
            ViewMode::Unified => push_unified(rows, &hunk.rows),
            ViewMode::Split => push_split(rows, &hunk.rows),
        }
        h = h + 1;
        proof {
            let body = hunk_body(hunk@.rows, mode);
            assert(hunk@.rows =~= line_views(hunk.rows@));
            assert(row_views(rows@) == headed + body);
            lemma_hunk_body_has_no_headers(hunk@.rows, mode);
            lemma_no_file_header(headed, body);
            lemma_no_hunk_header(headed, body);
            assert(views.take(h as int).drop_last() =~= views.take(h - 1));
            assert(views.take(h as int).last() == hunk@);
            assert(headed =~= (start + hunk_rows_of(views.take(h - 1), mode)).push(row@));
            assert(row_views(rows@) =~= start + hunk_rows_of(views.take(h as int), mode));
        }
    }
    assert(views.take(h as int) =~= views);
}

/// Flatten the diff into display rows plus the row indices of file headers and
/// hunk headers. Split mode pairs removed and added runs by position into
/// two-cell rows; unequal runs leave one-sided rows.
pub fn build_rows(diff: &PrDiff, mode: ViewMode) -> (r: (Vec<Row>, Vec<usize>, Vec<usize>))
    ensures
        row_views(r.0@) == diff_rows(diff@, mode),
        ints(r.1@) == file_header_positions(diff_rows(diff@, mode)),
        ints(r.2@) == hunk_header_positions(diff_rows(diff@, mode)),
{
    let mut rows: Vec<Row> = Vec::new();
    let mut file_rows: Vec<usize> = Vec::new();
    let mut hunk_rows: Vec<usize> = Vec::new();
    let mut f: usize = 0;
    proof {
        assert(row_views(rows@) =~= diff_rows(diff@.take(0), mode));
        assert(ints(file_rows@) =~= Seq::<int>::empty());
        assert(ints(hunk_rows@) =~= Seq::<int>::empty());
    }
    while f < diff.files.len()
        invariant
            f <= diff.files@.len(),
            row_views(rows@) == diff_rows(diff@.take(f as int), mode),
            rows@.len() == 0 <==> f == 0,
            headers_indexed(rows@, file_rows@, hunk_rows@),
        decreases diff.files@.len() - f,
    {
        let file = &diff.files[f];
        let ghost before = row_views(rows@);
        if !rows.is_empty() {
            let row = Row::Spacer;
            proof {
                lemma_push_plain(rows@, file_rows@, hunk_rows@, row);
                lemma_row_views_push(rows@, row);
            }
            rows.push(row);
        }
        let ghost spaced = row_views(rows@);
        let old_path = match file.status {
            FileStatus::Renamed => file.old_path.clone(),
            _ => None,
        };
        let row = Row::FileHeader {
            path: file.display_path.clone(),
            old_path,
            status: file.status,
            additions: file.additions,
            deletions: file.deletions,
        };
        let at: usize = rows.len();
        proof {
            assert(row@ == file_header(file@));
            lemma_push_file_header(rows@, file_rows@, hunk_rows@, row);
            lemma_row_views_push(rows@, row);
        }
        file_rows.push(at);
        rows.push(row);
        if file.status == FileStatus::Binary {
            let note = Row::Binary;
            proof {
                lemma_push_plain(rows@, file_rows@, hunk_rows@, note);
                lemma_row_views_push(rows@, note);
            }
            rows.push(note);
        } else {
            push_hunks(&mut rows, &mut hunk_rows, &file.hunks, mode, Ghost(file_rows@));
        }
        f = f + 1;
        proof {
            assert(row_views(rows@) =~= spaced + file_block(file@, mode));
            assert(diff@.take(f as int).drop_last() =~= diff@.take(f - 1));
            assert(diff@.take(f as int).last() == file@);
            assert(spaced =~= if f == 1 {
                Seq::<RowView>::empty()
            } else {
                before.push(RowView::Spacer)
            });
            assert(row_views(rows@) =~= diff_rows(diff@.take(f as int), mode));
            assert(rows@.len() == row_views(rows@).len());
        }
    }
    assert(diff@.take(f as int) =~= diff@);
    (rows, file_rows, hunk_rows)
}

/// The cell that a row shows on the old side.
pub open spec fn old_cell(row: RowView) -> Option<CellView> {
    match row {
        RowView::Line { old_no: Some(no), new_no, kind, text, intra } => Some(
            CellView { no, kind, text, intra },
        ),
        RowView::SplitLine { left, right } => left,
        _ => None,
    }
}

/// The cell that a row shows on the new side.
pub open spec fn new_cell(row: RowView) -> Option<CellView> {
    match row {
        RowView::Line { old_no, new_no: Some(no), kind, text, intra } => Some(
            CellView { no, kind, text, intra },
        ),
        RowView::SplitLine { left, right } => right,
        _ => None,
    }
}

/// The cells that are there, in order.
pub open spec fn present(cells: Seq<Option<CellView>>) -> Seq<CellView>
    decreases cells.len(),
{
    if cells.len() == 0 {
        Seq::empty()
    } else {
        let before = present(cells.drop_last());
        match cells.last() {
            Some(cell) => before.push(cell),
            None => before,
        }
    }
}

/// Everything that the rows show on the old side, from top to bottom.
pub open spec fn old_side(rows: Seq<RowView>) -> Seq<CellView> {
    present(Seq::new(rows.len(), |i: int| old_cell(rows[i])))
}

/// Everything that the rows show on the new side, from top to bottom.
pub open spec fn new_side(rows: Seq<RowView>) -> Seq<CellView> {
    present(Seq::new(rows.len(), |i: int| new_cell(rows[i])))
}

/// The old version of a hunk: its context and its removed lines.
pub open spec fn old_lines(lines: Seq<DiffRowView>) -> Seq<CellView> {
    present(Seq::new(lines.len(), |i: int| left_cell(lines[i])))
}

/// The new version of a hunk: its context and its added lines.
pub open spec fn new_lines(lines: Seq<DiffRowView>) -> Seq<CellView> {
    present(Seq::new(lines.len(), |i: int| right_cell(lines[i])))
}

proof fn lemma_present_concat(a: Seq<Option<CellView>>, b: Seq<Option<CellView>>)
    ensures
        present(a + b) == present(a) + present(b),
    decreases b.len(),
{
    if b.len() == 0 {
        assert(a + b =~= a);
        assert(present(a) + present(b) =~= present(a));
    } else {
        assert((a + b).drop_last() =~= a + b.drop_last());
        lemma_present_concat(a, b.drop_last());
        assert(present(a + b) =~= present(a) + present(b));
    }
}

proof fn lemma_present_none(cells: Seq<Option<CellView>>)
    requires
        forall|i: int| 0 <= i < cells.len() ==> cells[i] is None,
    ensures
        present(cells) == Seq::<CellView>::empty(),
    decreases cells.len(),
{
    if cells.len() > 0 {
        lemma_present_none(cells.drop_last());
    }
}

proof fn lemma_sides_concat(a: Seq<RowView>, b: Seq<RowView>)
    ensures
        old_side(a + b) == old_side(a) + old_side(b),
        new_side(a + b) == new_side(a) + new_side(b),
{
    let old_a = Seq::new(a.len(), |i: int| old_cell(a[i]));
    let old_b = Seq::new(b.len(), |i: int| old_cell(b[i]));
    assert(Seq::new((a + b).len(), |i: int| old_cell((a + b)[i])) =~= old_a + old_b);
    lemma_present_concat(old_a, old_b);
    let new_a = Seq::new(a.len(), |i: int| new_cell(a[i]));
    let new_b = Seq::new(b.len(), |i: int| new_cell(b[i]));
    assert(Seq::new((a + b).len(), |i: int| new_cell((a + b)[i])) =~= new_a + new_b);
    lemma_present_concat(new_a, new_b);
}

proof fn lemma_lines_concat(a: Seq<DiffRowView>, b: Seq<DiffRowView>)
    ensures
        old_lines(a + b) == old_lines(a) + old_lines(b),
        new_lines(a + b) == new_lines(a) + new_lines(b),
{
    let old_a = Seq::new(a.len(), |i: int| left_cell(a[i]));
    let old_b = Seq::new(b.len(), |i: int| left_cell(b[i]));
    assert(Seq::new((a + b).len(), |i: int| left_cell((a + b)[i])) =~= old_a + old_b);
    lemma_present_concat(old_a, old_b);
    let new_a = Seq::new(a.len(), |i: int| right_cell(a[i]));
    let new_b = Seq::new(b.len(), |i: int| right_cell(b[i]));
    assert(Seq::new((a + b).len(), |i: int| right_cell((a + b)[i])) =~= new_a + new_b);
    lemma_present_concat(new_a, new_b);
}

proof fn lemma_paired_sides(removed: Seq<DiffRowView>, added: Seq<DiffRowView>)
    requires
        forall|i: int| 0 <= i < removed.len() ==> removed[i] is Removed,
        forall|i: int| 0 <= i < added.len() ==> added[i] is Added,
    ensures
        old_side(paired(removed, added)) == old_lines(removed + added),
        new_side(paired(removed, added)) == new_lines(removed + added),
{
    let rows = paired(removed, added);
    let old_cells = Seq::new(rows.len(), |i: int| old_cell(rows[i]));
    let old_part = Seq::new(removed.len(), |i: int| left_cell(removed[i]));
    let old_rest = old_cells.skip(removed.len() as int);
    assert(old_cells =~= old_part + old_rest);
    lemma_present_concat(old_part, old_rest);
    lemma_present_none(old_rest);
    let new_cells = Seq::new(rows.len(), |i: int| new_cell(rows[i]));
    let new_part = Seq::new(added.len(), |i: int| right_cell(added[i]));
    let new_rest = new_cells.skip(added.len() as int);
    assert(new_cells =~= new_part + new_rest);
    lemma_present_concat(new_part, new_rest);
    lemma_present_none(new_rest);
    lemma_lines_concat(removed, added);
    lemma_present_none(Seq::new(added.len(), |i: int| left_cell(added[i])));
    lemma_present_none(Seq::new(removed.len(), |i: int| right_cell(removed[i])));
    assert(present(old_part) + Seq::<CellView>::empty() =~= present(old_part));
    assert(present(new_part) + Seq::<CellView>::empty() =~= present(new_part));
    assert(Seq::<CellView>::empty() + present(new_part) =~= present(new_part));
}

proof fn lemma_split_sides(lines: Seq<DiffRowView>)
    ensures
        old_side(split_rows(lines)) == old_lines(lines),
        new_side(split_rows(lines)) == new_lines(lines),
    decreases lines.len(),
{
    if lines.len() == 0 {
        assert(split_rows(lines) =~= Seq::<RowView>::empty());
    } else if lines[0] is Removed {
        let removed = removed_run(lines) as int;
        let added = added_run(lines.skip(removed)) as int;
        lemma_removed_run(lines);
        lemma_added_run(lines.skip(removed));
        let first = lines.take(removed);
        let second = lines.subrange(removed, removed + added);
        let rest = lines.skip(removed + added);
        assert forall|i: int| 0 <= i < second.len() implies second[i] is Added by {
            assert(second[i] == lines.skip(removed)[i]);
        }
        lemma_paired_sides(first, second);
        lemma_split_sides(rest);
        lemma_sides_concat(paired(first, second), split_rows(rest));
        assert(lines =~= (first + second) + rest);
        lemma_lines_concat(first + second, rest);
    } else {
        let rest = lines.skip(1);
        let one = RowView::SplitLine { left: left_cell(lines[0]), right: right_cell(lines[0]) };
        lemma_split_sides(rest);
        lemma_sides_concat(seq![one], split_rows(rest));
        assert(lines =~= seq![lines[0]] + rest);
        lemma_lines_concat(seq![lines[0]], rest);
        assert(Seq::new(seq![one].len(), |i: int| old_cell(seq![one][i])) =~= Seq::new(
            seq![lines[0]].len(),
            |i: int| left_cell(seq![lines[0]][i]),
        ));
        assert(Seq::new(seq![one].len(), |i: int| new_cell(seq![one][i])) =~= Seq::new(
            seq![lines[0]].len(),
            |i: int| right_cell(seq![lines[0]][i]),
        ));
    }
}

/// Either layout of a hunk shows its old version on the old side and its new
/// version on the new side: every line once, in order, nothing else.
pub proof fn layouts_show_every_line(lines: Seq<DiffRowView>, mode: ViewMode)
    ensures
        old_side(hunk_body(lines, mode)) == old_lines(lines),
        new_side(hunk_body(lines, mode)) == new_lines(lines),
{
    match mode {
        ViewMode::Unified => {
            let rows = hunk_body(lines, mode);
            assert(Seq::new(rows.len(), |i: int| old_cell(rows[i])) =~= Seq::new(
                lines.len(),
                |i: int| left_cell(lines[i]),
            ));
            assert(Seq::new(rows.len(), |i: int| new_cell(rows[i])) =~= Seq::new(
                lines.len(),
                |i: int| right_cell(lines[i]),
            ));
        },
        ViewMode::Split => {
            lemma_split_sides(lines);
        },
    }
}

proof fn lemma_hunks_same_sides(hunks: Seq<HunkView>)
    ensures
        old_side(hunk_rows_of(hunks, ViewMode::Unified)) == old_side(
            hunk_rows_of(hunks, ViewMode::Split),
        ),
        new_side(hunk_rows_of(hunks, ViewMode::Unified)) == new_side(
            hunk_rows_of(hunks, ViewMode::Split),
        ),
    decreases hunks.len(),
{
    if hunks.len() > 0 {
        let header = seq![RowView::HunkHeader { label: hunk_label(hunks.last()) }];
        lemma_hunks_same_sides(hunks.drop_last());
        let u = hunk_rows_of(hunks.drop_last(), ViewMode::Unified);
        let s = hunk_rows_of(hunks.drop_last(), ViewMode::Split);
        assert(u.push(header[0]) =~= u + header);
        assert(s.push(header[0]) =~= s + header);
        lemma_sides_concat(u, header);
        lemma_sides_concat(s, header);
        let lines = hunks.last().rows;
        layouts_show_every_line(lines, ViewMode::Unified);
        layouts_show_every_line(lines, ViewMode::Split);
        lemma_sides_concat(u + header, hunk_body(lines, ViewMode::Unified));
        lemma_sides_concat(s + header, hunk_body(lines, ViewMode::Split));
    }
}

proof fn lemma_block_same_sides(file: FileView)
    ensures
        old_side(file_block(file, ViewMode::Unified)) == old_side(
            file_block(file, ViewMode::Split),
        ),
        new_side(file_block(file, ViewMode::Unified)) == new_side(
            file_block(file, ViewMode::Split),
        ),
{
    if file.status != FileStatus::Binary {
        lemma_hunks_same_sides(file.hunks);
        lemma_sides_concat(
            seq![file_header(file)],
            hunk_rows_of(file.hunks, ViewMode::Unified),
        );
        lemma_sides_concat(seq![file_header(file)], hunk_rows_of(file.hunks, ViewMode::Split));
    }
}

/// Switching the layout changes neither what the old side shows nor what the
/// new side shows.
pub proof fn layouts_agree(files: Seq<FileView>)
    ensures
        old_side(diff_rows(files, ViewMode::Unified)) == old_side(
            diff_rows(files, ViewMode::Split),
        ),
        new_side(diff_rows(files, ViewMode::Unified)) == new_side(
            diff_rows(files, ViewMode::Split),
        ),
    decreases files.len(),
{
    if files.len() == 0 {
    } else if files.len() == 1 {
        lemma_block_same_sides(files[0]);
    } else {
        layouts_agree(files.drop_last());
        lemma_block_same_sides(files.last());
        let u = diff_rows(files.drop_last(), ViewMode::Unified);
        let s = diff_rows(files.drop_last(), ViewMode::Split);
        let gap = seq![RowView::Spacer];
        assert(u.push(RowView::Spacer) =~= u + gap);
        assert(s.push(RowView::Spacer) =~= s + gap);
        lemma_sides_concat(u, gap);
        lemma_sides_concat(s, gap);
        lemma_sides_concat(u + gap, file_block(files.last(), ViewMode::Unified));
        lemma_sides_concat(s + gap, file_block(files.last(), ViewMode::Split));
    }
}

/// The rows that are no lines of a hunk: headers, spacers and notes on binary
/// files.
pub open spec fn frame_rows(rows: Seq<RowView>) -> Seq<RowView>
    decreases rows.len(),
{
    if rows.len() == 0 {
        Seq::empty()
    } else {
        let before = frame_rows(rows.drop_last());
        if rows.last() is Line || rows.last() is SplitLine {
            before
        } else {
            before.push(rows.last())
        }
    }
}

proof fn lemma_frame_concat(a: Seq<RowView>, b: Seq<RowView>)
    ensures
        frame_rows(a + b) == frame_rows(a) + frame_rows(b),
    decreases b.len(),
{
    if b.len() == 0 {
        assert(a + b =~= a);
        assert(frame_rows(a) + frame_rows(b) =~= frame_rows(a));
    } else {
        assert((a + b).drop_last() =~= a + b.drop_last());
        lemma_frame_concat(a, b.drop_last());
        assert(frame_rows(a + b) =~= frame_rows(a) + frame_rows(b));
    }
}

proof fn lemma_lines_are_no_frame(rows: Seq<RowView>)
    requires
        forall|i: int|
            0 <= i < rows.len() ==> #[trigger] rows[i] is Line || rows[i] is SplitLine,
    ensures
        frame_rows(rows) == Seq::<RowView>::empty(),
    decreases rows.len(),
{
    if rows.len() > 0 {
        let front = rows.drop_last();
        assert forall|i: int| 0 <= i < front.len() implies #[trigger] front[i] is Line
            || front[i] is SplitLine by {
            assert(front[i] == rows[i]);
        }
        lemma_lines_are_no_frame(front);
        assert(rows[rows.len() - 1] == rows.last());
    }
}

proof fn lemma_split_size(lines: Seq<DiffRowView>)
    ensures
        split_rows(lines).len() <= lines.len(),
        forall|i: int| 0 <= i < split_rows(lines).len() ==> #[trigger] split_rows(
            lines,
        )[i] is SplitLine,
    decreases lines.len(),
{
    if lines.len() == 0 {
    } else if lines[0] is Removed {
        let removed = removed_run(lines) as int;
        let added = added_run(lines.skip(removed)) as int;
        lemma_removed_run(lines);
        lemma_added_run(lines.skip(removed));
        let rest = lines.skip(removed + added);
        lemma_split_size(rest);
        let pairs = paired(lines.take(removed), lines.subrange(removed, removed + added));
        assert(pairs.len() <= removed + added);
        let all = split_rows(lines);
        assert(all == pairs + split_rows(rest));
        assert forall|i: int| 0 <= i < all.len() implies #[trigger] all[i] is SplitLine by {
            if i < pairs.len() {
                assert(all[i] == pairs[i]);
            } else {
                assert(all[i] == split_rows(rest)[i - pairs.len()]);
            }
        }
    } else {
        let rest = lines.skip(1);
        lemma_split_size(rest);
        let all = split_rows(lines);
        assert forall|i: int| 0 <= i < all.len() implies #[trigger] all[i] is SplitLine by {
            if i > 0 {
                assert(all[i] == split_rows(rest)[i - 1]);
            }
        }
    }
}

proof fn lemma_hunks_same_frame(hunks: Seq<HunkView>)
    ensures
        frame_rows(hunk_rows_of(hunks, ViewMode::Unified)) == frame_rows(
            hunk_rows_of(hunks, ViewMode::Split),
        ),
        hunk_rows_of(hunks, ViewMode::Split).len() <= hunk_rows_of(hunks, ViewMode::Unified).len(),
    decreases hunks.len(),
{
    if hunks.len() > 0 {
        let front = hunks.drop_last();
        lemma_hunks_same_frame(front);
        let header = RowView::HunkHeader { label: hunk_label(hunks.last()) };
        let lines = hunks.last().rows;
        lemma_split_size(lines);
        let u = hunk_rows_of(front, ViewMode::Unified);
        let s = hunk_rows_of(front, ViewMode::Split);
        let unified = hunk_body(lines, ViewMode::Unified);
        lemma_lines_are_no_frame(unified);
        lemma_lines_are_no_frame(split_rows(lines));
        assert(u.push(header).drop_last() =~= u);
        assert(s.push(header).drop_last() =~= s);
        lemma_frame_concat(u.push(header), unified);
        lemma_frame_concat(s.push(header), split_rows(lines));
    }
}

proof fn lemma_block_same_frame(file: FileView)
    ensures
        frame_rows(file_block(file, ViewMode::Unified)) == frame_rows(
            file_block(file, ViewMode::Split),
        ),
        file_block(file, ViewMode::Split).len() <= file_block(file, ViewMode::Unified).len(),
{
    if file.status != FileStatus::Binary {
        lemma_hunks_same_frame(file.hunks);
        let header = seq![file_header(file)];
        lemma_frame_concat(header, hunk_rows_of(file.hunks, ViewMode::Unified));
        lemma_frame_concat(header, hunk_rows_of(file.hunks, ViewMode::Split));
    }
}

/// Both layouts have the same headers, spacers and notes on binary files, in the
/// same order, and the split one never has more rows.
pub proof fn layouts_share_their_frame(files: Seq<FileView>)
    ensures
        frame_rows(diff_rows(files, ViewMode::Unified)) == frame_rows(
            diff_rows(files, ViewMode::Split),
        ),
        diff_rows(files, ViewMode::Split).len() <= diff_rows(files, ViewMode::Unified).len(),
    decreases files.len(),
{
    if files.len() == 1 {
        lemma_block_same_frame(files[0]);
    } else if files.len() > 1 {
        let front = files.drop_last();
        layouts_share_their_frame(front);
        lemma_block_same_frame(files.last());
        let u = diff_rows(front, ViewMode::Unified);
        let s = diff_rows(front, ViewMode::Split);
        assert(u.push(RowView::Spacer).drop_last() =~= u);
        assert(s.push(RowView::Spacer).drop_last() =~= s);
        lemma_frame_concat(u.push(RowView::Spacer), file_block(files.last(), ViewMode::Unified));
        lemma_frame_concat(s.push(RowView::Spacer), file_block(files.last(), ViewMode::Split));
    }
}

/// The hunks that are shown: those of the files that are not binary.
pub open spec fn shown_hunks(files: Seq<FileView>) -> nat
    decreases files.len(),
{
    if files.len() == 0 {
        0
    } else {
        shown_hunks(files.drop_last()) + if files.last().status == FileStatus::Binary {
            0
        } else {
            files.last().hunks.len()
        }
    }
}

/// The positions of the file headers are exactly the rows that are file
/// headers, in increasing order.
pub proof fn file_positions_are_headers(rows: Seq<RowView>)
    ensures
        forall|k: int|
            0 <= k < file_header_positions(rows).len() ==> 0 <= #[trigger] file_header_positions(
                rows,
            )[k] < rows.len() && rows[file_header_positions(rows)[k]] is FileHeader,
        forall|j: int, k: int|
            0 <= j < k < file_header_positions(rows).len() ==> file_header_positions(rows)[j]
                < file_header_positions(rows)[k],
        forall|i: int|
            0 <= i < rows.len() && rows[i] is FileHeader ==> file_header_positions(rows).contains(
                i,
            ),
    decreases rows.len(),
{
    if rows.len() > 0 {
        let front = rows.drop_last();
        file_positions_are_headers(front);
        let before = file_header_positions(front);
        let all = file_header_positions(rows);
        assert forall|i: int| 0 <= i < rows.len() && rows[i] is FileHeader implies all.contains(
            i,
        ) by {
            if i < front.len() {
                assert(front[i] == rows[i]);
                assert(before.contains(i));
                let k = choose|k: int| 0 <= k < before.len() && before[k] == i;
                assert(all[k] == i);
            } else {
                assert(all[all.len() - 1] == i);
            }
        }
        assert forall|k: int| 0 <= k < all.len() implies 0 <= #[trigger] all[k] < rows.len()
            && rows[all[k]] is FileHeader by {
            if k < before.len() {
                assert(all[k] == before[k]);
                assert(rows[all[k]] == front[before[k]]);
            }
        }
    }
}

/// The positions of the hunk headers are exactly the rows that are hunk
/// headers, in increasing order.
pub proof fn hunk_positions_are_headers(rows: Seq<RowView>)
    ensures
        forall|k: int|
            0 <= k < hunk_header_positions(rows).len() ==> 0 <= #[trigger] hunk_header_positions(
                rows,
            )[k] < rows.len() && rows[hunk_header_positions(rows)[k]] is HunkHeader,
        forall|j: int, k: int|
            0 <= j < k < hunk_header_positions(rows).len() ==> hunk_header_positions(rows)[j]
                < hunk_header_positions(rows)[k],
        forall|i: int|
            0 <= i < rows.len() && rows[i] is HunkHeader ==> hunk_header_positions(rows).contains(
                i,
            ),
    decreases rows.len(),
{
    if rows.len() > 0 {
        let front = rows.drop_last();
        hunk_positions_are_headers(front);
        let before = hunk_header_positions(front);
        let all = hunk_header_positions(rows);
        assert forall|i: int| 0 <= i < rows.len() && rows[i] is HunkHeader implies all.contains(
            i,
        ) by {
            if i < front.len() {
                assert(front[i] == rows[i]);
                assert(before.contains(i));
                let k = choose|k: int| 0 <= k < before.len() && before[k] == i;
                assert(all[k] == i);
            } else {
                assert(all[all.len() - 1] == i);
            }
        }
        assert forall|k: int| 0 <= k < all.len() implies 0 <= #[trigger] all[k] < rows.len()
            && rows[all[k]] is HunkHeader by {
            if k < before.len() {
                assert(all[k] == before[k]);
                assert(rows[all[k]] == front[before[k]]);
            }
        }
    }
}

proof fn lemma_block_positions(rows: Seq<RowView>, file: FileView, mode: ViewMode)
    ensures
        file_header_positions(rows + file_block(file, mode)) == file_header_positions(rows).push(
            rows.len() as int,
        ),
        hunk_header_positions(rows + file_block(file, mode)).len() == hunk_header_positions(
            rows,
        ).len() + if file.status == FileStatus::Binary {
            0
        } else {
            file.hunks.len()
        },
{
    let head = rows.push(file_header(file));
    assert(head.drop_last() =~= rows);
    if file.status == FileStatus::Binary {
        let note = seq![RowView::Binary];
        assert(rows + file_block(file, mode) =~= head + note);
        lemma_no_file_header(head, note);
        lemma_no_hunk_header(head, note);
    } else {
        assert(rows + file_block(file, mode) =~= head + hunk_rows_of(file.hunks, mode));
        lemma_hunk_positions(head, file.hunks, mode);
    }
}

proof fn lemma_hunk_positions(rows: Seq<RowView>, hunks: Seq<HunkView>, mode: ViewMode)
    ensures
        file_header_positions(rows + hunk_rows_of(hunks, mode)) == file_header_positions(rows),
        hunk_header_positions(rows + hunk_rows_of(hunks, mode)).len() == hunk_header_positions(
            rows,
        ).len() + hunks.len(),
    decreases hunks.len(),
{
    if hunks.len() == 0 {
        assert(rows + hunk_rows_of(hunks, mode) =~= rows);
    } else {
        let before = rows + hunk_rows_of(hunks.drop_last(), mode);
        lemma_hunk_positions(rows, hunks.drop_last(), mode);
        let header = RowView::HunkHeader { label: hunk_label(hunks.last()) };
        let head = before.push(header);
        assert(head.drop_last() =~= before);
        let body = hunk_body(hunks.last().rows, mode);
        lemma_hunk_body_has_no_headers(hunks.last().rows, mode);
        lemma_no_file_header(head, body);
        lemma_no_hunk_header(head, body);
        assert(rows + hunk_rows_of(hunks, mode) =~= head + body);
    }
}

/// In either layout there is one file header per file and one hunk header per
/// shown hunk; the header of the k-th file is the k-th file header, and the
/// note of a binary file stands right under its header.
pub proof fn headers_follow_files(files: Seq<FileView>, mode: ViewMode)
    ensures
        file_header_positions(diff_rows(files, mode)).len() == files.len(),
        hunk_header_positions(diff_rows(files, mode)).len() == shown_hunks(files),
        forall|k: int|
            #![trigger files[k]]
            0 <= k < files.len() ==> {
                let rows = diff_rows(files, mode);
                let at = file_header_positions(rows)[k];
                &&& 0 <= at < rows.len()
                &&& rows[at] == file_header(files[k])
                &&& files[k].status == FileStatus::Binary ==> at + 1 < rows.len() && rows[at + 1]
                    == RowView::Binary
            },
    decreases files.len(),
{
    if files.len() > 0 {
        let front = files.drop_last();
        let last = files.last();
        let before = diff_rows(front, mode);
        headers_follow_files(front, mode);
        let spaced = if files.len() == 1 {
            before
        } else {
            before.push(RowView::Spacer)
        };
        if files.len() > 1 {
            lemma_no_file_header(before, seq![RowView::Spacer]);
            lemma_no_hunk_header(before, seq![RowView::Spacer]);
            assert(spaced =~= before + seq![RowView::Spacer]);
        }
        let rows = diff_rows(files, mode);
        assert(rows =~= spaced + file_block(last, mode));
        lemma_block_positions(spaced, last, mode);
        assert(shown_hunks(front) + (if last.status == FileStatus::Binary {
            0
        } else {
            last.hunks.len()
        }) == shown_hunks(files));
        assert forall|k: int|
            #![trigger files[k]]
            0 <= k < files.len() implies {
            let at = file_header_positions(rows)[k];
            &&& 0 <= at < rows.len()
            &&& rows[at] == file_header(files[k])
            &&& files[k].status == FileStatus::Binary ==> at + 1 < rows.len() && rows[at + 1]
                == RowView::Binary
        } by {
            if k < front.len() {
                assert(front[k] == files[k]);
                let at = file_header_positions(before)[k];
                assert(file_header_positions(rows)[k] == at);
                assert(rows[at] == before[at]);
                if files[k].status == FileStatus::Binary {
                    assert(rows[at + 1] == before[at + 1]);
                }
            } else {
                let at = spaced.len() as int;
                assert(file_header_positions(rows)[k] == at);
                assert(rows[at] == file_block(last, mode)[0]);
                if last.status == FileStatus::Binary {
                    assert(rows[at + 1] == file_block(last, mode)[1]);
                }
            }
        }
    }
}

/// Whether a cell's highlights belong to a changed line.
pub open spec fn cell_highlights_changed(cell: Option<CellView>) -> bool {
    cell matches Some(c) ==> c.intra.len() > 0 ==> c.kind != LineKind::Context
}

/// Whether a row highlights words on changed lines only.
pub open spec fn highlights_changed(row: RowView) -> bool {
    match row {
        RowView::Line { old_no, new_no, kind, text, intra } => intra.len() > 0 ==> kind
            != LineKind::Context,
        RowView::SplitLine { left, right } => cell_highlights_changed(left)
            && cell_highlights_changed(right),
        _ => true,
    }
}

/// Whether all rows highlight words on changed lines only.
pub open spec fn all_highlight_changed(rows: Seq<RowView>) -> bool {
    forall|i: int| 0 <= i < rows.len() ==> highlights_changed(#[trigger] rows[i])
}

proof fn lemma_split_highlights(lines: Seq<DiffRowView>)
    ensures
        all_highlight_changed(split_rows(lines)),
    decreases lines.len(),
{
    if lines.len() == 0 {
    } else if lines[0] is Removed {
        let removed = removed_run(lines) as int;
        let added = added_run(lines.skip(removed)) as int;
        lemma_removed_run(lines);
        lemma_added_run(lines.skip(removed));
        let pairs = paired(lines.take(removed), lines.subrange(removed, removed + added));
        let rest = lines.skip(removed + added);
        lemma_split_highlights(rest);
        assert(all_highlight_changed(pairs));
        assert(split_rows(lines) == pairs + split_rows(rest));
    } else {
        let rest = lines.skip(1);
        lemma_split_highlights(rest);
        let one = RowView::SplitLine { left: left_cell(lines[0]), right: right_cell(lines[0]) };
        assert(highlights_changed(one));
        assert(split_rows(lines) == seq![one] + split_rows(rest));
    }
}

proof fn lemma_hunk_highlights(hunks: Seq<HunkView>, mode: ViewMode)
    ensures
        all_highlight_changed(hunk_rows_of(hunks, mode)),
    decreases hunks.len(),
{
    if hunks.len() > 0 {
        lemma_hunk_highlights(hunks.drop_last(), mode);
        let body = hunk_body(hunks.last().rows, mode);
        match mode {
            ViewMode::Unified => {
                assert(all_highlight_changed(body));
            },
            ViewMode::Split => {
                lemma_split_highlights(hunks.last().rows);
            },
        }
        let header = RowView::HunkHeader { label: hunk_label(hunks.last()) };
        let before = hunk_rows_of(hunks.drop_last(), mode).push(header);
        assert(all_highlight_changed(before));
        assert(hunk_rows_of(hunks, mode) == before + body);
    }
}

/// Only changed lines carry word highlights: context lines have none, so every
/// highlighted row has a word tint to paint with.
pub proof fn highlights_only_on_changes(files: Seq<FileView>, mode: ViewMode)
    ensures
        all_highlight_changed(diff_rows(files, mode)),
    decreases files.len(),
{
    if files.len() > 0 {
        let last = files.last();
        lemma_hunk_highlights(last.hunks, mode);
        let block = file_block(last, mode);
        assert(all_highlight_changed(block));
        if files.len() > 1 {
            highlights_only_on_changes(files.drop_last(), mode);
            let before = diff_rows(files.drop_last(), mode).push(RowView::Spacer);
            assert(all_highlight_changed(before));
            assert(diff_rows(files, mode) == before + block);
        } else {
            assert(diff_rows(files, mode) == block);
        }
    }
}

} // verus!
