//! Where each action takes the cursor, told by the rows, and how the rows look,
//! told by their fields.
use vstd::prelude::*;

use crate::number;
use crate::paint;
use crate::paint::{ContentView, RowPaintView, SideView, Tone};
use crate::review;
use crate::review::{Action, HeaderKind, ReviewApp};
use crate::rows;
use crate::rows::{CellView, FileStatus, LineKind, RowView, ViewMode};

verus! {

/// A target ahead of the cursor is the first one of the list, and one is found
/// wherever there is one.
pub proof fn next_targets_are_the_first(targets: Seq<int>, cursor: int)
    ensures
        review::next_target(targets, cursor) matches Some(t) ==> exists|k: int|
            {
                &&& 0 <= k < targets.len()
                &&& #[trigger] targets[k] == t
                &&& t > cursor
                &&& forall|j: int| 0 <= j < k ==> #[trigger] targets[j] <= cursor
            },
        review::next_target(targets, cursor) is None ==> forall|j: int|
            0 <= j < targets.len() ==> #[trigger] targets[j] <= cursor,
    decreases targets.len(),
{
    if targets.len() > 0 {
        if targets[0] > cursor {
            assert(targets[0] == targets[0]);
        } else {
            let rest = targets.skip(1);
            next_targets_are_the_first(rest, cursor);
            if let Some(t) = review::next_target(targets, cursor) {
                let k = choose|k: int|
                    {
                        &&& 0 <= k < rest.len()
                        &&& #[trigger] rest[k] == t
                        &&& t > cursor
                        &&& forall|j: int| 0 <= j < k ==> #[trigger] rest[j] <= cursor
                    };
                assert(targets[k + 1] == t);
                assert forall|j: int| 0 <= j < k + 1 implies #[trigger] targets[j] <= cursor by {
                    if j > 0 {
                        assert(targets[j] == rest[j - 1]);
                    }
                }
            } else {
                assert forall|j: int| 0 <= j < targets.len() implies #[trigger] targets[j]
                    <= cursor by {
                    if j > 0 {
                        assert(targets[j] == rest[j - 1]);
                    }
                }
            }
        }
    }
}

/// A target behind the cursor is the last one of the list, and one is found
/// wherever there is one.
pub proof fn previous_targets_are_the_last(targets: Seq<int>, cursor: int)
    ensures
        review::prev_target(targets, cursor) matches Some(t) ==> exists|k: int|
            {
                &&& 0 <= k < targets.len()
                &&& #[trigger] targets[k] == t
                &&& t < cursor
                &&& forall|j: int| k < j < targets.len() ==> #[trigger] targets[j] >= cursor
            },
        review::prev_target(targets, cursor) is None ==> forall|j: int|
            0 <= j < targets.len() ==> #[trigger] targets[j] >= cursor,
    decreases targets.len(),
{
    if targets.len() > 0 {
        let n = targets.len() - 1;
        if targets[n] < cursor {
            assert(targets[n] == targets.last());
        } else {
            let front = targets.drop_last();
            previous_targets_are_the_last(front, cursor);
            if let Some(t) = review::prev_target(targets, cursor) {
                let k = choose|k: int|
                    {
                        &&& 0 <= k < front.len()
                        &&& #[trigger] front[k] == t
                        &&& t < cursor
                        &&& forall|j: int| k < j < front.len() ==> #[trigger] front[j] >= cursor
                    };
                assert(targets[k] == t);
                assert forall|j: int| k < j < targets.len() implies #[trigger] targets[j]
                    >= cursor by {
                    if j < n {
                        assert(targets[j] == front[j]);
                    }
                }
            } else {
                assert forall|j: int| 0 <= j < targets.len() implies #[trigger] targets[j]
                    >= cursor by {
                    if j < n {
                        assert(targets[j] == front[j]);
                    }
                }
            }
        }
    }
}

proof fn lemma_header_above(positions: Seq<int>, cursor: int)
    ensures
        review::header_above(positions, cursor) matches Some(k) ==> {
            &&& 0 <= k < positions.len()
            &&& positions[k] <= cursor
            &&& forall|j: int| k < j < positions.len() ==> #[trigger] positions[j] > cursor
        },
        review::header_above(positions, cursor) is None ==> forall|j: int|
            0 <= j < positions.len() ==> #[trigger] positions[j] > cursor,
    decreases positions.len(),
{
    if positions.len() > 0 && positions.last() > cursor {
        let front = positions.drop_last();
        lemma_header_above(front, cursor);
        assert forall|j: int|
            0 <= j < positions.len() && (review::header_above(positions, cursor) matches Some(k)
                ==> k < j) implies #[trigger] positions[j] > cursor by {
            if j < front.len() {
                assert(positions[j] == front[j]);
            }
        }
    }
}

/// Whether a row is a header of a kind.
pub open spec fn is_header(row: RowView, kind: HeaderKind) -> bool {
    match kind {
        HeaderKind::File => row is FileHeader,
        HeaderKind::Hunk => row is HunkHeader,
    }
}

proof fn lemma_headers(app: ReviewApp, kind: HeaderKind)
    requires
        app.wf(),
    ensures
        forall|k: int|
            0 <= k < app.headers(kind).len() ==> 0 <= #[trigger] app.headers(kind)[k]
                < app.rows@.len() && is_header(app.rows@[app.headers(kind)[k]]@, kind),
        forall|j: int, k: int|
            0 <= j < k < app.headers(kind).len() ==> app.headers(kind)[j] < app.headers(kind)[k],
        forall|i: int|
            0 <= i < app.rows@.len() && is_header(#[trigger] app.rows@[i]@, kind) ==> app.headers(
                kind,
            ).contains(i),
{
    let all = rows::diff_rows(app.diff@, app.mode);
    rows::file_positions_are_headers(all);
    rows::hunk_positions_are_headers(all);
    assert(rows::row_views(app.rows@) == all);
    assert(all.len() == app.rows@.len());
    assert forall|i: int| 0 <= i < app.rows@.len() implies #[trigger] app.rows@[i]@ == all[i] by {
        assert(rows::row_views(app.rows@)[i] == app.rows@[i]@);
    }
    assert forall|k: int| 0 <= k < app.headers(kind).len() implies 0 <= #[trigger] app.headers(
        kind,
    )[k] < app.rows@.len() && is_header(app.rows@[app.headers(kind)[k]]@, kind) by {
        let at = app.headers(kind)[k];
        assert(app.rows@[at]@ == all[at]);
    }
}

proof fn lemma_forward(app: ReviewApp, kind: HeaderKind)
    requires
        app.wf(),
    ensures
        review::next_target(app.headers(kind), app.cursor as int) matches Some(t) ==> {
            &&& app.cursor < t < app.rows@.len()
            &&& is_header(app.rows@[t]@, kind)
            &&& forall|i: int| app.cursor < i < t ==> !is_header(#[trigger] app.rows@[i]@, kind)
        },
        review::next_target(app.headers(kind), app.cursor as int) is None ==> forall|i: int|
            app.cursor < i < app.rows@.len() ==> !is_header(#[trigger] app.rows@[i]@, kind),
        review::prev_target(app.headers(kind), app.cursor as int) matches Some(t) ==> {
            &&& 0 <= t < app.cursor
            &&& is_header(app.rows@[t]@, kind)
            &&& forall|i: int| t < i < app.cursor ==> !is_header(#[trigger] app.rows@[i]@, kind)
        },
        review::prev_target(app.headers(kind), app.cursor as int) is None ==> forall|i: int|
            0 <= i < app.cursor ==> !is_header(#[trigger] app.rows@[i]@, kind),
{
    let targets = app.headers(kind);
    let cursor = app.cursor as int;
    lemma_headers(app, kind);
    next_targets_are_the_first(targets, cursor);
    previous_targets_are_the_last(targets, cursor);
    assert forall|i: int|
        cursor < i < app.rows@.len() && is_header(#[trigger] app.rows@[i]@, kind) implies (
    review::next_target(targets, cursor) matches Some(t) && t <= i) by {
        let at = choose|at: int| 0 <= at < targets.len() && targets[at] == i;
        assert(targets[at] > cursor);
        let t = review::next_target(targets, cursor)->0;
        let k = choose|k: int|
            {
                &&& 0 <= k < targets.len()
                &&& #[trigger] targets[k] == t
                &&& t > cursor
                &&& forall|j: int| 0 <= j < k ==> #[trigger] targets[j] <= cursor
            };
        assert(targets[k] == t);
        assert(!(at < k));
        if k < at {
            assert(targets[k] < targets[at]);
        }
    }
    assert forall|i: int| 0 <= i < cursor && i < app.rows@.len() && is_header(
        #[trigger] app.rows@[i]@,
        kind,
    ) implies (review::prev_target(targets, cursor) matches Some(t) && i <= t) by {
        let at = choose|at: int| 0 <= at < targets.len() && targets[at] == i;
        assert(targets[at] < cursor);
        let t = review::prev_target(targets, cursor)->0;
        let k = choose|k: int|
            {
                &&& 0 <= k < targets.len()
                &&& #[trigger] targets[k] == t
                &&& t < cursor
                &&& forall|j: int| k < j < targets.len() ==> #[trigger] targets[j] >= cursor
            };
        assert(targets[k] == t);
        assert(!(k < at));
        if at < k {
            assert(targets[at] < targets[k]);
        }
    }
}

/// Going to the next header of a kind moves the cursor down to the nearest such
/// row, and leaves it where there is none below. Nothing else changes.
pub proof fn next_headers_are_the_nearest(app: ReviewApp, next: ReviewApp, kind: HeaderKind)
    requires
        app.wf(),
        app.after(
            match kind {
                HeaderKind::File => Action::NextFile,
                HeaderKind::Hunk => Action::NextHunk,
            },
            next,
        ),
    ensures
        next.diff == app.diff && next.mode == app.mode && next.rows == app.rows,
        next.cursor == app.cursor || (app.cursor < next.cursor < app.rows@.len() && is_header(
            app.rows@[next.cursor as int]@,
            kind,
        )),
        forall|i: int|
            app.cursor < i < app.rows@.len() && is_header(#[trigger] app.rows@[i]@, kind)
                ==> app.cursor < next.cursor <= i,
{
    lemma_forward(app, kind);
}

/// Going to the previous header of a kind moves the cursor up to the nearest
/// such row, and leaves it where there is none above. Nothing else changes.
pub proof fn previous_headers_are_the_nearest(app: ReviewApp, next: ReviewApp, kind: HeaderKind)
    requires
        app.wf(),
        app.after(
            match kind {
                HeaderKind::File => Action::PrevFile,
                HeaderKind::Hunk => Action::PrevHunk,
            },
            next,
        ),
    ensures
        next.diff == app.diff && next.mode == app.mode && next.rows == app.rows,
        next.cursor == app.cursor || (next.cursor < app.cursor && is_header(
            app.rows@[next.cursor as int]@,
            kind,
        )),
        forall|i: int|
            0 <= i < app.cursor && is_header(#[trigger] app.rows@[i]@, kind) ==> i <= next.cursor
                < app.cursor,
{
    lemma_forward(app, kind);
}

/// The cursor goes to the first row and to the last one, and nothing else
/// changes.
pub proof fn ends_are_reached(app: ReviewApp, top: ReviewApp, bottom: ReviewApp)
    requires
        app.wf(),
        app.after(Action::GoToTop, top),
        app.after(Action::GoToBottom, bottom),
    ensures
        top.diff == app.diff && top.mode == app.mode && top.rows == app.rows,
        top.cursor == 0,
        bottom.diff == app.diff && bottom.mode == app.mode && bottom.rows == app.rows,
        app.rows@.len() > 0 ==> bottom.cursor == app.rows@.len() - 1,
        app.rows@.len() == 0 ==> bottom.cursor == 0,
{
}

proof fn lemma_prefix(all: Seq<RowView>, n: int)
    requires
        0 <= n <= all.len(),
    ensures
        ({
            let a = rows::file_header_positions(all.take(n));
            let b = rows::file_header_positions(all);
            &&& a.len() <= b.len()
            &&& forall|k: int| 0 <= k < a.len() ==> #[trigger] b[k] < n
            &&& forall|k: int| a.len() <= k < b.len() ==> #[trigger] b[k] >= n
        }),
    decreases all.len() - n,
{
    rows::file_positions_are_headers(all);
    if n == all.len() {
        assert(all.take(n) =~= all);
    } else {
        lemma_prefix(all, n + 1);
        let more = all.take(n + 1);
        assert(more.drop_last() =~= all.take(n));
        let a = rows::file_header_positions(all.take(n));
        let mid = rows::file_header_positions(more);
        let b = rows::file_header_positions(all);
        lemma_take(all, n + 1);
        if more.last() is FileHeader {
            assert(mid == a.push(n));
            assert(b[a.len() as int] == mid[a.len() as int]);
        }
        assert forall|k: int| 0 <= k < a.len() implies #[trigger] b[k] < n by {
            assert(mid[k] == a[k]);
            assert(b[k] == mid[k]);
            rows::file_positions_are_headers(all.take(n));
        }
        assert forall|k: int| a.len() <= k < b.len() implies #[trigger] b[k] >= n by {}
    }
}

proof fn lemma_take(all: Seq<RowView>, n: int)
    requires
        0 <= n <= all.len(),
    ensures
        rows::file_header_positions(all.take(n)).len() <= rows::file_header_positions(all).len(),
        forall|k: int|
            0 <= k < rows::file_header_positions(all.take(n)).len()
                ==> #[trigger] rows::file_header_positions(all)[k] == rows::file_header_positions(
                all.take(n),
            )[k],
    decreases all.len(),
{
    if n == all.len() {
        assert(all.take(n) =~= all);
    } else {
        lemma_take(all.drop_last(), n);
        assert(all.drop_last().take(n) =~= all.take(n));
    }
}

proof fn lemma_count(all: Seq<RowView>)
    ensures
        rows::file_header_positions(all).len() == all.filter(|row: RowView| row is FileHeader).len(),
    decreases all.len(),
{
    reveal(Seq::filter);
    if all.len() > 0 {
        lemma_count(all.drop_last());
    }
}

proof fn lemma_place(all: Seq<RowView>, cursor: int)
    requires
        0 <= cursor < all.len(),
    ensures
        match review::header_above(rows::file_header_positions(all), cursor) {
            Some(k) => all.take(cursor + 1).filter(|row: RowView| row is FileHeader).len() == k + 1,
            None => all.take(cursor + 1).filter(|row: RowView| row is FileHeader).len() == 0,
        },
{
    let positions = rows::file_header_positions(all);
    lemma_header_above(positions, cursor);
    lemma_prefix(all, cursor + 1);
    lemma_count(all.take(cursor + 1));
    let n = rows::file_header_positions(all.take(cursor + 1)).len() as int;
    match review::header_above(positions, cursor) {
        Some(k) => {
            assert(positions[k] < cursor + 1);
            if n <= k {
                assert(positions[k] >= cursor + 1);
            }
            if k + 1 < n {
                assert(positions[k + 1] < cursor + 1);
            }
        },
        None => {
            if n > 0 {
                assert(positions[0] < cursor + 1);
            }
        },
    }
}

/// Toggling changes to the other layout of the same diff. The cursor goes to the
/// header of the file that it was in: as many file headers stand up to there as
/// before. Above the first header it goes to the top.
pub proof fn toggling_goes_to_the_header(app: ReviewApp, next: ReviewApp)
    requires
        app.wf(),
        next.wf(),
        app.after(Action::ToggleView, next),
        app.rows@.len() > 0,
    ensures
        next.diff == app.diff,
        next.mode == match app.mode {
            ViewMode::Unified => ViewMode::Split,
            ViewMode::Split => ViewMode::Unified,
        },
        ({
            let before = rows::diff_rows(app.diff@, app.mode).take(app.cursor + 1).filter(
                |row: RowView| row is FileHeader,
            ).len();
            let after = rows::diff_rows(app.diff@, next.mode).take(next.cursor + 1).filter(
                |row: RowView| row is FileHeader,
            ).len();
            if before == 0 {
                next.cursor == 0
            } else {
                &&& after == before
                &&& next.cursor < next.rows@.len()
                &&& next.rows@[next.cursor as int]@ is FileHeader
            }
        }),
{
    let all = rows::diff_rows(app.diff@, app.mode);
    let other = rows::diff_rows(app.diff@, next.mode);
    assert(rows::row_views(app.rows@).len() == all.len());
    assert(rows::row_views(next.rows@).len() == other.len());
    lemma_place(all, app.cursor as int);
    rows::headers_follow_files(app.diff@, app.mode);
    rows::headers_follow_files(app.diff@, next.mode);
    rows::file_positions_are_headers(other);
    let positions = rows::file_header_positions(all);
    let places = rows::file_header_positions(other);
    lemma_header_above(positions, app.cursor as int);
    if let Some(k) = review::header_above(positions, app.cursor as int) {
        assert(places[k] == next.cursor);
        assert(rows::row_views(next.rows@)[next.cursor as int] is FileHeader);
        lemma_place(other, next.cursor as int);
        lemma_header_above(places, next.cursor as int);
        let j = review::header_above(places, next.cursor as int);
        assert(j is Some);
        if j->0 < k {
            assert(places[k] > next.cursor);
        }
        if k < j->0 {
            assert(places[k] < places[j->0]);
        }
    }
}

/// The rows and the header positions of an open diff are those of the diff in
/// its layout, and the cursor is on a row.
pub proof fn open_diffs_show_themselves(app: ReviewApp, i: int)
    requires
        app.wf(),
        0 <= i < app.rows@.len(),
    ensures
        app.rows@.len() == rows::diff_rows(app.diff@, app.mode).len(),
        app.rows@[i]@ == rows::diff_rows(app.diff@, app.mode)[i],
        app.cursor < app.rows@.len(),
        app.rows@[i]@ is FileHeader <==> exists|k: int|
            0 <= k < app.file_rows@.len() && #[trigger] app.file_rows@[k] == i,
        app.rows@[i]@ is HunkHeader <==> exists|k: int|
            0 <= k < app.hunk_rows@.len() && #[trigger] app.hunk_rows@[k] == i,
{
    let all = rows::diff_rows(app.diff@, app.mode);
    assert(rows::row_views(app.rows@) == all);
    assert(rows::row_views(app.rows@)[i] == app.rows@[i]@);
    rows::file_positions_are_headers(all);
    rows::hunk_positions_are_headers(all);
    let files = rows::file_header_positions(all);
    let hunks = rows::hunk_header_positions(all);
    assert(rows::ints(app.file_rows@) == files);
    assert(rows::ints(app.hunk_rows@) == hunks);
    if all[i] is FileHeader {
        assert(files.contains(i));
        let k = choose|k: int| 0 <= k < files.len() && files[k] == i;
        assert(app.file_rows@[k] == files[k]);
    }
    if all[i] is HunkHeader {
        assert(hunks.contains(i));
        let k = choose|k: int| 0 <= k < hunks.len() && hunks[k] == i;
        assert(app.hunk_rows@[k] == hunks[k]);
    }
    if exists|k: int| 0 <= k < app.file_rows@.len() && #[trigger] app.file_rows@[k] == i {
        let k = choose|k: int| 0 <= k < app.file_rows@.len() && #[trigger] app.file_rows@[k] == i;
        assert(rows::ints(app.file_rows@)[k] == i);
        assert(files[k] == i);
    }
    if exists|k: int| 0 <= k < app.hunk_rows@.len() && #[trigger] app.hunk_rows@[k] == i {
        let k = choose|k: int| 0 <= k < app.hunk_rows@.len() && #[trigger] app.hunk_rows@[k] == i;
        assert(rows::ints(app.hunk_rows@)[k] == i);
        assert(hunks[k] == i);
    }
}

/// A text without highlights is drawn plain, one with highlights with exactly
/// these ranges in the tint of changed words.
pub proof fn texts_are_drawn_whole(
    text: Seq<char>,
    intra: Seq<core::ops::Range<usize>>,
    tone: Tone,
    word: Option<Tone>,
)
    ensures
        paint::content_of(text, Seq::empty(), word) == ContentView::Plain(text),
        intra.len() > 0 ==> paint::content_of(text, intra, Some(tone))
            == (ContentView::Highlighted { text, ranges: intra, tone }),
{
}

/// How a line of each kind is drawn in the unified layout: its numbers, its
/// marker, its tint and its text. A number that it does not have leaves its
/// place empty.
pub proof fn lines_are_drawn_by_kind(
    old_no: Option<u32>,
    new_no: Option<u32>,
    text: Seq<char>,
    intra: Seq<core::ops::Range<usize>>,
)
    ensures
        ({
            let old_number = match old_no {
                Some(n) => number::decimal(n as nat),
                None => Seq::empty(),
            };
            let new_number = match new_no {
                Some(n) => number::decimal(n as nat),
                None => Seq::empty(),
            };
            &&& paint::row_look(
                RowView::Line { old_no, new_no, kind: LineKind::Context, text, intra: Seq::empty() },
            ) == (RowPaintView::Line {
                tint: None,
                old_number,
                new_number,
                marker: ""@,
                marker_tone: Tone::Overlay0,
                content: ContentView::Plain(text),
            })
            &&& paint::row_look(
                RowView::Line { old_no, new_no, kind: LineKind::Added, text, intra },
            ) == (RowPaintView::Line {
                tint: Some(Tone::AddedRow),
                old_number,
                new_number,
                marker: "+"@,
                marker_tone: Tone::Green,
                content: if intra.len() == 0 {
                    ContentView::Plain(text)
                } else {
                    ContentView::Highlighted { text, ranges: intra, tone: Tone::AddedWord }
                },
            })
            &&& paint::row_look(
                RowView::Line { old_no, new_no, kind: LineKind::Removed, text, intra },
            ) == (RowPaintView::Line {
                tint: Some(Tone::RemovedRow),
                old_number,
                new_number,
                marker: "−"@,
                marker_tone: Tone::Red,
                content: if intra.len() == 0 {
                    ContentView::Plain(text)
                } else {
                    ContentView::Highlighted { text, ranges: intra, tone: Tone::RemovedWord }
                },
            })
        }),
{
}

/// A side of a split row is drawn like the line alone: with the number of the
/// cell, and with the marker, tint and text that the unified layout gives to a
/// line of its kind. An empty side stays empty.
pub proof fn sides_are_drawn_like_lines(left: Option<CellView>, right: Option<CellView>)
    ensures
        paint::row_look(RowView::SplitLine { left, right }) is SplitLine,
        ({
            let drawn = paint::row_look(RowView::SplitLine { left, right });
            &&& drawn->left is Some <==> left is Some
            &&& drawn->right is Some <==> right is Some
            &&& left matches Some(cell) ==> is_drawn(drawn->left->0, cell)
            &&& right matches Some(cell) ==> is_drawn(drawn->right->0, cell)
        }),
{
}

/// A side shows a cell as the unified layout shows a line of its kind, text and
/// highlights under its number.
pub open spec fn is_drawn(side: SideView, cell: CellView) -> bool {
    paint::row_look(
        RowView::Line {
            old_no: Some(cell.no),
            new_no: None,
            kind: cell.kind,
            text: cell.text,
            intra: cell.intra,
        },
    ) == (RowPaintView::Line {
        tint: side.tint,
        old_number: side.number,
        new_number: Seq::empty(),
        marker: side.marker,
        marker_tone: side.marker_tone,
        content: side.content,
    })
}

/// How the other rows are drawn: the header of a file with its status, path,
/// counts and, of a renamed file, where it was; the header of a hunk with its
/// label; a note in place of a binary file.
pub proof fn other_rows_are_drawn(
    path: Seq<char>,
    old_path: Option<Seq<char>>,
    status: FileStatus,
    additions: u32,
    deletions: u32,
    label: Seq<char>,
)
    ensures
        paint::row_look(RowView::Spacer) == RowPaintView::Spacer,
        paint::row_look(RowView::HunkHeader { label }) == RowPaintView::HunkHeader(label),
        paint::row_look(RowView::Binary) == RowPaintView::Note("binary file changed"@),
        ({
            let (name, tone) = match status {
                FileStatus::Added => ("added"@, Tone::Green),
                FileStatus::Deleted => ("deleted"@, Tone::Red),
                FileStatus::Modified => ("modified"@, Tone::Blue),
                FileStatus::Renamed => ("renamed"@, Tone::Mauve),
                FileStatus::Binary => ("binary"@, Tone::Peach),
            };
            paint::row_look(RowView::FileHeader { path, old_path, status, additions, deletions })
                == (RowPaintView::FileHeader {
                status: name,
                status_tone: tone,
                path,
                origin: match old_path {
                    Some(old) => Some("← "@ + old),
                    None => None,
                },
                additions: "+"@ + number::decimal(additions as nat),
                deletions: "−"@ + number::decimal(deletions as nat),
            })
        }),
{
}

/// The states of a pull request that are known have a name and a color of their
/// own; another one is shown as it is.
pub proof fn states_are_drawn(state: Seq<char>)
    ensures
        paint::state_look("OPEN"@) == ("open"@, Tone::Green),
        paint::state_look("MERGED"@) == ("merged"@, Tone::Mauve),
        paint::state_look("CLOSED"@) == ("closed"@, Tone::Red),
        state != "OPEN"@ && state != "MERGED"@ && state != "CLOSED"@ ==> paint::state_look(state)
            == (state, Tone::Overlay0),
{
    reveal_strlit("OPEN");
    reveal_strlit("MERGED");
    reveal_strlit("CLOSED");
    assert("OPEN"@.len() == 4);
    assert("MERGED"@[0] == 'M');
    assert("CLOSED"@[0] == 'C');
}

/// The key of each action.
pub proof fn actions_have_their_keys()
    ensures
        paint::key_of(Action::NextFile) == seq![']'],
        paint::key_of(Action::PrevFile) == seq!['['],
        paint::key_of(Action::NextHunk) == seq!['n'],
        paint::key_of(Action::PrevHunk) == seq!['p'],
        paint::key_of(Action::GoToTop) == seq!['h', 'o', 'm', 'e'],
        paint::key_of(Action::GoToBottom) == seq!['e', 'n', 'd'],
        paint::key_of(Action::ToggleView) == seq!['v'],
{
    reveal_strlit("]");
    reveal_strlit("[");
    reveal_strlit("n");
    reveal_strlit("p");
    reveal_strlit("home");
    reveal_strlit("end");
    reveal_strlit("v");
}

} // verus!
