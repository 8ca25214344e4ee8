//! The state of an open diff: layout, rows and cursor, and how the keys move it.
use crate::rows;
use crate::rows::{build_rows, FileView, PrDiff, Row, ViewMode};
use vstd::prelude::*;

verus! {

/// Which headers a jump goes to.
#[derive(Clone, Copy, PartialEq, Eq, Debug, Structural)]
pub enum HeaderKind {
    File,
    Hunk,
}

/// What a key asks for.
#[derive(Clone, Copy, PartialEq, Eq, Debug, Structural)]
pub enum Action {
    NextFile,
    PrevFile,
    NextHunk,
    PrevHunk,
    GoToTop,
    GoToBottom,
    ToggleView,
}

/// An open diff.
pub struct ReviewApp {
    pub diff: PrDiff,
    pub mode: ViewMode,
    pub rows: Vec<Row>,
    pub file_rows: Vec<usize>,
    pub hunk_rows: Vec<usize>,
    pub cursor: usize,
}

/// The other layout.
pub open spec fn other_mode(mode: ViewMode) -> ViewMode {
    match mode {
        ViewMode::Unified => ViewMode::Split,
        ViewMode::Split => ViewMode::Unified,
    }
}

/// The first target behind the cursor.
pub open spec fn next_target(targets: Seq<int>, cursor: int) -> Option<int>
    decreases targets.len(),
{
    if targets.len() == 0 {
        None
    } else if targets[0] > cursor {
        Some(targets[0])
    } else {
        next_target(targets.skip(1), cursor)
    }
}

/// The last target before the cursor.
pub open spec fn prev_target(targets: Seq<int>, cursor: int) -> Option<int>
    decreases targets.len(),
{
    if targets.len() == 0 {
        None
    } else if targets.last() < cursor {
        Some(targets.last())
    } else {
        prev_target(targets.drop_last(), cursor)
    }
}

/// Which of the headers the cursor is under: the last one at or before it.
pub open spec fn header_above(positions: Seq<int>, cursor: int) -> Option<int>
    decreases positions.len(),
{
    if positions.len() == 0 {
        None
    } else if positions.last() <= cursor {
        Some(positions.len() - 1)
    } else {
        header_above(positions.drop_last(), cursor)
    }
}

/// The top of the file that the cursor is in, once the file headers stand at
/// `new_positions`.
pub open spec fn same_file(positions: Seq<int>, cursor: int, new_positions: Seq<int>) -> int {
    match header_above(positions, cursor) {
        Some(k) => if k < new_positions.len() {
            new_positions[k]
        } else {
            0
        },
        None => 0,
    }
}

fn find_next(targets: &Vec<usize>, cursor: usize) -> (r: Option<usize>)
    ensures
        match r {
            Some(ix) => next_target(rows::ints(targets@), cursor as int) == Some(ix as int),
            None => next_target(rows::ints(targets@), cursor as int) is None,
        },
{
    let ghost all = rows::ints(targets@);
    let mut i: usize = 0;
    assert(all.skip(0) =~= all);
    while i < targets.len()
        invariant
            i <= targets@.len(),
            all == rows::ints(targets@),
            next_target(all, cursor as int) == next_target(all.skip(i as int), cursor as int),
        decreases targets@.len() - i,
    {
        proof {
            assert(all.skip(i as int)[0] == targets@[i as int]);
            assert(all.skip(i as int).skip(1) =~= all.skip(i + 1));
        }
        if targets[i] > cursor {
            return Some(targets[i]);
        }
        i = i + 1;
    }
    assert(all.skip(i as int).len() == 0);
    None
}

fn find_prev(targets: &Vec<usize>, cursor: usize) -> (r: Option<usize>)
    ensures
        match r {
            Some(ix) => prev_target(rows::ints(targets@), cursor as int) == Some(ix as int),
            None => prev_target(rows::ints(targets@), cursor as int) is None,
        },
{
    let ghost all = rows::ints(targets@);
    let mut n: usize = targets.len();
    assert(all.take(n as int) =~= all);
    while n > 0
        invariant
            n <= targets@.len(),
            all == rows::ints(targets@),
            prev_target(all, cursor as int) == prev_target(all.take(n as int), cursor as int),
        decreases n,
    {
        proof {
            assert(all.take(n as int).last() == targets@[n - 1]);
            assert(all.take(n as int).drop_last() =~= all.take(n - 1));
        }
        if targets[n - 1] < cursor {
            return Some(targets[n - 1]);
        }
        n = n - 1;
    }
    assert(all.take(n as int).len() == 0);
    None
}

fn find_header_above(positions: &Vec<usize>, cursor: usize) -> (r: Option<usize>)
    ensures
        match r {
            Some(k) => header_above(rows::ints(positions@), cursor as int) == Some(k as int) && k
                < positions@.len(),
            None => header_above(rows::ints(positions@), cursor as int) is None,
        },
{
    let ghost all = rows::ints(positions@);
    let mut n: usize = positions.len();
    assert(all.take(n as int) =~= all);
    while n > 0
        invariant
            n <= positions@.len(),
            all == rows::ints(positions@),
            header_above(all, cursor as int) == header_above(all.take(n as int), cursor as int),
        decreases n,
    {
        proof {
            assert(all.take(n as int).last() == positions@[n - 1]);
            assert(all.take(n as int).drop_last() =~= all.take(n - 1));
        }
        if positions[n - 1] <= cursor {
            return Some(n - 1);
        }
        n = n - 1;
    }
    assert(all.take(n as int).len() == 0);
    None
}

/// A target that is found is one of the targets.
pub proof fn lemma_targets_are_targets(targets: Seq<int>, cursor: int)
    ensures
        next_target(targets, cursor) matches Some(t) ==> targets.contains(t) && t > cursor,
        prev_target(targets, cursor) matches Some(t) ==> targets.contains(t) && t < cursor,
    decreases targets.len(),
{
    if targets.len() > 0 {
        lemma_targets_are_targets(targets.skip(1), cursor);
        lemma_targets_are_targets(targets.drop_last(), cursor);
        assert(targets.contains(targets[0]));
        assert(targets.contains(targets.last()));
        if targets[0] <= cursor {
            if let Some(t) = next_target(targets.skip(1), cursor) {
                let k = choose|k: int| 0 <= k < targets.skip(1).len() && targets.skip(1)[k] == t;
                assert(targets[k + 1] == t);
            }
        }
        if targets.last() >= cursor {
            if let Some(t) = prev_target(targets.drop_last(), cursor) {
                let k = choose|k: int|
                    0 <= k < targets.drop_last().len() && targets.drop_last()[k] == t;
                assert(targets[k] == t);
            }
        }
    }
}

impl ReviewApp {
    /// The positions of the headers of a kind.
    pub open spec fn headers(self, kind: HeaderKind) -> Seq<int> {
        match kind {
            HeaderKind::File => rows::file_header_positions(rows::diff_rows(self.diff@, self.mode)),
            HeaderKind::Hunk => rows::hunk_header_positions(rows::diff_rows(self.diff@, self.mode)),
        }
    }

    /// The rows and the header positions are those of the diff in its layout,
    /// and the cursor is on a row (or at the top of an empty diff).
    pub open spec fn wf(self) -> bool {
        &&& rows::row_views(self.rows@) == rows::diff_rows(self.diff@, self.mode)
        &&& rows::ints(self.file_rows@) == self.headers(HeaderKind::File)
        &&& rows::ints(self.hunk_rows@) == self.headers(HeaderKind::Hunk)
        &&& self.cursor < self.rows@.len() || self.cursor == 0
    }

    /// Everything but the cursor stays.
    pub open spec fn same_but_cursor(self, other: Self) -> bool {
        &&& self.diff == other.diff
        &&& self.mode == other.mode
        &&& self.rows == other.rows
        &&& self.file_rows == other.file_rows
        &&& self.hunk_rows == other.hunk_rows
    }

    /// Open a diff in the unified layout, at the top.
    pub fn new(diff: PrDiff) -> (r: Self)
        ensures
            r.wf(),
            r.diff == diff,
            r.mode == ViewMode::Unified,
            r.cursor == 0,
    {
        let mode = ViewMode::Unified;
        let (rows, file_rows, hunk_rows) = build_rows(&diff, mode);
        ReviewApp { diff, mode, rows, file_rows, hunk_rows, cursor: 0 }
    }

    /// Put the cursor on a row.
    pub fn jump(&mut self, ix: usize)
        requires
            old(self).wf(),
            ix < old(self).rows@.len() || ix == 0,
        ensures
            final(self).wf(),
            final(self).same_but_cursor(*old(self)),
            final(self).cursor == ix,
    {
        self.cursor = ix;
    }

    proof fn lemma_headers_are_rows(self, kind: HeaderKind)
        requires
            self.wf(),
        ensures
            forall|t: int| self.headers(kind).contains(t) ==> 0 <= t < self.rows@.len(),
    {
        rows::file_positions_are_headers(rows::diff_rows(self.diff@, self.mode));
        rows::hunk_positions_are_headers(rows::diff_rows(self.diff@, self.mode));
        assert(rows::row_views(self.rows@).len() == self.rows@.len());
    }

    /// Move to the next header behind the cursor, if there is one.
    pub fn jump_next(&mut self, kind: HeaderKind)
        requires
            old(self).wf(),
        ensures
            final(self).wf(),
            final(self).same_but_cursor(*old(self)),
            final(self).cursor == match next_target(
                old(self).headers(kind),
                old(self).cursor as int,
            ) {
                Some(t) => t,
                None => old(self).cursor as int,
            },
    {
        let target = match kind {
            HeaderKind::File => find_next(&self.file_rows, self.cursor),
            HeaderKind::Hunk => find_next(&self.hunk_rows, self.cursor),
        };
        proof {
            self.lemma_headers_are_rows(kind);
            lemma_targets_are_targets(self.headers(kind), self.cursor as int);
        }
        if let Some(ix) = target {
            self.jump(ix);
        }
    }

    /// Move to the last header before the cursor, if there is one.
    pub fn jump_prev(&mut self, kind: HeaderKind)
        requires
            old(self).wf(),
        ensures
            final(self).wf(),
            final(self).same_but_cursor(*old(self)),
            final(self).cursor == match prev_target(
                old(self).headers(kind),
                old(self).cursor as int,
            ) {
                Some(t) => t,
                None => old(self).cursor as int,
            },
    {
        let target = match kind {
            HeaderKind::File => find_prev(&self.file_rows, self.cursor),
            HeaderKind::Hunk => find_prev(&self.hunk_rows, self.cursor),
        };
        proof {
            self.lemma_headers_are_rows(kind);
            lemma_targets_are_targets(self.headers(kind), self.cursor as int);
        }
        if let Some(ix) = target {
            self.jump(ix);
        }
    }

    /// Switch the layout and go to the top of the file that the cursor was in.
    pub fn toggle_view(&mut self)
        requires
            old(self).wf(),
        ensures
            final(self).wf(),
            final(self).diff == old(self).diff,
            final(self).mode == other_mode(old(self).mode),
            final(self).cursor == same_file(
                old(self).headers(HeaderKind::File),
                old(self).cursor as int,
                final(self).headers(HeaderKind::File),
            ),
    {
        let file_pos = find_header_above(&self.file_rows, self.cursor);
        self.mode = match self.mode {
            ViewMode::Unified => ViewMode::Split,
            ViewMode::Split => ViewMode::Unified,
        };
        let (rows, file_rows, hunk_rows) = build_rows(&self.diff, self.mode);
        self.rows = rows;
        self.file_rows = file_rows;
        self.hunk_rows = hunk_rows;
        let mut target: usize = 0;
        if let Some(pos) = file_pos {
            if pos < self.file_rows.len() {
                target = self.file_rows[pos];
                proof {
                    let positions = self.headers(HeaderKind::File);
                    assert(positions[pos as int] == target);
                    rows::file_positions_are_headers(rows::diff_rows(self.diff@, self.mode));
                    assert(rows::row_views(self.rows@).len() == self.rows@.len());
                }
            }
        }
        self.cursor = target;
    }

    /// Go to the last row.
    pub fn go_to_bottom(&mut self)
        requires
            old(self).wf(),
        ensures
            final(self).wf(),
            final(self).same_but_cursor(*old(self)),
            final(self).cursor == if old(self).rows@.len() == 0 {
                0
            } else {
                old(self).rows@.len() - 1
            },
    {
        let last: usize = self.rows.len().saturating_sub(1);
        self.jump(last);
    }

    /// The state after an action.
    pub open spec fn after(self, action: Action, next: Self) -> bool {
        match action {
            Action::NextFile => next.same_but_cursor(self) && next.cursor == match next_target(
                self.headers(HeaderKind::File),
                self.cursor as int,
            ) {
                Some(t) => t,
                None => self.cursor as int,
            },
            Action::PrevFile => next.same_but_cursor(self) && next.cursor == match prev_target(
                self.headers(HeaderKind::File),
                self.cursor as int,
            ) {
                Some(t) => t,
                None => self.cursor as int,
            },
            Action::NextHunk => next.same_but_cursor(self) && next.cursor == match next_target(
                self.headers(HeaderKind::Hunk),
                self.cursor as int,
            ) {
                Some(t) => t,
                None => self.cursor as int,
            },
            Action::PrevHunk => next.same_but_cursor(self) && next.cursor == match prev_target(
                self.headers(HeaderKind::Hunk),
                self.cursor as int,
            ) {
                Some(t) => t,
                None => self.cursor as int,
            },
            Action::GoToTop => next.same_but_cursor(self) && next.cursor == 0,
            Action::GoToBottom => next.same_but_cursor(self) && next.cursor == if self.rows@.len()
                == 0 {
                0
            } else {
                self.rows@.len() - 1
            },
            Action::ToggleView => {
                &&& next.diff == self.diff
                &&& next.mode == other_mode(self.mode)
                &&& next.cursor == same_file(
                    self.headers(HeaderKind::File),
                    self.cursor as int,
                    next.headers(HeaderKind::File),
                )
            },
        }
    }

    /// Do what a key asks for.
    pub fn apply(&mut self, action: Action)
        requires
            old(self).wf(),
        ensures
            final(self).wf(),
            old(self).after(action, *final(self)),
    {
        match action {
            Action::NextFile => self.jump_next(HeaderKind::File),
            Action::PrevFile => self.jump_prev(HeaderKind::File),
            Action::NextHunk => self.jump_next(HeaderKind::Hunk),
            Action::PrevHunk => self.jump_prev(HeaderKind::Hunk),
            Action::GoToTop => self.jump(0),
            Action::GoToBottom => self.go_to_bottom(),
            Action::ToggleView => self.toggle_view(),
        }
    }
}

/// The header above a header is that header itself.
proof fn lemma_header_above_header(positions: Seq<int>, k: int)
    requires
        0 <= k < positions.len(),
        forall|i: int, j: int| 0 <= i < j < positions.len() ==> positions[i] < positions[j],
    ensures
        header_above(positions, positions[k]) == Some(k),
    decreases positions.len(),
{
    if k < positions.len() - 1 {
        assert(positions[k] < positions[positions.len() - 1]);
        lemma_header_above_header(positions.drop_last(), k);
        assert(positions.drop_last()[k] == positions[k]);
    }
}

proof fn lemma_header_above_bounds(positions: Seq<int>, cursor: int)
    ensures
        header_above(positions, cursor) matches Some(k) ==> 0 <= k < positions.len(),
        header_above(positions, cursor) is None && positions.len() > 0 ==> positions[0] > cursor,
    decreases positions.len(),
{
    if positions.len() > 0 {
        lemma_header_above_bounds(positions.drop_last(), cursor);
    }
}

/// Switching the layout keeps the reader in the file they were in: the header
/// above the cursor belongs to the same file before and after.
pub proof fn toggling_stays_in_the_file(app: ReviewApp, next: ReviewApp)
    requires
        app.wf(),
        app.after(Action::ToggleView, next),
    ensures
        header_above(next.headers(HeaderKind::File), next.cursor as int) == header_above(
            app.headers(HeaderKind::File),
            app.cursor as int,
        ),
{
    let before = app.headers(HeaderKind::File);
    let after = next.headers(HeaderKind::File);
    rows::headers_follow_files(app.diff@, app.mode);
    rows::headers_follow_files(app.diff@, next.mode);
    rows::file_positions_are_headers(rows::diff_rows(app.diff@, app.mode));
    rows::file_positions_are_headers(rows::diff_rows(app.diff@, next.mode));
    assert(before.len() == after.len());
    lemma_header_above_bounds(before, app.cursor as int);
    match header_above(before, app.cursor as int) {
        Some(k) => {
            lemma_header_above_header(after, k);
        },
        None => {
            if before.len() > 0 {
                lemma_first_header(app.diff@, app.mode);
            }
        },
    }
}

proof fn lemma_first_header(files: Seq<FileView>, mode: ViewMode)
    requires
        files.len() > 0,
    ensures
        rows::file_header_positions(rows::diff_rows(files, mode)).len() > 0,
        rows::file_header_positions(rows::diff_rows(files, mode))[0] == 0,
{
    rows::headers_follow_files(files, mode);
    rows::file_positions_are_headers(rows::diff_rows(files, mode));
    lemma_first_row(files, mode);
    let positions = rows::file_header_positions(rows::diff_rows(files, mode));
    assert(positions.contains(0));
    let k = choose|k: int| 0 <= k < positions.len() && positions[k] == 0;
    if k > 0 {
        assert(positions[0] < positions[k]);
    }
}

proof fn lemma_first_row(files: Seq<FileView>, mode: ViewMode)
    requires
        files.len() > 0,
    ensures
        rows::diff_rows(files, mode).len() > 0,
        rows::diff_rows(files, mode)[0] is FileHeader,
    decreases files.len(),
{
    if files.len() > 1 {
        lemma_first_row(files.drop_last(), mode);
    }
}

/// Switching the layout twice gives the rows back, with the cursor on the
/// header of the file it was in.
pub proof fn toggling_twice_returns(app: ReviewApp, mid: ReviewApp, end: ReviewApp)
    requires
        app.wf(),
        mid.wf(),
        end.wf(),
        app.after(Action::ToggleView, mid),
        mid.after(Action::ToggleView, end),
    ensures
        end.mode == app.mode,
        rows::row_views(end.rows@) == rows::row_views(app.rows@),
        end.cursor == same_file(
            app.headers(HeaderKind::File),
            app.cursor as int,
            app.headers(HeaderKind::File),
        ),
{
    toggling_stays_in_the_file(app, mid);
}

/// Stepping forward from one header lands on the following one, and stepping
/// back from there returns.
pub proof fn stepping_back_returns(app: ReviewApp, kind: HeaderKind, k: int)
    requires
        app.wf(),
        0 <= k,
        k + 1 < app.headers(kind).len(),
    ensures
        next_target(app.headers(kind), app.headers(kind)[k]) == Some(app.headers(kind)[k + 1]),
        prev_target(app.headers(kind), app.headers(kind)[k + 1]) == Some(app.headers(kind)[k]),
{
    let targets = app.headers(kind);
    rows::file_positions_are_headers(rows::diff_rows(app.diff@, app.mode));
    rows::hunk_positions_are_headers(rows::diff_rows(app.diff@, app.mode));
    lemma_next_is(targets, targets[k], k + 1);
    lemma_prev_is(targets, targets[k + 1], k);
}

proof fn lemma_next_is(targets: Seq<int>, cursor: int, k: int)
    requires
        0 <= k < targets.len(),
        targets[k] > cursor,
        forall|i: int| 0 <= i < k ==> targets[i] <= cursor,
    ensures
        next_target(targets, cursor) == Some(targets[k]),
    decreases k,
{
    if k > 0 {
        assert(targets[0] <= cursor);
        lemma_next_is(targets.skip(1), cursor, k - 1);
    }
}

proof fn lemma_prev_is(targets: Seq<int>, cursor: int, k: int)
    requires
        0 <= k < targets.len(),
        targets[k] < cursor,
        forall|i: int| k < i < targets.len() ==> targets[i] >= cursor,
    ensures
        prev_target(targets, cursor) == Some(targets[k]),
    decreases targets.len(),
{
    if k < targets.len() - 1 {
        assert(targets.last() >= cursor);
        lemma_prev_is(targets.drop_last(), cursor, k);
    }
}

} // verus!
