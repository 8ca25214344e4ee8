//! How rows, the title bar and the key hints look: texts and colors, without
//! the toolkit that draws them.
use crate::number;
use crate::number::decimal_text;
use crate::review::{Action, ReviewApp};
use crate::rows;
use crate::rows::{copy_ranges, Cell, CellView, FileStatus, LineKind, Row, RowView};
use crate::text;
use crate::text::same_text;
use std::ops::Range;
use vstd::prelude::*;
use vstd::string::*;

verus! {

/// The colors that a theme has.
#[derive(Clone, Copy, PartialEq, Eq, Debug, Structural)]
pub enum Tone {
    Text,
    Subtext,
    Overlay0,
    Green,
    Red,
    Blue,
    Mauve,
    Peach,
    AddedRow,
    AddedWord,
    RemovedRow,
    RemovedWord,
}

/// Per-kind row tint, word-highlight tint, gutter marker, and marker color.
pub struct KindStyle {
    pub row: Option<Tone>,
    pub word: Option<Tone>,
    pub marker: &'static str,
    pub marker_tone: Tone,
}

/// The model of a [`KindStyle`].
pub struct KindStyleView {
    pub row: Option<Tone>,
    pub word: Option<Tone>,
    pub marker: Seq<char>,
    pub marker_tone: Tone,
}

/// How lines of a kind look. Only changed lines have a word tint.
pub open spec fn style_of(kind: LineKind) -> KindStyleView {
    match kind {
        LineKind::Context => KindStyleView {
            row: None,
            word: None,
            marker: ""@,
            marker_tone: Tone::Overlay0,
        },
        LineKind::Added => KindStyleView {
            row: Some(Tone::AddedRow),
            word: Some(Tone::AddedWord),
            marker: "+"@,
            marker_tone: Tone::Green,
        },
        LineKind::Removed => KindStyleView {
            row: Some(Tone::RemovedRow),
            word: Some(Tone::RemovedWord),
            marker: "−"@,
            marker_tone: Tone::Red,
        },
    }
}

/// How lines of a kind look.
pub fn kind_style(kind: LineKind) -> (r: KindStyle)
    ensures
        r.row == style_of(kind).row,
        r.word == style_of(kind).word,
        r.marker@ == style_of(kind).marker,
        r.marker_tone == style_of(kind).marker_tone,
{
    match kind {
        LineKind::Context => KindStyle {
            row: None,
            word: None,
            marker: "",
            marker_tone: Tone::Overlay0,
        },
        LineKind::Added => KindStyle {
            row: Some(Tone::AddedRow),
            word: Some(Tone::AddedWord),
            marker: "+",
            marker_tone: Tone::Green,
        },
        LineKind::Removed => KindStyle {
            row: Some(Tone::RemovedRow),
            word: Some(Tone::RemovedWord),
            marker: "−",
            marker_tone: Tone::Red,
        },
    }
}

/// The text of a line.
pub enum LineContent {
    Plain(String),
    /// With word-level highlights.
    Highlighted { text: String, ranges: Vec<Range<usize>>, tone: Tone },
}

/// The model of a [`LineContent`].
pub enum ContentView {
    Plain(Seq<char>),
    Highlighted { text: Seq<char>, ranges: Seq<Range<usize>>, tone: Tone },
}

impl View for LineContent {
    type V = ContentView;

    open spec fn view(&self) -> ContentView {
        match *self {
            LineContent::Plain(s) => ContentView::Plain(s@),
            LineContent::Highlighted { text, ranges, tone } => ContentView::Highlighted {
                text: text@,
                ranges: ranges@,
                tone,
            },
        }
    }
}

/// Line text with word-level highlight ranges.
pub open spec fn content_of(
    text: Seq<char>,
    intra: Seq<Range<usize>>,
    word: Option<Tone>,
) -> ContentView {
    if intra.len() == 0 {
        ContentView::Plain(text)
    } else {
        ContentView::Highlighted { text, ranges: intra, tone: word->0 }
    }
}

/// Line text with word-level highlight ranges, shared by unified rows and
/// split cells.
pub fn line_content(text: &String, intra: &Vec<Range<usize>>, word: Option<Tone>) -> (r:
    LineContent)
    requires
        intra@.len() > 0 ==> word is Some,
    ensures
        r@ == content_of(text@, intra@, word),
{
    if intra.len() == 0 {
        LineContent::Plain(text.clone())
    } else {
        LineContent::Highlighted {
            text: text.clone(),
            ranges: copy_ranges(intra),
            tone: word.unwrap(),
        }
    }
}

/// One side of a split row, painted.
pub struct SidePaint {
    pub tint: Option<Tone>,
    pub number: String,
    pub marker: &'static str,
    pub marker_tone: Tone,
    pub content: LineContent,
}

/// The model of a [`SidePaint`].
pub struct SideView {
    pub tint: Option<Tone>,
    pub number: Seq<char>,
    pub marker: Seq<char>,
    pub marker_tone: Tone,
    pub content: ContentView,
}

impl View for SidePaint {
    type V = SideView;

    open spec fn view(&self) -> SideView {
        SideView {
            tint: self.tint,
            number: self.number@,
            marker: self.marker@,
            marker_tone: self.marker_tone,
            content: self.content@,
        }
    }
}

/// The model of a side that may be empty.
pub open spec fn opt_side(side: Option<SidePaint>) -> Option<SideView> {
    match side {
        Some(s) => Some(s@),
        None => None,
    }
}

/// How one side of a split row looks.
pub open spec fn side_of(cell: Option<CellView>) -> Option<SideView> {
    match cell {
        Some(c) => Some(
            SideView {
                tint: style_of(c.kind).row,
                number: number::decimal(c.no as nat),
                marker: style_of(c.kind).marker,
                marker_tone: style_of(c.kind).marker_tone,
                content: content_of(c.text, c.intra, style_of(c.kind).word),
            },
        ),
        None => None,
    }
}

/// How a row looks.
pub enum RowPaint {
    Spacer,
    FileHeader {
        status: &'static str,
        status_tone: Tone,
        path: String,
        /// Where a renamed file comes from.
        origin: Option<String>,
        additions: String,
        deletions: String,
    },
    HunkHeader(String),
    Note(&'static str),
    Line {
        tint: Option<Tone>,
        old_number: String,
        new_number: String,
        marker: &'static str,
        marker_tone: Tone,
        content: LineContent,
    },
    SplitLine { left: Option<SidePaint>, right: Option<SidePaint> },
}

/// The model of a [`RowPaint`].
pub enum RowPaintView {
    Spacer,
    FileHeader {
        status: Seq<char>,
        status_tone: Tone,
        path: Seq<char>,
        origin: Option<Seq<char>>,
        additions: Seq<char>,
        deletions: Seq<char>,
    },
    HunkHeader(Seq<char>),
    Note(Seq<char>),
    Line {
        tint: Option<Tone>,
        old_number: Seq<char>,
        new_number: Seq<char>,
        marker: Seq<char>,
        marker_tone: Tone,
        content: ContentView,
    },
    SplitLine { left: Option<SideView>, right: Option<SideView> },
}

impl View for RowPaint {
    type V = RowPaintView;

    open spec fn view(&self) -> RowPaintView {
        match *self {
            RowPaint::Spacer => RowPaintView::Spacer,
            RowPaint::FileHeader { status, status_tone, path, origin, additions, deletions } =>
                RowPaintView::FileHeader {
                status: status@,
                status_tone,
                path: path@,
                origin: text::opt_text(origin),
                additions: additions@,
                deletions: deletions@,
            },
            RowPaint::HunkHeader(label) => RowPaintView::HunkHeader(label@),
            RowPaint::Note(note) => RowPaintView::Note(note@),
            RowPaint::Line { tint, old_number, new_number, marker, marker_tone, content } =>
                RowPaintView::Line {
                tint,
                old_number: old_number@,
                new_number: new_number@,
                marker: marker@,
                marker_tone,
                content: content@,
            },
            RowPaint::SplitLine { left, right } => RowPaintView::SplitLine {
                left: opt_side(left),
                right: opt_side(right),
            },
        }
    }
}

/// The name and the color of a file status.
pub open spec fn status_look(status: FileStatus) -> (Seq<char>, Tone) {
    match status {
        FileStatus::Added => ("added"@, Tone::Green),
        FileStatus::Deleted => ("deleted"@, Tone::Red),
        FileStatus::Modified => ("modified"@, Tone::Blue),
        FileStatus::Renamed => ("renamed"@, Tone::Mauve),
        FileStatus::Binary => ("binary"@, Tone::Peach),
    }
}

/// The name and the color of a file status.
pub fn status_style(status: FileStatus) -> (r: (&'static str, Tone))
    ensures
        (r.0@, r.1) == status_look(status),
{
    match status {
        FileStatus::Added => ("added", Tone::Green),
        FileStatus::Deleted => ("deleted", Tone::Red),
        FileStatus::Modified => ("modified", Tone::Blue),
        FileStatus::Renamed => ("renamed", Tone::Mauve),
        FileStatus::Binary => ("binary", Tone::Peach),
    }
}

/// A line number that may be missing.
pub open spec fn number_text(no: Option<u32>) -> Seq<char> {
    match no {
        Some(n) => number::decimal(n as nat),
        None => Seq::empty(),
    }
}

fn number_string(no: Option<u32>) -> (r: String)
    ensures
        r@ == number_text(no),
{
    match no {
        Some(n) => decimal_text(n as u64),
        None => String::new(),
    }
}

fn counted(sign: &str, n: u32) -> (r: String)
    ensures
        r@ == sign@ + number::decimal(n as nat),
{
    let mut out = sign.to_owned();
    out.append(decimal_text(n as u64).as_str());
    out
}

/// How a row looks.
pub open spec fn row_look(row: RowView) -> RowPaintView {
    match row {
        RowView::Spacer => RowPaintView::Spacer,
        RowView::FileHeader { path, old_path, status, additions, deletions } =>
            RowPaintView::FileHeader {
            status: status_look(status).0,
            status_tone: status_look(status).1,
            path,
            origin: match old_path {
                Some(old) => Some("← "@ + old),
                None => None,
            },
            additions: "+"@ + number::decimal(additions as nat),
            deletions: "−"@ + number::decimal(deletions as nat),
        },
        RowView::HunkHeader { label } => RowPaintView::HunkHeader(label),
        RowView::Binary => RowPaintView::Note("binary file changed"@),
        RowView::Line { old_no, new_no, kind, text, intra } => RowPaintView::Line {
            tint: style_of(kind).row,
            old_number: number_text(old_no),
            new_number: number_text(new_no),
            marker: style_of(kind).marker,
            marker_tone: style_of(kind).marker_tone,
            content: content_of(text, intra, style_of(kind).word),
        },
        RowView::SplitLine { left, right } => RowPaintView::SplitLine {
            left: side_of(left),
            right: side_of(right),
        },
    }
}

fn paint_side(cell: &Option<Cell>) -> (r: Option<SidePaint>)
    requires
        rows::cell_highlights_changed(rows::side_view(*cell)),
    ensures
        opt_side(r) == side_of(rows::side_view(*cell)),
{
    match cell {
        Some(cell) => {
            let style = kind_style(cell.kind);
            Some(
                SidePaint {
                    tint: style.row,
                    number: decimal_text(cell.no as u64),
                    marker: style.marker,
                    marker_tone: style.marker_tone,
                    content: line_content(&cell.text, &cell.intra, style.word),
                },
            )
        },
        None => None,
    }
}

/// How a row looks that highlights words on changed lines only.
pub fn paint_row(row: &Row) -> (r: RowPaint)
    requires
        rows::highlights_changed(row@),
    ensures
        r@ == row_look(row@),
{
    match row {
        Row::Spacer => RowPaint::Spacer,
        Row::FileHeader { path, old_path, status, additions, deletions } => {
            let (name, tone) = status_style(*status);
            let origin = match old_path {
                Some(old) => {
                    let mut out = "← ".to_owned();
                    out.append(old.as_str());
                    Some(out)
                },
                None => None,
            };
            RowPaint::FileHeader {
                status: name,
                status_tone: tone,
                path: path.clone(),
                origin,
                additions: counted("+", *additions),
                deletions: counted("−", *deletions),
            }
        },
        Row::HunkHeader { label } => RowPaint::HunkHeader(label.clone()),
        Row::Binary => RowPaint::Note("binary file changed"),
        Row::Line { old_no, new_no, kind, text, intra } => {
            let style = kind_style(*kind);
            RowPaint::Line {
                tint: style.row,
                old_number: number_string(*old_no),
                new_number: number_string(*new_no),
                marker: style.marker,
                marker_tone: style.marker_tone,
                content: line_content(text, intra, style.word),
            }
        },
        Row::SplitLine { left, right } => RowPaint::SplitLine {
            left: paint_side(left),
            right: paint_side(right),
        },
    }
}

impl ReviewApp {
    /// How a row of an open diff looks.
    pub fn render_row(&self, ix: usize) -> (r: RowPaint)
        requires
            self.wf(),
            ix < self.rows@.len(),
        ensures
            r@ == row_look(rows::diff_rows(self.diff@, self.mode)[ix as int]),
    {
        proof {
            rows::highlights_only_on_changes(self.diff@, self.mode);
            let all = rows::row_views(self.rows@);
            assert(all[ix as int] == self.rows@[ix as int]@);
        }
        paint_row(&self.rows[ix])
    }
}

/// What a title bar shows of a pull request.
#[derive(Debug)]
pub struct PrMeta {
    pub number: u64,
    pub title: String,
    pub state: String,
    pub author: String,
    pub base_ref_name: String,
    pub head_ref_name: String,
    pub additions: u64,
    pub deletions: u64,
    pub url: String,
}

/// The name and the color of the state of a pull request.
pub open spec fn state_look(state: Seq<char>) -> (Seq<char>, Tone) {
    if state == "OPEN"@ {
        ("open"@, Tone::Green)
    } else if state == "MERGED"@ {
        ("merged"@, Tone::Mauve)
    } else if state == "CLOSED"@ {
        ("closed"@, Tone::Red)
    } else {
        (state, Tone::Overlay0)
    }
}

/// The texts of a title bar.
pub struct TitlePaint {
    pub state: String,
    pub state_tone: Tone,
    pub title: String,
    pub number: String,
    pub author: String,
    pub branches: String,
    pub additions: String,
    pub deletions: String,
}

fn two(a: &str, b: &str) -> (r: String)
    ensures
        r@ == a@ + b@,
{
    let mut out = a.to_owned();
    out.append(b);
    out
}

/// The title bar of a pull request.
pub fn render_titlebar(meta: &PrMeta) -> (r: TitlePaint)
    ensures
        (r.state@, r.state_tone) == state_look(meta.state@),
        r.title@ == meta.title@,
        r.number@ == "#"@ + number::decimal(meta.number as nat),
        r.author@ == "by "@ + meta.author@,
        r.branches@ == meta.base_ref_name@ + " ← "@ + meta.head_ref_name@,
        r.additions@ == "+"@ + number::decimal(meta.additions as nat),
        r.deletions@ == "−"@ + number::decimal(meta.deletions as nat),
{
    let state = meta.state.as_str();
    let (name, tone) = if same_text(state, "OPEN") {
        ("open", Tone::Green)
    } else if same_text(state, "MERGED") {
        ("merged", Tone::Mauve)
    } else if same_text(state, "CLOSED") {
        ("closed", Tone::Red)
    } else {
        (state, Tone::Overlay0)
    };
    let base = two(meta.base_ref_name.as_str(), " ← ");
    TitlePaint {
        state: name.to_owned(),
        state_tone: tone,
        title: meta.title.clone(),
        number: two("#", decimal_text(meta.number).as_str()),
        author: two("by ", meta.author.as_str()),
        branches: two(base.as_str(), meta.head_ref_name.as_str()),
        additions: two("+", decimal_text(meta.additions).as_str()),
        deletions: two("−", decimal_text(meta.deletions).as_str()),
    }
}

/// The title of the window that shows a pull request.
pub fn window_title(repo_slug: &str, number: u64, title: &str) -> (r: String)
    ensures
        r@ == "review — "@ + repo_slug@ + "#"@ + number::decimal(number as nat) + ": "@ + title@,
{
    let mut out = "review — ".to_owned();
    out.append(repo_slug);
    out.append("#");
    out.append(decimal_text(number).as_str());
    out.append(": ");
    out.append(title);
    out
}

/// The key that asks for something.
pub open spec fn key_of(action: Action) -> Seq<char> {
    match action {
        Action::NextFile => "]"@,
        Action::PrevFile => "["@,
        Action::NextHunk => "n"@,
        Action::PrevHunk => "p"@,
        Action::GoToTop => "home"@,
        Action::GoToBottom => "end"@,
        Action::ToggleView => "v"@,
    }
}

/// The key that asks for something.
pub fn key_for(action: Action) -> (r: &'static str)
    ensures
        r@ == key_of(action),
{
    match action {
        Action::NextFile => "]",
        Action::PrevFile => "[",
        Action::NextHunk => "n",
        Action::PrevHunk => "p",
        Action::GoToTop => "home",
        Action::GoToBottom => "end",
        Action::ToggleView => "v",
    }
}

/// No two actions share a key.
pub proof fn keys_are_distinct(a: Action, b: Action)
    requires
        a != b,
    ensures
        key_of(a) != key_of(b),
{
    reveal_strlit("]");
    reveal_strlit("[");
    reveal_strlit("n");
    reveal_strlit("p");
    reveal_strlit("home");
    reveal_strlit("end");
    reveal_strlit("v");
    assert("]"@.len() == 1 && "]"@[0] == ']');
    assert("["@.len() == 1 && "["@[0] == '[');
    assert("n"@.len() == 1 && "n"@[0] == 'n');
    assert("p"@.len() == 1 && "p"@[0] == 'p');
    assert("v"@.len() == 1 && "v"@[0] == 'v');
    assert("home"@.len() == 4);
    assert("end"@.len() == 3);
}

} // verus!
