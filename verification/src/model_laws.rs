//! The models of what goes in and comes out hold every field of it.
use vstd::prelude::*;

use crate::base_refs;
use crate::base_refs::BaseRefs;
use crate::chat;
use crate::chat::{ChatEvent, ChatOptions};
use crate::files;
use crate::git;
use crate::git::{DirView, Failure, GitCommand, Outcome, OutcomeView, Step, StepView, WorkDir};
use crate::lsp::{LspError, LspProgress};
use crate::lsp;
use crate::paint;
use crate::paint::{ContentView, LineContent, RowPaint, RowPaintView, SidePaint, Tone};
use crate::patch;
use crate::patch::PatchRun;
use crate::resolve;
use crate::resolve::{LocalSource, Resolution};
use crate::rows;
use crate::rows::{Cell, FileDiff, LineKind, PrDiff, Row};
use crate::rpc;
use crate::ssh;
use crate::ssh::{SshError, SshProfile};
use crate::symbols;
use crate::symbols::{DefinitionTarget, HoverResult, LspPosition};

verus! {

/// The model of a command is where it runs and all its arguments in order.
pub proof fn commands_are_modeled_whole(command: GitCommand, none: Option<GitCommand>)
    ensures
        command@.args == command.args@.map_values(|arg: String| arg@),
        command.dir is Start ==> command@.dir == DirView::Start,
        command.dir matches WorkDir::Repo(root) ==> command@.dir == DirView::Repo(root@),
        files::opt_command(Some(command)) == Some(command@),
        none is None ==> files::opt_command(none) is None,
{
    assert(command@.args =~= command.args@.map_values(|arg: String| arg@));
}

/// The model of an outcome is how the command ended and what it wrote, or why it
/// did not run; that of a failure is all its messages in order.
pub proof fn outcomes_are_modeled_whole(outcome: Outcome, failure: Failure, r: Result<String, Failure>)
    ensures
        outcome matches Outcome::Ran { success, code, stdout, stderr } ==> outcome@
            == (OutcomeView::Ran { success, code, stdout: stdout@, stderr: stderr@ }),
        outcome matches Outcome::NotRun(reasons) ==> outcome@ == OutcomeView::NotRun(
            reasons@.map_values(|s: String| s@),
        ),
        failure@ == failure.messages@.map_values(|s: String| s@),
        r matches Ok(s) ==> git::text_result(r) == Ok::<_, Seq<Seq<char>>>(s@),
        r matches Err(err) ==> git::text_result(r) == Err::<Seq<char>, _>(err@),
{
    if let Outcome::NotRun(reasons) = outcome {
        assert(outcome@->NotRun_0 =~= reasons@.map_values(|s: String| s@));
    }
    assert(failure@ =~= failure.messages@.map_values(|s: String| s@));
}

/// The model of a source is its root, branch, chosen base, label and oid.
pub proof fn sources_are_modeled_whole(source: LocalSource)
    ensures
        source@.repo_root == source.repo_root@,
        source@.branch == source.branch@,
        source@.base_ref == match source.base_ref {
            Some(s) => Some(s@),
            None => None,
        },
        source@.base_label == source.base_label@,
        source@.base_oid == match source.base_oid {
            Some(s) => Some(s@),
            None => None,
        },
{
}

/// The models of steps tell whether a task goes on, is done or has failed, and
/// with what.
pub proof fn steps_are_modeled_whole(
    resolving: Step<Resolution, LocalSource>,
    listing: Step<BaseRefs, Vec<String>>,
    patching: Step<PatchRun, String>,
)
    ensures
        resolve::resolve_step(resolving) == match resolving {
            Step::Run(task) => StepView::Run(task@),
            Step::Done(source) => StepView::Done(source@),
            Step::Failed(failure) => StepView::Failed(failure@),
        },
        base_refs::list_step(listing) == match listing {
            Step::Run(task) => StepView::Run(task@),
            Step::Done(refs) => StepView::Done(refs@.map_values(|s: String| s@)),
            Step::Failed(failure) => StepView::Failed(failure@),
        },
        patch::patch_step(patching) == match patching {
            Step::Run(task) => StepView::Run(task@),
            Step::Done(patch) => StepView::Done(patch@),
            Step::Failed(failure) => StepView::Failed(failure@),
        },
{
    if let Step::Done(refs) = listing {
        assert(base_refs::list_step(listing)->Done_0 =~= refs@.map_values(|s: String| s@));
    }
}

/// The models of places, targets and hovers hold all their numbers and texts.
pub proof fn symbols_are_modeled_whole(
    place: LspPosition,
    target: DefinitionTarget,
    targets: Seq<DefinitionTarget>,
    hover: HoverResult,
    found: Option<HoverResult>,
)
    ensures
        place@.path == place.path@ && place@.line == place.line && place@.character
            == place.character,
        target@.path == target.path@,
        target@.start_line == target.start_line && target@.start_character
            == target.start_character,
        target@.end_line == target.end_line && target@.end_character == target.end_character,
        symbols::target_views(targets) == targets.map_values(|t: DefinitionTarget| t@),
        hover@ == hover.text@,
        symbols::opt_hover(found) == match found {
            Some(h) => Some(h@),
            None => None,
        },
{
    assert(symbols::target_views(targets) =~= targets.map_values(|t: DefinitionTarget| t@));
}

/// The model of progress holds its title, message and percentage and whether it
/// is done; an error says what it holds.
pub proof fn progress_is_modeled_whole(progress: LspProgress, message: String, length: Option<usize>)
    ensures
        progress@.title == match progress.title {
            Some(s) => Some(s@),
            None => None,
        },
        progress@.message == match progress.message {
            Some(s) => Some(s@),
            None => None,
        },
        progress.percentage matches Some(n) ==> progress@.percentage == Some(n as nat),
        progress.percentage is None ==> progress@.percentage is None,
        progress@.done == progress.done,
        lsp::error_text(LspError::MissingId) == "progress create missing id"@,
        lsp::error_text(LspError::Failed(message)) == message@,
        length matches Some(n) ==> rpc::opt_length(length) == Some(n as nat),
        length is None ==> rpc::opt_length(length) is None,
{
}

/// The models of chats hold every option and every event.
pub proof fn chats_are_modeled_whole(
    opts: ChatOptions,
    event: Option<ChatEvent>,
    events: Seq<ChatEvent>,
)
    ensures
        opts@.session == match opts.session {
            Some(s) => Some(s@),
            None => None,
        },
        opts@.system_prompt == match opts.system_prompt {
            Some(s) => Some(s@),
            None => None,
        },
        opts@.explore_dir == match opts.explore_dir {
            Some(s) => Some(s@),
            None => None,
        },
        chat::opt_event(event) == match event {
            Some(e) => Some(e@),
            None => None,
        },
        chat::event_views(events) == events.map_values(|e: ChatEvent| e@),
{
    assert(chat::event_views(events) =~= events.map_values(|e: ChatEvent| e@));
}

/// The models of diffs and of lists of rows hold every file and every row, in
/// order.
pub proof fn diffs_are_modeled_whole(diff: PrDiff, all: Seq<Row>, numbers: Seq<usize>, side: Option<Cell>)
    ensures
        diff@ == diff.files@.map_values(|file: FileDiff| file@),
        rows::row_views(all) == all.map_values(|row: Row| row@),
        rows::ints(numbers) == numbers.map_values(|n: usize| n as int),
        rows::side_view(side) == match side {
            Some(cell) => Some(cell@),
            None => None,
        },
{
    assert(diff@ =~= diff.files@.map_values(|file: FileDiff| file@));
    assert(rows::row_views(all) =~= all.map_values(|row: Row| row@));
    assert(rows::ints(numbers) =~= numbers.map_values(|n: usize| n as int));
}

/// The models of drawn rows hold all their texts and colors.
pub proof fn drawn_rows_are_modeled_whole(row: RowPaint, side: SidePaint, content: LineContent)
    ensures
        content matches LineContent::Plain(s) ==> content@ == ContentView::Plain(s@),
        content matches LineContent::Highlighted { text, ranges, tone } ==> content@
            == (ContentView::Highlighted { text: text@, ranges: ranges@, tone }),
        side@.tint == side.tint && side@.number == side.number@ && side@.marker == side.marker@,
        side@.marker_tone == side.marker_tone && side@.content == side.content@,
        row is Spacer ==> row@ is Spacer,
        row matches RowPaint::FileHeader {
            status,
            status_tone,
            path,
            origin,
            additions,
            deletions,
        } ==> row@ == (RowPaintView::FileHeader {
            status: status@,
            status_tone,
            path: path@,
            origin: match origin {
                Some(s) => Some(s@),
                None => None,
            },
            additions: additions@,
            deletions: deletions@,
        }),
        row matches RowPaint::HunkHeader(label) ==> row@ == RowPaintView::HunkHeader(label@),
        row matches RowPaint::Note(note) ==> row@ == RowPaintView::Note(note@),
        row matches RowPaint::Line {
            tint,
            old_number,
            new_number,
            marker,
            marker_tone,
            content,
        } ==> row@ == (RowPaintView::Line {
            tint,
            old_number: old_number@,
            new_number: new_number@,
            marker: marker@,
            marker_tone,
            content: content@,
        }),
        row matches RowPaint::SplitLine { left, right } ==> row@ == (RowPaintView::SplitLine {
            left: match left {
                Some(s) => Some(s@),
                None => None,
            },
            right: match right {
                Some(s) => Some(s@),
                None => None,
            },
        }),
{
}

/// The marker, colors and tints of each kind of line. Context has no tint.
pub proof fn kinds_have_their_styles()
    ensures
        ({
            let style = paint::style_of(LineKind::Context);
            style.row is None && style.word is None && style.marker.len() == 0 && style.marker_tone
                == Tone::Overlay0
        }),
        ({
            let style = paint::style_of(LineKind::Added);
            style.row == Some(Tone::AddedRow) && style.word == Some(Tone::AddedWord)
                && style.marker == seq!['+'] && style.marker_tone == Tone::Green
        }),
        ({
            let style = paint::style_of(LineKind::Removed);
            style.row == Some(Tone::RemovedRow) && style.word == Some(Tone::RemovedWord)
                && style.marker == seq!['−'] && style.marker_tone == Tone::Red
        }),
{
    reveal_strlit("");
    reveal_strlit("+");
    reveal_strlit("−");
}

/// The model of a result that holds a profile tells which it is.
pub proof fn profile_results_are_modeled_whole(r: Result<SshProfile, SshError>)
    ensures
        r matches Ok(profile) ==> ssh::profile_result(r) == Ok::<_, SshError>(profile@),
        r matches Err(err) ==> ssh::profile_result(r) == Err::<ssh::ProfileView, _>(err),
{
}

} // verus!
