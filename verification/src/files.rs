//! The contents of files: at the base of a diff, and in a remote worktree.
use crate::bytes;
use crate::bytes::utf8_text;
use crate::git;
use crate::git::{
    answer_text, show_words, words1, CommandView, DirView, GitCommand, Outcome, OutcomeView, Site,
    WorkDir,
};
use crate::remote::RemoteSource;
use crate::resolve::{LocalSource, SourceView};
use crate::shell;
use crate::shell::remote_shell_command;
use crate::text;
use crate::text::{chars_of, string_of};
use vstd::prelude::*;
use vstd::string::*;
use vstd::utf8::*;

verus! {

/// The command that shows a file at the base of a diff, where there is one.
pub open spec fn show_command(source: SourceView, path: Seq<char>) -> Option<CommandView> {
    match source.base_oid {
        Some(oid) => Some(
            CommandView {
                dir: DirView::Repo(source.repo_root),
                args: git::show_args(oid, path),
            },
        ),
        None => None,
    }
}

/// The model of a command that may be missing.
pub open spec fn opt_command(command: Option<GitCommand>) -> Option<CommandView> {
    match command {
        Some(c) => Some(c@),
        None => None,
    }
}

/// The command whose output is the full contents of `path` at the captured
/// diff base; none where there is no base commit.
pub fn file_at_base(src: &LocalSource, path: &str) -> (r: Option<GitCommand>)
    ensures
        opt_command(r) == show_command(src@, path@),
{
    match &src.base_oid {
        Some(oid) => Some(
            GitCommand {
                dir: WorkDir::Repo(src.repo_root.clone()),
                args: show_words(oid.as_str(), path),
            },
        ),
        None => None,
    }
}

/// The command whose output is the full contents of `path` at the captured
/// diff base; none where there is no base commit.
pub fn remote_file_at_base(src: &RemoteSource, path: &str) -> (r: Option<GitCommand>)
    ensures
        opt_command(r) == show_command(src.source(), path@),
{
    match &src.base_oid {
        Some(oid) => Some(
            GitCommand {
                dir: WorkDir::Repo(src.repo_root.clone()),
                args: show_words(oid.as_str(), path),
            },
        ),
        None => None,
    }
}

/// The contents of a file that a command has printed; nothing where it failed or
/// the file is no text.
pub open spec fn printed_text(outcome: OutcomeView) -> Option<Seq<char>> {
    match outcome {
        OutcomeView::Ran { success, stdout, .. } => if success && valid_utf8(stdout) {
            Some(decode_utf8(stdout))
        } else {
            None
        },
        OutcomeView::NotRun(_) => None,
    }
}

/// The contents of a file that a command has printed; nothing where it failed or
/// the file is no text.
pub fn printed_file(outcome: Outcome) -> (r: Option<String>)
    ensures
        text::opt_text(r) == printed_text(outcome@),
{
    match outcome {
        Outcome::Ran { success, code: _, stdout, stderr: _ } => if success {
            utf8_text(stdout)
        } else {
            None
        },
        Outcome::NotRun(_) => None,
    }
}

/// The contents of a file that a remote `git` has printed, with what is no text
/// replaced; nothing where it failed.
pub fn remote_printed_file(outcome: Outcome) -> (r: Option<String>)
    ensures
        text::opt_text(r) == match outcome@ {
            OutcomeView::Ran { success, stdout, .. } => if success {
                Some(bytes::lossy(stdout))
            } else {
                None
            },
            OutcomeView::NotRun(_) => None,
        },
{
    let args: Vec<String> = Vec::new();
    match answer_text(Site::Remote, &args, outcome) {
        Ok(s) => Some(s),
        Err(_) => None,
    }
}

/// A path without the slashes behind it.
pub open spec fn without_slashes(s: Seq<char>) -> Seq<char>
    decreases s.len(),
{
    if s.len() > 0 && s.last() == '/' {
        without_slashes(s.drop_last())
    } else {
        s
    }
}

/// The command line that prints `path` as it is in the worktree of a remote
/// repository.
pub fn remote_file_at_worktree(src: &RemoteSource, path: &str) -> (r: String)
    ensures
        r@ == shell::quoted_words(
            seq!["cat"@, without_slashes(src.repo_root@) + seq!['/'] + path@],
        ),
{
    let chars = chars_of(src.repo_root.as_str());
    let mut to: usize = chars.len();
    assert(chars@.take(to as int) =~= chars@);
    while to > 0 && chars[to - 1] == '/'
        invariant
            to <= chars@.len(),
            without_slashes(chars@) == without_slashes(chars@.take(to as int)),
        decreases to,
    {
        proof {
            assert(chars@.take(to as int).last() == chars@[to - 1]);
            assert(chars@.take(to as int).drop_last() =~= chars@.take(to - 1));
        }
        to = to - 1;
    }
    proof {
        if to > 0 {
            assert(chars@.take(to as int).last() == chars@[to - 1]);
        }
        assert(chars@.subrange(0, to as int) =~= chars@.take(to as int));
    }
    let mut file = string_of(&chars, 0, to);
    file.push('/');
    file.append(path);
    let args = words1(file.as_str());
    proof {
        assert(file@ =~= without_slashes(src.repo_root@) + seq!['/'] + path@);
        assert(seq!["cat"@] + text::texts(args@) =~= seq!["cat"@, file@]);
    }
    remote_shell_command("cat", args.as_slice())
}

} // verus!
