//! Running `git`: its commands, on this machine or a remote one, and what is
//! made of their outcome.
use crate::bytes;
use crate::bytes::lossy_text;
use crate::shell;
use crate::shell::remote_git_command;
use crate::text;
use crate::text::{joined, trimmed};
use vstd::prelude::*;
use vstd::string::*;

verus! {

/// Where `git` runs.
#[derive(Clone, Copy, Debug, PartialEq, Eq, Structural)]
pub enum Site {
    /// On this machine.
    Local,
    /// On a remote machine, through a connection.
    Remote,
}

/// The directory that a command runs in.
#[derive(Debug, PartialEq, Eq)]
pub enum WorkDir {
    /// The directory that the caller has named.
    Start,
    /// The root of the repository.
    Repo(String),
}

/// A `git` command.
#[derive(Debug, PartialEq, Eq)]
pub struct GitCommand {
    pub dir: WorkDir,
    pub args: Vec<String>,
}

/// The model of a [`WorkDir`].
pub enum DirView {
    Start,
    Repo(Seq<char>),
}

/// The model of a [`GitCommand`].
pub struct CommandView {
    pub dir: DirView,
    pub args: Seq<Seq<char>>,
}

impl View for WorkDir {
    type V = DirView;

    open spec fn view(&self) -> DirView {
        match *self {
            WorkDir::Start => DirView::Start,
            WorkDir::Repo(root) => DirView::Repo(root@),
        }
    }
}

impl View for GitCommand {
    type V = CommandView;

    open spec fn view(&self) -> CommandView {
        CommandView { dir: self.dir@, args: text::texts(self.args@) }
    }
}

impl GitCommand {
    /// The command line that runs the command on a remote machine, for a caller
    /// that has named the directory `start` there.
    pub fn remote_text(&self, start: &str) -> (r: String)
        ensures
            r@ == match self@.dir {
                DirView::Start => shell::quoted_words(seq!["git"@, "-C"@, start@] + self@.args),
                DirView::Repo(root) => shell::quoted_words(seq!["git"@, "-C"@, root] + self@.args),
            },
    {
        match &self.dir {
            WorkDir::Start => remote_git_command(start, self.args.as_slice()),
            WorkDir::Repo(root) => remote_git_command(root.as_str(), self.args.as_slice()),
        }
    }
}

/// What became of a command.
#[derive(Debug)]
pub enum Outcome {
    /// It could not be run, for these reasons; the first one is the outermost.
    NotRun(Vec<String>),
    /// It ran, and ended well or not. The exit code is missing where a signal
    /// ended it.
    Ran { success: bool, code: Option<i32>, stdout: Vec<u8>, stderr: Vec<u8> },
}

/// The model of an [`Outcome`].
pub enum OutcomeView {
    NotRun(Seq<Seq<char>>),
    Ran { success: bool, code: Option<i32>, stdout: Seq<u8>, stderr: Seq<u8> },
}

impl View for Outcome {
    type V = OutcomeView;

    open spec fn view(&self) -> OutcomeView {
        match *self {
            Outcome::NotRun(reasons) => OutcomeView::NotRun(text::texts(reasons@)),
            Outcome::Ran { success, code, stdout, stderr } => OutcomeView::Ran {
                success,
                code,
                stdout: stdout@,
                stderr: stderr@,
            },
        }
    }
}

/// Why something failed: a message, and behind it what caused it.
#[derive(Debug, PartialEq, Eq)]
pub struct Failure {
    pub messages: Vec<String>,
}

impl View for Failure {
    type V = Seq<Seq<char>>;

    open spec fn view(&self) -> Seq<Seq<char>> {
        text::texts(self.messages@)
    }
}

impl Failure {
    /// A failure with one message.
    pub fn new(message: String) -> (r: Self)
        ensures
            r@ == seq![message@],
    {
        let mut messages: Vec<String> = Vec::new();
        messages.push(message);
        assert(text::texts(messages@) =~= seq![message@]);
        Failure { messages }
    }

    /// The failure, behind a message that says what it means.
    pub fn context(self, message: String) -> (r: Self)
        ensures
            r@ == seq![message@] + self@,
    {
        let mut messages = self.messages;
        messages.insert(0, message);
        assert(text::texts(messages@) =~= seq![message@] + self@);
        Failure { messages }
    }

    /// All messages in one line.
    pub fn message(&self) -> (r: String)
        ensures
            r@ == text::join(self@, ": "@),
    {
        joined(&self.messages, ": ")
    }
}

/// What a task that runs commands does next.
pub enum Step<M, R> {
    /// It goes on, with another command.
    Run(M),
    /// It has come to its result.
    Done(R),
    Failed(Failure),
}

/// The model of a [`Step`].
pub enum StepView<M, R> {
    Run(M),
    Done(R),
    Failed(Seq<Seq<char>>),
}

/// The model of a result whose error is a [`Failure`].
pub open spec fn text_result(r: Result<String, Failure>) -> Result<Seq<char>, Seq<Seq<char>>> {
    match r {
        Ok(s) => Ok(s@),
        Err(failure) => Err(failure@),
    }
}

/// What is said of a command that could not be run.
pub open spec fn not_run(site: Site, local_prefix: Seq<char>, reasons: Seq<Seq<char>>) -> Seq<
    Seq<char>,
> {
    match site {
        Site::Local => seq![local_prefix + text::join(reasons, ": "@)],
        Site::Remote => reasons,
    }
}

/// The output of a command that has to succeed.
pub open spec fn answer(site: Site, args: Seq<Seq<char>>, outcome: OutcomeView) -> Result<
    Seq<char>,
    Seq<Seq<char>>,
> {
    match outcome {
        OutcomeView::NotRun(reasons) => Err(
            not_run(site, "failed to run git (is git installed?): "@, reasons),
        ),
        OutcomeView::Ran { success, stdout, stderr, .. } => if success {
            Ok(bytes::lossy(stdout))
        } else {
            Err(
                seq![
                    (match site {
                        Site::Local => "git "@,
                        Site::Remote => "remote git "@,
                    }) + text::join(args, " "@) + " failed: "@ + text::trim(bytes::lossy(stderr)),
                ],
            )
        },
    }
}

pub(crate) fn not_run_failure(site: Site, local_prefix: &str, reasons: Vec<String>) -> (r: Failure)
    ensures
        r@ == not_run(site, local_prefix@, text::texts(reasons@)),
{
    match site {
        Site::Local => {
            let mut message = local_prefix.to_owned();
            message.append(joined(&reasons, ": ").as_str());
            Failure::new(message)
        },
        Site::Remote => Failure { messages: reasons },
    }
}

/// The output of a command that has to succeed, as text.
pub fn answer_text(site: Site, args: &Vec<String>, outcome: Outcome) -> (r: Result<
    String,
    Failure,
>)
    ensures
        text_result(r) == answer(site, text::texts(args@), outcome@),
{
    match outcome {
        Outcome::NotRun(reasons) => Err(
            not_run_failure(site, "failed to run git (is git installed?): ", reasons),
        ),
        Outcome::Ran { success, code: _, stdout, stderr } => {
            if success {
                Ok(lossy_text(stdout.as_slice()))
            } else {
                let mut message = match site {
                    Site::Local => "git ".to_owned(),
                    Site::Remote => "remote git ".to_owned(),
                };
                message.append(joined(args, " ").as_str());
                message.append(" failed: ");
                let details = lossy_text(stderr.as_slice());
                message.append(trimmed(details.as_str()).as_str());
                Err(Failure::new(message))
            }
        },
    }
}

/// The arguments of a command.
pub(crate) fn words1(a: &str) -> (r: Vec<String>)
    ensures
        text::texts(r@) == seq![a@],
{
    let mut out: Vec<String> = Vec::new();
    out.push(a.to_owned());
    assert(text::texts(out@) =~= seq![a@]);
    out
}

/// The arguments of a command.
pub(crate) fn words2(a: &str, b: &str) -> (r: Vec<String>)
    ensures
        text::texts(r@) == seq![a@, b@],
{
    let mut out: Vec<String> = Vec::new();
    out.push(a.to_owned());
    out.push(b.to_owned());
    assert(text::texts(out@) =~= seq![a@, b@]);
    out
}

/// The arguments of a command.
pub(crate) fn words3(a: &str, b: &str, c: &str) -> (r: Vec<String>)
    ensures
        text::texts(r@) == seq![a@, b@, c@],
{
    let mut out: Vec<String> = Vec::new();
    out.push(a.to_owned());
    out.push(b.to_owned());
    out.push(c.to_owned());
    assert(text::texts(out@) =~= seq![a@, b@, c@]);
    out
}

/// The arguments that ask for the root of the repository.
pub open spec fn root_args() -> Seq<Seq<char>> {
    seq!["rev-parse"@, "--show-toplevel"@]
}

/// The arguments that ask for the current branch.
pub open spec fn branch_args() -> Seq<Seq<char>> {
    seq!["rev-parse"@, "--abbrev-ref"@, "HEAD"@]
}

/// The arguments that ask for the current commit.
pub open spec fn head_args() -> Seq<Seq<char>> {
    seq!["rev-parse"@, "HEAD"@]
}

/// The arguments that ask for the last commit that a ref shares with the
/// current one.
pub open spec fn merge_base_args(name: Seq<char>) -> Seq<Seq<char>> {
    seq!["merge-base"@, "HEAD"@, name]
}

/// The arguments that ask for a file in a commit.
pub open spec fn show_args(oid: Seq<char>, path: Seq<char>) -> Seq<Seq<char>> {
    seq!["show"@, oid + seq![':'] + path]
}

/// The arguments that ask for a file in a commit.
pub(crate) fn show_words(oid: &str, path: &str) -> (r: Vec<String>)
    ensures
        text::texts(r@) == show_args(oid@, path@),
{
    let mut object = oid.to_owned();
    object.push(':');
    object.append(path);
    let out = words2("show", object.as_str());
    proof {
        assert(object@ =~= oid@ + seq![':'] + path@);
    }
    out
}

/// Whether git itself has turned a command down: it ran, and exited with a code
/// other than 0.
pub open spec fn is_refusal(outcome: OutcomeView) -> bool {
    match outcome {
        OutcomeView::Ran { success, code, .. } => !success && code is Some && code != Some(0i32),
        OutcomeView::NotRun(_) => false,
    }
}

/// Whether git itself has turned a command down.
pub(crate) fn refused(outcome: &Outcome) -> (r: bool)
    ensures
        r == is_refusal(outcome@),
{
    match outcome {
        Outcome::Ran { success, code, stdout: _, stderr: _ } => match code {
            Some(n) => !*success && *n != 0,
            None => false,
        },
        Outcome::NotRun(_) => false,
    }
}

/// The arguments that ask for one ref, whichever it is. A repository without
/// commits has none.
pub open spec fn any_ref_args() -> Seq<Seq<char>> {
    seq!["for-each-ref"@, "--count=1"@]
}

/// Whether the answer to that says that there is no ref.
pub open spec fn is_no_ref(answer: Result<Seq<char>, Seq<Seq<char>>>) -> bool {
    match answer {
        Ok(s) => text::trim(s).len() == 0,
        Err(_) => false,
    }
}

/// Whether the answer to that says that there is no ref.
pub(crate) fn says_no_ref(answer: &Result<String, Failure>) -> (r: bool)
    ensures
        r == is_no_ref(text_result(*answer)),
{
    match answer {
        Ok(s) => trimmed(s.as_str()).as_str().is_empty(),
        Err(_) => false,
    }
}

/// How a command of a remote shell has ended.
#[derive(Clone, Copy, Debug, PartialEq, Eq, Structural)]
pub struct ExitStatus {
    pub success: bool,
    pub code: i32,
}

/// How a command has ended whose status a remote shell has told. The status
/// takes the place that an exit code has in a wait status of 32 bits, above the
/// lowest byte. What does not fit there is lost. The command ended well if
/// nothing of the status is left, and its exit code is the lowest byte of it.
pub fn exit_status(status: i32) -> (r: ExitStatus)
    ensures
        r.success == ((status as int) % 0x100_0000 == 0),
        r.code == (status as int) % 256,
{
    if status >= 0 {
        ExitStatus { success: status % 0x100_0000 == 0, code: status % 256 }
    } else {
        let size: i64 = -(status as i64);
        let rest: i64 = size % 256;
        let code: i32 = if rest == 0 {
            0
        } else {
            (256 - rest) as i32
        };
        ExitStatus { success: size % 0x100_0000 == 0, code }
    }
}

} // verus!
