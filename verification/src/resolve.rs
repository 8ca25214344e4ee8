//! Which repository, branch and diff base a review works on.
use crate::git;
use crate::git::{
    answer_text, refused, says_no_ref, words2, words3, CommandView, DirView, Failure, GitCommand,
    Outcome, OutcomeView, Site, WorkDir,
};
use crate::text;
use crate::text::{after_prefix, holds_text, same_text, trimmed};
use vstd::prelude::*;
use vstd::string::*;

verus! {

/// A repository with the branch that is checked out and what it is compared to.
#[derive(Debug, Clone, PartialEq, Eq)]
pub struct LocalSource {
    pub repo_root: String,
    pub branch: String,
    /// A user-selected base ref. None means use the repository default
    /// heuristic on refresh.
    pub base_ref: Option<String>,
    /// Human name of the diff base: "origin/main"-style ref when one exists
    /// and shares history with HEAD, otherwise "HEAD" (working-tree-only diff).
    pub base_label: String,
    /// Commit oid of the diff base, captured at resolve time: the merge-base
    /// with the selected base ref, or HEAD itself. None only in a repo with no
    /// commits yet (old side of every file is then absent).
    pub base_oid: Option<String>,
}

/// The model of a [`LocalSource`].
pub struct SourceView {
    pub repo_root: Seq<char>,
    pub branch: Seq<char>,
    pub base_ref: Option<Seq<char>>,
    pub base_label: Seq<char>,
    pub base_oid: Option<Seq<char>>,
}

impl View for LocalSource {
    type V = SourceView;

    open spec fn view(&self) -> SourceView {
        SourceView {
            repo_root: self.repo_root@,
            branch: self.branch@,
            base_ref: text::opt_text(self.base_ref),
            base_label: self.base_label@,
            base_oid: text::opt_text(self.base_oid),
        }
    }
}

/// The list with a value behind it, unless it is there already.
pub open spec fn with_unique(values: Seq<Seq<char>>, value: Seq<char>) -> Seq<Seq<char>> {
    if values.contains(value) {
        values
    } else {
        values.push(value)
    }
}

/// The list with more values behind it, each once.
pub open spec fn with_all_unique(values: Seq<Seq<char>>, more: Seq<Seq<char>>) -> Seq<Seq<char>>
    decreases more.len(),
{
    if more.len() == 0 {
        values
    } else {
        with_unique(with_all_unique(values, more.drop_last()), more.last())
    }
}

/// Append a value that is not in the list yet.
pub fn push_unique(values: &mut Vec<String>, value: String)
    ensures
        text::texts(final(values)@) == with_unique(text::texts(old(values)@), value@),
{
    if !holds_text(values, value.as_str()) {
        let ghost before = values@;
        values.push(value);
        proof {
            text::lemma_texts_push(before, value);
        }
    }
}

/// The full name of the ref that records the default branch of a remote.
pub open spec fn remote_head_ref(remote: Seq<char>) -> Seq<char> {
    "refs/remotes/"@ + remote + "/HEAD"@
}

/// The arguments that ask for the default branch of a remote.
pub open spec fn remote_head_args(remote: Seq<char>) -> Seq<Seq<char>> {
    seq!["symbolic-ref"@, remote_head_ref(remote)]
}

/// The candidates with the default branch of a remote behind them, where the
/// repository records one.
pub open spec fn with_remote_head(
    candidates: Seq<Seq<char>>,
    symref: Result<Seq<char>, Seq<Seq<char>>>,
) -> Seq<Seq<char>> {
    match symref {
        Ok(s) => match text::strip_prefix(text::trim(s), "refs/remotes/"@) {
            Some(name) => with_unique(candidates, name),
            None => candidates,
        },
        Err(_) => candidates,
    }
}

/// The names that a default branch usually has.
pub open spec fn usual_bases() -> Seq<Seq<char>> {
    seq![
        "origin/main"@,
        "upstream/main"@,
        "origin/master"@,
        "upstream/master"@,
        "main"@,
        "master"@,
    ]
}

/// The command that asks for the default branch of a remote.
pub(crate) fn remote_head_words(remote: &str) -> (r: Vec<String>)
    ensures
        text::texts(r@) == remote_head_args(remote@),
{
    let mut name = "refs/remotes/".to_owned();
    name.append(remote);
    name.append("/HEAD");
    words2("symbolic-ref", name.as_str())
}

/// Take in the default branch of a remote, where the repository records one.
pub(crate) fn push_remote_head(candidates: &mut Vec<String>, symref: Result<String, Failure>)
    ensures
        text::texts(final(candidates)@) == with_remote_head(
            text::texts(old(candidates)@),
            git::text_result(symref),
        ),
{
    if let Ok(s) = symref {
        let name = trimmed(s.as_str());
        if let Some(name) = after_prefix(name.as_str(), "refs/remotes/") {
            push_unique(candidates, name);
        }
    }
}

/// Append the usual names of a default branch.
pub(crate) fn push_usual_bases(candidates: &mut Vec<String>)
    ensures
        text::texts(final(candidates)@) == with_all_unique(
            text::texts(old(candidates)@),
            usual_bases(),
        ),
{
    let ghost start = text::texts(candidates@);
    push_unique(candidates, "origin/main".to_owned());
    push_unique(candidates, "upstream/main".to_owned());
    push_unique(candidates, "origin/master".to_owned());
    push_unique(candidates, "upstream/master".to_owned());
    push_unique(candidates, "main".to_owned());
    push_unique(candidates, "master".to_owned());
    proof {
        let all = usual_bases();
        reveal_with_fuel(with_all_unique, 7);
        assert(all.drop_last().drop_last().drop_last().drop_last().drop_last().drop_last()
            =~= Seq::empty());
        assert(with_all_unique(start, all) == text::texts(candidates@));
    }
}

/// How far a resolution has come.
pub enum Stage {
    /// The root of the repository is asked for.
    Root,
    /// The current branch is asked for.
    Branch { repo: String },
    /// The current branch has no commit that could be resolved, for this reason,
    /// and its mere name is asked for.
    Unborn { repo: String, failure: Failure },
    /// The branch is there by name alone, and it is asked whether the repository
    /// has any ref.
    NoCommits { repo: String, branch: String, failure: Failure },
    /// The user has chosen HEAD, and its commit is asked for.
    ChosenHead { repo: String, branch: String, base: String },
    /// The user has chosen a base, and the merge base with it is asked for.
    ChosenBase { repo: String, branch: String, base: String },
    /// The default branch of origin is asked for, or then that of upstream.
    RemoteHead { repo: String, branch: String, candidates: Vec<String>, upstream: bool },
    /// The merge base with a candidate is asked for.
    Candidate { repo: String, branch: String, candidates: Vec<String>, at: usize },
    /// No candidate shares history with HEAD, and its own commit is asked for.
    Fallback { repo: String, branch: String },
}

/// The model of a [`Stage`]; `candidates` holds those that are still to be tried.
pub enum StageView {
    Root,
    Branch { repo: Seq<char> },
    Unborn { repo: Seq<char>, failure: Seq<Seq<char>> },
    NoCommits { repo: Seq<char>, branch: Seq<char>, failure: Seq<Seq<char>> },
    ChosenHead { repo: Seq<char>, branch: Seq<char>, base: Seq<char> },
    ChosenBase { repo: Seq<char>, branch: Seq<char>, base: Seq<char> },
    RemoteHead {
        repo: Seq<char>,
        branch: Seq<char>,
        candidates: Seq<Seq<char>>,
        upstream: bool,
    },
    Candidate { repo: Seq<char>, branch: Seq<char>, candidates: Seq<Seq<char>> },
    Fallback { repo: Seq<char>, branch: Seq<char> },
}

impl View for Stage {
    type V = StageView;

    open spec fn view(&self) -> StageView {
        match *self {
            Stage::Root => StageView::Root,
            Stage::Branch { repo } => StageView::Branch { repo: repo@ },
            Stage::Unborn { repo, failure } => StageView::Unborn {
                repo: repo@,
                failure: failure@,
            },
            Stage::NoCommits { repo, branch, failure } => StageView::NoCommits {
                repo: repo@,
                branch: branch@,
                failure: failure@,
            },
            Stage::ChosenHead { repo, branch, base } => StageView::ChosenHead {
                repo: repo@,
                branch: branch@,
                base: base@,
            },
            Stage::ChosenBase { repo, branch, base } => StageView::ChosenBase {
                repo: repo@,
                branch: branch@,
                base: base@,
            },
            Stage::RemoteHead { repo, branch, candidates, upstream } => StageView::RemoteHead {
                repo: repo@,
                branch: branch@,
                candidates: text::texts(candidates@),
                upstream,
            },
            Stage::Candidate { repo, branch, candidates, at } => StageView::Candidate {
                repo: repo@,
                branch: branch@,
                candidates: text::texts(candidates@).skip(at as int),
            },
            Stage::Fallback { repo, branch } => StageView::Fallback {
                repo: repo@,
                branch: branch@,
            },
        }
    }
}

/// The resolution of a path to a repository, its branch and its diff base.
pub struct Resolution {
    pub site: Site,
    /// What to call the path in messages.
    pub path: String,
    /// The base that the user has chosen.
    pub base_ref: Option<String>,
    pub stage: Stage,
}

/// The model of a [`Resolution`].
pub struct ResolutionView {
    pub site: Site,
    pub path: Seq<char>,
    pub base_ref: Option<Seq<char>>,
    pub stage: StageView,
}

impl View for Resolution {
    type V = ResolutionView;

    open spec fn view(&self) -> ResolutionView {
        ResolutionView {
            site: self.site,
            path: self.path@,
            base_ref: text::opt_text(self.base_ref),
            stage: self.stage@,
        }
    }
}

impl Resolution {
    /// Whether there is a candidate to try where one is tried.
    pub open spec fn wf(self) -> bool {
        self.stage matches Stage::Candidate { candidates, at, .. } ==> at < candidates@.len()
    }
}

/// The candidates that are not the current branch.
pub open spec fn other_than(candidates: Seq<Seq<char>>, branch: Seq<char>) -> Seq<Seq<char>>
    decreases candidates.len(),
{
    if candidates.len() == 0 {
        Seq::empty()
    } else if candidates.last() == branch {
        other_than(candidates.drop_last(), branch)
    } else {
        other_than(candidates.drop_last(), branch).push(candidates.last())
    }
}

/// The arguments that ask for the name of the current branch, which answer in a
/// repository without commits too.
pub open spec fn unborn_args() -> Seq<Seq<char>> {
    seq!["symbolic-ref"@, "--short"@, "HEAD"@]
}

/// Whether a branch without commits has the base that is wanted: it has only
/// HEAD, so no other may have been chosen.
pub open spec fn head_will_do(base_ref: Option<Seq<char>>) -> bool {
    match base_ref {
        Some(given) => text::trim(given) == "HEAD"@,
        None => true,
    }
}

/// A repository without commits on a branch: its base is HEAD, which has no oid.
pub open spec fn unborn_source(
    repo: Seq<char>,
    branch: Seq<char>,
    base_ref: Option<Seq<char>>,
) -> SourceView {
    SourceView {
        repo_root: repo,
        branch,
        base_ref: match base_ref {
            Some(given) => Some(text::trim(given)),
            None => None,
        },
        base_label: "HEAD"@,
        base_oid: None,
    }
}

/// The command that a resolution waits for.
pub open spec fn resolve_command(r: ResolutionView) -> CommandView {
    match r.stage {
        StageView::Root => CommandView { dir: DirView::Start, args: git::root_args() },
        StageView::Branch { repo } => CommandView {
            dir: DirView::Repo(repo),
            args: git::branch_args(),
        },
        StageView::Unborn { repo, .. } => CommandView {
            dir: DirView::Repo(repo),
            args: unborn_args(),
        },
        StageView::NoCommits { repo, .. } => CommandView {
            dir: DirView::Repo(repo),
            args: git::any_ref_args(),
        },
        StageView::ChosenHead { repo, .. } => CommandView {
            dir: match r.site {
                Site::Local => DirView::Start,
                Site::Remote => DirView::Repo(repo),
            },
            args: git::head_args(),
        },
        StageView::ChosenBase { repo, base, .. } => CommandView {
            dir: DirView::Repo(repo),
            args: git::merge_base_args(base),
        },
        StageView::RemoteHead { repo, upstream, .. } => CommandView {
            dir: DirView::Repo(repo),
            args: remote_head_args(if upstream {
                "upstream"@
            } else {
                "origin"@
            }),
        },
        StageView::Candidate { repo, candidates, .. } => CommandView {
            dir: DirView::Repo(repo),
            args: git::merge_base_args(candidates[0]),
        },
        StageView::Fallback { repo, .. } => CommandView {
            dir: DirView::Repo(repo),
            args: git::head_args(),
        },
    }
}

/// The trimmed output of a command that may fail.
pub open spec fn optional_oid(answer: Result<Seq<char>, Seq<Seq<char>>>) -> Option<Seq<char>> {
    match answer {
        Ok(s) => Some(text::trim(s)),
        Err(_) => None,
    }
}

/// A failure, for a command on this machine behind a message that says what it
/// means.
pub open spec fn explained(site: Site, message: Seq<char>, failure: Seq<Seq<char>>) -> Seq<
    Seq<char>,
> {
    match site {
        Site::Local => seq![message] + failure,
        Site::Remote => failure,
    }
}

/// The stage in which the first of the candidates is tried.
pub open spec fn trying(
    repo: Seq<char>,
    branch: Seq<char>,
    candidates: Seq<Seq<char>>,
) -> StageView {
    if candidates.len() == 0 {
        StageView::Fallback { repo, branch }
    } else {
        StageView::Candidate { repo, branch, candidates }
    }
}

/// What a resolution does with the outcome of its command.
pub open spec fn resolve_next(r: ResolutionView, outcome: OutcomeView) -> git::StepView<
    ResolutionView,
    SourceView,
> {
    let answer = git::answer(r.site, resolve_command(r).args, outcome);
    match r.stage {
        StageView::Root => match answer {
            Ok(s) => git::StepView::Run(
                ResolutionView { stage: StageView::Branch { repo: text::trim(s) }, ..r },
            ),
            Err(failure) => git::StepView::Failed(
                explained(r.site, r.path + " is not inside a git repository"@, failure),
            ),
        },
        StageView::Branch { repo } => match answer {
            Ok(s) => {
                let branch = text::trim(s);
                let stage = match r.base_ref {
                    Some(given) => {
                        let base = text::trim(given);
                        if base == "HEAD"@ {
                            StageView::ChosenHead { repo, branch, base }
                        } else {
                            StageView::ChosenBase { repo, branch, base }
                        }
                    },
                    None => StageView::RemoteHead {
                        repo,
                        branch,
                        candidates: Seq::empty(),
                        upstream: false,
                    },
                };
                git::StepView::Run(ResolutionView { stage, ..r })
            },
            Err(failure) => if head_will_do(r.base_ref) && git::is_refusal(outcome) {
                git::StepView::Run(
                    ResolutionView { stage: StageView::Unborn { repo, failure }, ..r },
                )
            } else {
                git::StepView::Failed(failure)
            },
        },
        StageView::Unborn { repo, failure } => match answer {
            Ok(s) => git::StepView::Run(
                ResolutionView {
                    stage: StageView::NoCommits { repo, branch: text::trim(s), failure },
                    ..r
                },
            ),
            Err(_) => git::StepView::Failed(failure),
        },
        StageView::NoCommits { repo, branch, failure } => if git::is_no_ref(answer) {
            git::StepView::Done(unborn_source(repo, branch, r.base_ref))
        } else {
            git::StepView::Failed(failure)
        },
        StageView::ChosenHead { repo, branch, base } => git::StepView::Done(
            SourceView {
                repo_root: repo,
                branch,
                base_ref: Some(base),
                base_label: base,
                base_oid: optional_oid(answer),
            },
        ),
        StageView::ChosenBase { repo, branch, base } => match answer {
            Ok(s) => git::StepView::Done(
                SourceView {
                    repo_root: repo,
                    branch,
                    base_ref: Some(base),
                    base_label: base,
                    base_oid: Some(text::trim(s)),
                },
            ),
            Err(failure) => git::StepView::Failed(
                explained(r.site, base + " does not share history with HEAD"@, failure),
            ),
        },
        StageView::RemoteHead { repo, branch, candidates, upstream } => {
            let more = with_remote_head(candidates, answer);
            let stage = if upstream {
                trying(repo, branch, other_than(with_all_unique(more, usual_bases()), branch))
            } else {
                StageView::RemoteHead { repo, branch, candidates: more, upstream: true }
            };
            git::StepView::Run(ResolutionView { stage, ..r })
        },
        StageView::Candidate { repo, branch, candidates } => match answer {
            Ok(s) => git::StepView::Done(
                SourceView {
                    repo_root: repo,
                    branch,
                    base_ref: None,
                    base_label: candidates[0],
                    base_oid: Some(text::trim(s)),
                },
            ),
            Err(_) => git::StepView::Run(
                ResolutionView { stage: trying(repo, branch, candidates.skip(1)), ..r },
            ),
        },
        StageView::Fallback { repo, branch } => git::StepView::Done(
            SourceView {
                repo_root: repo,
                branch,
                base_ref: None,
                base_label: "HEAD"@,
                base_oid: optional_oid(answer),
            },
        ),
    }
}

/// The model of a step of a resolution.
pub open spec fn resolve_step(step: git::Step<Resolution, LocalSource>) -> git::StepView<
    ResolutionView,
    SourceView,
> {
    match step {
        git::Step::Run(r) => git::StepView::Run(r@),
        git::Step::Done(source) => git::StepView::Done(source@),
        git::Step::Failed(failure) => git::StepView::Failed(failure@),
    }
}

fn candidates_other_than(candidates: Vec<String>, branch: &str) -> (r: Vec<String>)
    ensures
        text::texts(r@) == other_than(text::texts(candidates@), branch@),
{
    let mut out: Vec<String> = Vec::new();
    let mut i: usize = 0;
    while i < candidates.len()
        invariant
            i <= candidates@.len(),
            text::texts(out@) == other_than(text::texts(candidates@).take(i as int), branch@),
        decreases candidates@.len() - i,
    {
        let ghost before = out@;
        proof {
            let all = text::texts(candidates@);
            assert(all.take(i + 1).drop_last() =~= all.take(i as int));
            assert(all.take(i + 1).last() == candidates@[i as int]@);
        }
        if !same_text(candidates[i].as_str(), branch) {
            let kept = candidates[i].clone();
            out.push(kept);
            proof {
                text::lemma_texts_push(before, kept);
            }
        }
        i = i + 1;
    }
    assert(text::texts(candidates@).take(i as int) =~= text::texts(candidates@));
    out
}

fn first_trial(repo: String, branch: String, candidates: Vec<String>) -> (r: Stage)
    ensures
        r@ == trying(repo@, branch@, text::texts(candidates@)),
        r matches Stage::Candidate { candidates, at, .. } ==> at < candidates@.len(),
{
    if candidates.len() == 0 {
        Stage::Fallback { repo, branch }
    } else {
        proof {
            assert(text::texts(candidates@).skip(0) =~= text::texts(candidates@));
        }
        Stage::Candidate { repo, branch, candidates, at: 0 }
    }
}

fn trimmed_answer(answer: Result<String, Failure>) -> (r: Option<String>)
    ensures
        text::opt_text(r) == optional_oid(git::text_result(answer)),
{
    match answer {
        Ok(s) => Some(trimmed(s.as_str())),
        Err(_) => None,
    }
}

pub(crate) fn explain(site: Site, subject: &str, message: &str, failure: Failure) -> (r: Failure)
    ensures
        r@ == explained(site, subject@ + message@, failure@),
{
    match site {
        Site::Local => {
            let mut text = subject.to_owned();
            text.append(message);
            failure.context(text)
        },
        Site::Remote => failure,
    }
}

/// Resolve a path inside a git repo to its root, current branch, and diff base.
pub fn resolve_local(path: &str) -> (r: Resolution)
    ensures
        r.wf(),
        r@ == (ResolutionView {
            site: Site::Local,
            path: path@,
            base_ref: None,
            stage: StageView::Root,
        }),
{
    resolve_local_with_base(path, None)
}

/// Resolve a path inside a git repo using a specific base ref when provided.
pub fn resolve_local_with_base(path: &str, base_ref: Option<&str>) -> (r: Resolution)
    ensures
        r.wf(),
        r@ == (ResolutionView {
            site: Site::Local,
            path: path@,
            base_ref: match base_ref {
                Some(base) => Some(base@),
                None => None,
            },
            stage: StageView::Root,
        }),
{
    Resolution {
        site: Site::Local,
        path: path.to_owned(),
        base_ref: match base_ref {
            Some(base) => Some(base.to_owned()),
            None => None,
        },
        stage: Stage::Root,
    }
}

impl Resolution {
    /// The command that the resolution waits for.
    pub fn command(&self) -> (r: GitCommand)
        requires
            self.wf(),
        ensures
            r@ == resolve_command(self@),
    {
        match &self.stage {
            Stage::Root => GitCommand {
                dir: WorkDir::Start,
                args: words2("rev-parse", "--show-toplevel"),
            },
            Stage::Branch { repo } => GitCommand {
                dir: WorkDir::Repo(repo.clone()),
                args: words3("rev-parse", "--abbrev-ref", "HEAD"),
            },
            Stage::Unborn { repo, failure: _ } => GitCommand {
                dir: WorkDir::Repo(repo.clone()),
                args: words3("symbolic-ref", "--short", "HEAD"),
            },
            Stage::NoCommits { repo, branch: _, failure: _ } => GitCommand {
                dir: WorkDir::Repo(repo.clone()),
                args: words2("for-each-ref", "--count=1"),
            },
            Stage::ChosenHead { repo, branch: _, base: _ } => GitCommand {
                dir: match self.site {
                    Site::Local => WorkDir::Start,
                    Site::Remote => WorkDir::Repo(repo.clone()),
                },
                args: words2("rev-parse", "HEAD"),
            },
            Stage::ChosenBase { repo, branch: _, base } => GitCommand {
                dir: WorkDir::Repo(repo.clone()),
                args: words3("merge-base", "HEAD", base.as_str()),
            },
            Stage::RemoteHead { repo, branch: _, candidates: _, upstream } => GitCommand {
                dir: WorkDir::Repo(repo.clone()),
                args: remote_head_words(if *upstream {
                    "upstream"
                } else {
                    "origin"
                }),
            },
            Stage::Candidate { repo, branch: _, candidates, at } => {
                proof {
                    assert(text::texts(candidates@).skip(*at as int)[0] == candidates@[*at as int]@);
                }
                GitCommand {
                    dir: WorkDir::Repo(repo.clone()),
                    args: words3("merge-base", "HEAD", candidates[*at].as_str()),
                }
            },
            Stage::Fallback { repo, branch: _ } => GitCommand {
                dir: WorkDir::Repo(repo.clone()),
                args: words2("rev-parse", "HEAD"),
            },
        }
    }

    /// Take in the outcome of the command.
    pub fn next(self, outcome: Outcome) -> (r: git::Step<Resolution, LocalSource>)
        requires
            self.wf(),
        ensures
            resolve_step(r) == resolve_next(self@, outcome@),
            r matches git::Step::Run(next) ==> next.wf(),
    {
        let command = self.command();
        let turned_down = refused(&outcome);
        let answer = answer_text(self.site, &command.args, outcome);
        let site = self.site;
        let path = self.path;
        let base_ref = self.base_ref;
        match self.stage {
            Stage::Root => match answer {
                Ok(s) => git::Step::Run(
                    Resolution {
                        site,
                        path,
                        base_ref,
                        stage: Stage::Branch { repo: trimmed(s.as_str()) },
                    },
                ),
                Err(failure) => git::Step::Failed(
                    explain(site, path.as_str(), " is not inside a git repository", failure),
                ),
            },
            Stage::Branch { repo } => match answer {
                Ok(s) => {
                    let branch = trimmed(s.as_str());
                    let stage = match &base_ref {
                        Some(given) => {
                            let base = trimmed(given.as_str());
                            if same_text(base.as_str(), "HEAD") {
                                Stage::ChosenHead { repo, branch, base }
                            } else {
                                Stage::ChosenBase { repo, branch, base }
                            }
                        },
                        None => {
                            let candidates: Vec<String> = Vec::new();
                            proof {
                                assert(text::texts(candidates@) =~= Seq::<Seq<char>>::empty());
                            }
                            Stage::RemoteHead { repo, branch, candidates, upstream: false }
                        },
                    };
                    git::Step::Run(Resolution { site, path, base_ref, stage })
                },
                Err(failure) => {
                    let head = match &base_ref {
                        Some(given) => same_text(trimmed(given.as_str()).as_str(), "HEAD"),
                        None => true,
                    };
                    if head && turned_down {
                        let stage = Stage::Unborn { repo, failure };
                        git::Step::Run(Resolution { site, path, base_ref, stage })
                    } else {
                        git::Step::Failed(failure)
                    }
                },
            },
            Stage::Unborn { repo, failure } => match answer {
                Ok(s) => {
                    let branch = trimmed(s.as_str());
                    let stage = Stage::NoCommits { repo, branch, failure };
                    git::Step::Run(Resolution { site, path, base_ref, stage })
                },
                Err(_) => git::Step::Failed(failure),
            },
            Stage::NoCommits { repo, branch, failure } => if says_no_ref(&answer) {
                git::Step::Done(
                    LocalSource {
                        repo_root: repo,
                        branch,
                        base_ref: match &base_ref {
                            Some(given) => Some(trimmed(given.as_str())),
                            None => None,
                        },
                        base_label: "HEAD".to_owned(),
                        base_oid: None,
                    },
                )
            } else {
                git::Step::Failed(failure)
            },
            Stage::ChosenHead { repo, branch, base } => git::Step::Done(
                LocalSource {
                    repo_root: repo,
                    branch,
                    base_ref: Some(base.clone()),
                    base_label: base,
                    base_oid: trimmed_answer(answer),
                },
            ),
            Stage::ChosenBase { repo, branch, base } => match answer {
                Ok(s) => git::Step::Done(
                    LocalSource {
                        repo_root: repo,
                        branch,
                        base_ref: Some(base.clone()),
                        base_label: base,
                        base_oid: Some(trimmed(s.as_str())),
                    },
                ),
                Err(failure) => git::Step::Failed(
                    explain(site, base.as_str(), " does not share history with HEAD", failure),
                ),
            },
            Stage::RemoteHead { repo, branch, candidates, upstream } => {
                let mut candidates = candidates;
                push_remote_head(&mut candidates, answer);
                let stage = if upstream {
                    push_usual_bases(&mut candidates);
                    let others = candidates_other_than(candidates, branch.as_str());
                    first_trial(repo, branch, others)
                } else {
                    Stage::RemoteHead { repo, branch, candidates, upstream: true }
                };
                git::Step::Run(Resolution { site, path, base_ref, stage })
            },
            Stage::Candidate { repo, branch, candidates, at } => {
                let ghost all = text::texts(candidates@);
                proof {
                    assert(all.skip(at as int)[0] == candidates@[at as int]@);
                    assert(all.skip(at as int).skip(1) =~= all.skip(at + 1));
                }
                match answer {
                    Ok(s) => git::Step::Done(
                        LocalSource {
                            repo_root: repo,
                            branch,
                            base_ref: None,
                            base_label: candidates[at].clone(),
                            base_oid: Some(trimmed(s.as_str())),
                        },
                    ),
                    Err(_) => {
                        let stage = if at < candidates.len() - 1 {
                            Stage::Candidate { repo, branch, candidates, at: at + 1 }
                        } else {
                            Stage::Fallback { repo, branch }
                        };
                        git::Step::Run(Resolution { site, path, base_ref, stage })
                    },
                }
            },
            Stage::Fallback { repo, branch } => git::Step::Done(
                LocalSource {
                    repo_root: repo,
                    branch,
                    base_ref: None,
                    base_label: "HEAD".to_owned(),
                    base_oid: trimmed_answer(answer),
                },
            ),
        }
    }
}

/// What the repository answers to a command.
pub open spec fn ask(
    site: Site,
    repository: spec_fn(CommandView) -> OutcomeView,
    dir: DirView,
    args: Seq<Seq<char>>,
) -> Result<Seq<char>, Seq<Seq<char>>> {
    git::answer(site, args, repository(CommandView { dir, args }))
}

/// The bases that are tried by default: the default branches that the
/// repository records for origin and upstream, and then the usual names.
pub open spec fn default_base_candidates(
    site: Site,
    repository: spec_fn(CommandView) -> OutcomeView,
    repo: Seq<char>,
) -> Seq<Seq<char>> {
    let dir = DirView::Repo(repo);
    let origin = ask(site, repository, dir, remote_head_args("origin"@));
    let upstream = ask(site, repository, dir, remote_head_args("upstream"@));
    with_all_unique(
        with_remote_head(with_remote_head(Seq::empty(), origin), upstream),
        usual_bases(),
    )
}

/// The first candidate that shares history with HEAD, and the commit that they
/// share; HEAD itself where there is none.
pub open spec fn first_base(
    site: Site,
    repository: spec_fn(CommandView) -> OutcomeView,
    repo: Seq<char>,
    candidates: Seq<Seq<char>>,
) -> (Seq<char>, Option<Seq<char>>)
    decreases candidates.len(),
{
    let dir = DirView::Repo(repo);
    if candidates.len() == 0 {
        ("HEAD"@, optional_oid(ask(site, repository, dir, git::head_args())))
    } else {
        match ask(site, repository, dir, git::merge_base_args(candidates[0])) {
            Ok(s) => (candidates[0], Some(text::trim(s))),
            Err(_) => first_base(site, repository, repo, candidates.skip(1)),
        }
    }
}

/// The name of the current branch of a repository without commits: git turns
/// down the question for the branch, but knows its name, and there is no ref.
/// Nothing where the repository is not known to be without commits.
pub open spec fn unborn_branch(
    site: Site,
    repository: spec_fn(CommandView) -> OutcomeView,
    repo: Seq<char>,
) -> Option<Seq<char>> {
    let dir = DirView::Repo(repo);
    let asked = CommandView { dir, args: git::branch_args() };
    match ask(site, repository, dir, unborn_args()) {
        Ok(name) => if git::is_refusal(repository(asked)) && git::is_no_ref(
            ask(site, repository, dir, git::any_ref_args()),
        ) {
            Some(text::trim(name))
        } else {
            None
        },
        Err(_) => None,
    }
}

/// The repository, branch and diff base for a path.
pub open spec fn resolved(
    site: Site,
    repository: spec_fn(CommandView) -> OutcomeView,
    path: Seq<char>,
    base_ref: Option<Seq<char>>,
) -> Result<SourceView, Seq<Seq<char>>> {
    match ask(site, repository, DirView::Start, git::root_args()) {
        Err(failure) => Err(
            explained(site, path + " is not inside a git repository"@, failure),
        ),
        Ok(root) => {
            let repo = text::trim(root);
            let dir = DirView::Repo(repo);
            match ask(site, repository, dir, git::branch_args()) {
                Err(failure) => match unborn_branch(site, repository, repo) {
                    Some(name) => if head_will_do(base_ref) {
                        Ok(unborn_source(repo, name, base_ref))
                    } else {
                        Err(failure)
                    },
                    None => Err(failure),
                },
                Ok(name) => {
                    let branch = text::trim(name);
                    match base_ref {
                        Some(given) => {
                            let base = text::trim(given);
                            if base == "HEAD"@ {
                                let head_dir = match site {
                                    Site::Local => DirView::Start,
                                    Site::Remote => dir,
                                };
                                Ok(
                                    SourceView {
                                        repo_root: repo,
                                        branch,
                                        base_ref: Some(base),
                                        base_label: base,
                                        base_oid: optional_oid(
                                            ask(site, repository, head_dir, git::head_args()),
                                        ),
                                    },
                                )
                            } else {
                                match ask(site, repository, dir, git::merge_base_args(base)) {
                                    Ok(s) => Ok(
                                        SourceView {
                                            repo_root: repo,
                                            branch,
                                            base_ref: Some(base),
                                            base_label: base,
                                            base_oid: Some(text::trim(s)),
                                        },
                                    ),
                                    Err(failure) => Err(
                                        explained(
                                            site,
                                            base + " does not share history with HEAD"@,
                                            failure,
                                        ),
                                    ),
                                }
                            }
                        },
                        None => {
                            let candidates = default_base_candidates(site, repository, repo);
                            let (label, oid) = first_base(
                                site,
                                repository,
                                repo,
                                other_than(candidates, branch),
                            );
                            Ok(
                                SourceView {
                                    repo_root: repo,
                                    branch,
                                    base_ref: None,
                                    base_label: label,
                                    base_oid: oid,
                                },
                            )
                        },
                    }
                },
            }
        },
    }
}

/// What a resolution comes to when its commands run on a repository, if it does
/// so within a number of commands.
pub open spec fn resolve_run(
    r: ResolutionView,
    repository: spec_fn(CommandView) -> OutcomeView,
    commands: nat,
) -> Option<Result<SourceView, Seq<Seq<char>>>>
    decreases commands,
{
    if commands == 0 {
        None
    } else {
        match resolve_next(r, repository(resolve_command(r))) {
            git::StepView::Run(next) => resolve_run(next, repository, (commands - 1) as nat),
            git::StepView::Done(source) => Some(Ok(source)),
            git::StepView::Failed(failure) => Some(Err(failure)),
        }
    }
}

proof fn lemma_with_all_unique_len(values: Seq<Seq<char>>, more: Seq<Seq<char>>)
    ensures
        with_all_unique(values, more).len() <= values.len() + more.len(),
    decreases more.len(),
{
    if more.len() > 0 {
        lemma_with_all_unique_len(values, more.drop_last());
    }
}

proof fn lemma_other_than_len(candidates: Seq<Seq<char>>, branch: Seq<char>)
    ensures
        other_than(candidates, branch).len() <= candidates.len(),
    decreases candidates.len(),
{
    if candidates.len() > 0 {
        lemma_other_than_len(candidates.drop_last(), branch);
    }
}

proof fn lemma_trials(
    r: ResolutionView,
    repository: spec_fn(CommandView) -> OutcomeView,
    commands: nat,
    repo: Seq<char>,
    branch: Seq<char>,
    candidates: Seq<Seq<char>>,
)
    requires
        r.stage == trying(repo, branch, candidates),
        commands > candidates.len(),
    ensures
        ({
            let (label, oid) = first_base(r.site, repository, repo, candidates);
            resolve_run(r, repository, commands) == Some(
                Ok::<SourceView, Seq<Seq<char>>>(
                    SourceView {
                        repo_root: repo,
                        branch,
                        base_ref: None,
                        base_label: label,
                        base_oid: oid,
                    },
                ),
            )
        }),
    decreases candidates.len(),
{
    if candidates.len() > 0 {
        let rest = candidates.skip(1);
        let next = ResolutionView { stage: trying(repo, branch, rest), ..r };
        lemma_trials(next, repository, (commands - 1) as nat, repo, branch, rest);
    }
}

/// A resolution asks at most thirteen questions, and comes to the branch and
/// the diff base that the repository has for the path, or to the failure that
/// keeps it from finding them.
pub proof fn resolutions_come_to_an_end(
    site: Site,
    repository: spec_fn(CommandView) -> OutcomeView,
    path: Seq<char>,
    base_ref: Option<Seq<char>>,
)
    ensures
        resolve_run(
            ResolutionView { site, path, base_ref, stage: StageView::Root },
            repository,
            13,
        ) == Some(resolved(site, repository, path, base_ref)),
{
    let start = ResolutionView { site, path, base_ref, stage: StageView::Root };
    reveal_with_fuel(resolve_run, 5);
    if let git::StepView::Run(second) = resolve_next(start, repository(resolve_command(start))) {
        if let git::StepView::Run(third) = resolve_next(
            second,
            repository(resolve_command(second)),
        ) {
            if third.stage is RemoteHead {
                let fourth = resolve_next(third, repository(resolve_command(third)))->Run_0;
                let fifth = resolve_next(fourth, repository(resolve_command(fourth)))->Run_0;
                let repo = second.stage->Branch_repo;
                let branch = third.stage->RemoteHead_branch;
                let candidates = default_base_candidates(site, repository, repo);
                lemma_with_all_unique_len(
                    fourth.stage->RemoteHead_candidates,
                    usual_bases(),
                );
                lemma_with_all_unique_len(
                    with_remote_head(
                        fourth.stage->RemoteHead_candidates,
                        ask(
                            site,
                            repository,
                            DirView::Repo(repo),
                            remote_head_args("upstream"@),
                        ),
                    ),
                    usual_bases(),
                );
                lemma_other_than_len(candidates, branch);
                lemma_trials(
                    fifth,
                    repository,
                    9,
                    repo,
                    branch,
                    other_than(candidates, branch),
                );
            }
        }
    }
}

/// A diff base that was found by default shares history with HEAD and is not
/// the branch itself, unless it is HEAD.
pub proof fn default_bases_share_history(
    site: Site,
    repository: spec_fn(CommandView) -> OutcomeView,
    path: Seq<char>,
)
    requires
        resolved(site, repository, path, None) is Ok,
    ensures
        ({
            let source = resolved(site, repository, path, None)->Ok_0;
            source.base_label == "HEAD"@ || {
                &&& source.base_label != source.branch
                &&& default_base_candidates(site, repository, source.repo_root).contains(
                    source.base_label,
                )
                &&& source.base_oid is Some
                &&& source.base_oid == optional_oid(
                    ask(
                        site,
                        repository,
                        DirView::Repo(source.repo_root),
                        git::merge_base_args(source.base_label),
                    ),
                )
            }
        }),
{
    let source = resolved(site, repository, path, None)->Ok_0;
    let candidates = default_base_candidates(site, repository, source.repo_root);
    let others = other_than(candidates, source.branch);
    lemma_first_base(site, repository, source.repo_root, others);
    if source.base_label != "HEAD"@ {
        lemma_other_than(candidates, source.branch, source.base_label);
    }
}

/// A repository without commits is resolved to the name of its branch, with
/// HEAD as its base and no oid.
pub proof fn repositories_without_commits_have_no_base(
    site: Site,
    repository: spec_fn(CommandView) -> OutcomeView,
    path: Seq<char>,
    root: Seq<char>,
)
    requires
        ask(site, repository, DirView::Start, git::root_args()) == Ok::<_, Seq<Seq<char>>>(root),
        unborn_branch(site, repository, text::trim(root)) is Some,
    ensures
        resolved(site, repository, path, None) == Ok::<_, Seq<Seq<char>>>(
            SourceView {
                repo_root: text::trim(root),
                branch: unborn_branch(site, repository, text::trim(root))->0,
                base_ref: None,
                base_label: "HEAD"@,
                base_oid: None,
            },
        ),
{
}

/// Where the question for the branch fails and the repository is not known to be
/// without commits, that failure is the result.
pub proof fn other_branch_failures_are_reported(
    site: Site,
    repository: spec_fn(CommandView) -> OutcomeView,
    path: Seq<char>,
    base_ref: Option<Seq<char>>,
    root: Seq<char>,
)
    requires
        ask(site, repository, DirView::Start, git::root_args()) == Ok::<_, Seq<Seq<char>>>(root),
        ask(
            site,
            repository,
            DirView::Repo(text::trim(root)),
            git::branch_args(),
        ) is Err,
        unborn_branch(site, repository, text::trim(root)) is None,
    ensures
        resolved(site, repository, path, base_ref) == Err::<SourceView, _>(
            ask(
                site,
                repository,
                DirView::Repo(text::trim(root)),
                git::branch_args(),
            )->Err_0,
        ),
{
}

/// Choosing the base that was found by default finds it again: the same root,
/// branch, label and oid. The label has to be one that trimming leaves alone,
/// as a chosen base is trimmed. HEAD has to be the same commit in the directory
/// that a local caller has named as in the root, and where a remote records a
/// default branch that is itself named HEAD, the merge base of HEAD with itself
/// has to be HEAD.
pub proof fn choosing_the_default_base_keeps_it(
    site: Site,
    repository: spec_fn(CommandView) -> OutcomeView,
    path: Seq<char>,
)
    requires
        resolved(site, repository, path, None) is Ok,
        ({
            let found = resolved(site, repository, path, None)->Ok_0;
            let dir = DirView::Repo(found.repo_root);
            let head = optional_oid(ask(site, repository, dir, git::head_args()));
            &&& text::trim(found.base_label) == found.base_label
            &&& site == Site::Local ==> optional_oid(
                ask(site, repository, DirView::Start, git::head_args()),
            ) == head
            &&& default_base_candidates(site, repository, found.repo_root).contains("HEAD"@)
                ==> optional_oid(ask(site, repository, dir, git::merge_base_args("HEAD"@))) == head
        }),
    ensures
        ({
            let found = resolved(site, repository, path, None)->Ok_0;
            resolved(site, repository, path, Some(found.base_label)) == Ok::<_, Seq<Seq<char>>>(
                SourceView { base_ref: Some(found.base_label), ..found },
            )
        }),
{
    let found = resolved(site, repository, path, None)->Ok_0;
    let repo = found.repo_root;
    let dir = DirView::Repo(repo);
    if ask(site, repository, dir, git::branch_args()) is Ok {
        let candidates = default_base_candidates(site, repository, repo);
        let others = other_than(candidates, found.branch);
        lemma_first_base(site, repository, repo, others);
        if found.base_label == "HEAD"@ {
            lemma_head_base(site, repository, repo, others);
            if others.contains("HEAD"@) {
                lemma_other_than(candidates, found.branch, "HEAD"@);
            }
        }
    }
}

/// Where HEAD is the first base, its oid is that of HEAD, or of the merge base
/// of HEAD with itself where HEAD is among the candidates.
proof fn lemma_head_base(
    site: Site,
    repository: spec_fn(CommandView) -> OutcomeView,
    repo: Seq<char>,
    candidates: Seq<Seq<char>>,
)
    requires
        first_base(site, repository, repo, candidates).0 == "HEAD"@,
    ensures
        ({
            let oid = first_base(site, repository, repo, candidates).1;
            let dir = DirView::Repo(repo);
            ||| oid == optional_oid(ask(site, repository, dir, git::head_args()))
            ||| candidates.contains("HEAD"@) && oid == optional_oid(
                ask(site, repository, dir, git::merge_base_args("HEAD"@)),
            )
        }),
    decreases candidates.len(),
{
    if candidates.len() > 0 {
        let dir = DirView::Repo(repo);
        let rest = candidates.skip(1);
        if ask(site, repository, dir, git::merge_base_args(candidates[0])) is Ok {
            assert(candidates[0] == "HEAD"@);
        } else {
            lemma_head_base(site, repository, repo, rest);
            if rest.contains("HEAD"@) {
                let i = choose|i: int| 0 <= i < rest.len() && rest[i] == "HEAD"@;
                assert(candidates[i + 1] == "HEAD"@);
            }
        }
    }
}

proof fn lemma_other_than(candidates: Seq<Seq<char>>, branch: Seq<char>, c: Seq<char>)
    requires
        other_than(candidates, branch).contains(c),
    ensures
        c != branch,
        candidates.contains(c),
    decreases candidates.len(),
{
    let kept = other_than(candidates, branch);
    let i = choose|i: int| 0 <= i < kept.len() && kept[i] == c;
    let front = candidates.drop_last();
    let before = other_than(front, branch);
    if i < before.len() {
        assert(before[i] == c);
        lemma_other_than(front, branch, c);
        let j = choose|j: int| 0 <= j < front.len() && front[j] == c;
        assert(candidates[j] == c);
    } else {
        assert(candidates[candidates.len() - 1] == c);
    }
}

proof fn lemma_first_base(
    site: Site,
    repository: spec_fn(CommandView) -> OutcomeView,
    repo: Seq<char>,
    candidates: Seq<Seq<char>>,
)
    ensures
        ({
            let (label, oid) = first_base(site, repository, repo, candidates);
            label == "HEAD"@ || {
                &&& candidates.contains(label)
                &&& oid is Some
                &&& oid == optional_oid(
                    ask(site, repository, DirView::Repo(repo), git::merge_base_args(label)),
                )
            }
        }),
    decreases candidates.len(),
{
    if candidates.len() > 0 {
        let rest = candidates.skip(1);
        lemma_first_base(site, repository, repo, rest);
        let (label, _) = first_base(site, repository, repo, rest);
        assert(candidates.contains(candidates[0]));
        if rest.contains(label) {
            let i = choose|i: int| 0 <= i < rest.len() && rest[i] == label;
            assert(candidates[i + 1] == label);
        }
    }
}

} // verus!
