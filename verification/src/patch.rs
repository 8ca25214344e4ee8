//! The patch of everything that a review looks at.
use crate::bytes;
use crate::bytes::lossy_text;
use crate::git;
use crate::git::{
    answer_text, not_run_failure, refused, says_no_ref, words2, words3, CommandView, DirView,
    Failure, GitCommand, Outcome, OutcomeView, Site, WorkDir,
};
use crate::remote::RemoteSource;
use crate::resolve;
use crate::resolve::{LocalSource, SourceView};
use crate::text;
use crate::text::{copy_texts, line_list, trimmed};
use vstd::prelude::*;
use vstd::string::*;

verus! {

/// How many untracked files to inline into the patch before giving up.
pub const MAX_UNTRACKED_FILES: usize = 200;

/// The arguments that ask for what differs from a commit.
pub open spec fn diff_args(base: Seq<char>) -> Seq<Seq<char>> {
    seq!["diff"@, "-M"@, "--no-color"@, "--no-ext-diff"@, base]
}

/// The arguments that ask for the files that git does not know.
pub open spec fn untracked_args() -> Seq<Seq<char>> {
    seq!["ls-files"@, "--others"@, "--exclude-standard"@]
}

/// The arguments that ask for a file as one that was added.
pub open spec fn added_args(file: Seq<char>) -> Seq<Seq<char>> {
    seq![
        "diff"@,
        "--no-color"@,
        "--no-ext-diff"@,
        "--no-index"@,
        "--"@,
        "/dev/null"@,
        file,
    ]
}

/// The patch of one file that was added. `--no-index` exits with 1 when the
/// sides differ, which is success here.
pub open spec fn added_patch(site: Site, file: Seq<char>, outcome: OutcomeView) -> Result<
    Seq<char>,
    Seq<Seq<char>>,
> {
    match outcome {
        OutcomeView::NotRun(reasons) => Err(
            git::not_run(site, "failed to run git: "@, reasons),
        ),
        OutcomeView::Ran { code, stdout, stderr, .. } => if code == Some(0i32) || code == Some(1i32) {
            Ok(bytes::lossy(stdout))
        } else {
            Err(
                seq![
                    (match site {
                        Site::Local => "git diff --no-index /dev/null "@,
                        Site::Remote => "remote git diff --no-index "@,
                    }) + file + " failed: "@ + text::trim(bytes::lossy(stderr)),
                ],
            )
        },
    }
}

/// The patch of one file that was added.
pub fn added_file(site: Site, file: &str, outcome: Outcome) -> (r: Result<String, Failure>)
    ensures
        git::text_result(r) == added_patch(site, file@, outcome@),
{
    match outcome {
        Outcome::NotRun(reasons) => Err(not_run_failure(site, "failed to run git: ", reasons)),
        Outcome::Ran { success: _, code, stdout, stderr } => {
            if code == Some(0) || code == Some(1) {
                Ok(lossy_text(stdout.as_slice()))
            } else {
                let mut message = match site {
                    Site::Local => "git diff --no-index /dev/null ".to_owned(),
                    Site::Remote => "remote git diff --no-index ".to_owned(),
                };
                message.append(file);
                message.append(" failed: ");
                let details = lossy_text(stderr.as_slice());
                message.append(trimmed(details.as_str()).as_str());
                Err(Failure::new(message))
            }
        },
    }
}

/// How far a patch has come.
pub enum PatchStage {
    /// What differs from the base is asked for, or from HEAD without a base.
    Changes { base: Option<String> },
    /// Nothing could be compared to HEAD, for this reason, and it is asked whether
    /// the repository has any ref.
    NoCommits { failure: Failure },
    /// The untracked files are asked for.
    Untracked { patch: String },
    /// An untracked file is asked for; those before it are in the patch.
    Added { patch: String, files: Vec<String>, at: usize },
}

/// The model of a [`PatchStage`]; `files` holds those that are not in the patch.
pub enum PatchStageView {
    Changes { base: Option<Seq<char>> },
    NoCommits { failure: Seq<Seq<char>> },
    Untracked { patch: Seq<char> },
    Added { patch: Seq<char>, files: Seq<Seq<char>> },
}

impl View for PatchStage {
    type V = PatchStageView;

    open spec fn view(&self) -> PatchStageView {
        match *self {
            PatchStage::Changes { base } => PatchStageView::Changes {
                base: text::opt_text(base),
            },
            PatchStage::NoCommits { failure } => PatchStageView::NoCommits { failure: failure@ },
            PatchStage::Untracked { patch } => PatchStageView::Untracked { patch: patch@ },
            PatchStage::Added { patch, files, at } => PatchStageView::Added {
                patch: patch@,
                files: text::texts(files@).skip(at as int),
            },
        }
    }
}

/// The making of a patch.
pub struct PatchRun {
    pub site: Site,
    pub repo: String,
    pub stage: PatchStage,
}

/// The model of a [`PatchRun`].
pub struct PatchRunView {
    pub site: Site,
    pub repo: Seq<char>,
    pub stage: PatchStageView,
}

impl View for PatchRun {
    type V = PatchRunView;

    open spec fn view(&self) -> PatchRunView {
        PatchRunView { site: self.site, repo: self.repo@, stage: self.stage@ }
    }
}

impl PatchRun {
    /// Whether there is a file to ask for where one is asked for.
    pub open spec fn wf(self) -> bool {
        self.stage matches PatchStage::Added { files, at, .. } ==> at < files@.len()
    }
}

/// The commit that files are compared to.
pub open spec fn base_or_head(base: Option<Seq<char>>) -> Seq<char> {
    match base {
        Some(oid) => oid,
        None => "HEAD"@,
    }
}

/// The command that a patch waits for.
pub open spec fn patch_command(p: PatchRunView) -> CommandView {
    CommandView {
        dir: DirView::Repo(p.repo),
        args: match p.stage {
            PatchStageView::Changes { base } => diff_args(base_or_head(base)),
            PatchStageView::NoCommits { .. } => git::any_ref_args(),
            PatchStageView::Untracked { .. } => untracked_args(),
            PatchStageView::Added { files, .. } => added_args(files[0]),
        },
    }
}

/// The patch so far, with some files that are to be added.
pub open spec fn adding(p: PatchRunView, patch: Seq<char>, files: Seq<Seq<char>>) -> git::StepView<
    PatchRunView,
    Seq<char>,
> {
    if files.len() == 0 {
        git::StepView::Done(patch)
    } else {
        git::StepView::Run(PatchRunView { stage: PatchStageView::Added { patch, files }, ..p })
    }
}

/// The untracked files that go into a patch.
pub open spec fn added_files(listing: Seq<char>) -> Seq<Seq<char>> {
    let all = text::lines(listing);
    if all.len() <= MAX_UNTRACKED_FILES {
        all
    } else {
        all.take(MAX_UNTRACKED_FILES as int)
    }
}

/// What a patch does with the outcome of its command.
pub open spec fn patch_next(p: PatchRunView, outcome: OutcomeView) -> git::StepView<
    PatchRunView,
    Seq<char>,
> {
    let answer = git::answer(p.site, patch_command(p).args, outcome);
    match p.stage {
        PatchStageView::Changes { base } => match answer {
            Ok(patch) => git::StepView::Run(
                PatchRunView { stage: PatchStageView::Untracked { patch }, ..p },
            ),
            Err(failure) => if base is None && git::is_refusal(outcome) {
                git::StepView::Run(
                    PatchRunView { stage: PatchStageView::NoCommits { failure }, ..p },
                )
            } else {
                git::StepView::Failed(failure)
            },
        },
        PatchStageView::NoCommits { failure } => if git::is_no_ref(answer) {
            git::StepView::Run(
                PatchRunView { stage: PatchStageView::Untracked { patch: Seq::empty() }, ..p },
            )
        } else {
            git::StepView::Failed(failure)
        },
        PatchStageView::Untracked { patch } => match answer {
            Ok(listing) => adding(p, patch, added_files(listing)),
            Err(failure) => git::StepView::Failed(failure),
        },
        PatchStageView::Added { patch, files } => match added_patch(p.site, files[0], outcome) {
            Ok(more) => adding(p, patch + more, files.skip(1)),
            Err(failure) => git::StepView::Failed(failure),
        },
    }
}

/// The model of a step of a patch.
pub open spec fn patch_step(step: git::Step<PatchRun, String>) -> git::StepView<
    PatchRunView,
    Seq<char>,
> {
    match step {
        git::Step::Run(p) => git::StepView::Run(p@),
        git::Step::Done(patch) => git::StepView::Done(patch@),
        git::Step::Failed(failure) => git::StepView::Failed(failure@),
    }
}

/// The making of a patch that has just begun.
pub open spec fn patch_start(site: Site, source: SourceView) -> PatchRunView {
    PatchRunView {
        site,
        repo: source.repo_root,
        stage: PatchStageView::Changes { base: source.base_oid },
    }
}

fn start(site: Site, repo: &String, base_oid: &Option<String>) -> (r: PatchRun)
    ensures
        r.wf(),
        r.site == site,
        r.repo@ == repo@,
        r.stage@ == (PatchStageView::Changes { base: text::opt_text(*base_oid) }),
{
    let base = match base_oid {
        Some(oid) => Some(oid.clone()),
        None => None,
    };
    PatchRun { site, repo: repo.clone(), stage: PatchStage::Changes { base } }
}

/// Unified patch of everything that would go into a PR opened from here:
/// merge-base(HEAD, base)..working-tree (two-dot, so committed + staged +
/// unstaged), plus untracked files appended as added-file diffs. Without a base
/// the first half is compared to HEAD, and it is empty in a repo with no commits.
pub fn diff_patch(src: &LocalSource) -> (r: PatchRun)
    ensures
        r.wf(),
        r@ == patch_start(Site::Local, src@),
{
    start(Site::Local, &src.repo_root, &src.base_oid)
}

/// The same patch of a remote repository.
pub fn remote_diff_patch(src: &RemoteSource) -> (r: PatchRun)
    ensures
        r.wf(),
        r@ == patch_start(Site::Remote, src.source()),
{
    start(Site::Remote, &src.repo_root, &src.base_oid)
}

fn diff_words(base: &str) -> (r: Vec<String>)
    ensures
        text::texts(r@) == diff_args(base@),
{
    let mut out: Vec<String> = Vec::new();
    out.push("diff".to_owned());
    out.push("-M".to_owned());
    out.push("--no-color".to_owned());
    out.push("--no-ext-diff".to_owned());
    out.push(base.to_owned());
    assert(text::texts(out@) =~= diff_args(base@));
    out
}

fn added_words(file: &str) -> (r: Vec<String>)
    ensures
        text::texts(r@) == added_args(file@),
{
    let mut out: Vec<String> = Vec::new();
    out.push("diff".to_owned());
    out.push("--no-color".to_owned());
    out.push("--no-ext-diff".to_owned());
    out.push("--no-index".to_owned());
    out.push("--".to_owned());
    out.push("/dev/null".to_owned());
    out.push(file.to_owned());
    assert(text::texts(out@) =~= added_args(file@));
    out
}

impl PatchRun {
    /// The command that the patch waits for.
    pub fn command(&self) -> (r: GitCommand)
        requires
            self.wf(),
        ensures
            r@ == patch_command(self@),
    {
        let args = match &self.stage {
            PatchStage::Changes { base } => match base {
                Some(oid) => diff_words(oid.as_str()),
                None => diff_words("HEAD"),
            },
            PatchStage::NoCommits { failure: _ } => words2("for-each-ref", "--count=1"),
            PatchStage::Untracked { patch: _ } => words3(
                "ls-files",
                "--others",
                "--exclude-standard",
            ),
            PatchStage::Added { patch: _, files, at } => {
                proof {
                    assert(text::texts(files@).skip(*at as int)[0] == files@[*at as int]@);
                }
                added_words(files[*at].as_str())
            },
        };
        GitCommand { dir: WorkDir::Repo(self.repo.clone()), args }
    }

    /// Take in the outcome of the command.
    pub fn next(self, outcome: Outcome) -> (r: git::Step<PatchRun, String>)
        requires
            self.wf(),
        ensures
            patch_step(r) == patch_next(self@, outcome@),
            r matches git::Step::Run(next) ==> next.wf(),
    {
        let command = self.command();
        let site = self.site;
        let repo = self.repo;
        match self.stage {
            PatchStage::Changes { base } => {
                let turned_down = refused(&outcome);
                match answer_text(site, &command.args, outcome) {
                    Ok(patch) => git::Step::Run(
                        PatchRun { site, repo, stage: PatchStage::Untracked { patch } },
                    ),
                    Err(failure) => if base.is_none() && turned_down {
                        git::Step::Run(
                            PatchRun { site, repo, stage: PatchStage::NoCommits { failure } },
                        )
                    } else {
                        git::Step::Failed(failure)
                    },
                }
            },
            PatchStage::NoCommits { failure } => {
                let answer = answer_text(site, &command.args, outcome);
                if says_no_ref(&answer) {
                    let patch = String::new();
                    git::Step::Run(PatchRun { site, repo, stage: PatchStage::Untracked { patch } })
                } else {
                    git::Step::Failed(failure)
                }
            },
            PatchStage::Untracked { patch } => match answer_text(site, &command.args, outcome) {
                Ok(listing) => {
                    let all = line_list(listing.as_str());
                    let count: usize = if all.len() <= MAX_UNTRACKED_FILES {
                        all.len()
                    } else {
                        MAX_UNTRACKED_FILES
                    };
                    let files = copy_texts(&all, 0, count);
                    proof {
                        assert(text::texts(files@) =~= added_files(listing@));
                        assert(text::texts(files@).skip(0) =~= text::texts(files@));
                    }
                    if files.len() == 0 {
                        git::Step::Done(patch)
                    } else {
                        git::Step::Run(
                            PatchRun {
                                site,
                                repo,
                                stage: PatchStage::Added { patch, files, at: 0 },
                            },
                        )
                    }
                },
                Err(failure) => git::Step::Failed(failure),
            },
            PatchStage::Added { patch, files, at } => {
                proof {
                    let all = text::texts(files@);
                    assert(all.skip(at as int)[0] == files@[at as int]@);
                    assert(all.skip(at as int).skip(1) =~= all.skip(at + 1));
                }
                match added_file(site, files[at].as_str(), outcome) {
                    Ok(more) => {
                        let mut patch = patch;
                        patch.append(more.as_str());
                        if at < files.len() - 1 {
                            git::Step::Run(
                                PatchRun {
                                    site,
                                    repo,
                                    stage: PatchStage::Added { patch, files, at: at + 1 },
                                },
                            )
                        } else {
                            git::Step::Done(patch)
                        }
                    },
                    Err(failure) => git::Step::Failed(failure),
                }
            },
        }
    }
}

/// The patch of some files that were added, behind another patch.
pub open spec fn with_added(
    site: Site,
    repository: spec_fn(CommandView) -> OutcomeView,
    repo: Seq<char>,
    patch: Seq<char>,
    files: Seq<Seq<char>>,
) -> Result<Seq<char>, Seq<Seq<char>>>
    decreases files.len(),
{
    if files.len() == 0 {
        Ok(patch)
    } else {
        let outcome = repository(
            CommandView { dir: DirView::Repo(repo), args: added_args(files[0]) },
        );
        match added_patch(site, files[0], outcome) {
            Ok(more) => with_added(site, repository, repo, patch + more, files.skip(1)),
            Err(failure) => Err(failure),
        }
    }
}

/// The patch of the files that git does not know, behind another patch.
pub open spec fn with_untracked(
    site: Site,
    repository: spec_fn(CommandView) -> OutcomeView,
    repo: Seq<char>,
    patch: Seq<char>,
) -> Result<Seq<char>, Seq<Seq<char>>> {
    match resolve::ask(site, repository, DirView::Repo(repo), untracked_args()) {
        Err(failure) => Err(failure),
        Ok(listing) => with_added(site, repository, repo, patch, added_files(listing)),
    }
}

/// What differs in tracked files, from the base or from HEAD without one. It is
/// nothing in a repo with no commits: git turns down the comparison to HEAD, and
/// there is no ref.
pub open spec fn tracked_changes(
    site: Site,
    repository: spec_fn(CommandView) -> OutcomeView,
    source: SourceView,
) -> Result<Seq<char>, Seq<Seq<char>>> {
    let dir = DirView::Repo(source.repo_root);
    let args = diff_args(base_or_head(source.base_oid));
    match resolve::ask(site, repository, dir, args) {
        Ok(patch) => Ok(patch),
        Err(failure) => if source.base_oid is None && git::is_refusal(
            repository(CommandView { dir, args }),
        ) && git::is_no_ref(resolve::ask(site, repository, dir, git::any_ref_args())) {
            Ok(Seq::empty())
        } else {
            Err(failure)
        },
    }
}

/// The patch of a source: what differs in tracked files, and then the untracked
/// files, up to a number of them.
pub open spec fn whole_patch(
    site: Site,
    repository: spec_fn(CommandView) -> OutcomeView,
    source: SourceView,
) -> Result<Seq<char>, Seq<Seq<char>>> {
    match tracked_changes(site, repository, source) {
        Ok(patch) => with_untracked(site, repository, source.repo_root, patch),
        Err(failure) => Err(failure),
    }
}

/// What a patch comes to when its commands run on a repository, if it does so
/// within a number of commands.
pub open spec fn patch_run(
    p: PatchRunView,
    repository: spec_fn(CommandView) -> OutcomeView,
    commands: nat,
) -> Option<Result<Seq<char>, Seq<Seq<char>>>>
    decreases commands,
{
    if commands == 0 {
        None
    } else {
        match patch_next(p, repository(patch_command(p))) {
            git::StepView::Run(next) => patch_run(next, repository, (commands - 1) as nat),
            git::StepView::Done(patch) => Some(Ok(patch)),
            git::StepView::Failed(failure) => Some(Err(failure)),
        }
    }
}

proof fn lemma_adding(
    p: PatchRunView,
    repository: spec_fn(CommandView) -> OutcomeView,
    patch: Seq<char>,
    files: Seq<Seq<char>>,
    commands: nat,
)
    requires
        p.stage == (PatchStageView::Added { patch, files }),
        files.len() > 0,
        commands >= files.len(),
    ensures
        patch_run(p, repository, commands) == Some(
            with_added(p.site, repository, p.repo, patch, files),
        ),
    decreases files.len(),
{
    let outcome = repository(patch_command(p));
    if let Ok(more) = added_patch(p.site, files[0], outcome) {
        let rest = files.skip(1);
        if rest.len() > 0 {
            let next = PatchRunView {
                stage: PatchStageView::Added { patch: patch + more, files: rest },
                ..p
            };
            lemma_adding(next, repository, patch + more, rest, (commands - 1) as nat);
        } else {
            assert(with_added(p.site, repository, p.repo, patch + more, rest) == Ok::<
                _,
                Seq<Seq<char>>,
            >(patch + more));
        }
    }
}

proof fn lemma_untracked(
    p: PatchRunView,
    repository: spec_fn(CommandView) -> OutcomeView,
    patch: Seq<char>,
    commands: nat,
)
    requires
        p.stage == (PatchStageView::Untracked { patch }),
        commands > MAX_UNTRACKED_FILES,
    ensures
        patch_run(p, repository, commands) == Some(
            with_untracked(p.site, repository, p.repo, patch),
        ),
{
    if let Ok(listing) = resolve::ask(
        p.site,
        repository,
        DirView::Repo(p.repo),
        untracked_args(),
    ) {
        let files = added_files(listing);
        if files.len() > 0 {
            let next = PatchRunView { stage: PatchStageView::Added { patch, files }, ..p };
            lemma_adding(next, repository, patch, files, (commands - 1) as nat);
        } else {
            assert(with_added(p.site, repository, p.repo, patch, files) == Ok::<
                _,
                Seq<Seq<char>>,
            >(patch));
        }
    }
}

/// The making of a patch runs at most two commands for what is tracked, one for
/// the list of other files and one for each of those that go in, and comes to
/// the patch of the source or to the first failure.
pub proof fn patches_come_to_an_end(
    site: Site,
    repository: spec_fn(CommandView) -> OutcomeView,
    source: SourceView,
)
    ensures
        patch_run(
            patch_start(site, source),
            repository,
            (MAX_UNTRACKED_FILES + 3) as nat,
        ) == Some(whole_patch(site, repository, source)),
{
    let start = patch_start(site, source);
    let commands = (MAX_UNTRACKED_FILES + 3) as nat;
    if let git::StepView::Run(second) = patch_next(start, repository(patch_command(start))) {
        match second.stage {
            PatchStageView::Untracked { patch } => {
                lemma_untracked(second, repository, patch, (commands - 1) as nat);
            },
            _ => {
                let third = PatchRunView {
                    stage: PatchStageView::Untracked { patch: Seq::empty() },
                    ..second
                };
                lemma_untracked(third, repository, Seq::empty(), (commands - 2) as nat);
                reveal_with_fuel(patch_run, 2);
            },
        }
    }
}

/// The patch of a repository without commits is that of its untracked files.
pub proof fn patches_without_commits_hold_untracked_files(
    site: Site,
    repository: spec_fn(CommandView) -> OutcomeView,
    source: SourceView,
)
    requires
        source.base_oid is None,
        ({
            let dir = DirView::Repo(source.repo_root);
            &&& git::is_refusal(repository(CommandView { dir, args: diff_args("HEAD"@) }))
            &&& git::is_no_ref(resolve::ask(site, repository, dir, git::any_ref_args()))
        }),
    ensures
        whole_patch(site, repository, source) == with_untracked(
            site,
            repository,
            source.repo_root,
            Seq::empty(),
        ),
{
}

} // verus!
