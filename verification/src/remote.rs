//! Repositories on a remote machine.
use crate::git;
use crate::git::{CommandView, DirView, OutcomeView, Site};
use crate::resolve;
use crate::resolve::{LocalSource, Resolution, ResolutionView, SourceView, Stage, StageView};
use crate::ssh::SshProfile;
use crate::text;
use vstd::prelude::*;
use vstd::string::*;

verus! {

/// A repository on a remote machine, with the branch that is checked out and
/// what it is compared to.
#[derive(Debug, Clone, PartialEq, Eq)]
pub struct RemoteSource {
    pub profile: SshProfile,
    pub repo_root: String,
    pub branch: String,
    pub base_ref: Option<String>,
    pub base_label: String,
    pub base_oid: Option<String>,
}

impl RemoteSource {
    /// What the source is without the way to reach it.
    pub open spec fn source(self) -> SourceView {
        SourceView {
            repo_root: self.repo_root@,
            branch: self.branch@,
            base_ref: text::opt_text(self.base_ref),
            base_label: self.base_label@,
            base_oid: text::opt_text(self.base_oid),
        }
    }

    /// The source that a resolution has found, reached in the same way.
    pub fn resolved(&self, found: LocalSource) -> (r: RemoteSource)
        ensures
            r.profile@ == self.profile@,
            r.source() == found@,
    {
        RemoteSource {
            profile: self.profile.copy(),
            repo_root: found.repo_root,
            branch: found.branch,
            base_ref: found.base_ref,
            base_label: found.base_label,
            base_oid: found.base_oid,
        }
    }
}

/// Resolve a remote repository anew: its root, current branch, and diff base.
/// Its commands start in the directory that the source names.
pub fn resolve_remote(src: &RemoteSource) -> (r: Resolution)
    ensures
        r.wf(),
        r@ == (ResolutionView {
            site: Site::Remote,
            path: src.source().repo_root,
            base_ref: src.source().base_ref,
            stage: StageView::Root,
        }),
{
    Resolution {
        site: Site::Remote,
        path: src.repo_root.clone(),
        base_ref: match &src.base_ref {
            Some(base) => Some(base.clone()),
            None => None,
        },
        stage: Stage::Root,
    }
}

/// The outputs of a command that succeeds are the same wherever it ran; where it
/// fails, only the words differ.
proof fn lemma_same_answers(
    repository: spec_fn(CommandView) -> OutcomeView,
    dir: DirView,
    args: Seq<Seq<char>>,
)
    ensures
        ({
            let local = resolve::ask(Site::Local, repository, dir, args);
            let remote = resolve::ask(Site::Remote, repository, dir, args);
            &&& local is Ok <==> remote is Ok
            &&& local is Ok ==> local == remote
        }),
{
}

proof fn lemma_same_first_base(
    repository: spec_fn(CommandView) -> OutcomeView,
    repo: Seq<char>,
    candidates: Seq<Seq<char>>,
)
    ensures
        resolve::first_base(Site::Local, repository, repo, candidates) == resolve::first_base(
            Site::Remote,
            repository,
            repo,
            candidates,
        ),
    decreases candidates.len(),
{
    let dir = DirView::Repo(repo);
    if candidates.len() == 0 {
        lemma_same_answers(repository, dir, git::head_args());
    } else {
        lemma_same_answers(repository, dir, git::merge_base_args(candidates[0]));
        lemma_same_first_base(repository, repo, candidates.skip(1));
    }
}

/// A remote resolution agrees with a local one on the same answers: both come to
/// the same source, or both fail. Where HEAD was chosen, it has to be the same
/// commit in the directory that the caller has named as in the root, as a local
/// resolution asks for it in the one and a remote one in the other.
pub proof fn remote_resolutions_agree_with_local_ones(
    repository: spec_fn(CommandView) -> OutcomeView,
    path: Seq<char>,
    remote_path: Seq<char>,
    base_ref: Option<Seq<char>>,
)
    requires
        ({
            let root = resolve::ask(Site::Local, repository, DirView::Start, git::root_args());
            let here = resolve::ask(Site::Local, repository, DirView::Start, git::head_args());
            let there = resolve::ask(
                Site::Local,
                repository,
                DirView::Repo(text::trim(root->Ok_0)),
                git::head_args(),
            );
            base_ref is Some && text::trim(base_ref->0) == "HEAD"@ && root is Ok
                ==> resolve::optional_oid(here) == resolve::optional_oid(there)
        }),
    ensures
        ({
            let local = resolve::resolved(Site::Local, repository, path, base_ref);
            let remote = resolve::resolved(Site::Remote, repository, remote_path, base_ref);
            &&& local is Ok <==> remote is Ok
            &&& local is Ok ==> local == remote
        }),
{
    lemma_same_answers(repository, DirView::Start, git::root_args());
    lemma_same_answers(repository, DirView::Start, git::head_args());
    if let Ok(root) = resolve::ask(Site::Local, repository, DirView::Start, git::root_args()) {
        let repo = text::trim(root);
        let dir = DirView::Repo(repo);
        lemma_same_answers(repository, dir, git::branch_args());
        lemma_same_answers(repository, dir, git::head_args());
        lemma_same_answers(repository, dir, resolve::unborn_args());
        lemma_same_answers(repository, dir, git::any_ref_args());
        lemma_same_answers(repository, dir, resolve::remote_head_args("origin"@));
        lemma_same_answers(repository, dir, resolve::remote_head_args("upstream"@));
        if let Some(given) = base_ref {
            lemma_same_answers(repository, dir, git::merge_base_args(text::trim(given)));
        }
        if let Ok(name) = resolve::ask(Site::Local, repository, dir, git::branch_args()) {
            let candidates = resolve::default_base_candidates(Site::Local, repository, repo);
            assert(candidates == resolve::default_base_candidates(
                Site::Remote,
                repository,
                repo,
            ));
            lemma_same_first_base(
                repository,
                repo,
                resolve::other_than(candidates, text::trim(name)),
            );
        }
    }
}

} // verus!
