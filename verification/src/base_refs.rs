//! The refs that a diff can be based on.
use crate::git;
use crate::git::{
    answer_text, words2, words3, CommandView, DirView, GitCommand, Outcome, OutcomeView, Site,
    WorkDir,
};
use crate::remote::RemoteSource;
use crate::resolve;
use crate::resolve::{push_remote_head, push_unique, push_usual_bases, remote_head_words};
use crate::text;
use crate::text::{has_suffix, line_list, same_text, trimmed};
use vstd::prelude::*;
use vstd::string::*;

verus! {

/// The arguments that ask for all branches.
pub open spec fn refs_args() -> Seq<Seq<char>> {
    seq![
        "for-each-ref"@,
        "--format=%(refname:short)"@,
        "refs/heads"@,
        "refs/remotes"@,
    ]
}

/// Whether a ref can be a base: it has a name, is not the current branch, and
/// does not stand for the default branch of a remote.
pub open spec fn is_base(name: Seq<char>, branch: Seq<char>) -> bool {
    name.len() > 0 && name != branch && !text::ends_with(name, "/HEAD"@)
}

/// The refs among some lines that can be a base.
pub open spec fn bases_among(lines: Seq<Seq<char>>, branch: Seq<char>) -> Seq<Seq<char>>
    decreases lines.len(),
{
    if lines.len() == 0 {
        Seq::empty()
    } else {
        let before = bases_among(lines.drop_last(), branch);
        let name = text::trim(lines.last());
        if is_base(name, branch) {
            before.push(name)
        } else {
            before
        }
    }
}

/// The refs that are offered: the default candidates, HEAD, and the others.
pub open spec fn offered(
    candidates: Seq<Seq<char>>,
    branch: Seq<char>,
    refs: Seq<char>,
) -> Seq<Seq<char>> {
    resolve::with_all_unique(
        resolve::with_unique(candidates, "HEAD"@),
        bases_among(text::lines(refs), branch),
    )
}

/// How far a listing has come.
pub enum ListStage {
    /// The root of the repository is asked for.
    Root,
    /// The current branch is asked for.
    Branch { repo: String },
    /// The default branch of origin is asked for, or then that of upstream.
    RemoteHead { repo: String, branch: String, candidates: Vec<String>, upstream: bool },
    /// All branches are asked for.
    Refs { repo: String, branch: String, candidates: Vec<String> },
    /// The merge base with a ref is asked for; those before it are settled.
    Shared { repo: String, kept: Vec<String>, refs: Vec<String>, at: usize },
}

/// The model of a [`ListStage`]; `refs` holds those that are not settled.
pub enum ListStageView {
    Root,
    Branch { repo: Seq<char> },
    RemoteHead {
        repo: Seq<char>,
        branch: Seq<char>,
        candidates: Seq<Seq<char>>,
        upstream: bool,
    },
    Refs { repo: Seq<char>, branch: Seq<char>, candidates: Seq<Seq<char>> },
    Shared { repo: Seq<char>, kept: Seq<Seq<char>>, refs: Seq<Seq<char>> },
}

impl View for ListStage {
    type V = ListStageView;

    open spec fn view(&self) -> ListStageView {
        match *self {
            ListStage::Root => ListStageView::Root,
            ListStage::Branch { repo } => ListStageView::Branch { repo: repo@ },
            ListStage::RemoteHead { repo, branch, candidates, upstream } =>
                ListStageView::RemoteHead {
                repo: repo@,
                branch: branch@,
                candidates: text::texts(candidates@),
                upstream,
            },
            ListStage::Refs { repo, branch, candidates } => ListStageView::Refs {
                repo: repo@,
                branch: branch@,
                candidates: text::texts(candidates@),
            },
            ListStage::Shared { repo, kept, refs, at } => ListStageView::Shared {
                repo: repo@,
                kept: text::texts(kept@),
                refs: text::texts(refs@).skip(at as int),
            },
        }
    }
}

/// The listing of the refs that a diff can be based on.
pub struct BaseRefs {
    pub site: Site,
    /// What to call the path in messages.
    pub path: String,
    pub stage: ListStage,
}

/// The model of [`BaseRefs`].
pub struct BaseRefsView {
    pub site: Site,
    pub path: Seq<char>,
    pub stage: ListStageView,
}

impl View for BaseRefs {
    type V = BaseRefsView;

    open spec fn view(&self) -> BaseRefsView {
        BaseRefsView { site: self.site, path: self.path@, stage: self.stage@ }
    }
}

impl BaseRefs {
    /// Whether there is a ref to settle where one is settled.
    pub open spec fn wf(self) -> bool {
        self.stage matches ListStage::Shared { refs, at, .. } ==> at < refs@.len()
    }
}

/// The command that a listing waits for.
pub open spec fn list_command(l: BaseRefsView) -> CommandView {
    match l.stage {
        ListStageView::Root => CommandView { dir: DirView::Start, args: git::root_args() },
        ListStageView::Branch { repo } => CommandView {
            dir: DirView::Repo(repo),
            args: git::branch_args(),
        },
        ListStageView::RemoteHead { repo, upstream, .. } => CommandView {
            dir: DirView::Repo(repo),
            args: resolve::remote_head_args(if upstream {
                "upstream"@
            } else {
                "origin"@
            }),
        },
        ListStageView::Refs { repo, .. } => CommandView {
            dir: DirView::Repo(repo),
            args: refs_args(),
        },
        ListStageView::Shared { repo, refs, .. } => CommandView {
            dir: DirView::Repo(repo),
            args: git::merge_base_args(refs[0]),
        },
    }
}

/// The listing with some refs settled: HEAD stays, and the next other one is
/// asked for.
pub open spec fn settling(
    site: Site,
    path: Seq<char>,
    repo: Seq<char>,
    kept: Seq<Seq<char>>,
    refs: Seq<Seq<char>>,
) -> git::StepView<BaseRefsView, Seq<Seq<char>>>
    decreases refs.len(),
{
    if refs.len() == 0 {
        git::StepView::Done(kept)
    } else if refs[0] == "HEAD"@ {
        settling(site, path, repo, kept.push(refs[0]), refs.skip(1))
    } else {
        git::StepView::Run(
            BaseRefsView { site, path, stage: ListStageView::Shared { repo, kept, refs } },
        )
    }
}

/// What a listing does with the outcome of its command.
pub open spec fn list_next(l: BaseRefsView, outcome: OutcomeView) -> git::StepView<
    BaseRefsView,
    Seq<Seq<char>>,
> {
    let answer = git::answer(l.site, list_command(l).args, outcome);
    match l.stage {
        ListStageView::Root => match answer {
            Ok(s) => git::StepView::Run(
                BaseRefsView { stage: ListStageView::Branch { repo: text::trim(s) }, ..l },
            ),
            Err(failure) => git::StepView::Failed(
                resolve::explained(l.site, l.path + " is not inside a git repository"@, failure),
            ),
        },
        ListStageView::Branch { repo } => match answer {
            Ok(s) => git::StepView::Run(
                BaseRefsView {
                    stage: ListStageView::RemoteHead {
                        repo,
                        branch: text::trim(s),
                        candidates: Seq::empty(),
                        upstream: false,
                    },
                    ..l
                },
            ),
            Err(failure) => git::StepView::Failed(failure),
        },
        ListStageView::RemoteHead { repo, branch, candidates, upstream } => {
            let more = resolve::with_remote_head(candidates, answer);
            let stage = if upstream {
                ListStageView::Refs {
                    repo,
                    branch,
                    candidates: resolve::with_all_unique(more, resolve::usual_bases()),
                }
            } else {
                ListStageView::RemoteHead { repo, branch, candidates: more, upstream: true }
            };
            git::StepView::Run(BaseRefsView { stage, ..l })
        },
        ListStageView::Refs { repo, branch, candidates } => match answer {
            Ok(s) => match l.site {
                Site::Local => settling(
                    l.site,
                    l.path,
                    repo,
                    Seq::empty(),
                    offered(candidates, branch, s),
                ),
                Site::Remote => git::StepView::Done(offered(candidates, branch, s)),
            },
            Err(failure) => git::StepView::Failed(failure),
        },
        ListStageView::Shared { repo, kept, refs } => settling(
            l.site,
            l.path,
            repo,
            match answer {
                Ok(_) => kept.push(refs[0]),
                Err(_) => kept,
            },
            refs.skip(1),
        ),
    }
}

/// The model of a step of a listing.
pub open spec fn list_step(step: git::Step<BaseRefs, Vec<String>>) -> git::StepView<
    BaseRefsView,
    Seq<Seq<char>>,
> {
    match step {
        git::Step::Run(l) => git::StepView::Run(l@),
        git::Step::Done(refs) => git::StepView::Done(text::texts(refs@)),
        git::Step::Failed(failure) => git::StepView::Failed(failure@),
    }
}

fn push_bases(candidates: &mut Vec<String>, branch: &str, refs: &str)
    ensures
        text::texts(final(candidates)@) == offered(text::texts(old(candidates)@), branch@, refs@),
{
    push_unique(candidates, "HEAD".to_owned());
    let ghost start = text::texts(candidates@);
    let lines = line_list(refs);
    let mut i: usize = 0;
    while i < lines.len()
        invariant
            i <= lines@.len(),
            text::texts(lines@) == text::lines(refs@),
            text::texts(candidates@) == resolve::with_all_unique(
                start,
                bases_among(text::texts(lines@).take(i as int), branch@),
            ),
        decreases lines@.len() - i,
    {
        let ghost all = text::texts(lines@);
        let ghost known = bases_among(all.take(i as int), branch@);
        let name = trimmed(lines[i].as_str());
        proof {
            assert(all.take(i + 1).drop_last() =~= all.take(i as int));
            assert(all.take(i + 1).last() == lines@[i as int]@);
            assert(known.push(name@).drop_last() =~= known);
        }
        if !name.as_str().is_empty() && !same_text(name.as_str(), branch) && !has_suffix(
            name.as_str(),
            "/HEAD",
        ) {
            push_unique(candidates, name);
        }
        i = i + 1;
    }
    assert(text::texts(lines@).take(i as int) =~= text::texts(lines@));
}

/// Settle the refs that need no question.
fn settle(site: Site, path: String, repo: String, kept: Vec<String>, refs: Vec<String>, at: usize) -> (r:
    git::Step<BaseRefs, Vec<String>>)
    requires
        at <= refs@.len(),
    ensures
        list_step(r) == settling(
            site,
            path@,
            repo@,
            text::texts(kept@),
            text::texts(refs@).skip(at as int),
        ),
        r matches git::Step::Run(next) ==> next.wf(),
{
    let ghost first = text::texts(kept@);
    let mut out = kept;
    let mut i: usize = at;
    let ghost all = text::texts(refs@);
    while i < refs.len()
        invariant
            at <= i <= refs@.len(),
            all == text::texts(refs@),
            first == text::texts(kept@),
            settling(site, path@, repo@, first, all.skip(at as int)) == settling(
                site,
                path@,
                repo@,
                text::texts(out@),
                all.skip(i as int),
            ),
        decreases refs@.len() - i,
    {
        let ghost before = out@;
        proof {
            assert(all.skip(i as int)[0] == refs@[i as int]@);
            assert(all.skip(i as int).skip(1) =~= all.skip(i + 1));
        }
        if !same_text(refs[i].as_str(), "HEAD") {
            return git::Step::Run(
                BaseRefs { site, path, stage: ListStage::Shared { repo, kept: out, refs, at: i } },
            );
        }
        let name = refs[i].clone();
        out.push(name);
        proof {
            text::lemma_texts_push(before, name);
        }
        i = i + 1;
    }
    assert(all.skip(i as int).len() == 0);
    git::Step::Done(out)
}

/// Refs suitable for choosing a local diff base, in UI order.
pub fn list_base_refs(path: &str) -> (r: BaseRefs)
    ensures
        r.wf(),
        r@ == (BaseRefsView { site: Site::Local, path: path@, stage: ListStageView::Root }),
{
    BaseRefs { site: Site::Local, path: path.to_owned(), stage: ListStage::Root }
}

/// Refs suitable for choosing the diff base of a remote repository, in UI
/// order. The commands start in the directory that the source names.
pub fn list_remote_base_refs(src: &RemoteSource) -> (r: BaseRefs)
    ensures
        r.wf(),
        r@ == (BaseRefsView {
            site: Site::Remote,
            path: src.repo_root@,
            stage: ListStageView::Root,
        }),
{
    BaseRefs { site: Site::Remote, path: src.repo_root.clone(), stage: ListStage::Root }
}

fn refs_words() -> (r: Vec<String>)
    ensures
        text::texts(r@) == refs_args(),
{
    let mut out: Vec<String> = Vec::new();
    out.push("for-each-ref".to_owned());
    out.push("--format=%(refname:short)".to_owned());
    out.push("refs/heads".to_owned());
    out.push("refs/remotes".to_owned());
    assert(text::texts(out@) =~= refs_args());
    out
}

impl BaseRefs {
    /// The command that the listing waits for.
    pub fn command(&self) -> (r: GitCommand)
        requires
            self.wf(),
        ensures
            r@ == list_command(self@),
    {
        match &self.stage {
            ListStage::Root => GitCommand {
                dir: WorkDir::Start,
                args: words2("rev-parse", "--show-toplevel"),
            },
            ListStage::Branch { repo } => GitCommand {
                dir: WorkDir::Repo(repo.clone()),
                args: words3("rev-parse", "--abbrev-ref", "HEAD"),
            },
            ListStage::RemoteHead { repo, branch: _, candidates: _, upstream } => GitCommand {
                dir: WorkDir::Repo(repo.clone()),
                args: remote_head_words(if *upstream {
                    "upstream"
                } else {
                    "origin"
                }),
            },
            ListStage::Refs { repo, branch: _, candidates: _ } => GitCommand {
                dir: WorkDir::Repo(repo.clone()),
                args: refs_words(),
            },
            ListStage::Shared { repo, kept: _, refs, at } => {
                proof {
                    assert(text::texts(refs@).skip(*at as int)[0] == refs@[*at as int]@);
                }
                GitCommand {
                    dir: WorkDir::Repo(repo.clone()),
                    args: words3("merge-base", "HEAD", refs[*at].as_str()),
                }
            },
        }
    }

    /// Take in the outcome of the command.
    pub fn next(self, outcome: Outcome) -> (r: git::Step<BaseRefs, Vec<String>>)
        requires
            self.wf(),
        ensures
            list_step(r) == list_next(self@, outcome@),
            r matches git::Step::Run(next) ==> next.wf(),
    {
        let command = self.command();
        let answer = answer_text(self.site, &command.args, outcome);
        let site = self.site;
        let path = self.path;
        match self.stage {
            ListStage::Root => match answer {
                Ok(s) => git::Step::Run(
                    BaseRefs {
                        site,
                        path,
                        stage: ListStage::Branch { repo: trimmed(s.as_str()) },
                    },
                ),
                Err(failure) => git::Step::Failed(
                    resolve::explain(site, path.as_str(), " is not inside a git repository", failure),
                ),
            },
            ListStage::Branch { repo } => match answer {
                Ok(s) => {
                    let candidates: Vec<String> = Vec::new();
                    proof {
                        assert(text::texts(candidates@) =~= Seq::<Seq<char>>::empty());
                    }
                    git::Step::Run(
                        BaseRefs {
                            site,
                            path,
                            stage: ListStage::RemoteHead {
                                repo,
                                branch: trimmed(s.as_str()),
                                candidates,
                                upstream: false,
                            },
                        },
                    )
                },
                Err(failure) => git::Step::Failed(failure),
            },
            ListStage::RemoteHead { repo, branch, candidates, upstream } => {
                let mut candidates = candidates;
                push_remote_head(&mut candidates, answer);
                let stage = if upstream {
                    push_usual_bases(&mut candidates);
                    ListStage::Refs { repo, branch, candidates }
                } else {
                    ListStage::RemoteHead { repo, branch, candidates, upstream: true }
                };
                git::Step::Run(BaseRefs { site, path, stage })
            },
            ListStage::Refs { repo, branch, candidates } => match answer {
                Ok(s) => {
                    let mut refs = candidates;
                    push_bases(&mut refs, branch.as_str(), s.as_str());
                    match site {
                        Site::Local => {
                            let kept: Vec<String> = Vec::new();
                            proof {
                                assert(text::texts(kept@) =~= Seq::<Seq<char>>::empty());
                                assert(text::texts(refs@).skip(0) =~= text::texts(refs@));
                            }
                            settle(site, path, repo, kept, refs, 0)
                        },
                        Site::Remote => git::Step::Done(refs),
                    }
                },
                Err(failure) => git::Step::Failed(failure),
            },
            ListStage::Shared { repo, kept, refs, at } => {
                let ghost all = text::texts(refs@);
                proof {
                    assert(all.skip(at as int)[0] == refs@[at as int]@);
                    assert(all.skip(at as int).skip(1) =~= all.skip(at + 1));
                }
                let mut kept = kept;
                let total: usize = refs.len();
                assert(at < total);
                if answer.is_ok() {
                    let ghost before = kept@;
                    let name = refs[at].clone();
                    kept.push(name);
                    proof {
                        text::lemma_texts_push(before, name);
                    }
                }
                settle(site, path, repo, kept, refs, at + 1)
            },
        }
    }
}

/// The refs that share history with HEAD, and HEAD itself.
pub open spec fn sharing_history(
    site: Site,
    repository: spec_fn(CommandView) -> OutcomeView,
    repo: Seq<char>,
    refs: Seq<Seq<char>>,
) -> Seq<Seq<char>>
    decreases refs.len(),
{
    if refs.len() == 0 {
        Seq::empty()
    } else {
        let rest = sharing_history(site, repository, repo, refs.skip(1));
        let answer = resolve::ask(
            site,
            repository,
            DirView::Repo(repo),
            git::merge_base_args(refs[0]),
        );
        if refs[0] == "HEAD"@ || answer is Ok {
            seq![refs[0]] + rest
        } else {
            rest
        }
    }
}

/// The refs that a diff in the repository of a path can be based on.
pub open spec fn listed(
    site: Site,
    repository: spec_fn(CommandView) -> OutcomeView,
    path: Seq<char>,
) -> Result<Seq<Seq<char>>, Seq<Seq<char>>> {
    match resolve::ask(site, repository, DirView::Start, git::root_args()) {
        Err(failure) => Err(
            resolve::explained(site, path + " is not inside a git repository"@, failure),
        ),
        Ok(root) => {
            let repo = text::trim(root);
            let dir = DirView::Repo(repo);
            match resolve::ask(site, repository, dir, git::branch_args()) {
                Err(failure) => Err(failure),
                Ok(name) => match resolve::ask(site, repository, dir, refs_args()) {
                    Err(failure) => Err(failure),
                    Ok(refs) => {
                        let all = offered(
                            resolve::default_base_candidates(site, repository, repo),
                            text::trim(name),
                            refs,
                        );
                        match site {
                            Site::Local => Ok(sharing_history(site, repository, repo, all)),
                            Site::Remote => Ok(all),
                        }
                    },
                },
            }
        },
    }
}

/// What a listing comes to when its commands run on a repository, if it does so
/// within a number of commands.
pub open spec fn list_run(
    l: BaseRefsView,
    repository: spec_fn(CommandView) -> OutcomeView,
    commands: nat,
) -> Option<Result<Seq<Seq<char>>, Seq<Seq<char>>>>
    decreases commands,
{
    if commands == 0 {
        None
    } else {
        match list_next(l, repository(list_command(l))) {
            git::StepView::Run(next) => list_run(next, repository, (commands - 1) as nat),
            git::StepView::Done(refs) => Some(Ok(refs)),
            git::StepView::Failed(failure) => Some(Err(failure)),
        }
    }
}

spec fn finished(
    step: git::StepView<BaseRefsView, Seq<Seq<char>>>,
    repository: spec_fn(CommandView) -> OutcomeView,
    commands: nat,
) -> Option<Result<Seq<Seq<char>>, Seq<Seq<char>>>> {
    match step {
        git::StepView::Run(next) => list_run(next, repository, commands),
        git::StepView::Done(refs) => Some(Ok(refs)),
        git::StepView::Failed(failure) => Some(Err(failure)),
    }
}

proof fn lemma_settling_finishes(
    site: Site,
    path: Seq<char>,
    repository: spec_fn(CommandView) -> OutcomeView,
    repo: Seq<char>,
    kept: Seq<Seq<char>>,
    refs: Seq<Seq<char>>,
    commands: nat,
)
    requires
        commands >= refs.len(),
    ensures
        finished(settling(site, path, repo, kept, refs), repository, commands) == Some(
            Ok::<Seq<Seq<char>>, Seq<Seq<char>>>(
                kept + sharing_history(site, repository, repo, refs),
            ),
        ),
    decreases refs.len(),
{
    let shared = sharing_history(site, repository, repo, refs);
    if refs.len() == 0 {
        assert(kept + shared =~= kept);
    } else {
        let rest = refs.skip(1);
        let tail = sharing_history(site, repository, repo, rest);
        assert(kept.push(refs[0]) + tail =~= kept + (seq![refs[0]] + tail));
        if refs[0] == "HEAD"@ {
            lemma_settling_finishes(
                site,
                path,
                repository,
                repo,
                kept.push(refs[0]),
                rest,
                commands,
            );
        } else {
            let l = BaseRefsView { site, path, stage: ListStageView::Shared { repo, kept, refs } };
            let answer = resolve::ask(
                site,
                repository,
                DirView::Repo(repo),
                git::merge_base_args(refs[0]),
            );
            let next = match answer {
                Ok(_) => kept.push(refs[0]),
                Err(_) => kept,
            };
            lemma_settling_finishes(
                site,
                path,
                repository,
                repo,
                next,
                rest,
                (commands - 1) as nat,
            );
            assert(list_next(l, repository(list_command(l))) == settling(
                site,
                path,
                repo,
                next,
                rest,
            ));
        }
    }
}

/// A listing comes to the refs that the repository of the path has, or to the
/// failure that keeps it from finding them.
pub proof fn listings_come_to_an_end(
    site: Site,
    repository: spec_fn(CommandView) -> OutcomeView,
    path: Seq<char>,
)
    ensures
        exists|commands: nat|
            #[trigger] list_run(
                BaseRefsView { site, path, stage: ListStageView::Root },
                repository,
                commands,
            ) == Some(listed(site, repository, path)),
{
    let start = BaseRefsView { site, path, stage: ListStageView::Root };
    reveal_with_fuel(list_run, 6);
    let first = list_next(start, repository(list_command(start)));
    let mut commands: nat = 5;
    if let git::StepView::Run(second) = first {
        if let git::StepView::Run(third) = list_next(second, repository(list_command(second))) {
            let fourth = list_next(third, repository(list_command(third)))->Run_0;
            let fifth = list_next(fourth, repository(list_command(fourth)))->Run_0;
            let repo = fifth.stage->Refs_repo;
            let branch = fifth.stage->Refs_branch;
            let candidates = fifth.stage->Refs_candidates;
            assert(candidates == resolve::default_base_candidates(site, repository, repo));
            if let Ok(refs) = resolve::ask(site, repository, DirView::Repo(repo), refs_args()) {
                let all = offered(candidates, branch, refs);
                commands = 5 + all.len();
                lemma_settling_finishes(
                    site,
                    path,
                    repository,
                    repo,
                    Seq::empty(),
                    all,
                    all.len(),
                );
                let shared = sharing_history(site, repository, repo, all);
                assert(Seq::empty() + shared =~= shared);
            }
        }
    }
    assert(list_run(start, repository, commands) == Some(listed(site, repository, path)));
}

proof fn lemma_with_unique(values: Seq<Seq<char>>, value: Seq<char>)
    requires
        values.no_duplicates(),
    ensures
        resolve::with_unique(values, value).no_duplicates(),
        resolve::with_unique(values, value).contains(value),
        forall|v: Seq<char>|
            values.contains(v) ==> #[trigger] resolve::with_unique(values, value).contains(v),
{
    let all = resolve::with_unique(values, value);
    if !values.contains(value) {
        assert(all[all.len() - 1] == value);
        assert forall|i: int, j: int| 0 <= i < all.len() && 0 <= j < all.len() && i != j implies all[i]
            != all[j] by {
            if i < values.len() {
                assert(values.contains(values[i]));
            }
            if j < values.len() {
                assert(values.contains(values[j]));
            }
        }
        assert forall|v: Seq<char>| values.contains(v) implies #[trigger] all.contains(v) by {
            let i = choose|i: int| 0 <= i < values.len() && values[i] == v;
            assert(all[i] == v);
        }
    }
}

proof fn lemma_with_all_unique(values: Seq<Seq<char>>, more: Seq<Seq<char>>)
    requires
        values.no_duplicates(),
    ensures
        resolve::with_all_unique(values, more).no_duplicates(),
        forall|v: Seq<char>|
            values.contains(v) ==> #[trigger] resolve::with_all_unique(values, more).contains(v),
    decreases more.len(),
{
    if more.len() > 0 {
        lemma_with_all_unique(values, more.drop_last());
        lemma_with_unique(resolve::with_all_unique(values, more.drop_last()), more.last());
    }
}

proof fn lemma_remote_head_unique(
    candidates: Seq<Seq<char>>,
    symref: Result<Seq<char>, Seq<Seq<char>>>,
)
    requires
        candidates.no_duplicates(),
    ensures
        resolve::with_remote_head(candidates, symref).no_duplicates(),
{
    if let Ok(s) = symref {
        if let Some(name) = text::strip_prefix(text::trim(s), "refs/remotes/"@) {
            lemma_with_unique(candidates, name);
        }
    }
}

proof fn lemma_sharing_history(
    site: Site,
    repository: spec_fn(CommandView) -> OutcomeView,
    repo: Seq<char>,
    refs: Seq<Seq<char>>,
)
    requires
        refs.no_duplicates(),
    ensures
        sharing_history(site, repository, repo, refs).no_duplicates(),
        forall|v: Seq<char>|
            #[trigger] sharing_history(site, repository, repo, refs).contains(v)
                ==> refs.contains(v),
        refs.contains("HEAD"@) ==> sharing_history(site, repository, repo, refs).contains(
            "HEAD"@,
        ),
    decreases refs.len(),
{
    if refs.len() > 0 {
        let rest = refs.skip(1);
        assert forall|i: int, j: int| 0 <= i < rest.len() && 0 <= j < rest.len() && i
            != j implies rest[i] != rest[j] by {
            assert(refs[i + 1] != refs[j + 1]);
        }
        lemma_sharing_history(site, repository, repo, rest);
        let tail = sharing_history(site, repository, repo, rest);
        let all = sharing_history(site, repository, repo, refs);
        assert(!rest.contains(refs[0])) by {
            if rest.contains(refs[0]) {
                let i = choose|i: int| 0 <= i < rest.len() && rest[i] == refs[0];
                assert(refs[i + 1] == refs[0]);
            }
        }
        assert forall|v: Seq<char>| #[trigger] all.contains(v) implies refs.contains(v) by {
            let i = choose|i: int| 0 <= i < all.len() && all[i] == v;
            if all.len() > tail.len() {
                if i == 0 {
                    assert(refs[0] == v);
                } else {
                    assert(tail[i - 1] == v);
                    assert(tail.contains(v));
                }
            } else {
                assert(tail.contains(v));
            }
            if rest.contains(v) {
                let k = choose|k: int| 0 <= k < rest.len() && rest[k] == v;
                assert(refs[k + 1] == v);
            }
        }
        if all.len() > tail.len() {
            assert forall|i: int, j: int| 0 <= i < all.len() && 0 <= j < all.len() && i
                != j implies all[i] != all[j] by {
                if i > 0 {
                    assert(tail.contains(tail[i - 1]));
                }
                if j > 0 {
                    assert(tail.contains(tail[j - 1]));
                }
            }
        }
        if refs.contains("HEAD"@) {
            let k = choose|k: int| 0 <= k < refs.len() && refs[k] == "HEAD"@;
            if k == 0 {
                assert(all[0] == "HEAD"@);
            } else {
                assert(rest[k - 1] == "HEAD"@);
                assert(tail.contains("HEAD"@));
                let m = choose|m: int| 0 <= m < tail.len() && tail[m] == "HEAD"@;
                if all.len() > tail.len() {
                    assert(all[m + 1] == "HEAD"@);
                }
            }
        }
    }
}

/// A listing offers no ref twice, and HEAD is always among them.
pub proof fn listed_refs_are_distinct(
    site: Site,
    repository: spec_fn(CommandView) -> OutcomeView,
    path: Seq<char>,
)
    requires
        listed(site, repository, path) is Ok,
    ensures
        listed(site, repository, path)->Ok_0.no_duplicates(),
        listed(site, repository, path)->Ok_0.contains("HEAD"@),
{
    let root = resolve::ask(site, repository, DirView::Start, git::root_args())->Ok_0;
    let repo = text::trim(root);
    let dir = DirView::Repo(repo);
    let branch = text::trim(resolve::ask(site, repository, dir, git::branch_args())->Ok_0);
    let refs = resolve::ask(site, repository, dir, refs_args())->Ok_0;
    let origin = resolve::ask(site, repository, dir, resolve::remote_head_args("origin"@));
    let upstream = resolve::ask(site, repository, dir, resolve::remote_head_args("upstream"@));
    let first = resolve::with_remote_head(Seq::empty(), origin);
    let second = resolve::with_remote_head(first, upstream);
    let candidates = resolve::with_all_unique(second, resolve::usual_bases());
    lemma_remote_head_unique(Seq::empty(), origin);
    lemma_remote_head_unique(first, upstream);
    lemma_with_all_unique(second, resolve::usual_bases());
    let with_head = resolve::with_unique(candidates, "HEAD"@);
    lemma_with_unique(candidates, "HEAD"@);
    let bases = bases_among(text::lines(refs), branch);
    lemma_with_all_unique(with_head, bases);
    lemma_sharing_history(site, repository, repo, offered(candidates, branch, refs));
}

} // verus!
