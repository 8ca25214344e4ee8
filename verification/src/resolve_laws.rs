//! What the base of a diff is, told by what the repository answers to each
//! command.
use vstd::prelude::*;

use crate::bytes;
use crate::git;
use crate::git::{CommandView, DirView, OutcomeView, Site};
use crate::resolve;
use crate::resolve::SourceView;
use crate::text;

verus! {

/// What a command prints that ends well.
pub open spec fn printed(
    repository: spec_fn(CommandView) -> OutcomeView,
    dir: DirView,
    args: Seq<Seq<char>>,
) -> Option<Seq<char>> {
    match repository(CommandView { dir, args }) {
        OutcomeView::Ran { success: true, stdout, .. } => Some(bytes::lossy(stdout)),
        _ => None,
    }
}

/// The name behind `refs/remotes/` that the answer to a question for a symbolic
/// ref gives, or nothing.
pub open spec fn recorded_name(answer: Option<Seq<char>>) -> Seq<Seq<char>> {
    match answer {
        Some(s) => {
            let name = text::trim(s);
            let front = "refs/remotes/"@;
            if front.len() <= name.len() && name.take(front.len() as int) == front {
                seq![name.skip(front.len() as int)]
            } else {
                Seq::empty()
            }
        },
        None => Seq::empty(),
    }
}

/// A value stands in the list, with another nowhere up to there.
pub open spec fn stands_before(all: Seq<Seq<char>>, a: Seq<char>, b: Seq<char>) -> bool {
    exists|p: int| 0 <= p < all.len() && #[trigger] all[p] == a && !all.take(p + 1).contains(b)
}

/// A list holds each value of another once, in the order in which the values
/// first occur there.
pub open spec fn first_occurrences(kept: Seq<Seq<char>>, all: Seq<Seq<char>>) -> bool {
    &&& forall|x: Seq<char>| #[trigger] kept.contains(x) <==> all.contains(x)
    &&& forall|i: int, j: int|
        0 <= i < j < kept.len() ==> stands_before(all, #[trigger] kept[i], #[trigger] kept[j])
}

/// A command that ran and ended well is answered by what it printed. One that
/// ended badly is reported with its arguments and its trimmed error output, and
/// one that could not be run with the reasons.
pub proof fn answers_tell_what_happened(
    args: Seq<Seq<char>>,
    code: Option<i32>,
    stdout: Seq<u8>,
    stderr: Seq<u8>,
    reasons: Seq<Seq<char>>,
    site: Site,
)
    ensures
        git::answer(site, args, OutcomeView::Ran { success: true, code, stdout, stderr }) == Ok::<
            _,
            Seq<Seq<char>>,
        >(bytes::lossy(stdout)),
        git::answer(
            Site::Local,
            args,
            OutcomeView::Ran { success: false, code, stdout, stderr },
        ) == Err::<Seq<char>, _>(
            seq![
                "git "@ + text::join(args, " "@) + " failed: "@ + text::trim(bytes::lossy(stderr)),
            ],
        ),
        git::answer(
            Site::Remote,
            args,
            OutcomeView::Ran { success: false, code, stdout, stderr },
        ) == Err::<Seq<char>, _>(
            seq![
                "remote git "@ + text::join(args, " "@) + " failed: "@ + text::trim(
                    bytes::lossy(stderr),
                ),
            ],
        ),
        git::answer(Site::Local, args, OutcomeView::NotRun(reasons)) == Err::<Seq<char>, _>(
            seq!["failed to run git (is git installed?): "@ + text::join(reasons, ": "@)],
        ),
        git::answer(Site::Remote, args, OutcomeView::NotRun(reasons)) == Err::<Seq<char>, _>(
            reasons,
        ),
{
}

/// A local failure is explained by one message before all that it says. A remote
/// one stays as it is.
pub proof fn explanations_stand_first(message: Seq<char>, failure: Seq<Seq<char>>)
    ensures
        resolve::explained(Site::Local, message, failure) == seq![message] + failure,
        resolve::explained(Site::Remote, message, failure) == failure,
{
}

proof fn lemma_answer(site: Site, args: Seq<Seq<char>>, outcome: OutcomeView)
    ensures
        git::answer(site, args, outcome) is Ok <==> (outcome matches OutcomeView::Ran {
            success: true,
            ..
        }),
        outcome matches OutcomeView::Ran { success: true, stdout, .. } ==> git::answer(
            site,
            args,
            outcome,
        )->Ok_0 == bytes::lossy(stdout),
{
}

pub(crate) proof fn lemma_printed(
    site: Site,
    repository: spec_fn(CommandView) -> OutcomeView,
    dir: DirView,
    args: Seq<Seq<char>>,
)
    ensures
        resolve::ask(site, repository, dir, args) is Ok <==> printed(repository, dir, args) is Some,
        printed(repository, dir, args) matches Some(s) ==> resolve::ask(
            site,
            repository,
            dir,
            args,
        ) == Ok::<_, Seq<Seq<char>>>(s),
{
    lemma_answer(site, args, repository(CommandView { dir, args }));
}

/// Leaving the branch out of the candidates leaves out nothing else, and keeps
/// their order.
pub proof fn only_the_branch_is_left_out(candidates: Seq<Seq<char>>, branch: Seq<char>)
    ensures
        resolve::other_than(candidates, branch) == candidates.filter(|c: Seq<char>| c != branch),
    decreases candidates.len(),
{
    reveal(Seq::filter);
    if candidates.len() > 0 {
        only_the_branch_is_left_out(candidates.drop_last(), branch);
    }
}

proof fn lemma_tried_in_order(
    site: Site,
    repository: spec_fn(CommandView) -> OutcomeView,
    repo: Seq<char>,
    candidates: Seq<Seq<char>>,
    branch: Seq<char>,
)
    ensures
        ({
            let (label, oid) = resolve::first_base(
                site,
                repository,
                repo,
                resolve::other_than(candidates, branch),
            );
            let dir = DirView::Repo(repo);
            ||| exists|j: int|
                {
                    &&& 0 <= j < candidates.len()
                    &&& label == #[trigger] candidates[j]
                    &&& label != branch
                    &&& printed(repository, dir, seq!["merge-base"@, "HEAD"@, label]) is Some
                    &&& oid == Some(
                        text::trim(
                            printed(repository, dir, seq!["merge-base"@, "HEAD"@, label])->0,
                        ),
                    )
                    &&& forall|k: int|
                        0 <= k < j ==> #[trigger] candidates[k] == branch || printed(
                            repository,
                            dir,
                            seq!["merge-base"@, "HEAD"@, candidates[k]],
                        ) is None
                }
            ||| {
                &&& label == "HEAD"@
                &&& oid == match printed(repository, dir, seq!["rev-parse"@, "HEAD"@]) {
                    Some(s) => Some(text::trim(s)),
                    None => None,
                }
                &&& forall|k: int|
                    0 <= k < candidates.len() ==> #[trigger] candidates[k] == branch || printed(
                        repository,
                        dir,
                        seq!["merge-base"@, "HEAD"@, candidates[k]],
                    ) is None
            }
        }),
    decreases candidates.len(),
{
    let dir = DirView::Repo(repo);
    lemma_printed(site, repository, dir, seq!["rev-parse"@, "HEAD"@]);
    if candidates.len() > 0 {
        let first = candidates[0];
        let rest = candidates.skip(1);
        lemma_front(candidates, branch);
        lemma_tried_in_order(site, repository, repo, rest, branch);
        lemma_printed(site, repository, dir, seq!["merge-base"@, "HEAD"@, first]);
        let others = resolve::other_than(candidates, branch);
        let fewer = resolve::other_than(rest, branch);
        let (label, oid) = resolve::first_base(site, repository, repo, fewer);
        if first != branch {
            assert(others == seq![first] + fewer);
            assert(others[0] == first);
            assert(others.skip(1) =~= fewer);
        }
        if first == branch || printed(repository, dir, seq!["merge-base"@, "HEAD"@, first]) is None {
            assert(resolve::first_base(site, repository, repo, others) == (label, oid));
            if exists|j: int|
                {
                    &&& 0 <= j < rest.len()
                    &&& label == #[trigger] rest[j]
                    &&& label != branch
                    &&& printed(repository, dir, seq!["merge-base"@, "HEAD"@, label]) is Some
                    &&& oid == Some(
                        text::trim(
                            printed(repository, dir, seq!["merge-base"@, "HEAD"@, label])->0,
                        ),
                    )
                    &&& forall|k: int|
                        0 <= k < j ==> #[trigger] rest[k] == branch || printed(
                            repository,
                            dir,
                            seq!["merge-base"@, "HEAD"@, rest[k]],
                        ) is None
                } {
                let j = choose|j: int|
                    {
                        &&& 0 <= j < rest.len()
                        &&& label == #[trigger] rest[j]
                        &&& forall|k: int|
                            0 <= k < j ==> #[trigger] rest[k] == branch || printed(
                                repository,
                                dir,
                                seq!["merge-base"@, "HEAD"@, rest[k]],
                            ) is None
                    };
                assert(candidates[j + 1] == label);
                assert forall|k: int| 0 <= k < j + 1 implies #[trigger] candidates[k] == branch
                    || printed(
                    repository,
                    dir,
                    seq!["merge-base"@, "HEAD"@, candidates[k]],
                ) is None by {
                    if k > 0 {
                        assert(candidates[k] == rest[k - 1]);
                    }
                }
            } else {
                assert forall|k: int| 0 <= k < candidates.len() implies #[trigger] candidates[k]
                    == branch || printed(
                    repository,
                    dir,
                    seq!["merge-base"@, "HEAD"@, candidates[k]],
                ) is None by {
                    if k > 0 {
                        assert(candidates[k] == rest[k - 1]);
                    }
                }
            }
        }
    }
}

proof fn lemma_front(candidates: Seq<Seq<char>>, branch: Seq<char>)
    requires
        candidates.len() > 0,
    ensures
        resolve::other_than(candidates, branch) == (if candidates[0] == branch {
            Seq::empty()
        } else {
            seq![candidates[0]]
        }) + resolve::other_than(candidates.skip(1), branch),
    decreases candidates.len(),
{
    let front = if candidates[0] == branch {
        Seq::<Seq<char>>::empty()
    } else {
        seq![candidates[0]]
    };
    if candidates.len() == 1 {
        assert(candidates.drop_last() =~= Seq::<Seq<char>>::empty());
        assert(resolve::other_than(candidates.drop_last(), branch) =~= Seq::<Seq<char>>::empty());
        assert(resolve::other_than(candidates.skip(1), branch) =~= Seq::<Seq<char>>::empty());
        assert(resolve::other_than(candidates, branch) =~= front + resolve::other_than(
            candidates.skip(1),
            branch,
        ));
    } else {
        lemma_front(candidates.drop_last(), branch);
        assert(candidates.drop_last().skip(1) =~= candidates.skip(1).drop_last());
        assert(resolve::other_than(candidates, branch) =~= front + resolve::other_than(
            candidates.skip(1),
            branch,
        ));
    }
}

/// The default base is the first candidate other than the branch that has a
/// merge base with HEAD: for each candidate that differs from the branch and
/// has one, the base is that candidate or one before it. Its oid is the merge
/// base. HEAD is the base only where no candidate will do.
pub proof fn default_bases_are_the_first_that_will_do(
    site: Site,
    repository: spec_fn(CommandView) -> OutcomeView,
    path: Seq<char>,
    root: Seq<char>,
    name: Seq<char>,
)
    requires
        printed(repository, DirView::Start, seq!["rev-parse"@, "--show-toplevel"@]) == Some(root),
        printed(
            repository,
            DirView::Repo(text::trim(root)),
            seq!["rev-parse"@, "--abbrev-ref"@, "HEAD"@],
        ) == Some(name),
    ensures
        resolve::resolved(site, repository, path, None) is Ok,
        ({
            let source = resolve::resolved(site, repository, path, None)->Ok_0;
            let dir = DirView::Repo(text::trim(root));
            let candidates = resolve::default_base_candidates(site, repository, text::trim(root));
            &&& source.repo_root == text::trim(root)
            &&& source.branch == text::trim(name)
            &&& source.base_ref is None
            &&& forall|i: int|
                0 <= i < candidates.len() && #[trigger] candidates[i] != text::trim(name) && printed(
                    repository,
                    dir,
                    seq!["merge-base"@, "HEAD"@, candidates[i]],
                ) is Some ==> exists|j: int|
                    0 <= j <= i && #[trigger] candidates[j] == source.base_label && candidates[j]
                        != text::trim(name) && source.base_oid == Some(
                        text::trim(
                            printed(
                                repository,
                                dir,
                                seq!["merge-base"@, "HEAD"@, candidates[j]],
                            )->0,
                        ),
                    )
            &&& (forall|i: int|
                0 <= i < candidates.len() ==> #[trigger] candidates[i] == text::trim(name)
                    || printed(
                    repository,
                    dir,
                    seq!["merge-base"@, "HEAD"@, candidates[i]],
                ) is None) ==> source.base_label == "HEAD"@ && source.base_oid == match printed(
                repository,
                dir,
                seq!["rev-parse"@, "HEAD"@],
            ) {
                Some(s) => Some(text::trim(s)),
                None => None,
            }
        }),
{
    let repo = text::trim(root);
    let dir = DirView::Repo(repo);
    lemma_printed(site, repository, DirView::Start, seq!["rev-parse"@, "--show-toplevel"@]);
    lemma_printed(site, repository, dir, seq!["rev-parse"@, "--abbrev-ref"@, "HEAD"@]);
    let candidates = resolve::default_base_candidates(site, repository, repo);
    lemma_tried_in_order(site, repository, repo, candidates, text::trim(name));
    let source = resolve::resolved(site, repository, path, None)->Ok_0;
    assert forall|i: int|
        0 <= i < candidates.len() && #[trigger] candidates[i] != text::trim(name) && printed(
            repository,
            dir,
            seq!["merge-base"@, "HEAD"@, candidates[i]],
        ) is Some implies exists|j: int|
        0 <= j <= i && #[trigger] candidates[j] == source.base_label && candidates[j] != text::trim(
            name,
        ) && source.base_oid == Some(
            text::trim(printed(repository, dir, seq!["merge-base"@, "HEAD"@, candidates[j]])->0),
        ) by {
        let j = choose|j: int|
            {
                &&& 0 <= j < candidates.len()
                &&& source.base_label == #[trigger] candidates[j]
                &&& forall|k: int|
                    0 <= k < j ==> #[trigger] candidates[k] == text::trim(name) || printed(
                        repository,
                        dir,
                        seq!["merge-base"@, "HEAD"@, candidates[k]],
                    ) is None
            };
        assert(candidates[j] == source.base_label);
        assert(!(i < j));
    }
}

pub(crate) proof fn lemma_with_all_unique(all: Seq<Seq<char>>)
    ensures
        resolve::with_all_unique(Seq::empty(), all).no_duplicates(),
        first_occurrences(resolve::with_all_unique(Seq::empty(), all), all),
    decreases all.len(),
{
    let kept = resolve::with_all_unique(Seq::empty(), all);
    if all.len() > 0 {
        let front = all.drop_last();
        lemma_with_all_unique(front);
        let before = resolve::with_all_unique(Seq::empty(), front);
        assert forall|x: Seq<char>| #[trigger] kept.contains(x) implies all.contains(x) by {
            let i = choose|i: int| 0 <= i < kept.len() && kept[i] == x;
            if i < before.len() {
                assert(before[i] == x);
                assert(before.contains(x));
                let p = choose|p: int| 0 <= p < front.len() && front[p] == x;
                assert(all[p] == x);
            } else {
                assert(all[all.len() - 1] == x);
            }
        }
        assert forall|x: Seq<char>| all.contains(x) implies #[trigger] kept.contains(x) by {
            let p = choose|p: int| 0 <= p < all.len() && all[p] == x;
            if p < front.len() {
                assert(front[p] == x);
                assert(before.contains(x));
                let i = choose|i: int| 0 <= i < before.len() && before[i] == x;
                assert(kept[i] == x);
            } else {
                assert(x == all.last());
                if !before.contains(x) {
                    assert(kept[before.len() as int] == x);
                }
            }
        }
        assert forall|i: int, j: int| 0 <= i < j < kept.len() implies stands_before(
            all,
            #[trigger] kept[i],
            #[trigger] kept[j],
        ) by {
            if j < before.len() {
                assert(kept[i] == before[i] && kept[j] == before[j]);
                assert(stands_before(front, before[i], before[j]));
                let p = choose|p: int|
                    0 <= p < front.len() && #[trigger] front[p] == before[i] && !front.take(
                        p + 1,
                    ).contains(before[j]);
                assert(all.take(p + 1) =~= front.take(p + 1));
                assert(all[p] == kept[i]);
            } else {
                assert(!before.contains(kept[j]));
                assert(before.contains(before[i]));
                assert(front.contains(before[i]));
                let p = choose|p: int| 0 <= p < front.len() && front[p] == before[i];
                assert(all[p] == kept[i]);
                assert(!front.contains(kept[j]));
                let head = all.take(p + 1);
                if head.contains(kept[j]) {
                    let q = choose|q: int| 0 <= q < head.len() && head[q] == kept[j];
                    assert(front[q] == kept[j]);
                }
            }
        }
    } else {
        assert(kept =~= Seq::<Seq<char>>::empty());
        assert(all =~= Seq::<Seq<char>>::empty());
    }
    assert forall|x: Seq<char>| #[trigger] kept.contains(x) == all.contains(x) by {
        if kept.contains(x) {
            assert(all.contains(x));
        }
    }
}

pub(crate) proof fn lemma_with_all_unique_concat(values: Seq<Seq<char>>, a: Seq<Seq<char>>, b: Seq<Seq<char>>)
    ensures
        resolve::with_all_unique(resolve::with_all_unique(values, a), b)
            == resolve::with_all_unique(values, a + b),
    decreases b.len(),
{
    if b.len() == 0 {
        assert(a + b =~= a);
    } else {
        lemma_with_all_unique_concat(values, a, b.drop_last());
        assert((a + b).drop_last() =~= a + b.drop_last());
    }
}

proof fn lemma_recorded(
    site: Site,
    repository: spec_fn(CommandView) -> OutcomeView,
    repo: Seq<char>,
    args: Seq<Seq<char>>,
    candidates: Seq<Seq<char>>,
)
    ensures
        resolve::with_remote_head(
            candidates,
            resolve::ask(site, repository, DirView::Repo(repo), args),
        ) == resolve::with_all_unique(
            candidates,
            recorded_name(printed(repository, DirView::Repo(repo), args)),
        ),
{
    let dir = DirView::Repo(repo);
    lemma_printed(site, repository, dir, args);
    let names = recorded_name(printed(repository, dir, args));
    if names.len() > 0 {
        assert(names.drop_last() =~= Seq::<Seq<char>>::empty());
        assert(resolve::with_all_unique(candidates, names.drop_last()) == candidates);
    }
    if let Some(s) = printed(repository, dir, args) {
        let name = text::trim(s);
        let front = "refs/remotes/"@;
        if front.len() <= name.len() {
            assert(name.take(front.len() as int) =~= name.subrange(0, front.len() as int));
            assert(name.skip(front.len() as int) =~= name.subrange(
                front.len() as int,
                name.len() as int,
            ));
        }
    }
}

/// What the candidates for a default base are taken from, in order: the default
/// branch that the repository records of `origin`, the one that it records of
/// `upstream`, and the usual names.
pub open spec fn candidate_sources(
    repository: spec_fn(CommandView) -> OutcomeView,
    repo: Seq<char>,
) -> Seq<Seq<char>> {
    recorded_name(
        printed(
            repository,
            DirView::Repo(repo),
            seq!["symbolic-ref"@, "refs/remotes/origin/HEAD"@],
        ),
    ) + recorded_name(
        printed(
            repository,
            DirView::Repo(repo),
            seq!["symbolic-ref"@, "refs/remotes/upstream/HEAD"@],
        ),
    ) + seq![
        "origin/main"@,
        "upstream/main"@,
        "origin/master"@,
        "upstream/master"@,
        "main"@,
        "master"@,
    ]
}

pub(crate) proof fn lemma_candidates(
    site: Site,
    repository: spec_fn(CommandView) -> OutcomeView,
    repo: Seq<char>,
)
    ensures
        resolve::default_base_candidates(site, repository, repo) == resolve::with_all_unique(
            Seq::empty(),
            candidate_sources(repository, repo),
        ),
{
    reveal_strlit("refs/remotes/");
    reveal_strlit("/HEAD");
    reveal_strlit("origin");
    reveal_strlit("upstream");
    reveal_strlit("refs/remotes/origin/HEAD");
    reveal_strlit("refs/remotes/upstream/HEAD");
    assert(resolve::remote_head_ref("origin"@) =~= "refs/remotes/origin/HEAD"@);
    assert(resolve::remote_head_ref("upstream"@) =~= "refs/remotes/upstream/HEAD"@);
    let origin_args = seq!["symbolic-ref"@, "refs/remotes/origin/HEAD"@];
    let upstream_args = seq!["symbolic-ref"@, "refs/remotes/upstream/HEAD"@];
    let origin = recorded_name(printed(repository, DirView::Repo(repo), origin_args));
    let upstream = recorded_name(printed(repository, DirView::Repo(repo), upstream_args));
    let none = Seq::<Seq<char>>::empty();
    let one = resolve::with_all_unique(none, origin);
    let usual = resolve::usual_bases();
    assert(usual =~= seq![
        "origin/main"@,
        "upstream/main"@,
        "origin/master"@,
        "upstream/master"@,
        "main"@,
        "master"@,
    ]);
    lemma_recorded(site, repository, repo, origin_args, none);
    lemma_recorded(site, repository, repo, upstream_args, one);
    lemma_with_all_unique_concat(none, origin, upstream);
    lemma_with_all_unique_concat(none, origin + upstream, usual);
}

/// The candidates for a default base are the default branch that the repository
/// records of `origin`, the one that it records of `upstream`, and the usual
/// names, each once and in this order.
pub proof fn candidates_come_in_order(
    site: Site,
    repository: spec_fn(CommandView) -> OutcomeView,
    repo: Seq<char>,
)
    ensures
        resolve::default_base_candidates(site, repository, repo).no_duplicates(),
        first_occurrences(
            resolve::default_base_candidates(site, repository, repo),
            candidate_sources(repository, repo),
        ),
{
    lemma_candidates(site, repository, repo);
    lemma_with_all_unique(candidate_sources(repository, repo));
}

/// A chosen base is kept as it is, trimmed, as the name and the label of the
/// base. Its oid is its merge base with HEAD, and where there is none the choice
/// is turned down. HEAD is its own base: the oid is that of HEAD.
pub proof fn chosen_bases_are_kept(
    site: Site,
    repository: spec_fn(CommandView) -> OutcomeView,
    path: Seq<char>,
    given: Seq<char>,
    root: Seq<char>,
    name: Seq<char>,
)
    requires
        printed(repository, DirView::Start, seq!["rev-parse"@, "--show-toplevel"@]) == Some(root),
        printed(
            repository,
            DirView::Repo(text::trim(root)),
            seq!["rev-parse"@, "--abbrev-ref"@, "HEAD"@],
        ) == Some(name),
    ensures
        text::trim(given) != "HEAD"@ ==> (match printed(
            repository,
            DirView::Repo(text::trim(root)),
            seq!["merge-base"@, "HEAD"@, text::trim(given)],
        ) {
            Some(oid) => resolve::resolved(site, repository, path, Some(given)) == Ok::<
                _,
                Seq<Seq<char>>,
            >(
                SourceView {
                    repo_root: text::trim(root),
                    branch: text::trim(name),
                    base_ref: Some(text::trim(given)),
                    base_label: text::trim(given),
                    base_oid: Some(text::trim(oid)),
                },
            ),
            None => {
                let said = git::answer(
                    site,
                    seq!["merge-base"@, "HEAD"@, text::trim(given)],
                    repository(
                        CommandView {
                            dir: DirView::Repo(text::trim(root)),
                            args: seq!["merge-base"@, "HEAD"@, text::trim(given)],
                        },
                    ),
                )->Err_0;
                resolve::resolved(site, repository, path, Some(given)) == Err::<SourceView, _>(
                    match site {
                        Site::Local => seq![
                            text::trim(given) + " does not share history with HEAD"@,
                        ] + said,
                        Site::Remote => said,
                    },
                )
            },
        }),
        text::trim(given) == "HEAD"@ ==> resolve::resolved(site, repository, path, Some(given))
            == Ok::<_, Seq<Seq<char>>>(
            SourceView {
                repo_root: text::trim(root),
                branch: text::trim(name),
                base_ref: Some("HEAD"@),
                base_label: "HEAD"@,
                base_oid: match printed(
                    repository,
                    match site {
                        Site::Local => DirView::Start,
                        Site::Remote => DirView::Repo(text::trim(root)),
                    },
                    seq!["rev-parse"@, "HEAD"@],
                ) {
                    Some(s) => Some(text::trim(s)),
                    None => None,
                },
            },
        ),
{
    let dir = DirView::Repo(text::trim(root));
    lemma_printed(site, repository, DirView::Start, seq!["rev-parse"@, "--show-toplevel"@]);
    lemma_printed(site, repository, dir, seq!["rev-parse"@, "--abbrev-ref"@, "HEAD"@]);
    lemma_printed(site, repository, dir, seq!["merge-base"@, "HEAD"@, text::trim(given)]);
    lemma_printed(site, repository, dir, seq!["rev-parse"@, "HEAD"@]);
    lemma_printed(site, repository, DirView::Start, seq!["rev-parse"@, "HEAD"@]);
}

/// Outside a repository nothing is resolved. A local caller is told the path
/// and what git said, a remote one only the latter.
pub proof fn other_directories_are_turned_down(
    site: Site,
    repository: spec_fn(CommandView) -> OutcomeView,
    path: Seq<char>,
    base_ref: Option<Seq<char>>,
)
    requires
        printed(repository, DirView::Start, seq!["rev-parse"@, "--show-toplevel"@]) is None,
    ensures
        ({
            let said = git::answer(
                site,
                seq!["rev-parse"@, "--show-toplevel"@],
                repository(
                    CommandView {
                        dir: DirView::Start,
                        args: seq!["rev-parse"@, "--show-toplevel"@],
                    },
                ),
            )->Err_0;
            resolve::resolved(site, repository, path, base_ref) == Err::<SourceView, _>(
                match site {
                    Site::Local => seq![path + " is not inside a git repository"@] + said,
                    Site::Remote => said,
                },
            )
        }),
{
    lemma_printed(site, repository, DirView::Start, seq!["rev-parse"@, "--show-toplevel"@]);
}

/// Where git turns down the question for the branch, the branch has a name and
/// there is no ref at all, the repository has no commits: its base is HEAD, with
/// no oid, unless another base was chosen.
pub proof fn branches_without_commits_have_no_base(
    site: Site,
    repository: spec_fn(CommandView) -> OutcomeView,
    path: Seq<char>,
    base_ref: Option<Seq<char>>,
    root: Seq<char>,
    name: Seq<char>,
    refs: Seq<char>,
)
    requires
        printed(repository, DirView::Start, seq!["rev-parse"@, "--show-toplevel"@]) == Some(root),
        printed(
            repository,
            DirView::Repo(text::trim(root)),
            seq!["symbolic-ref"@, "--short"@, "HEAD"@],
        ) == Some(name),
        printed(
            repository,
            DirView::Repo(text::trim(root)),
            seq!["for-each-ref"@, "--count=1"@],
        ) == Some(refs),
        text::trim(refs).len() == 0,
        repository(
            CommandView {
                dir: DirView::Repo(text::trim(root)),
                args: seq!["rev-parse"@, "--abbrev-ref"@, "HEAD"@],
            },
        ) matches OutcomeView::Ran { success: false, code: Some(n), .. } && n != 0,
    ensures
        base_ref is None ==> resolve::resolved(site, repository, path, base_ref) == Ok::<
            _,
            Seq<Seq<char>>,
        >(
            SourceView {
                repo_root: text::trim(root),
                branch: text::trim(name),
                base_ref: None,
                base_label: "HEAD"@,
                base_oid: None,
            },
        ),
        base_ref matches Some(given) ==> if text::trim(given) == "HEAD"@ {
            resolve::resolved(site, repository, path, base_ref) == Ok::<_, Seq<Seq<char>>>(
                SourceView {
                    repo_root: text::trim(root),
                    branch: text::trim(name),
                    base_ref: Some("HEAD"@),
                    base_label: "HEAD"@,
                    base_oid: None,
                },
            )
        } else {
            resolve::resolved(site, repository, path, base_ref) == Err::<SourceView, _>(
                git::answer(
                    site,
                    seq!["rev-parse"@, "--abbrev-ref"@, "HEAD"@],
                    repository(
                        CommandView {
                            dir: DirView::Repo(text::trim(root)),
                            args: seq!["rev-parse"@, "--abbrev-ref"@, "HEAD"@],
                        },
                    ),
                )->Err_0,
            )
        },
{
    let dir = DirView::Repo(text::trim(root));
    lemma_printed(site, repository, DirView::Start, seq!["rev-parse"@, "--show-toplevel"@]);
    lemma_printed(site, repository, dir, seq!["rev-parse"@, "--abbrev-ref"@, "HEAD"@]);
    lemma_printed(site, repository, dir, seq!["symbolic-ref"@, "--short"@, "HEAD"@]);
    lemma_printed(site, repository, dir, seq!["for-each-ref"@, "--count=1"@]);
}

/// Where the question for the branch goes unanswered, and the repository is not
/// known to be without commits, the failure is handed on. It is known to be so
/// only where git itself turned the question down, the branch has a name, and
/// there is no ref.
pub proof fn other_branch_questions_fail(
    site: Site,
    repository: spec_fn(CommandView) -> OutcomeView,
    path: Seq<char>,
    base_ref: Option<Seq<char>>,
    root: Seq<char>,
)
    requires
        printed(repository, DirView::Start, seq!["rev-parse"@, "--show-toplevel"@]) == Some(root),
        printed(
            repository,
            DirView::Repo(text::trim(root)),
            seq!["rev-parse"@, "--abbrev-ref"@, "HEAD"@],
        ) is None,
        ({
            let dir = DirView::Repo(text::trim(root));
            ||| printed(repository, dir, seq!["symbolic-ref"@, "--short"@, "HEAD"@]) is None
            ||| printed(repository, dir, seq!["for-each-ref"@, "--count=1"@]) is None
            ||| text::trim(printed(repository, dir, seq!["for-each-ref"@, "--count=1"@])->0).len()
                > 0
            ||| !(repository(
                CommandView { dir, args: seq!["rev-parse"@, "--abbrev-ref"@, "HEAD"@] },
            ) matches OutcomeView::Ran { success: false, code: Some(n), .. } && n != 0)
        }),
    ensures
        resolve::resolved(site, repository, path, base_ref) == Err::<SourceView, _>(
            git::answer(
                site,
                seq!["rev-parse"@, "--abbrev-ref"@, "HEAD"@],
                repository(
                    CommandView {
                        dir: DirView::Repo(text::trim(root)),
                        args: seq!["rev-parse"@, "--abbrev-ref"@, "HEAD"@],
                    },
                ),
            )->Err_0,
        ),
{
    let dir = DirView::Repo(text::trim(root));
    lemma_printed(site, repository, DirView::Start, seq!["rev-parse"@, "--show-toplevel"@]);
    lemma_printed(site, repository, dir, seq!["rev-parse"@, "--abbrev-ref"@, "HEAD"@]);
    lemma_printed(site, repository, dir, seq!["symbolic-ref"@, "--short"@, "HEAD"@]);
    lemma_printed(site, repository, dir, seq!["for-each-ref"@, "--count=1"@]);
}

} // verus!
