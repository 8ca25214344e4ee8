//! Which refs are offered as bases of a diff, told by what the repository
//! answers to each command.
use vstd::prelude::*;

use crate::base_refs;
use crate::git;
use crate::git::{CommandView, DirView, OutcomeView, Site};
use crate::resolve;
use crate::resolve_laws;
use crate::text;

verus! {

/// The refs of a listing that can be a base: the trimmed lines, without empty
/// ones, the branch itself, and the heads of remotes.
pub open spec fn other_refs(lines: Seq<Seq<char>>, branch: Seq<char>) -> Seq<Seq<char>> {
    lines.map_values(|line: Seq<char>| text::trim(line)).filter(
        |name: Seq<char>| name.len() > 0 && name != branch && !text::ends_with(name, "/HEAD"@),
    )
}

proof fn lemma_bases_among(lines: Seq<Seq<char>>, branch: Seq<char>)
    ensures
        base_refs::bases_among(lines, branch) == other_refs(lines, branch),
    decreases lines.len(),
{
    reveal(Seq::filter);
    if lines.len() > 0 {
        lemma_bases_among(lines.drop_last(), branch);
        let f = |line: Seq<char>| text::trim(line);
        assert(lines.map_values(f).drop_last() =~= lines.drop_last().map_values(f));
    }
}

/// Whether a ref shares history with HEAD.
pub open spec fn shares_history(
    repository: spec_fn(CommandView) -> OutcomeView,
    repo: Seq<char>,
    name: Seq<char>,
) -> bool {
    name == "HEAD"@ || resolve_laws::printed(
        repository,
        DirView::Repo(repo),
        seq!["merge-base"@, "HEAD"@, name],
    ) is Some
}

proof fn lemma_sharing_history(
    site: Site,
    repository: spec_fn(CommandView) -> OutcomeView,
    repo: Seq<char>,
    refs: Seq<Seq<char>>,
)
    ensures
        base_refs::sharing_history(site, repository, repo, refs) == refs.filter(
            |name: Seq<char>| shares_history(repository, repo, name),
        ),
    decreases refs.len(),
{
    let p = |name: Seq<char>| shares_history(repository, repo, name);
    reveal(Seq::filter);
    if refs.len() > 0 {
        let rest = refs.skip(1);
        lemma_sharing_history(site, repository, repo, rest);
        resolve_laws::lemma_printed(
            site,
            repository,
            DirView::Repo(repo),
            seq!["merge-base"@, "HEAD"@, refs[0]],
        );
        assert(refs =~= seq![refs[0]] + rest);
        Seq::filter_distributes_over_add(seq![refs[0]], rest, p);
        let one = seq![refs[0]];
        assert(one.drop_last() =~= Seq::<Seq<char>>::empty());
        assert(one.drop_last().filter(p) =~= Seq::<Seq<char>>::empty());
        assert(one.last() == refs[0]);
        assert(one.filter(p) =~= if p(refs[0]) {
            seq![refs[0]]
        } else {
            Seq::<Seq<char>>::empty()
        });
        assert(base_refs::sharing_history(site, repository, repo, refs) =~= refs.filter(p));
    }
}

/// The refs that are offered are the candidates for a default base, HEAD, and
/// every other ref but the branch itself and the heads of remotes, each once and
/// in this order. A local caller gets of these exactly the ones that share
/// history with HEAD.
pub proof fn every_ref_that_will_do_is_offered(
    site: Site,
    repository: spec_fn(CommandView) -> OutcomeView,
    path: Seq<char>,
    root: Seq<char>,
    name: Seq<char>,
    listing: Seq<char>,
)
    requires
        resolve_laws::printed(
            repository,
            DirView::Start,
            seq!["rev-parse"@, "--show-toplevel"@],
        ) == Some(root),
        resolve_laws::printed(
            repository,
            DirView::Repo(text::trim(root)),
            seq!["rev-parse"@, "--abbrev-ref"@, "HEAD"@],
        ) == Some(name),
        resolve_laws::printed(
            repository,
            DirView::Repo(text::trim(root)),
            seq!["for-each-ref"@, "--format=%(refname:short)"@, "refs/heads"@, "refs/remotes"@],
        ) == Some(listing),
    ensures
        exists|all: Seq<Seq<char>>|
            {
                &&& #[trigger] all.no_duplicates()
                &&& resolve_laws::first_occurrences(
                    all,
                    resolve_laws::candidate_sources(repository, text::trim(root)) + seq!["HEAD"@]
                        + other_refs(text::lines(listing), text::trim(name)),
                )
                &&& base_refs::listed(site, repository, path) == Ok::<_, Seq<Seq<char>>>(
                    match site {
                        Site::Local => all.filter(
                            |name: Seq<char>| shares_history(repository, text::trim(root), name),
                        ),
                        Site::Remote => all,
                    },
                )
            },
{
    let repo = text::trim(root);
    let dir = DirView::Repo(repo);
    resolve_laws::lemma_printed(
        site,
        repository,
        DirView::Start,
        seq!["rev-parse"@, "--show-toplevel"@],
    );
    resolve_laws::lemma_printed(
        site,
        repository,
        dir,
        seq!["rev-parse"@, "--abbrev-ref"@, "HEAD"@],
    );
    resolve_laws::lemma_printed(
        site,
        repository,
        dir,
        seq!["for-each-ref"@, "--format=%(refname:short)"@, "refs/heads"@, "refs/remotes"@],
    );
    let none = Seq::<Seq<char>>::empty();
    let sources = resolve_laws::candidate_sources(repository, repo);
    let head = seq!["HEAD"@];
    let others = other_refs(text::lines(listing), text::trim(name));
    resolve_laws::lemma_candidates(site, repository, repo);
    lemma_bases_among(text::lines(listing), text::trim(name));
    let candidates = resolve::default_base_candidates(site, repository, repo);
    assert(head.drop_last() =~= none);
    assert(resolve::with_all_unique(candidates, head.drop_last()) == candidates);
    assert(resolve::with_unique(candidates, "HEAD"@) == resolve::with_all_unique(candidates, head));
    resolve_laws::lemma_with_all_unique_concat(none, sources, head);
    resolve_laws::lemma_with_all_unique_concat(none, sources + head, others);
    resolve_laws::lemma_with_all_unique(sources + head + others);
    let all = resolve::with_all_unique(none, sources + head + others);
    assert(base_refs::offered(candidates, text::trim(name), listing) == all);
    lemma_sharing_history(site, repository, repo, all);
    assert(all.no_duplicates());
}

/// Nothing is offered where one of the questions for the root, the branch and
/// the refs fails: the first failure is the result.
pub proof fn listings_fail_with_their_questions(
    site: Site,
    repository: spec_fn(CommandView) -> OutcomeView,
    path: Seq<char>,
)
    ensures
        ({
            let root_args = seq!["rev-parse"@, "--show-toplevel"@];
            let said = git::answer(
                site,
                root_args,
                repository(CommandView { dir: DirView::Start, args: root_args }),
            );
            let repo = text::trim(said->Ok_0);
            let dir = DirView::Repo(repo);
            let name_args = seq!["rev-parse"@, "--abbrev-ref"@, "HEAD"@];
            let named = git::answer(
                site,
                name_args,
                repository(CommandView { dir, args: name_args }),
            );
            let refs_args = seq![
                "for-each-ref"@,
                "--format=%(refname:short)"@,
                "refs/heads"@,
                "refs/remotes"@,
            ];
            let refs = git::answer(
                site,
                refs_args,
                repository(CommandView { dir, args: refs_args }),
            );
            if said is Err {
                base_refs::listed(site, repository, path) == Err::<Seq<Seq<char>>, _>(
                    match site {
                        Site::Local => seq![path + " is not inside a git repository"@]
                            + said->Err_0,
                        Site::Remote => said->Err_0,
                    },
                )
            } else if named is Err {
                base_refs::listed(site, repository, path) == Err::<Seq<Seq<char>>, _>(named->Err_0)
            } else if refs is Err {
                base_refs::listed(site, repository, path) == Err::<Seq<Seq<char>>, _>(refs->Err_0)
            } else {
                base_refs::listed(site, repository, path) is Ok
            }
        }),
{
}

} // verus!
