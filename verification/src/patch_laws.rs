//! What a patch holds, told by what the repository answers to each command.
use vstd::prelude::*;

use crate::bytes;
use crate::git;
use crate::git::{CommandView, DirView, OutcomeView, Site};
use crate::patch;
use crate::resolve::SourceView;
use crate::resolve_laws;
use crate::text;

verus! {

/// What becomes of the command that compares a file to nothing.
pub open spec fn comparison(
    repository: spec_fn(CommandView) -> OutcomeView,
    repo: Seq<char>,
    file: Seq<char>,
) -> OutcomeView {
    repository(
        CommandView {
            dir: DirView::Repo(repo),
            args: seq![
                "diff"@,
                "--no-color"@,
                "--no-ext-diff"@,
                "--no-index"@,
                "--"@,
                "/dev/null"@,
                file,
            ],
        },
    )
}

/// Whether that command says how the file differs, or that it does not: it
/// ends with 1 or 0.
pub open spec fn compares(outcome: OutcomeView) -> bool {
    outcome matches OutcomeView::Ran { code: Some(code), .. } && (code == 0 || code == 1)
}

/// What a command prints, however it ends.
pub open spec fn output(outcome: OutcomeView) -> Seq<char> {
    match outcome {
        OutcomeView::Ran { stdout, .. } => bytes::lossy(stdout),
        OutcomeView::NotRun(_) => Seq::empty(),
    }
}

proof fn lemma_all_added(
    site: Site,
    repository: spec_fn(CommandView) -> OutcomeView,
    repo: Seq<char>,
    before: Seq<char>,
    files: Seq<Seq<char>>,
)
    requires
        forall|i: int| 0 <= i < files.len() ==> compares(comparison(repository, repo, #[trigger] files[i])),
    ensures
        patch::with_added(site, repository, repo, before, files) == Ok::<_, Seq<Seq<char>>>(
            before + files.map_values(
                |file: Seq<char>| output(comparison(repository, repo, file)),
            ).flatten(),
        ),
    decreases files.len(),
{
    let f = |file: Seq<char>| output(comparison(repository, repo, file));
    if files.len() == 0 {
        assert(files.map_values(f) =~= Seq::<Seq<char>>::empty());
        assert(files.map_values(f).flatten() =~= Seq::<char>::empty());
        assert(before + files.map_values(f).flatten() =~= before);
    } else {
        let first = files[0];
        let rest = files.skip(1);
        assert(compares(comparison(repository, repo, first)));
        assert forall|i: int| 0 <= i < rest.len() implies compares(
            comparison(repository, repo, #[trigger] rest[i]),
        ) by {
            assert(rest[i] == files[i + 1]);
        }
        let more = output(comparison(repository, repo, first));
        lemma_all_added(site, repository, repo, before + more, rest);
        assert(files.map_values(f).first() == more);
        assert(files.map_values(f).drop_first() =~= rest.map_values(f));
        assert(before + files.map_values(f).flatten() =~= before + more + rest.map_values(
            f,
        ).flatten());
    }
}

proof fn lemma_one_fails(
    site: Site,
    repository: spec_fn(CommandView) -> OutcomeView,
    repo: Seq<char>,
    before: Seq<char>,
    files: Seq<Seq<char>>,
    k: int,
)
    requires
        0 <= k < files.len(),
        !compares(comparison(repository, repo, files[k])),
        forall|i: int| 0 <= i < k ==> compares(comparison(repository, repo, #[trigger] files[i])),
    ensures
        patch::with_added(site, repository, repo, before, files) == Err::<Seq<char>, _>(
            patch::added_patch(site, files[k], comparison(repository, repo, files[k]))->Err_0,
        ),
    decreases files.len(),
{
    if k > 0 {
        let rest = files.skip(1);
        assert(compares(comparison(repository, repo, files[0])));
        assert(rest[k - 1] == files[k]);
        assert forall|i: int| 0 <= i < k - 1 implies compares(
            comparison(repository, repo, #[trigger] rest[i]),
        ) by {
            assert(rest[i] == files[i + 1]);
        }
        let more = output(comparison(repository, repo, files[0]));
        lemma_one_fails(site, repository, repo, before + more, rest, k - 1);
    }
}

/// The patch of a file that was added is what the comparison to nothing prints
/// where that ends with 0 or 1. Where it ends otherwise or does not run, the
/// failure says so.
pub proof fn comparisons_are_read(
    site: Site,
    file: Seq<char>,
    success: bool,
    code: Option<i32>,
    stdout: Seq<u8>,
    stderr: Seq<u8>,
    reasons: Seq<Seq<char>>,
)
    ensures
        code == Some(0i32) || code == Some(1i32) ==> patch::added_patch(
            site,
            file,
            OutcomeView::Ran { success, code, stdout, stderr },
        ) == Ok::<_, Seq<Seq<char>>>(bytes::lossy(stdout)),
        !(code == Some(0i32) || code == Some(1i32)) ==> patch::added_patch(
            Site::Local,
            file,
            OutcomeView::Ran { success, code, stdout, stderr },
        ) == Err::<Seq<char>, _>(
            seq![
                "git diff --no-index /dev/null "@ + file + " failed: "@ + text::trim(
                    bytes::lossy(stderr),
                ),
            ],
        ),
        !(code == Some(0i32) || code == Some(1i32)) ==> patch::added_patch(
            Site::Remote,
            file,
            OutcomeView::Ran { success, code, stdout, stderr },
        ) == Err::<Seq<char>, _>(
            seq![
                "remote git diff --no-index "@ + file + " failed: "@ + text::trim(
                    bytes::lossy(stderr),
                ),
            ],
        ),
        patch::added_patch(Site::Local, file, OutcomeView::NotRun(reasons)) == Err::<Seq<char>, _>(
            seq!["failed to run git: "@ + text::join(reasons, ": "@)],
        ),
        patch::added_patch(Site::Remote, file, OutcomeView::NotRun(reasons)) == Err::<
            Seq<char>,
            _,
        >(reasons),
{
}

/// What the tracked files give to a patch: what the comparison to the base
/// prints, or to HEAD without a base. It is nothing where there is no base, git
/// turns the comparison down, and there is no ref.
pub open spec fn is_tracked_part(
    repository: spec_fn(CommandView) -> OutcomeView,
    source: SourceView,
    part: Seq<char>,
) -> bool {
    let dir = DirView::Repo(source.repo_root);
    match source.base_oid {
        Some(oid) => resolve_laws::printed(
            repository,
            dir,
            seq!["diff"@, "-M"@, "--no-color"@, "--no-ext-diff"@, oid],
        ) == Some(part),
        None => {
            let args = seq!["diff"@, "-M"@, "--no-color"@, "--no-ext-diff"@, "HEAD"@];
            ||| resolve_laws::printed(repository, dir, args) == Some(part)
            ||| {
                &&& part.len() == 0
                &&& repository(CommandView { dir, args }) matches OutcomeView::Ran {
                    success: false,
                    code: Some(code),
                    ..
                } && code != 0
                &&& resolve_laws::printed(
                    repository,
                    dir,
                    seq!["for-each-ref"@, "--count=1"@],
                ) matches Some(refs) && text::trim(refs).len() == 0
            }
        },
    }
}

proof fn lemma_tracked(
    site: Site,
    repository: spec_fn(CommandView) -> OutcomeView,
    source: SourceView,
    part: Seq<char>,
)
    requires
        is_tracked_part(repository, source, part),
    ensures
        patch::tracked_changes(site, repository, source) == Ok::<_, Seq<Seq<char>>>(part),
{
    let dir = DirView::Repo(source.repo_root);
    let args = patch::diff_args(patch::base_or_head(source.base_oid));
    resolve_laws::lemma_printed(site, repository, dir, args);
    resolve_laws::lemma_printed(site, repository, dir, seq!["for-each-ref"@, "--count=1"@]);
    if part.len() == 0 {
        assert(part =~= Seq::<char>::empty());
    }
}

/// A patch is what differs in the tracked files, be it nothing, and behind it
/// what the comparison to nothing prints of each untracked file that is listed,
/// in order, up to 200 of them. It is owed whenever all these commands answer.
pub proof fn patches_hold_every_listed_file(
    site: Site,
    repository: spec_fn(CommandView) -> OutcomeView,
    source: SourceView,
    part: Seq<char>,
    listing: Seq<char>,
)
    requires
        is_tracked_part(repository, source, part),
        resolve_laws::printed(
            repository,
            DirView::Repo(source.repo_root),
            seq!["ls-files"@, "--others"@, "--exclude-standard"@],
        ) == Some(listing),
        forall|i: int|
            0 <= i < text::lines(listing).len() && i < 200 ==> compares(
                comparison(repository, source.repo_root, #[trigger] text::lines(listing)[i]),
            ),
    ensures
        ({
            let files = text::lines(listing);
            let taken = if files.len() <= 200 {
                files
            } else {
                files.take(200)
            };
            let outputs = taken.map_values(
                |file: Seq<char>| output(comparison(repository, source.repo_root, file)),
            );
            patch::patch_run(patch::patch_start(site, source), repository, 203) == Some(
                Ok::<_, Seq<Seq<char>>>(part + outputs.flatten()),
            )
        }),
{
    let dir = DirView::Repo(source.repo_root);
    let files = text::lines(listing);
    let taken = if files.len() <= 200 {
        files
    } else {
        files.take(200)
    };
    assert forall|i: int| 0 <= i < taken.len() implies compares(
        comparison(repository, source.repo_root, #[trigger] taken[i]),
    ) by {
        assert(taken[i] == files[i]);
    }
    patch::patches_come_to_an_end(site, repository, source);
    lemma_tracked(site, repository, source, part);
    resolve_laws::lemma_printed(
        site,
        repository,
        dir,
        seq!["ls-files"@, "--others"@, "--exclude-standard"@],
    );
    lemma_all_added(site, repository, source.repo_root, part, taken);
}

/// A patch fails with the first listed file, up to the 200th, whose comparison
/// fails, and with what is said of that.
pub proof fn patches_fail_with_their_first_file(
    site: Site,
    repository: spec_fn(CommandView) -> OutcomeView,
    source: SourceView,
    part: Seq<char>,
    listing: Seq<char>,
    k: int,
)
    requires
        is_tracked_part(repository, source, part),
        resolve_laws::printed(
            repository,
            DirView::Repo(source.repo_root),
            seq!["ls-files"@, "--others"@, "--exclude-standard"@],
        ) == Some(listing),
        0 <= k < text::lines(listing).len() && k < 200,
        !compares(comparison(repository, source.repo_root, text::lines(listing)[k])),
        forall|i: int|
            0 <= i < k ==> compares(
                comparison(repository, source.repo_root, #[trigger] text::lines(listing)[i]),
            ),
    ensures
        patch::patch_run(patch::patch_start(site, source), repository, 203) == Some(
            Err::<Seq<char>, _>(
                patch::added_patch(
                    site,
                    text::lines(listing)[k],
                    comparison(repository, source.repo_root, text::lines(listing)[k]),
                )->Err_0,
            ),
        ),
{
    let dir = DirView::Repo(source.repo_root);
    let files = text::lines(listing);
    let taken = if files.len() <= 200 {
        files
    } else {
        files.take(200)
    };
    assert(taken[k] == files[k]);
    assert forall|i: int| 0 <= i < k implies compares(
        comparison(repository, source.repo_root, #[trigger] taken[i]),
    ) by {
        assert(taken[i] == files[i]);
    }
    patch::patches_come_to_an_end(site, repository, source);
    lemma_tracked(site, repository, source, part);
    resolve_laws::lemma_printed(
        site,
        repository,
        dir,
        seq!["ls-files"@, "--others"@, "--exclude-standard"@],
    );
    lemma_one_fails(site, repository, source.repo_root, part, taken, k);
}

/// A patch fails where the untracked files cannot be listed, and where the
/// tracked files cannot be compared, unless there are no commits. What it says
/// is what is said of that command.
pub proof fn patches_fail_without_their_lists(
    site: Site,
    repository: spec_fn(CommandView) -> OutcomeView,
    source: SourceView,
)
    ensures
        ({
            let dir = DirView::Repo(source.repo_root);
            let args = seq![
                "diff"@,
                "-M"@,
                "--no-color"@,
                "--no-ext-diff"@,
                match source.base_oid {
                    Some(oid) => oid,
                    None => "HEAD"@,
                },
            ];
            (forall|part: Seq<char>| !#[trigger] is_tracked_part(repository, source, part))
                ==> patch::patch_run(patch::patch_start(site, source), repository, 203) == Some(
                Err::<Seq<char>, _>(
                    git::answer(site, args, repository(CommandView { dir, args }))->Err_0,
                ),
            )
        }),
        ({
            let dir = DirView::Repo(source.repo_root);
            let args = seq!["ls-files"@, "--others"@, "--exclude-standard"@];
            (exists|part: Seq<char>| #[trigger] is_tracked_part(repository, source, part))
                && resolve_laws::printed(repository, dir, args) is None ==> patch::patch_run(
                patch::patch_start(site, source),
                repository,
                203,
            ) == Some(
                Err::<Seq<char>, _>(
                    git::answer(site, args, repository(CommandView { dir, args }))->Err_0,
                ),
            )
        }),
{
    let dir = DirView::Repo(source.repo_root);
    let args = patch::diff_args(patch::base_or_head(source.base_oid));
    let spelled = seq![
        "diff"@,
        "-M"@,
        "--no-color"@,
        "--no-ext-diff"@,
        match source.base_oid {
            Some(oid) => oid,
            None => "HEAD"@,
        },
    ];
    assert(args =~= spelled);
    patch::patches_come_to_an_end(site, repository, source);
    resolve_laws::lemma_printed(site, repository, dir, args);
    resolve_laws::lemma_printed(site, repository, dir, seq!["for-each-ref"@, "--count=1"@]);
    resolve_laws::lemma_printed(
        site,
        repository,
        dir,
        seq!["ls-files"@, "--others"@, "--exclude-standard"@],
    );
    if exists|part: Seq<char>| #[trigger] is_tracked_part(repository, source, part) {
        let part = choose|part: Seq<char>| #[trigger] is_tracked_part(repository, source, part);
        lemma_tracked(site, repository, source, part);
    } else {
        if let Ok(part) = patch::tracked_changes(site, repository, source) {
            assert(is_tracked_part(repository, source, part));
        }
    }
}

} // verus!
