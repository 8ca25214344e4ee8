use patchview::base_refs::{list_base_refs, list_remote_base_refs, BaseRefs};
use patchview::git::{answer_text, Failure, GitCommand, Outcome, Site, Step, WorkDir};
use patchview::patch::{added_file, diff_patch, remote_diff_patch, PatchRun, MAX_UNTRACKED_FILES};
use patchview::files::{
    file_at_base, printed_file, remote_file_at_base, remote_file_at_worktree, remote_printed_file,
};
use patchview::remote::{resolve_remote, RemoteSource};
use patchview::resolve::{
    push_unique, resolve_local, resolve_local_with_base, LocalSource, Resolution,
};
use patchview::ssh::parse_ssh_command;

fn ok(text: &str) -> Outcome {
    Outcome::Ran {
        success: true,
        code: Some(0),
        stdout: text.as_bytes().to_vec(),
        stderr: Vec::new(),
    }
}

fn fail(code: i32, stderr: &str) -> Outcome {
    Outcome::Ran {
        success: false,
        code: Some(code),
        stdout: Vec::new(),
        stderr: stderr.as_bytes().to_vec(),
    }
}

fn resolve(
    mut task: Resolution,
    repository: impl Fn(&GitCommand) -> Outcome,
) -> Result<LocalSource, Failure> {
    loop {
        let outcome = repository(&task.command());
        match task.next(outcome) {
            Step::Run(next) => task = next,
            Step::Done(source) => return Ok(source),
            Step::Failed(failure) => return Err(failure),
        }
    }
}

fn list(
    mut task: BaseRefs,
    repository: impl Fn(&GitCommand) -> Outcome,
) -> Result<Vec<String>, Failure> {
    loop {
        let outcome = repository(&task.command());
        match task.next(outcome) {
            Step::Run(next) => task = next,
            Step::Done(refs) => return Ok(refs),
            Step::Failed(failure) => return Err(failure),
        }
    }
}

fn make(mut task: PatchRun, repository: impl Fn(&GitCommand) -> Outcome) -> Result<String, Failure> {
    loop {
        let outcome = repository(&task.command());
        match task.next(outcome) {
            Step::Run(next) => task = next,
            Step::Done(patch) => return Ok(patch),
            Step::Failed(failure) => return Err(failure),
        }
    }
}

/// A repository at `/repo` on a branch, with refs that have a merge base with
/// HEAD, and recorded default branches.
fn repository<'a>(
    branch: &'a str,
    shared: &'a [(&'a str, &'a str)],
    heads: &'a [(&'a str, &'a str)],
) -> impl Fn(&GitCommand) -> Outcome + 'a {
    move |command| {
        let args: Vec<&str> = command.args.iter().map(String::as_str).collect();
        match (&command.dir, args.as_slice()) {
            (WorkDir::Start, ["rev-parse", "--show-toplevel"]) => ok("/repo\n"),
            (WorkDir::Repo(root), _) if root != "/repo" => fail(128, "wrong directory"),
            (_, ["rev-parse", "--abbrev-ref", "HEAD"]) => ok(&format!("{branch}\n")),
            (_, ["rev-parse", "HEAD"]) => ok("headoid\n"),
            (_, ["merge-base", "HEAD", name]) => match shared.iter().find(|(n, _)| n == name) {
                Some((_, oid)) => ok(&format!("{oid}\n")),
                None => fail(128, "fatal: Not a valid object name"),
            },
            (_, ["symbolic-ref", name]) => match heads.iter().find(|(n, _)| n == name) {
                Some((_, target)) => ok(&format!("{target}\n")),
                None => fail(128, "fatal: not a symbolic ref"),
            },
            (_, ["for-each-ref", "--format=%(refname:short)", "refs/heads", "refs/remotes"]) => {
                let mut names: Vec<String> = shared.iter().map(|(n, _)| n.to_string()).collect();
                names.push(branch.to_string());
                names.push("origin/HEAD".to_string());
                names.push("unrelated".to_string());
                names.push(String::new());
                ok(&names.join("\n"))
            }
            _ => fail(129, "unknown command"),
        }
    }
}

#[test]
fn resolve_rejects_non_repo() {
    let repo = |_: &GitCommand| fail(128, "fatal: not a git repository\n");
    let failure = resolve(resolve_local("/tmp/x"), repo).unwrap_err();
    assert_eq!(
        failure.messages,
        vec![
            "/tmp/x is not inside a git repository",
            "git rev-parse --show-toplevel failed: fatal: not a git repository",
        ]
    );
    assert_eq!(
        failure.message(),
        "/tmp/x is not inside a git repository: git rev-parse --show-toplevel failed: fatal: not a git repository"
    );
}

#[test]
fn the_main_branch_is_compared_to_its_head() {
    let source = resolve(
        resolve_local("."),
        repository("main", &[("main", "headoid")], &[]),
    )
    .unwrap();
    assert_eq!(
        source,
        LocalSource {
            repo_root: "/repo".into(),
            branch: "main".into(),
            base_ref: None,
            base_label: "HEAD".into(),
            base_oid: Some("headoid".into()),
        }
    );
}

#[test]
fn a_feature_branch_is_compared_to_local_main() {
    let source = resolve(
        resolve_local("."),
        repository("feature", &[("main", "oid1")], &[]),
    )
    .unwrap();
    assert_eq!(source.branch, "feature");
    assert_eq!(source.base_label, "main");
    assert_eq!(source.base_oid.as_deref(), Some("oid1"));
}

#[test]
fn recorded_remote_heads_come_first() {
    let shared = [("origin/trunk", "oid0"), ("origin/main", "oid1"), ("upstream/main", "oid2")];
    let heads = [("refs/remotes/origin/HEAD", "refs/remotes/origin/trunk")];
    let source = resolve(resolve_local("."), repository("feature", &shared, &heads)).unwrap();
    assert_eq!(source.base_label, "origin/trunk");
    assert_eq!(source.base_oid.as_deref(), Some("oid0"));
    // Without origin's main, upstream's is taken.
    let shared = [("upstream/main", "oid2"), ("main", "oid3")];
    let source = resolve(resolve_local("."), repository("feature", &shared, &[])).unwrap();
    assert_eq!(source.base_label, "upstream/main");
}

#[test]
fn a_chosen_base_overrides_the_default() {
    let shared = [("main", "oid1"), ("release", "oid2")];
    let repo = repository("feature", &shared, &[]);
    let source = resolve(resolve_local_with_base(".", Some(" release ")), &repo).unwrap();
    assert_eq!(source.base_label, "release");
    assert_eq!(source.base_ref.as_deref(), Some("release"));
    assert_eq!(source.base_oid.as_deref(), Some("oid2"));
    let source = resolve(resolve_local_with_base(".", Some("HEAD")), &repo).unwrap();
    assert_eq!(source.base_label, "HEAD");
    assert_eq!(source.base_ref.as_deref(), Some("HEAD"));
    assert_eq!(source.base_oid.as_deref(), Some("headoid"));
    let failure = resolve(resolve_local_with_base(".", Some("nope")), &repo).unwrap_err();
    assert_eq!(
        failure.messages,
        vec![
            "nope does not share history with HEAD",
            "git merge-base HEAD nope failed: fatal: Not a valid object name",
        ]
    );
}

/// A repository without commits: whatever resolves HEAD fails there.
fn unborn(command: &GitCommand) -> Outcome {
    let args: Vec<&str> = command.args.iter().map(String::as_str).collect();
    match args.as_slice() {
        ["rev-parse", "--show-toplevel"] => ok("/repo\n"),
        ["symbolic-ref", "--short", "HEAD"] => ok("main\n"),
        ["for-each-ref", "--count=1"] => ok(""),
        ["ls-files", "--others", "--exclude-standard"] => ok("a.txt\n"),
        ["diff", "--no-color", "--no-ext-diff", "--no-index", "--", "/dev/null", file] => {
            Outcome::Ran {
                success: false,
                code: Some(1),
                stdout: format!("added {file}\n").into_bytes(),
                stderr: Vec::new(),
            }
        }
        _ => fail(128, "fatal: ambiguous argument 'HEAD': unknown revision"),
    }
}

#[test]
fn a_repository_without_commits_has_no_base() {
    let expected = LocalSource {
        repo_root: "/repo".into(),
        branch: "main".into(),
        base_ref: None,
        base_label: "HEAD".into(),
        base_oid: None,
    };
    assert_eq!(resolve(resolve_local("."), unborn).unwrap(), expected);
    assert_eq!(resolve(resolve_remote(&remote_source()), unborn).unwrap(), expected);
    // Choosing what was found finds it again.
    let chosen = resolve(resolve_local_with_base(".", Some("HEAD")), unborn).unwrap();
    assert_eq!(
        chosen,
        LocalSource {
            base_ref: Some("HEAD".into()),
            ..expected
        }
    );
    // Another base cannot be had there.
    let failure = resolve(resolve_local_with_base(".", Some("dev")), unborn).unwrap_err();
    assert_eq!(
        failure.messages,
        vec![
            "git rev-parse --abbrev-ref HEAD failed: fatal: ambiguous argument 'HEAD': unknown revision"
        ]
    );
}

#[test]
fn a_branch_without_a_name_keeps_the_first_failure() {
    let repo = |command: &GitCommand| match command.args[0].as_str() {
        "symbolic-ref" => fail(1, "no symbolic ref"),
        _ if command.args[1] == "--show-toplevel" => ok("/repo"),
        _ => fail(128, "broken"),
    };
    let failure = resolve(resolve_local("."), repo).unwrap_err();
    assert_eq!(
        failure.messages,
        vec!["git rev-parse --abbrev-ref HEAD failed: broken"]
    );
}

#[test]
fn only_a_repository_without_commits_goes_without_a_base() {
    // An orphan branch in a repository that has refs.
    let orphan = |command: &GitCommand| match command.args[1].as_str() {
        "--count=1" => ok("1234 commit\trefs/heads/main\n"),
        _ => unborn(command),
    };
    let expected =
        vec!["git rev-parse --abbrev-ref HEAD failed: fatal: ambiguous argument 'HEAD': unknown revision"];
    let failure = resolve(resolve_local("."), orphan).unwrap_err();
    assert_eq!(failure.messages, expected);
    let failure = resolve(resolve_local_with_base(".", Some("HEAD")), orphan).unwrap_err();
    assert_eq!(failure.messages, expected);
    let failure = make(diff_patch(&source(None)), orphan).unwrap_err();
    assert_eq!(
        failure.messages,
        vec!["git diff -M --no-color --no-ext-diff HEAD failed: fatal: ambiguous argument 'HEAD': unknown revision"]
    );
    // A question that could not be asked, as the connection broke.
    let broken = |command: &GitCommand| match command.args[1].as_str() {
        "--abbrev-ref" | "-M" => Outcome::NotRun(vec!["gone".into()]),
        _ => unborn(command),
    };
    let failure = resolve(resolve_remote(&remote_source()), broken).unwrap_err();
    assert_eq!(failure.messages, vec!["gone"]);
    let failure = make(remote_diff_patch(&remote_source()), broken).unwrap_err();
    assert_eq!(failure.messages, vec!["gone"]);
    // A question that a signal has cut short.
    let killed = |command: &GitCommand| match command.args[1].as_str() {
        "--abbrev-ref" => Outcome::Ran {
            success: false,
            code: None,
            stdout: Vec::new(),
            stderr: b"killed".to_vec(),
        },
        _ => unborn(command),
    };
    assert!(resolve(resolve_local("."), killed).is_err());
}

#[test]
fn a_source_without_a_base_is_compared_to_head() {
    let repo = |command: &GitCommand| match command.args[0].as_str() {
        "ls-files" => ok(""),
        _ => ok(&format!("changes since {}\n", command.args[4])),
    };
    assert_eq!(
        make(diff_patch(&source(None)), repo).unwrap(),
        "changes since HEAD\n"
    );
}

#[test]
fn a_patch_without_commits_holds_the_untracked_files() {
    let source = resolve(resolve_local("."), unborn).unwrap();
    assert_eq!(make(diff_patch(&source), unborn).unwrap(), "added a.txt\n");
    let remote = remote_source().resolved(source);
    assert_eq!(make(remote_diff_patch(&remote), unborn).unwrap(), "added a.txt\n");
}

#[test]
fn choosing_the_default_base_finds_it_again() {
    let shared = [("origin/main", "oid1"), ("main", "oid2")];
    for shared in [&shared[..], &[]] {
        let repo = repository("feature", shared, &[]);
        let found = resolve(resolve_local("."), &repo).unwrap();
        let label = found.base_label.clone();
        let chosen = resolve(resolve_local_with_base(".", Some(&label)), &repo).unwrap();
        assert_eq!(
            chosen,
            LocalSource {
                base_ref: Some(label),
                ..found
            }
        );
    }
}

#[test]
fn git_that_cannot_be_run_is_reported() {
    let repo = |_: &GitCommand| Outcome::NotRun(vec!["No such file".into()]);
    let failure = resolve(resolve_local("x"), repo).unwrap_err();
    assert_eq!(
        failure.messages[1],
        "failed to run git (is git installed?): No such file"
    );
    let args = vec!["status".to_string()];
    let failure = answer_text(
        Site::Remote,
        &args,
        Outcome::NotRun(vec!["SSH connection is poisoned".into()]),
    )
    .unwrap_err();
    assert_eq!(failure.messages, vec!["SSH connection is poisoned"]);
    let failure = answer_text(Site::Remote, &args, fail(2, " no\n")).unwrap_err();
    assert_eq!(failure.messages, vec!["remote git status failed: no"]);
    // A status that is not 0 is no success, though its code is.
    let odd_status = Outcome::Ran {
        success: false,
        code: Some(0),
        stdout: b"out".to_vec(),
        stderr: Vec::new(),
    };
    assert!(answer_text(Site::Remote, &args, odd_status).is_err());
    // A signal is no success.
    let killed = Outcome::Ran {
        success: false,
        code: None,
        stdout: Vec::new(),
        stderr: b"killed".to_vec(),
    };
    let failure = answer_text(Site::Local, &args, killed).unwrap_err();
    assert_eq!(failure.messages, vec!["git status failed: killed"]);
    // Output that is not UTF-8 is decoded with replacement characters.
    let odd = Outcome::Ran {
        success: true,
        code: Some(0),
        stdout: b"a\xffb".to_vec(),
        stderr: Vec::new(),
    };
    assert_eq!(answer_text(Site::Local, &args, odd).unwrap(), "a\u{fffd}b");
}

#[test]
fn local_base_refs_share_history() {
    let shared = [("main", "o1"), ("release", "o2"), ("origin/main", "o3")];
    let refs = list(list_base_refs("."), repository("feature", &shared, &[])).unwrap();
    assert_eq!(refs, vec!["origin/main", "main", "HEAD", "release"]);
    let failure = list(list_base_refs("p"), |_| fail(1, "no")).unwrap_err();
    assert_eq!(failure.messages[0], "p is not inside a git repository");
}

fn remote_source() -> RemoteSource {
    RemoteSource {
        profile: parse_ssh_command("ssh dev").unwrap(),
        repo_root: "/repo".into(),
        branch: "b".into(),
        base_ref: None,
        base_label: "HEAD".into(),
        base_oid: None,
    }
}

#[test]
fn remote_base_refs_are_not_filtered() {
    let refs = list(
        list_remote_base_refs(&remote_source()),
        repository("feature", &[("main", "o1")], &[]),
    )
    .unwrap();
    assert_eq!(
        refs,
        vec![
            "origin/main",
            "upstream/main",
            "origin/master",
            "upstream/master",
            "main",
            "master",
            "HEAD",
            "unrelated",
        ]
    );
}

#[test]
fn remote_sources_are_resolved_anew() {
    let src = remote_source();
    let found = resolve(
        resolve_remote(&src),
        repository("feature", &[("origin/main", "o1")], &[]),
    )
    .unwrap();
    let next = src.resolved(found);
    assert_eq!(next.profile, src.profile);
    assert_eq!(next.branch, "feature");
    assert_eq!(next.base_label, "origin/main");
    assert_eq!(next.base_oid.as_deref(), Some("o1"));
    let failure = resolve(resolve_remote(&src), |_| fail(128, "not a repo")).unwrap_err();
    assert_eq!(
        failure.messages,
        vec!["remote git rev-parse --show-toplevel failed: not a repo"]
    );
}

#[test]
fn remote_and_local_resolutions_agree() {
    let shared = [("main", "oid1"), ("release", "oid2")];
    let repo = repository("feature", &shared, &[]);
    for base in [None, Some("HEAD"), Some("release"), Some("nope")] {
        let local = resolve(resolve_local_with_base(".", base), &repo);
        let mut src = remote_source();
        src.base_ref = base.map(str::to_string);
        let remote = resolve(resolve_remote(&src), &repo);
        assert_eq!(local.ok(), remote.ok());
    }
}

#[test]
fn remote_commands_name_their_directory() {
    let task = resolve_remote(&remote_source());
    assert_eq!(
        task.command().remote_text("/start dir"),
        "'git' '-C' '/start dir' 'rev-parse' '--show-toplevel'"
    );
    match task.next(ok("/root\n")) {
        Step::Run(next) => assert_eq!(
            next.command().remote_text("/start dir"),
            "'git' '-C' '/root' 'rev-parse' '--abbrev-ref' 'HEAD'"
        ),
        _ => panic!("expected another command"),
    }
}

fn source(base_oid: Option<&str>) -> LocalSource {
    LocalSource {
        repo_root: "/repo".into(),
        branch: "main".into(),
        base_ref: None,
        base_label: "HEAD".into(),
        base_oid: base_oid.map(str::to_string),
    }
}

#[test]
fn patches_hold_changes_and_untracked_files() {
    let repo = |command: &GitCommand| {
        let args: Vec<&str> = command.args.iter().map(String::as_str).collect();
        match args.as_slice() {
            ["diff", "-M", "--no-color", "--no-ext-diff", "base1"] => ok("changed\n"),
            ["ls-files", "--others", "--exclude-standard"] => ok("a.txt\nb c.txt\n"),
            ["diff", "--no-color", "--no-ext-diff", "--no-index", "--", "/dev/null", file] => {
                Outcome::Ran {
                    success: false,
                    code: Some(1),
                    stdout: format!("added {file}\n").into_bytes(),
                    stderr: Vec::new(),
                }
            }
            _ => fail(129, "unknown"),
        }
    };
    assert_eq!(
        make(diff_patch(&source(Some("base1"))), repo).unwrap(),
        "changed\nadded a.txt\nadded b c.txt\n"
    );
    let failure = make(diff_patch(&source(Some("base2"))), repo).unwrap_err();
    assert_eq!(
        failure.messages,
        vec!["git diff -M --no-color --no-ext-diff base2 failed: unknown"]
    );
    // Without a base, HEAD has to do where there are commits.
    let failure = make(diff_patch(&source(None)), repo).unwrap_err();
    assert_eq!(
        failure.messages,
        vec!["git diff -M --no-color --no-ext-diff HEAD failed: unknown"]
    );
}

#[test]
fn only_so_many_untracked_files_go_in() {
    let repo = |command: &GitCommand| match command.args[0].as_str() {
        "ls-files" => ok(&"f\n".repeat(MAX_UNTRACKED_FILES + 50)),
        _ if command.args.len() == 5 => ok(""),
        _ => ok("+"),
    };
    let patch = make(diff_patch(&source(None)), repo).unwrap();
    assert_eq!(patch.len(), 200);
}

#[test]
fn a_file_that_cannot_be_added_fails_the_patch() {
    assert_eq!(
        added_file(Site::Local, "f", fail(128, "boom")).unwrap_err().messages,
        vec!["git diff --no-index /dev/null f failed: boom"]
    );
    assert_eq!(
        added_file(Site::Remote, "f", fail(2, "boom")).unwrap_err().messages,
        vec!["remote git diff --no-index f failed: boom"]
    );
    assert_eq!(
        added_file(Site::Local, "f", Outcome::NotRun(vec!["gone".into()]))
            .unwrap_err()
            .messages,
        vec!["failed to run git: gone"]
    );
    assert_eq!(added_file(Site::Local, "f", ok("x")).unwrap(), "x");
    let mut src = remote_source();
    src.base_oid = Some("o9".into());
    assert_eq!(
        remote_diff_patch(&src).command().args.join(" "),
        "diff -M --no-color --no-ext-diff o9"
    );
}

#[test]
fn files_at_the_base_are_shown_by_commit() {
    let command = file_at_base(&source(Some("abc")), "src/a.rs").unwrap();
    assert_eq!(command.args, vec!["show", "abc:src/a.rs"]);
    assert_eq!(command.dir, WorkDir::Repo("/repo".into()));
    assert!(file_at_base(&source(None), "src/a.rs").is_none());
    assert_eq!(printed_file(ok("fn main() {}\n")).as_deref(), Some("fn main() {}\n"));
    assert_eq!(printed_file(fail(128, "no")), None);
    assert_eq!(printed_file(Outcome::NotRun(Vec::new())), None);
    let binary = || Outcome::Ran {
        success: true,
        code: Some(0),
        stdout: vec![0u8, 159, 146, 150],
        stderr: Vec::new(),
    };
    assert_eq!(printed_file(binary()), None);
    assert!(remote_printed_file(binary()).is_some());
    assert_eq!(remote_printed_file(fail(1, "no")), None);
    let mut src = remote_source();
    assert!(remote_file_at_base(&src, "x").is_none());
    src.base_oid = Some("abc".into());
    assert_eq!(
        remote_file_at_base(&src, "x").unwrap().args,
        vec!["show", "abc:x"]
    );
}

#[test]
fn files_in_the_worktree_are_printed_by_path() {
    let mut src = remote_source();
    assert_eq!(remote_file_at_worktree(&src, "a b.rs"), "'cat' '/repo/a b.rs'");
    src.repo_root = "/repo//".into();
    assert_eq!(remote_file_at_worktree(&src, "a.rs"), "'cat' '/repo/a.rs'");
}

#[test]
fn values_are_pushed_once() {
    let mut values = vec!["a".to_string()];
    push_unique(&mut values, "b".into());
    push_unique(&mut values, "a".into());
    assert_eq!(values, vec!["a", "b"]);
}
