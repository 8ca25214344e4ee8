use patchview::git::exit_status;
use patchview::shell::{
    remote_git_command, remote_shell_command, remote_shell_command_parts, shell_quote,
};
use patchview::ssh::{
    closed_message, parse_ssh_command, profile_from_words, PendingCommand, ReplyStep,
    SshConnection, SshConnectionManager, SshError, SshProfile,
};

#[test]
fn parses_pasted_ssh_commands() {
    assert_eq!(
        parse_ssh_command("ssh -p 2222 user@example.com").unwrap(),
        SshProfile {
            command: vec!["ssh".into(), "-p".into(), "2222".into()],
            destination: Some("user@example.com".into()),
            remote_command_separator: None,
        }
    );
    assert_eq!(
        parse_ssh_command("custom ssh --profile devbox devbox").unwrap(),
        SshProfile {
            command: vec![
                "custom".into(),
                "ssh".into(),
                "--profile".into(),
                "devbox".into()
            ],
            destination: Some("devbox".into()),
            remote_command_separator: None,
        }
    );
    assert_eq!(
        parse_ssh_command("custom ssh").unwrap(),
        SshProfile {
            command: vec!["custom".into(), "ssh".into()],
            destination: None,
            remote_command_separator: Some("--".into()),
        }
    );
    assert_eq!(parse_ssh_command("custom ssh").unwrap().display(), "custom ssh --");
    assert!(parse_ssh_command("ssh devbox 'git status'").is_err());
    assert!(parse_ssh_command("ssh").is_err());
}

#[test]
fn remote_commands_quote_paths_and_arguments() {
    assert_eq!(
        remote_git_command(
            "/tmp/repo with space",
            &["show".into(), "HEAD:it's here.rs".into()]
        ),
        "'git' '-C' '/tmp/repo with space' 'show' 'HEAD:it'\\''s here.rs'"
    );
    assert_eq!(
        remote_shell_command("cat", &["/tmp/repo/it's here.rs".into()]),
        "'cat' '/tmp/repo/it'\\''s here.rs'"
    );
}

/// What `sh` prints for a script: the output of the command, and then the
/// report with the marker that the script names.
fn reply(pending: &PendingCommand, output: &str, status: &str) -> Vec<Vec<u8>> {
    let marker = pending
        .script
        .rsplit("printf '\\n%s %s\\n' '")
        .next()
        .unwrap()
        .split('\'')
        .next()
        .unwrap();
    format!("{output}\n{marker} {status}\n")
        .split_inclusive('\n')
        .map(|line| line.as_bytes().to_vec())
        .collect()
}

fn read(pending: &mut PendingCommand, lines: Vec<Vec<u8>>) -> ReplyStep {
    for line in lines {
        match pending.line(&line) {
            ReplyStep::More => {}
            step => return step,
        }
    }
    panic!("the reply has no report");
}

#[test]
fn wrapper_profiles_separate_remote_commands() {
    let profile = SshProfile {
        command: vec!["/bin/sh".into(), "-c".into(), "exec \"$@\"".into()],
        destination: None,
        remote_command_separator: Some("--".into()),
    };
    assert_eq!(
        profile.spawn_command().unwrap(),
        vec!["/bin/sh", "-c", "exec \"$@\"", "--", "sh", "-s"]
    );
    let mut manager: SshConnectionManager<u32> = SshConnectionManager::new();
    manager.insert(profile.clone(), 4711);
    let mut connection = SshConnection::new();

    let mut run = |command: &str, output: &str| {
        let pid = *manager.get(&profile).unwrap();
        let mut pending = connection.begin(false, command).unwrap();
        let lines = reply(&pending, &output.replace("$$", &pid.to_string()), "0");
        let step = read(&mut pending, lines);
        manager.settle(&profile, step == ReplyStep::BadStatus);
        (step, pending.stdout)
    };
    let first = run("printf '%s\\n' \"$$\"", "$$\n");
    let no_newline = run("printf 'first'", "first");
    let second = run("printf '%s\\n' \"$$\"", "$$\n");
    assert_eq!(first.0, ReplyStep::Done(0));
    assert_eq!(second.0, ReplyStep::Done(0));
    assert_eq!(first.1, second.1);
    assert_eq!(no_newline.1, b"first");
}

#[test]
fn every_way_to_misspell_a_connection_is_told_apart() {
    assert_eq!(parse_ssh_command("ssh 'devbox"), Err(SshError::Quoting));
    assert_eq!(parse_ssh_command("ssh"), Err(SshError::Incomplete));
    assert_eq!(parse_ssh_command(""), Err(SshError::Incomplete));
    assert_eq!(parse_ssh_command("ssh -v"), Err(SshError::NoDestination));
    assert_eq!(parse_ssh_command("ssh 'two words'"), Err(SshError::NoDestination));
    assert_eq!(SshError::Quoting.message(), "invalid SSH command quoting");
    assert_eq!(
        SshError::Incomplete.message(),
        "expected an SSH command and destination, for example `ssh devbox`"
    );
    assert_eq!(SshError::NoDestination.message(), "SSH destination is missing");
    assert_eq!(SshError::EmptyCommand.message(), "SSH command is empty");
    assert_eq!(
        SshError::Exited.message(),
        "SSH connection exited before running the remote command"
    );
}

#[test]
fn quotes_are_taken_off_and_words_are_split() {
    let profile = parse_ssh_command("ssh -o 'A B' dev").unwrap();
    assert_eq!(profile.command, vec!["ssh", "-o", "A B"]);
    assert_eq!(profile.label(), "dev");
    let words: Vec<String> = vec!["x".into(), "ssh".into(), "--".into()];
    let wrapper = profile_from_words(&words).unwrap();
    assert_eq!(wrapper.command, vec!["x", "ssh"]);
    assert_eq!(wrapper.label(), "x ssh");
    assert_eq!(wrapper.display(), "x ssh --");
    // What a profile displays leads back to it.
    assert_eq!(parse_ssh_command(&wrapper.display()).unwrap(), wrapper);
    assert_eq!(wrapper.copy(), wrapper);
}

#[test]
fn a_profile_starts_a_shell() {
    let profile = parse_ssh_command("ssh -p 22 dev").unwrap();
    assert_eq!(
        profile.spawn_command().unwrap(),
        vec!["ssh", "-p", "22", "dev", "sh", "-s"]
    );
    let empty = SshProfile {
        command: Vec::new(),
        destination: None,
        remote_command_separator: None,
    };
    assert_eq!(empty.spawn_command(), Err(SshError::EmptyCommand));
}

#[test]
fn sessions_are_reused_until_a_run_fails() {
    let a = parse_ssh_command("ssh a").unwrap();
    let b = parse_ssh_command("ssh b").unwrap();
    let mut manager = SshConnectionManager::new();
    assert!(manager.get(&a).is_none());
    manager.insert(a.clone(), 1);
    manager.insert(b.clone(), 2);
    manager.settle(&a, false);
    assert_eq!(manager.get(&a), Some(&1));
    manager.settle(&a, true);
    assert_eq!(manager.get(&a), None);
    assert_eq!(manager.get(&b), Some(&2));
    manager.insert(a.clone(), 3);
    assert_eq!(manager.get(&a), Some(&3));
}

#[test]
fn commands_have_markers_of_their_own() {
    let mut connection = SshConnection::new();
    let first = connection.begin(false, "ls").unwrap();
    assert_eq!(
        first.script,
        "ls\nprintf '\\n%s %s\\n' '__LGTM_COMMAND_0__' \"$?\"\n"
    );
    let second = connection.begin(false, "ls").unwrap();
    assert_eq!(second.prefix, b"__LGTM_COMMAND_1__ ");
    assert!(matches!(connection.begin(true, "ls"), Err(SshError::Exited)));
    assert_eq!(connection.next_marker, 2);
}

#[test]
fn replies_end_at_the_marker() {
    let mut connection = SshConnection::new();
    let mut pending = connection.begin(false, "x").unwrap();
    let lines = reply(&pending, "a\nb\n", "127");
    assert_eq!(read(&mut pending, lines), ReplyStep::Done(127));
    assert_eq!(pending.stdout, b"a\nb\n");
    let mut pending = connection.begin(false, "x").unwrap();
    let lines = reply(&pending, "", "oops");
    assert_eq!(read(&mut pending, lines), ReplyStep::BadStatus);
    // Output without a newline at its end stands before the marker's line.
    let mut pending = connection.begin(false, "x").unwrap();
    assert_eq!(pending.line(&b"no newline\n".to_vec()), ReplyStep::More);
    assert_eq!(
        pending.line(&b"__LGTM_COMMAND_2__ -3\n".to_vec()),
        ReplyStep::Done(-3)
    );
    assert_eq!(pending.stdout, b"no newline");
}

#[test]
fn a_closed_connection_reports_its_errors() {
    assert_eq!(
        closed_message(&b" Permission denied\n".to_vec()),
        "SSH connection closed while running remote command: Permission denied"
    );
    assert_eq!(
        closed_message(&b"\xff".to_vec()),
        "SSH connection closed while running remote command: \u{fffd}"
    );
}

#[test]
fn quoting_protects_quotes() {
    assert_eq!(shell_quote(""), "''");
    assert_eq!(shell_quote("it's"), "'it'\\''s'");
    let words = vec!["a b".to_string(), "'".to_string(), "$HOME".to_string()];
    let line = remote_shell_command_parts(&words);
    assert_eq!(line, "'a b' ''\\''' '$HOME'");
    assert_eq!(shlex::split(&line), Some(words));
}

#[test]
fn exit_codes_are_the_lowest_byte() {
    for status in [0, 1, 127, 255, 256, 257, 0x100_0000, -1, -256, i32::MIN, i32::MAX] {
        let exit = exit_status(status);
        assert_eq!(exit.code, status & 0xff);
        assert_eq!(exit.success, status << 8 == 0);
    }
    // A status whose lowest byte is 0 is not yet a success.
    assert!(!exit_status(256).success);
    assert_eq!(exit_status(256).code, 0);
}
