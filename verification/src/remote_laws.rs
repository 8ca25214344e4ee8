//! How commands reach a remote shell and how its replies are read, told by how
//! the texts and bytes are made up.
use vstd::prelude::*;
use vstd::utf8::*;

use crate::bytes;
use crate::files;
use crate::git::{CommandView, DirView, OutcomeView};
use crate::number;
use crate::remote::RemoteSource;
use crate::resolve::SourceView;
use crate::shell;
use crate::ssh;
use crate::ssh::{ProfileView, SshError, SshProfile};
use crate::text;

verus! {

/// A quoted text is the text between single quotes, in which each single quote
/// closes the quotation, stands behind a backslash, and opens it again.
pub proof fn quotes_stand_around_the_text(s: Seq<char>, c: char)
    ensures
        shell::quoted(Seq::empty()) == seq!['\'', '\''],
        shell::quoted(s).len() >= 2,
        c != '\'' ==> shell::quoted(s.push(c)) == shell::quoted(s).drop_last() + seq![c, '\''],
        c == '\'' ==> shell::quoted(s.push(c)) == shell::quoted(s).drop_last() + seq![
            '\'',
            '\\',
            '\'',
            '\'',
            '\'',
        ],
{
    reveal_strlit("'\\''");
    assert(s.push(c).drop_last() =~= s);
    let quote = seq!['\''];
    let inner = text::replace_char(s, '\'', "'\\''"@);
    assert(shell::quoted(s).drop_last() =~= quote + inner);
    if c == '\'' {
        assert("'\\''"@ =~= seq!['\'', '\\', '\'', '\'']);
        assert(shell::quoted(s.push(c)) =~= quote + inner + seq!['\'', '\\', '\'', '\'', '\'']);
    } else {
        assert(shell::quoted(s.push(c)) =~= quote + inner + seq![c, '\'']);
    }
}

/// A command for a remote shell is its words, each quoted, with a space between
/// them.
pub proof fn quoted_words_stand_in_order(words: Seq<Seq<char>>, word: Seq<char>)
    ensures
        shell::quoted_words(Seq::empty()).len() == 0,
        shell::quoted_words(seq![word]) == shell::quoted(word),
        words.len() > 0 ==> shell::quoted_words(words.push(word)) == shell::quoted_words(words)
            + seq![' '] + shell::quoted(word),
{
    reveal_strlit(" ");
    assert(" "@ =~= seq![' ']);
    let all = words.push(word);
    let quoted = Seq::new(words.len(), |i: int| shell::quoted(words[i]));
    assert(Seq::new(all.len(), |i: int| shell::quoted(all[i])).drop_last() =~= quoted);
}

/// A command of at least one word before a destination gives both of them: a
/// destination has no white space and does not start with a dash, and is not the
/// word `ssh`.
pub proof fn destinations_come_last(command: Seq<Seq<char>>, destination: Seq<char>)
    requires
        command.len() > 0,
        destination != "ssh"@,
        destination.len() > 0 ==> destination[0] != '-',
        forall|i: int| 0 <= i < destination.len() ==> !text::is_space(#[trigger] destination[i]),
    ensures
        ssh::profile_of(command.push(destination)) == Ok::<_, SshError>(
            ProfileView {
                command,
                destination: Some(destination),
                remote_command_separator: None,
            },
        ),
{
    reveal_strlit("--");
    let tokens = command.push(destination);
    assert("--"@[0] == '-' && "--"@.len() == 2);
    assert(tokens.drop_last() =~= command);
    assert(destination != "--"@);
}

/// A command that ends with the word `ssh`, with or without two dashes behind
/// it, is a wrapper that knows its destination: it is kept up to that word, and
/// what is to run remotely comes behind two dashes.
pub proof fn wrappers_are_kept(front: Seq<Seq<char>>)
    ensures
        front.len() > 0 ==> ssh::profile_of(front.push("ssh"@)) == Ok::<_, SshError>(
            ProfileView {
                command: front.push("ssh"@),
                destination: None,
                remote_command_separator: Some("--"@),
            },
        ),
        ssh::profile_of(front.push("ssh"@).push("--"@)) == Ok::<_, SshError>(
            ProfileView {
                command: front.push("ssh"@),
                destination: None,
                remote_command_separator: Some("--"@),
            },
        ),
{
    reveal_strlit("ssh");
    reveal_strlit("--");
    assert("ssh"@.len() != "--"@.len());
    let tokens = front.push("ssh"@).push("--"@);
    assert(tokens.drop_last() =~= front.push("ssh"@));
    assert(tokens[tokens.len() - 2] == "ssh"@);
}

/// A command of less than two words is incomplete. A longer one that is no
/// wrapper lacks its destination exactly where its last word starts with a dash
/// or holds white space.
pub proof fn other_commands_are_turned_down(tokens: Seq<Seq<char>>)
    ensures
        tokens.len() < 2 <==> ssh::profile_of(tokens) == Err::<ProfileView, _>(
            SshError::Incomplete,
        ),
        ssh::profile_of(tokens) == Err::<ProfileView, _>(SshError::NoDestination) <==> {
            &&& tokens.len() >= 2
            &&& tokens.last() != "ssh"@
            &&& !(tokens[tokens.len() - 2] == "ssh"@ && tokens.last() == "--"@)
            &&& (tokens.last().len() > 0 && tokens.last()[0] == '-') || (exists|i: int|
                0 <= i < tokens.last().len() && text::is_space(#[trigger] tokens.last()[i]))
        },
        ssh::profile_of(tokens) matches Err(err) ==> err == SshError::Incomplete || err
            == SshError::NoDestination,
{
    if tokens.len() >= 2 {
        let last = tokens.last();
        if !ssh::is_destination(last) && !(last.len() > 0 && last[0] == '-') {
            let i = choose|i: int| 0 <= i < last.len() && text::is_space(#[trigger] last[i]);
            assert(text::is_space(tokens.last()[i]));
        }
    }
}

/// The words of a profile are its command, its destination where it has one,
/// and its separator where it has one.
pub proof fn profiles_are_written_in_order(profile: ProfileView)
    ensures
        ssh::profile_words(profile) == profile.command + (match profile.destination {
            Some(destination) => seq![destination],
            None => seq![],
        }) + (match profile.remote_command_separator {
            Some(separator) => seq![separator],
            None => seq![],
        }),
{
    assert(ssh::profile_words(profile) =~= profile.command + (match profile.destination {
        Some(destination) => seq![destination],
        None => seq![],
    }) + (match profile.remote_command_separator {
        Some(separator) => seq![separator],
        None => seq![],
    }));
}

/// What is said of each way in which an SSH command can fail.
pub proof fn errors_are_told()
    ensures
        SshError::Quoting.text() == "invalid SSH command quoting"@,
        SshError::Incomplete.text()
            == "expected an SSH command and destination, for example `ssh devbox`"@,
        SshError::NoDestination.text() == "SSH destination is missing"@,
        SshError::EmptyCommand.text() == "SSH command is empty"@,
        SshError::Exited.text() == "SSH connection exited before running the remote command"@,
{
}

/// The session of a profile is the one that is kept under it, and there is none
/// where none is kept.
pub proof fn sessions_are_found<S>(sessions: Seq<(SshProfile, S)>, profile: ProfileView, i: int)
    requires
        forall|j: int, k: int|
            0 <= j < k < sessions.len() ==> (#[trigger] sessions[j]).0@ != (
            #[trigger] sessions[k]).0@,
    ensures
        0 <= i < sessions.len() && sessions[i].0@ == profile ==> ssh::session_of(sessions, profile)
            == Some(sessions[i].1),
        (forall|j: int| 0 <= j < sessions.len() ==> (#[trigger] sessions[j]).0@ != profile)
            ==> ssh::session_of(sessions, profile) is None,
    decreases sessions.len(),
{
    if sessions.len() > 0 {
        let front = sessions.drop_last();
        assert forall|j: int, k: int| 0 <= j < k < front.len() implies (#[trigger] front[j]).0@ != (
        #[trigger] front[k]).0@ by {
            assert(front[j] == sessions[j] && front[k] == sessions[k]);
        }
        sessions_are_found(front, profile, i);
        let last = sessions.len() - 1;
        if 0 <= i < last && sessions[i].0@ == profile {
            assert(front[i] == sessions[i]);
            assert(sessions[i].0@ != sessions[last].0@);
        }
        if forall|j: int| 0 <= j < sessions.len() ==> (#[trigger] sessions[j]).0@ != profile {
            assert(sessions[last].0@ != profile);
            assert forall|j: int| 0 <= j < front.len() implies (#[trigger] front[j]).0@
                != profile by {
                assert(front[j] == sessions[j]);
            }
        }
    }
}

/// What is sent to a remote shell is the command on lines of its own, and then
/// a command that prints, on a line of its own, the marker and the status of
/// the first. What is looked for in the reply is the marker and a space.
pub proof fn scripts_print_their_marker(command: Seq<char>, n: nat)
    ensures
        ssh::marker_of(n) == "__LGTM_COMMAND_"@ + number::decimal(n) + "__"@,
        ssh::script_of(command, n) == command + "\nprintf '\\n%s %s\\n' "@ + shell::quoted(
            "__LGTM_COMMAND_"@ + number::decimal(n) + "__"@,
        ) + " \"$?\"\n"@,
        ssh::prefix_of(n) == encode_utf8("__LGTM_COMMAND_"@ + number::decimal(n) + "__ "@),
{
    reveal_strlit("__");
    reveal_strlit(" ");
    reveal_strlit("__ ");
    let front = "__LGTM_COMMAND_"@ + number::decimal(n);
    assert("__"@ + " "@ =~= "__ "@);
    assert(front + "__"@ + " "@ =~= front + "__ "@);
}

/// One line feed at the end of an output is taken off, and nothing else.
pub proof fn one_line_feed_is_taken_off(output: Seq<u8>)
    ensures
        ssh::without_newline(output.push(10)) == output,
        output.len() > 0 && output.last() != 10 ==> ssh::without_newline(output) == output,
        ssh::without_newline(Seq::empty()).len() == 0,
{
    assert(output.push(10).drop_last() =~= output);
}

/// What stands behind the marker is the status of the command: a number between
/// white space that fits in 32 bits.
pub proof fn statuses_are_read_back(code: int, before: Seq<char>, after: Seq<char>)
    requires
        -2147483648 <= code <= 2147483647,
        forall|i: int| 0 <= i < before.len() ==> text::is_space(#[trigger] before[i]),
        forall|i: int| 0 <= i < after.len() ==> text::is_space(#[trigger] after[i]),
    ensures
        ssh::status_of(encode_utf8(before + number::decimal_int(code) + after)) == Some(code),
{
    let digits = number::decimal_int(code);
    let all = before + digits + after;
    encode_utf8_valid_utf8(all);
    encode_utf8_decode_utf8(all);
    number::decimal_int_reads_back(code, i32::MAX as nat);
    lemma_no_space(code);
    lemma_trim_start(before, digits + after);
    assert(all =~= before + (digits + after));
    assert((digits + after)[0] == digits[0]);
    lemma_trim_end(digits, after);
}

proof fn lemma_no_space(code: int)
    ensures
        number::decimal_int(code).len() > 0,
        !text::is_space(number::decimal_int(code)[0]),
        !text::is_space(number::decimal_int(code).last()),
{
    let n: nat = if code < 0 {
        (-code) as nat
    } else {
        code as nat
    };
    number::decimal_reads_back(n, n);
    let digits = number::decimal(n);
    assert(number::is_digit(digits[0]));
    assert(number::is_digit(digits[digits.len() - 1]));
    assert(number::decimal_int(code).last() == digits.last());
}

proof fn lemma_trim_start(before: Seq<char>, rest: Seq<char>)
    requires
        forall|i: int| 0 <= i < before.len() ==> text::is_space(#[trigger] before[i]),
        rest.len() > 0,
        !text::is_space(rest[0]),
    ensures
        text::trim_start(before + rest) == rest,
    decreases before.len(),
{
    let all = before + rest;
    if before.len() == 0 {
        assert(all =~= rest);
    } else {
        let fewer = before.skip(1);
        assert forall|i: int| 0 <= i < fewer.len() implies text::is_space(#[trigger] fewer[i]) by {
            assert(fewer[i] == before[i + 1]);
        }
        assert(all[0] == before[0]);
        assert(all.skip(1) =~= fewer + rest);
        lemma_trim_start(fewer, rest);
    }
}

proof fn lemma_trim_end(front: Seq<char>, after: Seq<char>)
    requires
        forall|i: int| 0 <= i < after.len() ==> text::is_space(#[trigger] after[i]),
        front.len() > 0,
        !text::is_space(front.last()),
    ensures
        text::trim_end(front + after) == front,
    decreases after.len(),
{
    let all = front + after;
    if after.len() == 0 {
        assert(all =~= front);
    } else {
        let fewer = after.drop_last();
        assert forall|i: int| 0 <= i < fewer.len() implies text::is_space(#[trigger] fewer[i]) by {
            assert(fewer[i] == after[i]);
        }
        assert(all.last() == after[after.len() - 1]);
        assert(all.drop_last() =~= front + fewer);
        lemma_trim_end(front, fewer);
    }
}

/// Lines of a reply are put together until one holds the marker. The output is
/// then all that came before the marker, without one line feed at its end, and
/// the status is read from what comes behind it.
pub proof fn replies_are_put_together(
    before: Seq<Seq<u8>>,
    line: Seq<u8>,
    rest: Seq<Seq<u8>>,
    prefix: Seq<u8>,
    so_far: Seq<u8>,
    i: int,
)
    requires
        forall|k: int|
            0 <= k < before.len() ==> bytes::first_match(#[trigger] before[k], prefix) is None,
        bytes::first_match(line, prefix) == Some(i),
    ensures
        ssh::read_reply(before + seq![line] + rest, prefix, so_far) == Some(
            (
                ssh::without_newline(so_far + before.flatten() + line.take(i)),
                ssh::status_of(line.skip(i + prefix.len())),
            ),
        ),
    decreases before.len(),
{
    let lines = before + seq![line] + rest;
    if before.len() == 0 {
        assert(lines[0] == line);
        assert(before.flatten() =~= Seq::<u8>::empty());
        assert(so_far + before.flatten() =~= so_far);
    } else {
        let fewer = before.skip(1);
        assert forall|k: int| 0 <= k < fewer.len() implies bytes::first_match(
            #[trigger] fewer[k],
            prefix,
        ) is None by {
            assert(fewer[k] == before[k + 1]);
        }
        assert(lines[0] == before[0]);
        assert(lines.skip(1) =~= fewer + seq![line] + rest);
        replies_are_put_together(fewer, line, rest, prefix, so_far + before[0], i);
        assert(before.drop_first() =~= fewer);
        assert(so_far + before.flatten() =~= so_far + before[0] + fewer.flatten());
    }
}

/// A reply that ends without the marker gives nothing.
pub proof fn replies_without_a_marker_give_nothing(
    lines: Seq<Seq<u8>>,
    prefix: Seq<u8>,
    so_far: Seq<u8>,
)
    requires
        forall|k: int|
            0 <= k < lines.len() ==> bytes::first_match(#[trigger] lines[k], prefix) is None,
    ensures
        ssh::read_reply(lines, prefix, so_far) is None,
    decreases lines.len(),
{
    if lines.len() > 0 {
        let rest = lines.skip(1);
        assert forall|k: int| 0 <= k < rest.len() implies bytes::first_match(
            #[trigger] rest[k],
            prefix,
        ) is None by {
            assert(rest[k] == lines[k + 1]);
        }
        replies_without_a_marker_give_nothing(rest, prefix, so_far + lines[0]);
    }
}

/// A stream of bytes is cut behind each line feed.
pub proof fn streams_are_cut_behind_line_feeds(a: Seq<u8>, b: Seq<u8>)
    requires
        forall|i: int| 0 <= i < a.len() ==> #[trigger] a[i] != 10,
    ensures
        ssh::stream_lines(Seq::empty()).len() == 0,
        a.len() > 0 ==> ssh::stream_lines(a) == seq![a],
        ssh::stream_lines(a.push(10) + b) == seq![a.push(10)] + ssh::stream_lines(b),
{
    let s = a.push(10) + b;
    let n = a.len() as int;
    ssh::lemma_line_end(s);
    ssh::lemma_line_end(a);
    assert(s[n] == 10);
    let e = ssh::line_end(s);
    if e > n + 1 {
        assert(s[n] != 10);
    }
    if e < n + 1 {
        assert(s[e - 1] == 10);
        assert(s[e - 1] == a[e - 1]);
    }
    assert(s.take(n + 1) =~= a.push(10));
    assert(s.skip(n + 1) =~= b);
    if a.len() > 0 {
        let m = ssh::line_end(a);
        if m < a.len() {
            assert(a[m - 1] == 10);
        }
        assert(a.take(n) =~= a);
        assert(a.skip(n) =~= Seq::<u8>::empty());
        assert(ssh::stream_lines(a.skip(n)) =~= Seq::<Seq<u8>>::empty());
        assert(ssh::stream_lines(a) =~= seq![a]);
    }
}

/// A file in its base is asked for by the oid of the base, a colon and its path.
/// Without an oid there is nothing to ask.
pub proof fn files_are_asked_for_by_oid(source: SourceView, path: Seq<char>, oid: Seq<char>)
    ensures
        source.base_oid == Some(oid) ==> files::show_command(source, path) == Some(
            CommandView {
                dir: DirView::Repo(source.repo_root),
                args: seq!["show"@, oid + seq![':'] + path],
            },
        ),
        source.base_oid is None ==> files::show_command(source, path) is None,
{
}

/// A file that git prints, and ends well, is the text that its bytes encode,
/// and none where they encode none. A command that ends badly or does not run
/// gives no file.
pub proof fn printed_files_are_read(
    s: Seq<char>,
    raw: Seq<u8>,
    code: Option<i32>,
    stderr: Seq<u8>,
    reasons: Seq<Seq<char>>,
)
    ensures
        files::printed_text(
            OutcomeView::Ran { success: true, code, stdout: encode_utf8(s), stderr },
        ) == Some(s),
        !valid_utf8(raw) ==> files::printed_text(
            OutcomeView::Ran { success: true, code, stdout: raw, stderr },
        ) is None,
        files::printed_text(
            OutcomeView::Ran { success: false, code, stdout: raw, stderr },
        ) is None,
        files::printed_text(OutcomeView::NotRun(reasons)) is None,
{
    encode_utf8_valid_utf8(s);
    encode_utf8_decode_utf8(s);
}

/// All slashes at the end of a path are taken off, and nothing else.
pub proof fn slashes_are_taken_off(s: Seq<char>)
    ensures
        files::without_slashes(s.push('/')) == files::without_slashes(s),
        s.len() > 0 && s.last() != '/' ==> files::without_slashes(s) == s,
        files::without_slashes(Seq::empty()).len() == 0,
{
    assert(s.push('/').drop_last() =~= s);
}

/// The models of profiles and sources hold every field of them.
pub proof fn remote_models_hold_every_field(profile: SshProfile, source: RemoteSource)
    ensures
        profile@.command == profile.command@.map_values(|s: String| s@),
        profile@.destination == match profile.destination {
            Some(s) => Some(s@),
            None => None,
        },
        profile@.remote_command_separator == match profile.remote_command_separator {
            Some(s) => Some(s@),
            None => None,
        },
        source.source().repo_root == source.repo_root@,
        source.source().branch == source.branch@,
        source.source().base_ref == match source.base_ref {
            Some(s) => Some(s@),
            None => None,
        },
        source.source().base_label == source.base_label@,
        source.source().base_oid == match source.base_oid {
            Some(s) => Some(s@),
            None => None,
        },
{
    assert(profile@.command =~= profile.command@.map_values(|s: String| s@));
}

} // verus!
