//! SSH connections: how they are named, started, reused and spoken to.
use crate::bytes;
use crate::bytes::{find_bytes, lossy_text};
use crate::number;
use crate::number::{decimal_text, read_i32};
use crate::shell;
use crate::shell::shell_quote;
use crate::text;
use crate::text::{chars_of, copy_texts, is_whitespace, joined, same_text, trimmed};
use vstd::prelude::*;
use vstd::string::*;
use vstd::utf8::*;

verus! {

/// A way to reach a remote machine: a command, the destination it takes, and
/// what has to stand before the remote command.
#[derive(Debug, Clone, Hash, PartialEq, Eq)]
pub struct SshProfile {
    pub command: Vec<String>,
    pub destination: Option<String>,
    pub remote_command_separator: Option<String>,
}

/// The model of an [`SshProfile`].
pub struct ProfileView {
    pub command: Seq<Seq<char>>,
    pub destination: Option<Seq<char>>,
    pub remote_command_separator: Option<Seq<char>>,
}

impl View for SshProfile {
    type V = ProfileView;

    open spec fn view(&self) -> ProfileView {
        ProfileView {
            command: text::texts(self.command@),
            destination: text::opt_text(self.destination),
            remote_command_separator: text::opt_text(self.remote_command_separator),
        }
    }
}

#[derive(Clone, Copy, Debug, PartialEq, Eq, Structural)]
pub enum SshError {
    /// The quotes of the command do not match up.
    Quoting,
    /// There is no command and destination.
    Incomplete,
    /// The last word is no destination.
    NoDestination,
    /// The profile has no program to run.
    EmptyCommand,
    /// The connection was gone before the command ran.
    Exited,
}

/// The words of a profile, as a connection command has them.
pub open spec fn profile_words(profile: ProfileView) -> Seq<Seq<char>> {
    let with_destination = match profile.destination {
        Some(d) => profile.command.push(d),
        None => profile.command,
    };
    match profile.remote_command_separator {
        Some(s) => with_destination.push(s),
        None => with_destination,
    }
}

/// Whether the words name a wrapper that supplies the destination itself:
/// `... ssh` or `... ssh --`.
pub open spec fn is_wrapper(tokens: Seq<Seq<char>>) -> bool {
    tokens.last() == "ssh"@ || (tokens[tokens.len() - 2] == "ssh"@ && tokens.last() == "--"@)
}

/// Whether a word can be a destination: it is no option and holds no white space.
pub open spec fn is_destination(word: Seq<char>) -> bool {
    &&& !(word.len() > 0 && word[0] == '-')
    &&& forall|i: int| 0 <= i < word.len() ==> !text::is_space(word[i])
}

/// The profile that the words of a connection command stand for.
pub open spec fn profile_of(tokens: Seq<Seq<char>>) -> Result<ProfileView, SshError> {
    if tokens.len() < 2 {
        Err(SshError::Incomplete)
    } else if is_wrapper(tokens) {
        Ok(
            ProfileView {
                command: if tokens.last() == "--"@ {
                    tokens.drop_last()
                } else {
                    tokens
                },
                destination: None,
                remote_command_separator: Some("--"@),
            },
        )
    } else if is_destination(tokens.last()) {
        Ok(
            ProfileView {
                command: tokens.drop_last(),
                destination: Some(tokens.last()),
                remote_command_separator: None,
            },
        )
    } else {
        Err(SshError::NoDestination)
    }
}

/// The model of a result that holds a profile.
pub open spec fn profile_result(r: Result<SshProfile, SshError>) -> Result<ProfileView, SshError> {
    match r {
        Ok(profile) => Ok(profile@),
        Err(err) => Err(err),
    }
}

/// How `shlex::split` splits a command into words; nothing where a quotation or
/// an escape is left open.
pub uninterp spec fn shlex_words(input: Seq<char>) -> Option<Seq<Seq<char>>>;

/// `shlex::split`: the words are a function of the command.
#[verifier::external_body]
fn split_words(input: &str) -> (r: Option<Vec<String>>)
    ensures
        match r {
            Some(words) => shlex_words(input@) == Some(text::texts(words@)),
            None => shlex_words(input@) is None,
        },
{
    shlex::split(input)
}

fn is_destination_word(word: &str) -> (r: bool)
    ensures
        r == is_destination(word@),
{
    let chars = chars_of(word);
    if chars.len() > 0 && chars[0] == '-' {
        return false;
    }
    let mut i: usize = 0;
    while i < chars.len()
        invariant
            i <= chars@.len(),
            chars@ == word@,
            forall|k: int| 0 <= k < i ==> !text::is_space(chars@[k]),
        decreases chars@.len() - i,
    {
        if is_whitespace(chars[i]) {
            return false;
        }
        i = i + 1;
    }
    true
}

/// The profile that the words of a connection command stand for.
pub fn profile_from_words(tokens: &Vec<String>) -> (r: Result<SshProfile, SshError>)
    ensures
        profile_result(r) == profile_of(text::texts(tokens@)),
{
    let n: usize = tokens.len();
    if n < 2 {
        return Err(SshError::Incomplete);
    }
    let ghost words = text::texts(tokens@);
    let last = tokens[n - 1].as_str();
    let dashes = same_text(last, "--");
    proof {
        assert(words.last() == last@);
        assert(words[words.len() - 2] == tokens@[n - 2]@);
        assert(words.subrange(0, n - 1) =~= words.drop_last());
        assert(words.subrange(0, n as int) =~= words);
    }
    if same_text(last, "ssh") || (same_text(tokens[n - 2].as_str(), "ssh") && dashes) {
        let count: usize = if dashes {
            n - 1
        } else {
            n
        };
        return Ok(
            SshProfile {
                command: copy_texts(tokens, 0, count),
                destination: None,
                remote_command_separator: Some("--".to_owned()),
            },
        );
    }
    if !is_destination_word(last) {
        return Err(SshError::NoDestination);
    }
    Ok(
        SshProfile {
            command: copy_texts(tokens, 0, n - 1),
            destination: Some(last.to_owned()),
            remote_command_separator: None,
        },
    )
}

/// Parse a pasted connection command such as `ssh devbox` or a custom wrapper.
pub fn parse_ssh_command(input: &str) -> (r: Result<SshProfile, SshError>)
    ensures
        profile_result(r) == match shlex_words(input@) {
            Some(tokens) => profile_of(tokens),
            None => Err(SshError::Quoting),
        },
{
    match split_words(input) {
        Some(tokens) => profile_from_words(&tokens),
        None => Err(SshError::Quoting),
    }
}

impl SshError {
    pub open spec fn text(self) -> Seq<char> {
        match self {
            SshError::Quoting => "invalid SSH command quoting"@,
            SshError::Incomplete =>
                "expected an SSH command and destination, for example `ssh devbox`"@,
            SshError::NoDestination => "SSH destination is missing"@,
            SshError::EmptyCommand => "SSH command is empty"@,
            SshError::Exited => "SSH connection exited before running the remote command"@,
        }
    }

    /// What the user is told.
    pub fn message(&self) -> (r: &'static str)
        ensures
            r@ == self.text(),
    {
        match self {
            SshError::Quoting => "invalid SSH command quoting",
            SshError::Incomplete =>
                "expected an SSH command and destination, for example `ssh devbox`",
            SshError::NoDestination => "SSH destination is missing",
            SshError::EmptyCommand => "SSH command is empty",
            SshError::Exited => "SSH connection exited before running the remote command",
        }
    }
}

impl SshProfile {
    /// A copy of the profile.
    pub fn copy(&self) -> (r: SshProfile)
        ensures
            r@ == self@,
    {
        let command = copy_texts(&self.command, 0, self.command.len());
        proof {
            let all = text::texts(self.command@);
            assert(all.subrange(0, all.len() as int) =~= all);
        }
        SshProfile {
            command,
            destination: match &self.destination {
                Some(destination) => Some(destination.clone()),
                None => None,
            },
            remote_command_separator: match &self.remote_command_separator {
                Some(separator) => Some(separator.clone()),
                None => None,
            },
        }
    }

    /// The words of the profile.
    fn words(&self) -> (r: Vec<String>)
        ensures
            text::texts(r@) == profile_words(self@),
    {
        let mut parts = copy_texts(&self.command, 0, self.command.len());
        proof {
            assert(text::texts(self.command@).subrange(0, self.command@.len() as int)
                =~= text::texts(self.command@));
        }
        if let Some(destination) = &self.destination {
            let ghost before = parts@;
            let word = destination.clone();
            parts.push(word);
            proof {
                text::lemma_texts_push(before, word);
            }
        }
        if let Some(separator) = &self.remote_command_separator {
            let ghost before = parts@;
            let word = separator.clone();
            parts.push(word);
            proof {
                text::lemma_texts_push(before, word);
            }
        }
        parts
    }

    /// The connection command, for showing.
    pub fn display(&self) -> (r: String)
        ensures
            r@ == text::join(profile_words(self@), " "@),
    {
        joined(&self.words(), " ")
    }

    /// A short name: the destination, or the command where there is none.
    pub fn label(&self) -> (r: String)
        ensures
            r@ == match self@.destination {
                Some(d) => d,
                None => text::join(self@.command, " "@),
            },
    {
        match &self.destination {
            Some(destination) => destination.clone(),
            None => joined(&self.command, " "),
        }
    }

    /// The program to start and its arguments: the connection command, then a
    /// shell that reads commands from its input.
    pub fn spawn_command(&self) -> (r: Result<Vec<String>, SshError>)
        ensures
            match r {
                Ok(argv) => self.command@.len() > 0 && text::texts(argv@) == profile_words(self@)
                    + seq!["sh"@, "-s"@],
                Err(err) => self.command@.len() == 0 && err == SshError::EmptyCommand,
            },
    {
        if self.command.len() == 0 {
            return Err(SshError::EmptyCommand);
        }
        let mut argv = self.words();
        let ghost before = argv@;
        argv.push("sh".to_owned());
        argv.push("-s".to_owned());
        proof {
            assert(text::texts(argv@) =~= text::texts(before) + seq!["sh"@, "-s"@]);
        }
        Ok(argv)
    }
}

/// A profile is stable: the words it displays stand for the same profile again.
pub proof fn profiles_are_stable(tokens: Seq<Seq<char>>)
    ensures
        profile_of(tokens) matches Ok(profile) ==> profile_of(profile_words(profile)) == Ok::<
            ProfileView,
            SshError,
        >(profile),
{
    reveal_strlit("ssh");
    reveal_strlit("--");
    if let Ok(profile) = profile_of(tokens) {
        let words = profile_words(profile);
        if is_wrapper(tokens) {
            if tokens.last() == "--"@ {
                assert(words =~= tokens);
            } else {
                assert(words.drop_last() =~= tokens);
                assert(words[words.len() - 2] == tokens.last());
                assert(words.last() == "--"@);
            }
        } else {
            assert(words =~= tokens);
        }
    }
}

fn same_words(a: &Vec<String>, b: &Vec<String>) -> (r: bool)
    ensures
        r == (text::texts(a@) == text::texts(b@)),
{
    if a.len() != b.len() {
        assert(text::texts(a@).len() != text::texts(b@).len());
        return false;
    }
    let mut i: usize = 0;
    while i < a.len()
        invariant
            a@.len() == b@.len(),
            i <= a@.len(),
            forall|k: int| 0 <= k < i ==> a@[k]@ == b@[k]@,
        decreases a@.len() - i,
    {
        if !same_text(a[i].as_str(), b[i].as_str()) {
            proof {
                assert(text::texts(a@)[i as int] != text::texts(b@)[i as int]);
            }
            return false;
        }
        i = i + 1;
    }
    assert(text::texts(a@) =~= text::texts(b@));
    true
}

fn same_opt(a: &Option<String>, b: &Option<String>) -> (r: bool)
    ensures
        r == (text::opt_text(*a) == text::opt_text(*b)),
{
    match (a, b) {
        (Some(x), Some(y)) => same_text(x.as_str(), y.as_str()),
        (None, None) => true,
        _ => false,
    }
}

fn same_profile(a: &SshProfile, b: &SshProfile) -> (r: bool)
    ensures
        r == (a@ == b@),
{
    same_words(&a.command, &b.command) && same_opt(&a.destination, &b.destination) && same_opt(
        &a.remote_command_separator,
        &b.remote_command_separator,
    )
}

/// The open sessions, at most one per profile.
pub struct SshConnectionManager<S> {
    pub sessions: Vec<(SshProfile, S)>,
}

/// The session of a profile.
pub open spec fn session_of<S>(sessions: Seq<(SshProfile, S)>, profile: ProfileView) -> Option<S>
    decreases sessions.len(),
{
    if sessions.len() == 0 {
        None
    } else if sessions.last().0@ == profile {
        Some(sessions.last().1)
    } else {
        session_of(sessions.drop_last(), profile)
    }
}

proof fn lemma_session_found<S>(sessions: Seq<(SshProfile, S)>, i: int)
    requires
        0 <= i < sessions.len(),
        forall|j: int| i < j < sessions.len() ==> (#[trigger] sessions[j]).0@ != sessions[i].0@,
    ensures
        session_of(sessions, sessions[i].0@) == Some(sessions[i].1),
    decreases sessions.len(),
{
    if i < sessions.len() - 1 {
        assert(sessions[sessions.len() - 1].0@ != sessions[i].0@);
        lemma_session_found(sessions.drop_last(), i);
    }
}

proof fn lemma_session_absent<S>(sessions: Seq<(SshProfile, S)>, profile: ProfileView)
    requires
        forall|j: int| 0 <= j < sessions.len() ==> (#[trigger] sessions[j]).0@ != profile,
    ensures
        session_of(sessions, profile) is None,
    decreases sessions.len(),
{
    if sessions.len() > 0 {
        assert(sessions[sessions.len() - 1].0@ != profile);
        lemma_session_absent(sessions.drop_last(), profile);
    }
}

proof fn lemma_session_removed<S>(sessions: Seq<(SshProfile, S)>, i: int, profile: ProfileView)
    requires
        0 <= i < sessions.len(),
        sessions[i].0@ != profile,
    ensures
        session_of(sessions.remove(i), profile) == session_of(sessions, profile),
    decreases sessions.len(),
{
    if i == sessions.len() - 1 {
        assert(sessions.remove(i) =~= sessions.drop_last());
    } else {
        assert(sessions.remove(i).drop_last() =~= sessions.drop_last().remove(i));
        lemma_session_removed(sessions.drop_last(), i, profile);
    }
}

impl<S> SshConnectionManager<S> {
    /// No profile has two sessions.
    pub open spec fn wf(self) -> bool {
        forall|i: int, j: int|
            0 <= i < j < self.sessions@.len() ==> (#[trigger] self.sessions@[i]).0@ != (
            #[trigger] self.sessions@[j]).0@
    }

    /// The session of a profile.
    pub open spec fn session(self, profile: ProfileView) -> Option<S> {
        session_of(self.sessions@, profile)
    }

    /// No session is open.
    pub fn new() -> (r: Self)
        ensures
            r.wf(),
            forall|p: ProfileView| r.session(p) is None,
    {
        SshConnectionManager { sessions: Vec::new() }
    }

    fn position(&self, profile: &SshProfile) -> (r: Option<usize>)
        requires
            self.wf(),
        ensures
            match r {
                Some(i) => i < self.sessions@.len() && self.sessions@[i as int].0@ == profile@
                    && self.session(profile@) == Some(self.sessions@[i as int].1),
                None => self.session(profile@) is None && forall|j: int|
                    0 <= j < self.sessions@.len() ==> (#[trigger] self.sessions@[j]).0@
                        != profile@,
            },
    {
        let mut i: usize = 0;
        while i < self.sessions.len()
            invariant
                self.wf(),
                i <= self.sessions@.len(),
                forall|j: int| 0 <= j < i ==> (#[trigger] self.sessions@[j]).0@ != profile@,
            decreases self.sessions@.len() - i,
        {
            if same_profile(&self.sessions[i].0, profile) {
                proof {
                    lemma_session_found(self.sessions@, i as int);
                }
                return Some(i);
            }
            i = i + 1;
        }
        proof {
            lemma_session_absent(self.sessions@, profile@);
        }
        None
    }

    /// The open session of a profile.
    pub fn get(&self, profile: &SshProfile) -> (r: Option<&S>)
        requires
            self.wf(),
        ensures
            match r {
                Some(session) => self.session(profile@) == Some(*session),
                None => self.session(profile@) is None,
            },
    {
        match self.position(profile) {
            Some(i) => Some(&self.sessions[i].1),
            None => None,
        }
    }

    /// Keep a session that was opened for a profile without one.
    pub fn insert(&mut self, profile: SshProfile, session: S)
        requires
            old(self).wf(),
            old(self).session(profile@) is None,
        ensures
            final(self).wf(),
            final(self).session(profile@) == Some(session),
            forall|p: ProfileView|
                p != profile@ ==> #[trigger] final(self).session(p) == old(self).session(p),
    {
        let ghost before = self.sessions@;
        let ghost key = profile@;
        proof {
            assert forall|j: int| 0 <= j < before.len() implies (#[trigger] before[j]).0@ != key by {
                if before[j].0@ == key {
                    lemma_session_found(before, j);
                }
            }
        }
        self.sessions.push((profile, session));
        proof {
            assert(self.sessions@.drop_last() =~= before);
        }
    }

    /// Forget the session of a profile whose run failed, so that the next run
    /// opens a new one. A run that went well changes nothing.
    pub fn settle(&mut self, profile: &SshProfile, failed: bool)
        requires
            old(self).wf(),
        ensures
            final(self).wf(),
            failed ==> final(self).session(profile@) is None,
            !failed ==> final(self).session(profile@) == old(self).session(profile@),
            forall|p: ProfileView|
                p != profile@ ==> #[trigger] final(self).session(p) == old(self).session(p),
    {
        if failed {
            if let Some(i) = self.position(profile) {
                let ghost before = self.sessions@;
                let _gone = self.sessions.remove(i);
                proof {
                    let after = self.sessions@;
                    assert(after =~= before.remove(i as int));
                    assert forall|j: int| 0 <= j < after.len() implies (#[trigger] after[j]).0@
                        != profile@ by {
                        let k = if j < i {
                            j
                        } else {
                            j + 1
                        };
                        assert(after[j] == before[k]);
                        if k < i {
                            assert(before[k].0@ != before[i as int].0@);
                        } else {
                            assert(before[i as int].0@ != before[k].0@);
                        }
                    }
                    lemma_session_absent(after, profile@);
                    assert forall|p: ProfileView| p != profile@ implies #[trigger] self.session(p)
                        == session_of(before, p) by {
                        lemma_session_removed(before, i as int, p);
                    }
                    assert forall|a: int, b: int| 0 <= a < b < after.len() implies (
                    #[trigger] after[a]).0@ != (#[trigger] after[b]).0@ by {
                        let x = if a < i {
                            a
                        } else {
                            a + 1
                        };
                        let y = if b < i {
                            b
                        } else {
                            b + 1
                        };
                        assert(before[x].0@ != before[y].0@);
                    }
                }
            }
        }
    }
}

/// The word that ends the output of the n-th command of a connection.
pub open spec fn marker_of(n: nat) -> Seq<char> {
    "__LGTM_COMMAND_"@ + number::decimal(n) + "__"@
}

/// The input for the remote shell: the command, then a line that reports the
/// marker and the exit status.
pub open spec fn script_of(remote_command: Seq<char>, n: nat) -> Seq<char> {
    remote_command + "\nprintf '\\n%s %s\\n' "@ + shell::quoted(marker_of(n)) + " \"$?\"\n"@
}

/// What the last line of a reply starts with.
pub open spec fn prefix_of(n: nat) -> Seq<u8> {
    encode_utf8(marker_of(n) + " "@)
}

/// The output without one newline at its end.
pub open spec fn without_newline(output: Seq<u8>) -> Seq<u8> {
    if output.len() > 0 && output.last() == 10 {
        output.drop_last()
    } else {
        output
    }
}

/// The exit status that the rest of the marker line tells.
pub open spec fn status_of(rest: Seq<u8>) -> Option<int> {
    number::parse_signed(text::trim(bytes::lossy(rest)), i32::MAX as nat)
}

/// The two ends of a connection to a remote shell.
pub struct SshConnection {
    pub next_marker: u64,
}

/// A command that was sent and whose reply is being read.
pub struct PendingCommand {
    /// What goes to the remote shell.
    pub script: String,
    /// What the last line of the reply starts with.
    pub prefix: Vec<u8>,
    /// The output so far.
    pub stdout: Vec<u8>,
}

/// What a line of the reply means.
#[derive(Clone, Copy, Debug, PartialEq, Eq, Structural)]
pub enum ReplyStep {
    /// There is more to come.
    More,
    /// The command is done, with this status.
    Done(i32),
    /// The command is done, but its status is no number.
    BadStatus,
}

impl SshConnection {
    /// A connection on which nothing was run.
    pub fn new() -> (r: Self)
        ensures
            r.next_marker == 0,
    {
        SshConnection { next_marker: 0 }
    }

    /// Begin a command, unless the connection is gone. Each command has a
    /// marker of its own.
    pub fn begin(&mut self, exited: bool, remote_command: &str) -> (r: Result<
        PendingCommand,
        SshError,
    >)
        requires
            old(self).next_marker < u64::MAX,
        ensures
            match r {
                Ok(pending) => {
                    &&& !exited
                    &&& pending.wf()
                    &&& final(self).next_marker == old(self).next_marker + 1
                    &&& pending.script@ == script_of(
                        remote_command@,
                        old(self).next_marker as nat,
                    )
                    &&& pending.prefix@ == prefix_of(old(self).next_marker as nat)
                    &&& pending.stdout@ == Seq::<u8>::empty()
                },
                Err(err) => {
                    &&& exited
                    &&& err == SshError::Exited
                    &&& final(self).next_marker == old(self).next_marker
                },
            },
    {
        if exited {
            return Err(SshError::Exited);
        }
        let mut marker = String::new();
        marker.append("__LGTM_COMMAND_");
        marker.append(decimal_text(self.next_marker).as_str());
        marker.append("__");
        proof {
            assert(marker@ =~= marker_of(self.next_marker as nat));
        }
        self.next_marker = self.next_marker + 1;
        let mut script = remote_command.to_owned();
        script.append("\nprintf '\\n%s %s\\n' ");
        script.append(shell_quote(marker.as_str()).as_str());
        script.append(" \"$?\"\n");
        marker.append(" ");
        let prefix = marker.as_str().as_bytes_vec();
        proof {
            lemma_prefix(old(self).next_marker as nat);
        }
        Ok(PendingCommand { script, prefix, stdout: Vec::new() })
    }
}

fn push_bytes(out: &mut Vec<u8>, more: &Vec<u8>, to: usize)
    requires
        to <= more@.len(),
    ensures
        final(out)@ == old(out)@ + more@.take(to as int),
{
    let ghost start = out@;
    let mut i: usize = 0;
    assert(start + more@.take(0) =~= start);
    while i < to
        invariant
            i <= to <= more@.len(),
            out@ == start + more@.take(i as int),
        decreases to - i,
    {
        out.push(more[i]);
        i = i + 1;
        assert(out@ =~= start + more@.take(i as int));
    }
}

impl PendingCommand {
    /// There is a marker to look for.
    pub open spec fn wf(self) -> bool {
        self.prefix@.len() > 0
    }

    /// Take in one line of the reply.
    pub fn line(&mut self, line: &Vec<u8>) -> (r: ReplyStep)
        requires
            old(self).wf(),
        ensures
            final(self).wf(),
            final(self).prefix == old(self).prefix,
            final(self).script == old(self).script,
            match bytes::first_match(line@, old(self).prefix@) {
                None => r == ReplyStep::More && final(self).stdout@ == old(self).stdout@ + line@,
                Some(i) => {
                    &&& final(self).stdout@ == without_newline(old(self).stdout@ + line@.take(i))
                    &&& r == match status_of(line@.skip(i + old(self).prefix@.len())) {
                        Some(code) => ReplyStep::Done(code as i32),
                        None => ReplyStep::BadStatus,
                    }
                },
            },
            forall|rest: Seq<Seq<u8>>| #[trigger]
                read_reply(seq![line@] + rest, old(self).prefix@, old(self).stdout@) == match r {
                    ReplyStep::More => read_reply(rest, old(self).prefix@, final(self).stdout@),
                    ReplyStep::Done(code) => Some((final(self).stdout@, Some(code as int))),
                    ReplyStep::BadStatus => Some((final(self).stdout@, None)),
                },
    {
        proof {
            assert forall|rest: Seq<Seq<u8>>| #[trigger]
                (seq![line@] + rest)[0] == line@ && (seq![line@] + rest).skip(1) == rest by {
                assert((seq![line@] + rest).skip(1) =~= rest);
            }
        }
        match find_bytes(line.as_slice(), self.prefix.as_slice()) {
            None => {
                push_bytes(&mut self.stdout, line, line.len());
                proof {
                    assert(line@.take(line@.len() as int) =~= line@);
                }
                ReplyStep::More
            },
            Some(index) => {
                push_bytes(&mut self.stdout, line, index);
                let n: usize = self.stdout.len();
                if n > 0 && self.stdout[n - 1] == 10 {
                    let _newline = self.stdout.pop();
                    proof {
                        assert(self.stdout@ =~= (old(self).stdout@ + line@.take(
                            index as int,
                        )).drop_last());
                    }
                }
                let total: usize = line.len();
                assert(index + self.prefix@.len() <= total);
                let from: usize = index + self.prefix.len();
                let mut status: Vec<u8> = Vec::new();
                let mut i: usize = from;
                assert(status@ =~= line@.subrange(from as int, from as int));
                while i < line.len()
                    invariant
                        from <= i <= line@.len(),
                        status@ == line@.subrange(from as int, i as int),
                    decreases line@.len() - i,
                {
                    status.push(line[i]);
                    i = i + 1;
                    assert(status@ =~= line@.subrange(from as int, i as int));
                }
                proof {
                    assert(status@ =~= line@.skip(from as int));
                }
                let told = lossy_text(status.as_slice());
                match read_i32(trimmed(told.as_str()).as_str()) {
                    Some(code) => ReplyStep::Done(code),
                    None => ReplyStep::BadStatus,
                }
            },
        }
    }
}

/// What to report when the connection closes before the reply is complete.
pub fn closed_message(stderr: &Vec<u8>) -> (r: String)
    ensures
        r@ == "SSH connection closed while running remote command: "@ + text::trim(
            bytes::lossy(stderr@),
        ),
{
    let mut out = String::new();
    out.append("SSH connection closed while running remote command: ");
    let told = lossy_text(stderr.as_slice());
    out.append(trimmed(told.as_str()).as_str());
    assert(out@ =~= "SSH connection closed while running remote command: "@ + text::trim(
        bytes::lossy(stderr@),
    ));
    out
}

proof fn lemma_decimal_ascii(n: nat)
    ensures
        is_ascii_chars(number::decimal(n)),
{
    number::decimal_reads_back(n, n);
    assert forall|i: int| 0 <= i < number::decimal(n).len() implies '\0' <= #[trigger] number::decimal(
        n,
    )[i] <= '\u{7f}' by {
        assert(number::is_digit(number::decimal(n)[i]));
    }
}

/// The prefix is the marker and a blank, byte for byte.
proof fn lemma_prefix(n: nat)
    ensures
        is_ascii_chars(marker_of(n)),
        prefix_of(n).len() == marker_of(n).len() + 1,
        prefix_of(n).last() == 32,
        forall|i: int| 0 <= i < prefix_of(n).len() ==> prefix_of(n)[i] != 10,
{
    reveal_strlit("__LGTM_COMMAND_");
    reveal_strlit("__");
    reveal_strlit(" ");
    lemma_decimal_ascii(n);
    number::decimal_reads_back(n, n);
    let marker = marker_of(n);
    let line = marker + " "@;
    assert(is_ascii_chars("__LGTM_COMMAND_"@));
    assert(is_ascii_chars("__"@));
    assert forall|i: int| 0 <= i < line.len() implies '\0' <= #[trigger] line[i] <= '\u{7f}'
        && line[i] != '\n' by {
        let digits = number::decimal(n);
        if 15 <= i < 15 + digits.len() {
            assert(line[i] == digits[i - 15]);
            assert(number::is_digit(digits[i - 15]));
        }
    }
    assert(is_ascii_chars(line));
    assert forall|i: int| 0 <= i < marker.len() implies '\0' <= #[trigger] marker[i]
        <= '\u{7f}' by {
        assert(marker[i] == line[i]);
    }
    is_ascii_chars_encode_utf8(line);
    assert forall|i: int| 0 <= i < prefix_of(n).len() implies prefix_of(n)[i] != 10 by {
        assert(prefix_of(n)[i] == line[i] as u8);
        assert(line[i] != '\n');
    }
    assert(prefix_of(n)[line.len() - 1] == line[line.len() - 1] as u8);
}

/// No two commands of a connection share a marker.
pub proof fn markers_differ(m: nat, n: nat)
    requires
        m != n,
    ensures
        marker_of(m) != marker_of(n),
{
    let max = if m < n {
        n
    } else {
        m
    };
    number::decimal_reads_back(m, max);
    number::decimal_reads_back(n, max);
    if marker_of(m) == marker_of(n) {
        let head = "__LGTM_COMMAND_"@;
        let tail = "__"@;
        let a = marker_of(m);
        let b = marker_of(n);
        assert(a.subrange(head.len() as int, a.len() - tail.len()) =~= number::decimal(m));
        assert(b.subrange(head.len() as int, b.len() - tail.len()) =~= number::decimal(n));
    }
}

/// The position behind the first newline, or the end.
pub open spec fn line_end(s: Seq<u8>) -> int
    decreases s.len(),
{
    if s.len() == 0 {
        0
    } else if s[0] == 10 {
        1
    } else {
        1 + line_end(s.skip(1))
    }
}

/// A line ends behind its newline or with the stream.
pub proof fn lemma_line_end(s: Seq<u8>)
    ensures
        0 <= line_end(s) <= s.len(),
        s.len() > 0 ==> line_end(s) > 0,
        forall|i: int| 0 <= i < line_end(s) - 1 ==> s[i] != 10,
        line_end(s) < s.len() ==> s[line_end(s) - 1] == 10,
    decreases s.len(),
{
    if s.len() > 0 && s[0] != 10 {
        let rest = s.skip(1);
        lemma_line_end(rest);
        assert forall|i: int| 0 <= i < line_end(s) - 1 implies s[i] != 10 by {
            if i > 0 {
                assert(rest[i - 1] == s[i]);
            }
        }
        if line_end(s) < s.len() {
            if line_end(rest) == 0 {
                assert(rest.len() == 0);
            } else {
                assert(rest[line_end(rest) - 1] == s[line_end(s) - 1]);
            }
        }
    }
}

proof fn lemma_line_end_is(s: Seq<u8>, n: int)
    requires
        0 < n <= s.len(),
        forall|i: int| 0 <= i < n - 1 ==> s[i] != 10,
        s[n - 1] == 10,
    ensures
        line_end(s) == n,
{
    lemma_line_end(s);
    let k = line_end(s);
    if k < n {
        assert(s[k - 1] != 10);
    }
    if n < k {
        assert(s[n - 1] != 10);
    }
}

/// A stream cut into lines, each with its newline.
pub open spec fn stream_lines(s: Seq<u8>) -> Seq<Seq<u8>>
    decreases s.len(),
{
    if s.len() == 0 {
        Seq::empty()
    } else {
        let n = line_end(s);
        proof {
            lemma_line_end(s);
        }
        seq![s.take(n)] + stream_lines(s.skip(n))
    }
}

/// What reading the lines of a reply comes to: the output and the status that
/// the marker line tells, or nothing if no line holds the marker.
pub open spec fn read_reply(lines: Seq<Seq<u8>>, prefix: Seq<u8>, so_far: Seq<u8>) -> Option<
    (Seq<u8>, Option<int>),
>
    decreases lines.len(),
{
    if lines.len() == 0 {
        None
    } else {
        match bytes::first_match(lines[0], prefix) {
            None => read_reply(lines.skip(1), prefix, so_far + lines[0]),
            Some(i) => Some(
                (
                    without_newline(so_far + lines[0].take(i)),
                    status_of(lines[0].skip(i + prefix.len())),
                ),
            ),
        }
    }
}

/// What the remote shell prints behind the output of a command.
pub open spec fn report_of(n: nat, code: int) -> Seq<u8> {
    seq![10u8] + encode_utf8(marker_of(n) + " "@ + number::decimal_int(code) + "\n"@)
}

/// Lines without the prefix only add to the output.
proof fn lemma_lines_before(out: Seq<u8>, rest: Seq<u8>, prefix: Seq<u8>, so_far: Seq<u8>)
    requires
        out.len() == 0 || out.last() == 10,
        forall|j: int| !bytes::occurs_at(out, prefix, j),
    ensures
        read_reply(stream_lines(out + rest), prefix, so_far) == read_reply(
            stream_lines(rest),
            prefix,
            so_far + out,
        ),
    decreases out.len(),
{
    if out.len() == 0 {
        assert(out + rest =~= rest);
        assert(so_far + out =~= so_far);
    } else {
        let n = line_end(out);
        lemma_line_end(out);
        let all = out + rest;
        assert(out[n - 1] == 10) by {
            if n == out.len() {
                assert(out.last() == out[n - 1]);
            }
        }
        assert forall|i: int| 0 <= i < n - 1 implies all[i] != 10 by {
            assert(all[i] == out[i]);
        }
        assert(all[n - 1] == out[n - 1]);
        lemma_line_end_is(all, n);
        let first = all.take(n);
        let tail = out.skip(n);
        assert(all.skip(n) =~= tail + rest);
        bytes::lemma_first_match(first, prefix);
        if let Some(i) = bytes::first_match(first, prefix) {
            assert(out.subrange(i, i + prefix.len()) =~= first.subrange(i, i + prefix.len()));
            assert(bytes::occurs_at(out, prefix, i));
        }
        assert forall|j: int| !bytes::occurs_at(tail, prefix, j) by {
            if bytes::occurs_at(tail, prefix, j) {
                assert(out.subrange(n + j, n + j + prefix.len()) =~= tail.subrange(
                    j,
                    j + prefix.len(),
                ));
                assert(bytes::occurs_at(out, prefix, n + j));
            }
        }
        if tail.len() > 0 {
            assert(tail.last() == out.last());
        }
        lemma_lines_before(tail, rest, prefix, so_far + first);
        let lines = stream_lines(all);
        assert(lines =~= seq![first] + stream_lines(tail + rest));
        assert(lines.skip(1) =~= stream_lines(tail + rest));
        assert(lines[0] == first);
        assert(so_far + first + tail =~= so_far + out);
    }
}

proof fn lemma_trim_status(code: int)
    ensures
        text::trim(number::decimal_int(code) + "\n"@) == number::decimal_int(code),
{
    reveal_strlit("\n");
    let digits = number::decimal_int(code);
    let size = if code < 0 {
        (-code) as nat
    } else {
        code as nat
    };
    number::decimal_reads_back(size, size);
    let first = digits[0];
    let plain = number::decimal(size);
    assert(number::is_digit(plain[0]));
    assert(number::is_digit(plain.last()));
    assert(digits.last() == plain.last());
    assert(first == '-' || number::is_digit(first));
    let line = digits + "\n"@;
    assert(line[0] == first);
    assert(!text::is_space(first));
    assert(text::trim_start(line) == line);
    assert(line.drop_last() =~= digits);
    assert(line.last() == '\n');
    reveal_with_fuel(text::trim_end, 2);
}

proof fn lemma_report_line(n: nat, code: int)
    ensures
        ({
            let line = encode_utf8(marker_of(n) + " "@ + number::decimal_int(code) + "\n"@);
            &&& stream_lines(line) == seq![line]
            &&& bytes::first_match(line, prefix_of(n)) == Some(0int)
            &&& bytes::lossy(line.skip(prefix_of(n).len() as int)) == number::decimal_int(code)
                + "\n"@
        }),
{
    reveal_strlit(" ");
    reveal_strlit("\n");
    let size = if code < 0 {
        (-code) as nat
    } else {
        code as nat
    };
    let digits = number::decimal_int(code);
    let head = marker_of(n) + " "@;
    let status = digits + "\n"@;
    let chars = head + digits + "\n"@;
    assert(chars =~= head + status);
    lemma_prefix(n);
    lemma_decimal_ascii(size);
    number::decimal_reads_back(size, size);
    assert forall|i: int| 0 <= i < digits.len() implies '\0' <= #[trigger] digits[i] <= '\u{7f}'
        && digits[i] != '\n' by {
        let plain = number::decimal(size);
        if code < 0 && i > 0 {
            assert(digits[i] == plain[i - 1]);
            assert(number::is_digit(plain[i - 1]));
        } else if code >= 0 {
            assert(digits[i] == plain[i]);
            assert(number::is_digit(plain[i]));
        }
    }
    assert(is_ascii_chars(head)) by {
        assert forall|i: int| 0 <= i < head.len() implies '\0' <= #[trigger] head[i]
            <= '\u{7f}' by {
            if i < marker_of(n).len() {
                assert(head[i] == marker_of(n)[i]);
            }
        }
    }
    assert(is_ascii_chars(status)) by {
        assert forall|i: int| 0 <= i < status.len() implies '\0' <= #[trigger] status[i]
            <= '\u{7f}' by {
            if i < digits.len() {
                assert(status[i] == digits[i]);
            }
        }
    }
    is_ascii_chars_concat(chars, head, status);
    is_ascii_chars_encode_utf8(head);
    is_ascii_chars_encode_utf8(status);
    is_ascii_chars_encode_utf8(chars);
    let line = encode_utf8(chars);
    let prefix = prefix_of(n);
    assert(prefix == encode_utf8(head));
    assert(line =~= prefix + encode_utf8(status)) by {
        assert forall|i: int| 0 <= i < line.len() implies line[i] == (prefix + encode_utf8(
            status,
        ))[i] by {
            assert(line[i] == chars[i] as u8);
            if i < head.len() {
                assert(prefix[i] == head[i] as u8);
                assert(chars[i] == head[i]);
            } else {
                assert(encode_utf8(status)[i - head.len()] == status[i - head.len()] as u8);
                assert(chars[i] == status[i - head.len()]);
            }
        }
    }
    assert(line.take(prefix.len() as int) =~= prefix);
    assert(line.skip(prefix.len() as int) =~= encode_utf8(status));
    encode_utf8_valid_utf8(status);
    encode_utf8_decode_utf8(status);
    let last = line.len() - 1;
    assert forall|i: int| 0 <= i < last implies line[i] != 10 by {
        if i < prefix.len() {
            assert(line[i] == prefix[i]);
        } else {
            let k = i - prefix.len();
            assert(line[i] == encode_utf8(status)[k]);
            assert(encode_utf8(status)[k] == status[k] as u8);
            assert(status[k] == digits[k]);
            assert(digits[k] != '\n');
        }
    }
    assert(line[last] == 10) by {
        let k = last - prefix.len();
        assert(line[last] == encode_utf8(status)[k]);
        assert(encode_utf8(status)[k] == status[k] as u8);
        assert(status[k] == '\n');
    }
    lemma_line_end_is(line, line.len() as int);
    assert(line.take(line.len() as int) =~= line);
    assert(line.skip(line.len() as int) =~= Seq::<u8>::empty());
    reveal_with_fuel(stream_lines, 2);
    assert(stream_lines(line) =~= seq![line]);
}

/// A reply is read back exactly: whatever bytes a command printed, with or
/// without a newline at the end, come out as its output, and its exit status
/// with them. Output that holds the marker itself is the exception.
pub proof fn replies_are_read_back(out: Seq<u8>, n: nat, code: int)
    requires
        bytes::first_match(out, prefix_of(n)) is None,
        i32::MIN <= code <= i32::MAX,
    ensures
        read_reply(stream_lines(out + report_of(n, code)), prefix_of(n), Seq::empty()) == Some(
            (out, Some(code)),
        ),
{
    let prefix = prefix_of(n);
    let line = encode_utf8(marker_of(n) + " "@ + number::decimal_int(code) + "\n"@);
    let printed = out.push(10u8);
    lemma_prefix(n);
    bytes::lemma_first_match(out, prefix);
    assert forall|j: int| !bytes::occurs_at(printed, prefix, j) by {
        if bytes::occurs_at(printed, prefix, j) {
            let found = printed.subrange(j, j + prefix.len());
            if j + prefix.len() <= out.len() {
                assert(out.subrange(j, j + prefix.len()) =~= found);
                assert(bytes::occurs_at(out, prefix, j));
            } else {
                assert(found.last() == 10);
            }
        }
    }
    assert(out + report_of(n, code) =~= printed + line);
    lemma_lines_before(printed, line, prefix, Seq::empty());
    lemma_report_line(n, code);
    let empty = Seq::<u8>::empty();
    assert((empty + printed) + line.take(0) =~= printed);
    assert(printed.drop_last() =~= out);
    assert(seq![line][0] == line);
    lemma_trim_status(code);
    number::decimal_int_reads_back(code, i32::MAX as nat);
}

} // verus!
