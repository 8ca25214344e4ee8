//! Quoting for a POSIX shell.
use crate::text;
use crate::text::{joined, replaced};
use vstd::prelude::*;
use vstd::string::*;

verus! {

/// A text in single quotes, with each single quote of its own closed, escaped
/// and opened again.
pub open spec fn quoted(value: Seq<char>) -> Seq<char> {
    seq!['\''] + text::replace_char(value, '\'', "'\\''"@) + seq!['\'']
}

/// Each word quoted, with a blank between neighbours.
pub open spec fn quoted_words(words: Seq<Seq<char>>) -> Seq<char> {
    text::join(Seq::new(words.len(), |i: int| quoted(words[i])), " "@)
}

/// Quote a text for the shell.
pub fn shell_quote(value: &str) -> (r: String)
    ensures
        r@ == quoted(value@),
{
    let mut out = String::new();
    out.push('\'');
    let inner = replaced(value, '\'', "'\\''");
    out.append(inner.as_str());
    out.push('\'');
    assert(out@ =~= quoted(value@));
    out
}

/// The command line that runs these words.
pub fn remote_shell_command_parts(parts: &[String]) -> (r: String)
    ensures
        r@ == quoted_words(text::texts(parts@)),
{
    let mut words: Vec<String> = Vec::new();
    let mut i: usize = 0;
    while i < parts.len()
        invariant
            i <= parts@.len(),
            words@.len() == i,
            forall|k: int| 0 <= k < i ==> words@[k]@ == quoted(parts@[k]@),
        decreases parts@.len() - i,
    {
        words.push(shell_quote(parts[i].as_str()));
        i = i + 1;
    }
    proof {
        let all = text::texts(parts@);
        assert(text::texts(words@) =~= Seq::new(all.len(), |k: int| quoted(all[k])));
    }
    joined(&words, " ")
}

/// The command line that runs a program with arguments.
pub fn remote_shell_command(program: &str, args: &[String]) -> (r: String)
    ensures
        r@ == quoted_words(seq![program@] + text::texts(args@)),
{
    let mut command: Vec<String> = Vec::new();
    command.push(program.to_owned());
    push_all(&mut command, args);
    proof {
        assert(text::texts(command@) =~= seq![program@] + text::texts(args@));
    }
    remote_shell_command_parts(command.as_slice())
}

/// The command line that runs git in a directory.
pub fn remote_git_command(root: &str, args: &[String]) -> (r: String)
    ensures
        r@ == quoted_words(seq!["git"@, "-C"@, root@] + text::texts(args@)),
{
    let mut command: Vec<String> = Vec::new();
    command.push("git".to_owned());
    command.push("-C".to_owned());
    command.push(root.to_owned());
    push_all(&mut command, args);
    proof {
        assert(text::texts(command@) =~= seq!["git"@, "-C"@, root@] + text::texts(args@));
    }
    remote_shell_command_parts(command.as_slice())
}

/// Append copies of strings.
fn push_all(out: &mut Vec<String>, more: &[String])
    ensures
        final(out)@.len() == old(out)@.len() + more@.len(),
        forall|k: int| 0 <= k < old(out)@.len() ==> final(out)@[k] == old(out)@[k],
        forall|k: int|
            0 <= k < more@.len() ==> final(out)@[old(out)@.len() + k]@ == (#[trigger] more@[k])@,
{
    let ghost start = out@;
    let mut i: usize = 0;
    while i < more.len()
        invariant
            i <= more@.len(),
            out@.len() == start.len() + i,
            forall|k: int| 0 <= k < start.len() ==> out@[k] == start[k],
            forall|k: int| 0 <= k < i ==> out@[start.len() + k]@ == (#[trigger] more@[k])@,
        decreases more@.len() - i,
    {
        out.push(more[i].clone());
        i = i + 1;
    }
}

/// How a POSIX shell reads a command line made of blanks, single quotes and
/// escaped characters: `word` is the word being read, if one has begun, and
/// `done` the words before it. Other syntax is outside of this reading.
pub open spec fn read_words(
    s: Seq<char>,
    in_quotes: bool,
    word: Option<Seq<char>>,
    done: Seq<Seq<char>>,
) -> Option<Seq<Seq<char>>>
    decreases s.len(),
{
    let so_far = match word {
        Some(w) => w,
        None => Seq::empty(),
    };
    if s.len() == 0 {
        if in_quotes {
            None
        } else {
            match word {
                Some(w) => Some(done.push(w)),
                None => Some(done),
            }
        }
    } else if in_quotes {
        if s[0] == '\'' {
            read_words(s.skip(1), false, Some(so_far), done)
        } else {
            read_words(s.skip(1), true, Some(so_far.push(s[0])), done)
        }
    } else if s[0] == '\'' {
        read_words(s.skip(1), true, Some(so_far), done)
    } else if s[0] == ' ' {
        match word {
            Some(w) => read_words(s.skip(1), false, None, done.push(w)),
            None => read_words(s.skip(1), false, None, done),
        }
    } else if s[0] == '\\' && s.len() > 1 && s[1] != '\n' {
        read_words(s.skip(2), false, Some(so_far.push(s[1])), done)
    } else {
        None
    }
}

/// The words that a POSIX shell makes of a command line.
pub open spec fn shell_words(line: Seq<char>) -> Option<Seq<Seq<char>>> {
    read_words(line, false, None, Seq::empty())
}

proof fn lemma_replace_front(s: Seq<char>, from: char, to: Seq<char>)
    requires
        s.len() > 0,
    ensures
        text::replace_char(s, from, to) == (if s[0] == from {
            to
        } else {
            seq![s[0]]
        }) + text::replace_char(s.skip(1), from, to),
    decreases s.len(),
{
    let head = if s[0] == from {
        to
    } else {
        seq![s[0]]
    };
    if s.len() == 1 {
        assert(s.drop_last() =~= Seq::<char>::empty());
        assert(s.skip(1) =~= Seq::<char>::empty());
        reveal_with_fuel(text::replace_char, 2);
        assert(text::replace_char(s, from, to) =~= head);
        assert(head + text::replace_char(s.skip(1), from, to) =~= head);
    } else {
        lemma_replace_front(s.drop_last(), from, to);
        assert(s.skip(1).drop_last() =~= s.drop_last().skip(1));
        assert(s.skip(1).last() == s.last());
        assert(text::replace_char(s, from, to) =~= head + text::replace_char(s.skip(1), from, to));
    }
}

/// Inside quotes, the escaped form of a text and a closing quote read as the text.
proof fn lemma_read_quoted(value: Seq<char>, rest: Seq<char>, word: Seq<char>, done: Seq<Seq<char>>)
    ensures
        read_words(
            text::replace_char(value, '\'', "'\\''"@) + seq!['\''] + rest,
            true,
            Some(word),
            done,
        ) == read_words(rest, false, Some(word + value), done),
    decreases value.len(),
{
    reveal_strlit("'\\''");
    let body = text::replace_char(value, '\'', "'\\''"@);
    let line = body + seq!['\''] + rest;
    if value.len() == 0 {
        assert(body =~= Seq::<char>::empty());
        assert(line.skip(1) =~= rest);
        assert(word + value =~= word);
    } else {
        lemma_replace_front(value, '\'', "'\\''"@);
        let tail = text::replace_char(value.skip(1), '\'', "'\\''"@) + seq!['\''] + rest;
        lemma_read_quoted(value.skip(1), rest, word.push(value[0]), done);
        assert(word.push(value[0]) + value.skip(1) =~= word + value);
        if value[0] == '\'' {
            assert(line =~= "'\\''"@ + tail);
            assert(line.skip(1) =~= seq!['\\', '\'', '\''] + tail);
            assert(line.skip(1).skip(2) =~= seq!['\''] + tail);
            assert(line.skip(1).skip(2).skip(1) =~= tail);
            reveal_with_fuel(read_words, 4);
        } else {
            assert(line =~= seq![value[0]] + tail);
            assert(line.skip(1) =~= tail);
        }
    }
}

proof fn lemma_read_words(words: Seq<Seq<char>>, done: Seq<Seq<char>>)
    ensures
        read_words(quoted_words(words), false, None, done) == Some(done + words),
    decreases words.len(),
{
    reveal_strlit(" ");
    let parts = Seq::new(words.len(), |i: int| quoted(words[i]));
    if words.len() == 0 {
        assert(quoted_words(words) =~= Seq::<char>::empty());
        assert(done + words =~= done);
    } else {
        let first = words[0];
        let body = text::replace_char(first, '\'', "'\\''"@);
        let rest = if words.len() == 1 {
            Seq::<char>::empty()
        } else {
            seq![' '] + quoted_words(words.skip(1))
        };
        if words.len() > 1 {
            text::lemma_join_front(parts, " "@);
            assert(parts.skip(1) =~= Seq::new(
                words.skip(1).len(),
                |i: int| quoted(words.skip(1)[i]),
            ));
            assert(" "@ =~= seq![' ']);
        }
        assert(quoted_words(words) =~= quoted(first) + rest);
        let line = quoted(first) + rest;
        assert(line.skip(1) =~= body + seq!['\''] + rest);
        lemma_read_quoted(first, rest, Seq::empty(), done);
        assert(Seq::<char>::empty() + first =~= first);
        if words.len() == 1 {
            assert(done.push(first) =~= done + words);
        } else {
            assert(rest.skip(1) =~= quoted_words(words.skip(1)));
            lemma_read_words(words.skip(1), done.push(first));
            assert(done.push(first) + words.skip(1) =~= done + words);
        }
    }
}

/// The remote shell reads back exactly the words that were quoted, whatever
/// characters they hold.
pub proof fn quoting_is_read_back(words: Seq<Seq<char>>)
    ensures
        shell_words(quoted_words(words)) == Some(words),
{
    lemma_read_words(words, Seq::empty());
    assert(Seq::<Seq<char>>::empty() + words =~= words);
}

} // verus!
