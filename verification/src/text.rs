//! Text as sequences of characters: white space, trimming, lines, joining and
//! searching.
use vstd::prelude::*;
use vstd::string::*;
use vstd::utf8::*;

verus! {

broadcast use vstd::string::group_string_axioms;

/// `String::push`: the character goes behind the text that is there.
pub assume_specification[ String::push ](s: &mut String, c: char)
    ensures
        final(s)@ == old(s)@.push(c),
;

/// The characters with the Unicode `White_Space` property.
pub open spec fn is_space(c: char) -> bool {
    let n = c as u32;
    ||| 0x9 <= n <= 0xd
    ||| n == 0x20
    ||| n == 0x85
    ||| n == 0xa0
    ||| n == 0x1680
    ||| 0x2000 <= n <= 0x200a
    ||| n == 0x2028
    ||| n == 0x2029
    ||| n == 0x202f
    ||| n == 0x205f
    ||| n == 0x3000
}

/// Whether `c` is white space.
pub fn is_whitespace(c: char) -> (r: bool)
    ensures
        r == is_space(c),
{
    let n: u32 = c as u32;
    (0x9 <= n && n <= 0xd) || n == 0x20 || n == 0x85 || n == 0xa0 || n == 0x1680 || (0x2000 <= n
        && n <= 0x200a) || n == 0x2028 || n == 0x2029 || n == 0x202f || n == 0x205f || n == 0x3000
}

/// The text without its leading white space.
pub open spec fn trim_start(s: Seq<char>) -> Seq<char>
    decreases s.len(),
{
    if s.len() > 0 && is_space(s[0]) {
        trim_start(s.skip(1))
    } else {
        s
    }
}

/// The text without its trailing white space.
pub open spec fn trim_end(s: Seq<char>) -> Seq<char>
    decreases s.len(),
{
    if s.len() > 0 && is_space(s.last()) {
        trim_end(s.drop_last())
    } else {
        s
    }
}

/// The text without white space on either side.
pub open spec fn trim(s: Seq<char>) -> Seq<char> {
    trim_end(trim_start(s))
}

/// The position of the first `c` in `s`, or the length of `s` if there is none.
pub open spec fn find_char(s: Seq<char>, c: char) -> int
    decreases s.len(),
{
    if s.len() == 0 || s[0] == c {
        0
    } else {
        1 + find_char(s.skip(1), c)
    }
}

/// The text without one trailing carriage return.
pub open spec fn strip_cr(s: Seq<char>) -> Seq<char> {
    if s.len() > 0 && s.last() == '\r' {
        s.drop_last()
    } else {
        s
    }
}

/// The lines of a text. A line ends with `\n` or `\r\n`; the ending of the last
/// line may be missing, and then a trailing `\r` belongs to the line.
pub open spec fn lines(s: Seq<char>) -> Seq<Seq<char>>
    decreases s.len(),
{
    if s.len() == 0 {
        Seq::empty()
    } else {
        let n = find_char(s, '\n');
        if 0 <= n < s.len() {
            seq![strip_cr(s.take(n))] + lines(s.skip(n + 1))
        } else {
            seq![s]
        }
    }
}

/// The parts with `sep` between neighbours.
pub open spec fn join(parts: Seq<Seq<char>>, sep: Seq<char>) -> Seq<char>
    decreases parts.len(),
{
    if parts.len() == 0 {
        Seq::empty()
    } else if parts.len() == 1 {
        parts[0]
    } else {
        join(parts.drop_last(), sep) + sep + parts.last()
    }
}

/// The views of a list of strings.
pub open spec fn texts(v: Seq<String>) -> Seq<Seq<char>> {
    Seq::new(v.len(), |i: int| v[i]@)
}

/// The view of a string that may be missing.
pub open spec fn opt_text(v: Option<String>) -> Option<Seq<char>> {
    match v {
        Some(s) => Some(s@),
        None => None,
    }
}

pub open spec fn starts_with(s: Seq<char>, prefix: Seq<char>) -> bool {
    prefix.len() <= s.len() && s.take(prefix.len() as int) == prefix
}

pub open spec fn ends_with(s: Seq<char>, suffix: Seq<char>) -> bool {
    suffix.len() <= s.len() && s.skip(s.len() - suffix.len()) == suffix
}

/// What follows `prefix`, if the text starts with it.
pub open spec fn strip_prefix(s: Seq<char>, prefix: Seq<char>) -> Option<Seq<char>> {
    if starts_with(s, prefix) {
        Some(s.skip(prefix.len() as int))
    } else {
        None
    }
}

/// The text with every `from` replaced by `to`.
pub open spec fn replace_char(s: Seq<char>, from: char, to: Seq<char>) -> Seq<char>
    decreases s.len(),
{
    if s.len() == 0 {
        Seq::empty()
    } else {
        replace_char(s.drop_last(), from, to) + if s.last() == from {
            to
        } else {
            seq![s.last()]
        }
    }
}

/// `find_char` finds the first occurrence.
pub proof fn lemma_find_char(s: Seq<char>, c: char)
    ensures
        0 <= find_char(s, c) <= s.len(),
        find_char(s, c) < s.len() ==> s[find_char(s, c)] == c,
        forall|i: int| 0 <= i < find_char(s, c) ==> s[i] != c,
    decreases s.len(),
{
    if s.len() == 0 || s[0] == c {
    } else {
        let t = s.skip(1);
        lemma_find_char(t, c);
        assert forall|i: int| 0 <= i < find_char(s, c) implies s[i] != c by {
            if i > 0 {
                assert(t[i - 1] == s[i]);
            }
        }
    }
}

/// A position that holds `c` and has no `c` before it is the one `find_char` gives.
pub proof fn lemma_find_char_is(s: Seq<char>, c: char, n: int)
    requires
        0 <= n <= s.len(),
        n < s.len() ==> s[n] == c,
        forall|i: int| 0 <= i < n ==> s[i] != c,
    ensures
        find_char(s, c) == n,
{
    lemma_find_char(s, c);
    let k = find_char(s, c);
    if k < n {
        assert(s[k] != c);
    }
    if n < k {
        assert(s[n] != c);
    }
}

/// Joining begins with the first part.
pub proof fn lemma_join_front(parts: Seq<Seq<char>>, sep: Seq<char>)
    requires
        parts.len() > 1,
    ensures
        join(parts, sep) == parts[0] + sep + join(parts.skip(1), sep),
    decreases parts.len(),
{
    if parts.len() == 2 {
        assert(parts.drop_last().len() == 1);
        assert(parts.skip(1).len() == 1);
        reveal_with_fuel(join, 2);
        assert(join(parts, sep) =~= parts[0] + sep + parts[1]);
    } else {
        lemma_join_front(parts.drop_last(), sep);
        assert(parts.drop_last().skip(1) =~= parts.skip(1).drop_last());
        assert(join(parts, sep) =~= parts[0] + sep + join(parts.skip(1), sep));
    }
}

/// The characters of a text.
pub fn chars_of(s: &str) -> (r: Vec<char>)
    ensures
        r@ == s@,
{
    let mut out: Vec<char> = Vec::new();
    for c in it: s.chars()
        invariant
            out@ == it.seq().take(it.index() as int),
            it.seq() == s@,
    {
        out.push(c);
        proof {
            assert(it.seq().take(it.index() + 1) =~= it.seq().take(it.index() as int).push(c));
        }
    }
    assert(s@.take(s@.len() as int) =~= s@);
    out
}

/// The characters from `from` up to `to` as a string.
pub fn string_of(chars: &Vec<char>, from: usize, to: usize) -> (r: String)
    requires
        from <= to <= chars@.len(),
    ensures
        r@ == chars@.subrange(from as int, to as int),
{
    let mut out = String::new();
    let mut i: usize = from;
    while i < to
        invariant
            from <= i <= to <= chars@.len(),
            out@ == chars@.subrange(from as int, i as int),
        decreases to - i,
    {
        out.push(chars[i]);
        i = i + 1;
        proof {
            assert(chars@.subrange(from as int, i as int) =~= chars@.subrange(
                from as int,
                i - 1,
            ).push(chars@[i - 1]));
        }
    }
    out
}

/// Whether two texts are the same.
pub fn same_text(a: &str, b: &str) -> (r: bool)
    ensures
        r == (a@ == b@),
{
    let x = a.as_bytes();
    let y = b.as_bytes();
    proof {
        encode_utf8_decode_utf8(a@);
        encode_utf8_decode_utf8(b@);
    }
    if x.len() != y.len() {
        return false;
    }
    let mut i: usize = 0;
    while i < x.len()
        invariant
            x@ == encode_utf8(a@),
            y@ == encode_utf8(b@),
            x@.len() == y@.len(),
            i <= x@.len(),
            forall|j: int| 0 <= j < i ==> x@[j] == y@[j],
        decreases x@.len() - i,
    {
        if x[i] != y[i] {
            return false;
        }
        i = i + 1;
    }
    assert(x@ =~= y@);
    true
}

/// Pushing a string pushes its text.
pub proof fn lemma_texts_push(v: Seq<String>, x: String)
    ensures
        texts(v.push(x)) == texts(v).push(x@),
{
    assert(texts(v.push(x)) =~= texts(v).push(x@));
}

/// `trim_start` of a suffix that begins with white space does not see that white space.
proof fn lemma_trim_start_skip(s: Seq<char>, n: int)
    requires
        0 <= n <= s.len(),
        forall|i: int| 0 <= i < n ==> is_space(s[i]),
    ensures
        trim_start(s) == trim_start(s.skip(n)),
    decreases n,
{
    if n > 0 {
        lemma_trim_start_skip(s.skip(1), n - 1);
        assert(s.skip(1).skip(n - 1) =~= s.skip(n));
    } else {
        assert(s.skip(0) =~= s);
    }
}

proof fn lemma_trim_end_take(s: Seq<char>, n: int)
    requires
        0 <= n <= s.len(),
        forall|i: int| n <= i < s.len() ==> is_space(s[i]),
    ensures
        trim_end(s) == trim_end(s.take(n)),
    decreases s.len() - n,
{
    if n < s.len() {
        lemma_trim_end_take(s.drop_last(), n);
        assert(s.drop_last().take(n) =~= s.take(n));
    } else {
        assert(s.take(n) =~= s);
    }
}

/// The text without white space on either side.
pub fn trimmed(s: &str) -> (r: String)
    ensures
        r@ == trim(s@),
{
    let chars = chars_of(s);
    let mut from: usize = 0;
    while from < chars.len() && is_whitespace(chars[from])
        invariant
            from <= chars@.len(),
            forall|i: int| 0 <= i < from ==> is_space(chars@[i]),
        decreases chars@.len() - from,
    {
        from = from + 1;
    }
    let ghost tail = chars@.skip(from as int);
    proof {
        lemma_trim_start_skip(chars@, from as int);
        if from < chars@.len() {
            assert(tail[0] == chars@[from as int]);
        }
        assert(trim_start(chars@) == tail);
    }
    let mut to: usize = chars.len();
    while to > from && is_whitespace(chars[to - 1])
        invariant
            from <= to <= chars@.len(),
            forall|i: int| to <= i < chars@.len() ==> is_space(chars@[i]),
        decreases to,
    {
        to = to - 1;
    }
    proof {
        lemma_trim_end_take(tail, to - from);
        let kept = tail.take(to - from);
        assert(kept =~= chars@.subrange(from as int, to as int));
        if to > from {
            assert(kept.last() == chars@[to - 1]);
        }
    }
    string_of(&chars, from, to)
}

/// The text without its leading white space.
pub fn trimmed_start(s: &str) -> (r: String)
    ensures
        r@ == trim_start(s@),
{
    let chars = chars_of(s);
    let mut from: usize = 0;
    while from < chars.len() && is_whitespace(chars[from])
        invariant
            from <= chars@.len(),
            forall|i: int| 0 <= i < from ==> is_space(chars@[i]),
        decreases chars@.len() - from,
    {
        from = from + 1;
    }
    proof {
        lemma_trim_start_skip(chars@, from as int);
        let tail = chars@.skip(from as int);
        if from < chars@.len() {
            assert(tail[0] == chars@[from as int]);
        }
        assert(tail =~= chars@.subrange(from as int, chars@.len() as int));
    }
    string_of(&chars, from, chars.len())
}

/// The lines of a text.
pub fn line_list(s: &str) -> (r: Vec<String>)
    ensures
        texts(r@) == lines(s@),
{
    let chars = chars_of(s);
    let mut out: Vec<String> = Vec::new();
    let mut pos: usize = 0;
    proof {
        assert(chars@.skip(0) =~= chars@);
        assert(texts(out@) + lines(chars@) =~= lines(chars@));
    }
    while pos < chars.len()
        invariant
            pos <= chars@.len(),
            chars@ == s@,
            texts(out@) + lines(chars@.skip(pos as int)) == lines(chars@),
        decreases chars@.len() - pos,
    {
        let ghost rest = chars@.skip(pos as int);
        let ghost before = out@;
        let mut end: usize = pos;
        while end < chars.len() && chars[end] != '\n'
            invariant
                pos <= end <= chars@.len(),
                rest == chars@.skip(pos as int),
                forall|i: int| 0 <= i < end - pos ==> rest[i] != '\n',
            decreases chars@.len() - end,
        {
            proof {
                assert(rest[end - pos] == chars@[end as int]);
            }
            end = end + 1;
        }
        proof {
            if end < chars@.len() {
                assert(rest[end - pos] == chars@[end as int]);
            }
            lemma_find_char_is(rest, '\n', end - pos);
        }
        if end < chars.len() {
            let stop: usize = if end > pos && chars[end - 1] == '\r' {
                end - 1
            } else {
                end
            };
            let line = string_of(&chars, pos, stop);
            proof {
                let whole = rest.take(end - pos);
                if end > pos {
                    assert(whole.last() == chars@[end - 1]);
                }
                assert(line@ =~= strip_cr(whole));
                assert(rest.skip(end - pos + 1) =~= chars@.skip(end + 1));
            }
            out.push(line);
            pos = end + 1;
            proof {
                lemma_texts_push(before, line);
                assert(texts(out@) + lines(chars@.skip(pos as int)) =~= texts(before) + (seq![line@]
                    + lines(chars@.skip(pos as int))));
            }
        } else {
            let line = string_of(&chars, pos, end);
            proof {
                assert(line@ =~= rest);
            }
            out.push(line);
            pos = end;
            proof {
                lemma_texts_push(before, line);
                assert(chars@.skip(pos as int).len() == 0);
                assert(texts(out@) + lines(chars@.skip(pos as int)) =~= texts(before) + seq![line@]);
            }
        }
    }
    proof {
        assert(chars@.skip(pos as int).len() == 0);
        assert(texts(out@) + lines(chars@.skip(pos as int)) =~= texts(out@));
    }
    out
}

/// The parts with `sep` between neighbours.
pub fn joined(parts: &Vec<String>, sep: &str) -> (r: String)
    ensures
        r@ == join(texts(parts@), sep@),
{
    let mut out = String::new();
    let mut i: usize = 0;
    while i < parts.len()
        invariant
            i <= parts@.len(),
            out@ == join(texts(parts@).take(i as int), sep@),
        decreases parts@.len() - i,
    {
        proof {
            let all = texts(parts@);
            assert(all.take(i + 1).drop_last() =~= all.take(i as int));
            if i == 0 {
                assert(out@ =~= Seq::<char>::empty());
            }
        }
        if i > 0 {
            out.append(sep);
        }
        out.append(parts[i].as_str());
        i = i + 1;
        proof {
            assert(out@ =~= join(texts(parts@).take(i as int), sep@));
        }
    }
    proof {
        assert(texts(parts@).take(i as int) =~= texts(parts@));
    }
    out
}

/// Whether the text starts with `prefix`.
pub fn has_prefix(s: &str, prefix: &str) -> (r: bool)
    ensures
        r == starts_with(s@, prefix@),
{
    let a = chars_of(s);
    let b = chars_of(prefix);
    if b.len() > a.len() {
        return false;
    }
    let mut i: usize = 0;
    while i < b.len()
        invariant
            a@ == s@,
            b@ == prefix@,
            i <= b@.len() <= a@.len(),
            forall|j: int| 0 <= j < i ==> a@[j] == b@[j],
        decreases b@.len() - i,
    {
        if a[i] != b[i] {
            proof {
                assert(a@.take(b@.len() as int)[i as int] != b@[i as int]);
            }
            return false;
        }
        i = i + 1;
    }
    assert(a@.take(b@.len() as int) =~= b@);
    true
}

/// Whether the text ends with `suffix`.
pub fn has_suffix(s: &str, suffix: &str) -> (r: bool)
    ensures
        r == ends_with(s@, suffix@),
{
    let a = chars_of(s);
    let b = chars_of(suffix);
    if b.len() > a.len() {
        return false;
    }
    let total: usize = a.len();
    let off: usize = total - b.len();
    let mut i: usize = 0;
    while i < b.len()
        invariant
            a@ == s@,
            b@ == suffix@,
            b@.len() <= a@.len(),
            total == a@.len(),
            off + b@.len() == total,
            i <= b@.len(),
            forall|j: int| 0 <= j < i ==> a@[off + j] == b@[j],
        decreases b@.len() - i,
    {
        if a[off + i] != b[i] {
            proof {
                assert(a@.skip(off as int)[i as int] != b@[i as int]);
            }
            return false;
        }
        i = i + 1;
    }
    assert(a@.skip(off as int) =~= b@);
    true
}

/// What follows `prefix`, if the text starts with it.
pub fn after_prefix(s: &str, prefix: &str) -> (r: Option<String>)
    ensures
        opt_text(r) == strip_prefix(s@, prefix@),
{
    if has_prefix(s, prefix) {
        let a = chars_of(s);
        let b = chars_of(prefix);
        let rest = string_of(&a, b.len(), a.len());
        proof {
            assert(rest@ =~= s@.skip(prefix@.len() as int));
        }
        Some(rest)
    } else {
        None
    }
}

/// The text with every `from` replaced by `to`.
pub fn replaced(s: &str, from: char, to: &str) -> (r: String)
    ensures
        r@ == replace_char(s@, from, to@),
{
    let chars = chars_of(s);
    let mut out = String::new();
    let mut i: usize = 0;
    while i < chars.len()
        invariant
            i <= chars@.len(),
            out@ == replace_char(chars@.take(i as int), from, to@),
        decreases chars@.len() - i,
    {
        proof {
            assert(chars@.take(i + 1).drop_last() =~= chars@.take(i as int));
        }
        if chars[i] == from {
            out.append(to);
        } else {
            out.push(chars[i]);
        }
        i = i + 1;
        proof {
            assert(out@ =~= replace_char(chars@.take(i as int), from, to@));
        }
    }
    assert(chars@.take(i as int) =~= chars@);
    out
}

/// Whether a list of strings holds a text.
pub fn holds_text(values: &Vec<String>, value: &str) -> (r: bool)
    ensures
        r == texts(values@).contains(value@),
{
    let mut i: usize = 0;
    while i < values.len()
        invariant
            i <= values@.len(),
            forall|j: int| 0 <= j < i ==> values@[j]@ != value@,
        decreases values@.len() - i,
    {
        if same_text(values[i].as_str(), value) {
            proof {
                assert(texts(values@)[i as int] == value@);
            }
            return true;
        }
        i = i + 1;
    }
    assert forall|j: int| 0 <= j < texts(values@).len() implies texts(values@)[j] != value@ by {
        assert(texts(values@)[j] == values@[j]@);
    }
    false
}

/// A copy of the strings from `from` up to `to`.
pub fn copy_texts(values: &Vec<String>, from: usize, to: usize) -> (r: Vec<String>)
    requires
        from <= to <= values@.len(),
    ensures
        texts(r@) == texts(values@).subrange(from as int, to as int),
{
    let mut out: Vec<String> = Vec::new();
    let mut i: usize = from;
    while i < to
        invariant
            from <= i <= to <= values@.len(),
            texts(out@) == texts(values@).subrange(from as int, i as int),
        decreases to - i,
    {
        let ghost before = out@;
        let value = values[i].clone();
        out.push(value);
        i = i + 1;
        proof {
            lemma_texts_push(before, value);
            assert(texts(out@) =~= texts(values@).subrange(from as int, i as int));
        }
    }
    out
}

} // verus!
