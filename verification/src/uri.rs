//! `file://` URIs: percent encoding, and paths relative to a root.
use crate::bytes::utf8_text;
use crate::text;
use crate::text::{after_prefix, chars_of, replaced, string_of};
use vstd::prelude::*;
use vstd::string::*;
use vstd::utf8::*;

verus! {

/// Whether a byte stands for itself in an encoded path.
pub open spec fn is_plain(b: u8) -> bool {
    ||| 0x41 <= b <= 0x5a
    ||| 0x61 <= b <= 0x7a
    ||| 0x30 <= b <= 0x39
    ||| b == 0x2f
    ||| b == 0x2e
    ||| b == 0x2d
    ||| b == 0x5f
    ||| b == 0x7e
}

/// The upper-case hexadecimal digit for a value below sixteen.
pub open spec fn hex_digit(n: int) -> char {
    if n < 10 {
        (0x30 + n) as char
    } else {
        (0x41 + n - 10) as char
    }
}

/// What stands for one byte.
pub open spec fn escape(b: u8) -> Seq<char> {
    if is_plain(b) {
        seq![b as char]
    } else {
        seq!['%', hex_digit(b as int / 16), hex_digit(b as int % 16)]
    }
}

/// What stands for a sequence of bytes.
pub open spec fn escaped(bytes: Seq<u8>) -> Seq<char>
    decreases bytes.len(),
{
    if bytes.len() == 0 {
        Seq::empty()
    } else {
        escaped(bytes.drop_last()) + escape(bytes.last())
    }
}

/// The value of a hexadecimal digit.
pub open spec fn hex_value(b: u8) -> Option<u8> {
    if 0x30 <= b <= 0x39 {
        Some((b - 0x30) as u8)
    } else if 0x61 <= b <= 0x66 {
        Some((b - 0x61 + 10) as u8)
    } else if 0x41 <= b <= 0x46 {
        Some((b - 0x41 + 10) as u8)
    } else {
        None
    }
}

/// The bytes with each `%` and two digits read as one byte; nothing where the
/// digits are missing.
pub open spec fn unescaped(bytes: Seq<u8>) -> Option<Seq<u8>>
    decreases bytes.len(),
{
    if bytes.len() == 0 {
        Some(Seq::empty())
    } else if bytes[0] == 0x25 {
        if bytes.len() < 3 {
            None
        } else {
            match (hex_value(bytes[1]), hex_value(bytes[2]), unescaped(bytes.skip(3))) {
                (Some(hi), Some(lo), Some(rest)) => Some(seq![(hi * 16 + lo) as u8] + rest),
                _ => None,
            }
        }
    } else {
        match unescaped(bytes.skip(1)) {
            Some(rest) => Some(seq![bytes[0]] + rest),
            None => None,
        }
    }
}

/// The text that an encoded text stands for, if it is one.
pub open spec fn decoded(s: Seq<char>) -> Option<Seq<char>> {
    match unescaped(encode_utf8(s)) {
        Some(bytes) => if valid_utf8(bytes) {
            Some(decode_utf8(bytes))
        } else {
            None
        },
        None => None,
    }
}

fn hex_char(n: u8) -> (r: char)
    requires
        n < 16,
    ensures
        r == hex_digit(n as int),
{
    match n {
        0 => '0',
        1 => '1',
        2 => '2',
        3 => '3',
        4 => '4',
        5 => '5',
        6 => '6',
        7 => '7',
        8 => '8',
        9 => '9',
        10 => 'A',
        11 => 'B',
        12 => 'C',
        13 => 'D',
        14 => 'E',
        _ => 'F',
    }
}

/// Percent-encode the UTF-8 bytes of a text, except letters, digits, `/`, `.`,
/// `-`, `_` and `~`.
pub fn percent_encode(input: &str) -> (r: String)
    ensures
        r@ == escaped(encode_utf8(input@)),
{
    let bytes = input.as_bytes();
    let mut out = String::new();
    let mut i: usize = 0;
    while i < bytes.len()
        invariant
            i <= bytes@.len(),
            out@ == escaped(bytes@.take(i as int)),
        decreases bytes@.len() - i,
    {
        let b: u8 = bytes[i];
        proof {
            assert(bytes@.take(i + 1).drop_last() =~= bytes@.take(i as int));
        }
        if (0x41 <= b && b <= 0x5a) || (0x61 <= b && b <= 0x7a) || (0x30 <= b && b <= 0x39) || b
            == 0x2f || b == 0x2e || b == 0x2d || b == 0x5f || b == 0x7e {
            out.push(b as char);
        } else {
            out.push('%');
            out.push(hex_char(b / 16));
            out.push(hex_char(b % 16));
        }
        i = i + 1;
        proof {
            assert(out@ =~= escaped(bytes@.take(i as int)));
        }
    }
    assert(bytes@.take(i as int) =~= bytes@);
    out
}

/// The value of a hexadecimal digit.
pub fn hex(b: u8) -> (r: Option<u8>)
    ensures
        r == hex_value(b),
{
    if 0x30 <= b && b <= 0x39 {
        Some(b - 0x30)
    } else if 0x61 <= b && b <= 0x66 {
        Some(b - 0x61 + 10)
    } else if 0x41 <= b && b <= 0x46 {
        Some(b - 0x41 + 10)
    } else {
        None
    }
}

/// Undo percent encoding; nothing where a `%` is not followed by two digits or
/// the bytes are not UTF-8.
pub fn percent_decode(input: &str) -> (r: Option<String>)
    ensures
        text::opt_text(r) == decoded(input@),
{
    let bytes = input.as_bytes();
    let total: usize = bytes.len();
    let mut out: Vec<u8> = Vec::new();
    let mut i: usize = 0;
    proof {
        assert(bytes@.skip(0) =~= bytes@);
    }
    while i < total
        invariant
            total == bytes@.len(),
            i <= total,
            bytes@ == encode_utf8(input@),
            match unescaped(bytes@.skip(i as int)) {
                Some(rest) => unescaped(bytes@) == Some(out@ + rest),
                None => unescaped(bytes@) is None,
            },
        decreases total - i,
    {
        let ghost rest = bytes@.skip(i as int);
        let ghost before = out@;
        if bytes[i] == 0x25 {
            if total - i < 3 {
                return None;
            }
            proof {
                assert(rest[1] == bytes@[i + 1]);
                assert(rest[2] == bytes@[i + 2]);
                assert(rest.skip(3) =~= bytes@.skip(i + 3));
            }
            match (hex(bytes[i + 1]), hex(bytes[i + 2])) {
                (Some(hi), Some(lo)) => {
                    out.push(hi * 16 + lo);
                    i = i + 3;
                },
                _ => {
                    return None;
                },
            }
        } else {
            proof {
                assert(rest.skip(1) =~= bytes@.skip(i + 1));
            }
            out.push(bytes[i]);
            i = i + 1;
        }
        proof {
            if let Some(more) = unescaped(bytes@.skip(i as int)) {
                assert(out@ + more =~= before + (seq![out@.last()] + more));
            }
        }
    }
    proof {
        assert(bytes@.skip(i as int).len() == 0);
        assert(out@ + Seq::<u8>::empty() =~= out@);
    }
    utf8_text(out)
}

proof fn lemma_escape_is_read(b: u8, rest: Seq<u8>)
    ensures
        is_ascii_chars(escape(b)),
        match unescaped(rest) {
            Some(more) => unescaped(encode_utf8(escape(b)) + rest) == Some(seq![b] + more),
            None => unescaped(encode_utf8(escape(b)) + rest) is None,
        },
{
    let bytes = encode_utf8(escape(b));
    is_ascii_chars_encode_utf8(escape(b));
    let all = bytes + rest;
    if is_plain(b) {
        assert(all.skip(1) =~= rest);
        assert(all[0] == b);
    } else {
        assert(all.skip(3) =~= rest);
        assert(all[0] == 0x25);
        let hi = b as int / 16;
        let lo = b as int % 16;
        assert(hex_value(all[1]) == Some(hi as u8));
        assert(hex_value(all[2]) == Some(lo as u8));
        assert(hi * 16 + lo == b);
    }
}

proof fn lemma_escaped_is_read(bytes: Seq<u8>, rest: Seq<u8>)
    ensures
        is_ascii_chars(escaped(bytes)),
        match unescaped(rest) {
            Some(more) => unescaped(encode_utf8(escaped(bytes)) + rest) == Some(bytes + more),
            None => unescaped(encode_utf8(escaped(bytes)) + rest) is None,
        },
    decreases bytes.len(),
{
    if bytes.len() == 0 {
        is_ascii_chars_encode_utf8(escaped(bytes));
        assert(encode_utf8(escaped(bytes)) + rest =~= rest);
        if let Some(more) = unescaped(rest) {
            assert(bytes + more =~= more);
        }
    } else {
        let front = bytes.drop_last();
        let b = bytes.last();
        lemma_escape_is_read(b, rest);
        let next = encode_utf8(escape(b)) + rest;
        lemma_escaped_is_read(front, next);
        is_ascii_chars_encode_utf8(escaped(front));
        is_ascii_chars_encode_utf8(escape(b));
        assert(is_ascii_chars(escaped(bytes)));
        is_ascii_chars_encode_utf8(escaped(bytes));
        assert(encode_utf8(escaped(bytes)) + rest =~= encode_utf8(escaped(front)) + next);
        if let Some(more) = unescaped(rest) {
            assert(bytes + more =~= front + (seq![b] + more));
        }
    }
}

/// Decoding gives back what was encoded.
pub proof fn decoding_undoes_encoding(s: Seq<char>)
    ensures
        decoded(escaped(encode_utf8(s))) == Some(s),
{
    let bytes = encode_utf8(s);
    lemma_escaped_is_read(bytes, Seq::empty());
    let all = encode_utf8(escaped(bytes));
    assert(all + Seq::<u8>::empty() =~= all);
    assert(bytes + Seq::<u8>::empty() =~= bytes);
    encode_utf8_valid_utf8(s);
    encode_utf8_decode_utf8(s);
}

/// Whether a part of a path between slashes names nothing.
pub open spec fn is_void(part: Seq<char>) -> bool {
    part.len() == 0 || part == seq!['.']
}

/// How many characters the part at the front takes with its slash.
pub open spec fn front_size(s: Seq<char>) -> int {
    let n = text::find_char(s, '/');
    if n < s.len() {
        n + 1
    } else {
        s.len() as int
    }
}

/// The path from its first part on that names something.
pub open spec fn from_first_name(s: Seq<char>) -> Seq<char>
    decreases s.len(),
{
    if s.len() > 0 && is_void(s.take(text::find_char(s, '/'))) {
        proof {
            text::lemma_find_char(s, '/');
        }
        from_first_name(s.skip(front_size(s)))
    } else {
        s
    }
}

/// The position behind the last slash; 0 where there is none.
pub open spec fn last_part(s: Seq<char>) -> int
    decreases s.len(),
{
    if s.len() == 0 || s.last() == '/' {
        s.len() as int
    } else {
        last_part(s.drop_last())
    }
}

/// The path up to its last part that names something.
pub open spec fn to_last_name(s: Seq<char>) -> Seq<char>
    decreases s.len(),
{
    if s.len() > 0 && is_void(s.skip(last_part(s))) {
        proof {
            lemma_last_part(s);
        }
        to_last_name(s.take(last_part(s) - if last_part(s) > 0 {
            1int
        } else {
            0int
        }))
    } else {
        s
    }
}

/// The last part begins behind a slash or at the front, and holds no slash.
pub proof fn lemma_last_part(s: Seq<char>)
    ensures
        0 <= last_part(s) <= s.len(),
        last_part(s) > 0 ==> s[last_part(s) - 1] == '/',
        forall|i: int| last_part(s) <= i < s.len() ==> s[i] != '/',
    decreases s.len(),
{
    if s.len() == 0 || s.last() == '/' {
    } else {
        lemma_last_part(s.drop_last());
        assert forall|i: int| last_part(s) <= i < s.len() implies s[i] != '/' by {
            if i < s.len() - 1 {
                assert(s.drop_last()[i] == s[i]);
            }
        }
    }
}

/// How a path begins.
pub enum PathStart {
    /// With `/`.
    Root,
    /// With `.`, alone or before a `/`.
    Here,
    /// With a name, or it is empty.
    Name,
}

/// How a path begins.
pub open spec fn path_start(s: Seq<char>) -> PathStart {
    if s.len() > 0 && s[0] == '/' {
        PathStart::Root
    } else if s.len() > 0 && s[0] == '.' && (s.len() == 1 || s[1] == '/') {
        PathStart::Here
    } else {
        PathStart::Name
    }
}

/// What follows the beginning of a path.
pub open spec fn path_body(s: Seq<char>) -> Seq<char> {
    if path_start(s) is Name {
        s
    } else {
        s.skip(1)
    }
}

/// What remains of the body of a path behind the names of the body of another.
pub open spec fn body_behind(path: Seq<char>, base: Seq<char>) -> Option<Seq<char>>
    decreases base.len(),
{
    let b = from_first_name(base);
    let p = from_first_name(path);
    if b.len() == 0 {
        Some(to_last_name(p))
    } else if p.len() > 0 && p.take(text::find_char(p, '/')) == b.take(text::find_char(b, '/')) {
        proof {
            lemma_from_first_name(base);
            text::lemma_find_char(b, '/');
        }
        body_behind(p.skip(front_size(p)), b.skip(front_size(b)))
    } else {
        None
    }
}

/// The path relative to a base: what remains behind the names of the base.
/// Names are compared one by one, and empty parts and `.` between them do not
/// count.
pub open spec fn path_behind(path: Seq<char>, base: Seq<char>) -> Option<Seq<char>> {
    if base.len() == 0 {
        let n = path.len() - path_body(path).len();
        Some(path.take(n) + to_last_name(path_body(path)))
    } else if path_start(path) != path_start(base) {
        None
    } else {
        body_behind(path_body(path), path_body(base))
    }
}

/// Skipping to the first name leaves a suffix.
pub proof fn lemma_from_first_name(s: Seq<char>)
    ensures
        from_first_name(s).len() <= s.len(),
        from_first_name(s) == s.skip(s.len() - from_first_name(s).len()),
        from_first_name(s).len() > 0 ==> !is_void(
            from_first_name(s).take(text::find_char(from_first_name(s), '/')),
        ),
    decreases s.len(),
{
    if s.len() > 0 && is_void(s.take(text::find_char(s, '/'))) {
        text::lemma_find_char(s, '/');
        let rest = s.skip(front_size(s));
        lemma_from_first_name(rest);
        assert(from_first_name(s) =~= s.skip(s.len() - from_first_name(s).len()));
    } else {
        assert(s.skip(0) =~= s);
    }
}

/// Where the part that begins at `from` ends.
fn part_end(chars: &Vec<char>, from: usize) -> (r: usize)
    requires
        from <= chars@.len(),
    ensures
        from <= r <= chars@.len(),
        r - from == text::find_char(chars@.skip(from as int), '/'),
{
    let ghost rest = chars@.skip(from as int);
    let mut end: usize = from;
    while end < chars.len() && chars[end] != '/'
        invariant
            from <= end <= chars@.len(),
            rest == chars@.skip(from as int),
            forall|i: int| 0 <= i < end - from ==> rest[i] != '/',
        decreases chars@.len() - end,
    {
        proof {
            assert(rest[end - from] == chars@[end as int]);
        }
        end = end + 1;
    }
    proof {
        if end < chars@.len() {
            assert(rest[end - from] == chars@[end as int]);
        }
        text::lemma_find_char_is(rest, '/', end - from);
    }
    end
}

/// Whether the part between two positions names nothing.
fn names_nothing(chars: &Vec<char>, from: usize, to: usize) -> (r: bool)
    requires
        from <= to <= chars@.len(),
    ensures
        r == is_void(chars@.subrange(from as int, to as int)),
{
    let r = from == to || (to - from == 1 && chars[from] == '.');
    proof {
        let part = chars@.subrange(from as int, to as int);
        if from < to {
            assert(part[0] == chars@[from as int]);
        }
        assert(seq!['.'].len() == 1 && seq!['.'][0] == '.');
        if r && from < to {
            assert(part =~= seq!['.']);
        }
    }
    r
}

/// Where the first part begins, from `from` on, that names something.
fn first_name(chars: &Vec<char>, from: usize) -> (r: usize)
    requires
        from <= chars@.len(),
    ensures
        from <= r <= chars@.len(),
        chars@.skip(r as int) == from_first_name(chars@.skip(from as int)),
{
    let mut at: usize = from;
    while at < chars.len()
        invariant
            from <= at <= chars@.len(),
            from_first_name(chars@.skip(from as int)) == from_first_name(chars@.skip(at as int)),
        decreases chars@.len() - at,
    {
        let end = part_end(chars, at);
        proof {
            let rest = chars@.skip(at as int);
            assert(rest.take(end - at) =~= chars@.subrange(at as int, end as int));
            if end < chars@.len() {
                assert(rest.skip(end - at + 1) =~= chars@.skip(end + 1));
            } else {
                assert(rest.skip(end - at) =~= chars@.skip(end as int));
            }
        }
        if !names_nothing(chars, at, end) {
            return at;
        }
        if end < chars.len() {
            at = end + 1;
        } else {
            at = end;
        }
    }
    at
}

/// Where the last part ends, from `from` on, that names something.
fn last_name(chars: &Vec<char>, from: usize) -> (r: usize)
    requires
        from <= chars@.len(),
    ensures
        from <= r <= chars@.len(),
        chars@.subrange(from as int, r as int) == to_last_name(chars@.skip(from as int)),
{
    let mut to: usize = chars.len();
    proof {
        assert(chars@.subrange(from as int, to as int) =~= chars@.skip(from as int));
    }
    while to > from
        invariant
            from <= to <= chars@.len(),
            to_last_name(chars@.skip(from as int)) == to_last_name(
                chars@.subrange(from as int, to as int),
            ),
        decreases to,
    {
        let ghost rest = chars@.subrange(from as int, to as int);
        let mut start: usize = to;
        proof {
            assert(rest.take(rest.len() as int) =~= rest);
        }
        while start > from && chars[start - 1] != '/'
            invariant
                from <= start <= to <= chars@.len(),
                rest == chars@.subrange(from as int, to as int),
                last_part(rest) == last_part(rest.take(start - from)),
            decreases start,
        {
            proof {
                let front = rest.take(start - from);
                assert(front.last() == chars@[start - 1]);
                assert(front.drop_last() =~= rest.take(start - 1 - from));
            }
            start = start - 1;
        }
        proof {
            let front = rest.take(start - from);
            if start > from {
                assert(front.last() == chars@[start - 1]);
            }
            assert(last_part(rest) == start - from);
            assert(rest.skip(start - from) =~= chars@.subrange(start as int, to as int));
        }
        if !names_nothing(chars, start, to) {
            return to;
        }
        let next: usize = if start > from {
            start - 1
        } else {
            from
        };
        proof {
            assert(rest.take(next - from) =~= chars@.subrange(from as int, next as int));
        }
        to = next;
    }
    to
}

/// Whether the names at two positions are the same.
fn same_name(a: &Vec<char>, i: usize, j: usize, b: &Vec<char>, k: usize, l: usize) -> (r: bool)
    requires
        i <= j <= a@.len(),
        k <= l <= b@.len(),
    ensures
        r == (a@.subrange(i as int, j as int) == b@.subrange(k as int, l as int)),
{
    let ghost x = a@.subrange(i as int, j as int);
    let ghost y = b@.subrange(k as int, l as int);
    if j - i != l - k {
        assert(x.len() != y.len());
        return false;
    }
    let mut n: usize = 0;
    while n < j - i
        invariant
            i <= j <= a@.len(),
            k <= l <= b@.len(),
            j - i == l - k,
            n <= j - i,
            x == a@.subrange(i as int, j as int),
            y == b@.subrange(k as int, l as int),
            forall|m: int| 0 <= m < n ==> x[m] == y[m],
        decreases j - i - n,
    {
        if a[i + n] != b[k + n] {
            proof {
                assert(x[n as int] != y[n as int]);
            }
            return false;
        }
        proof {
            assert(x[n as int] == y[n as int]);
        }
        n = n + 1;
    }
    assert(x =~= y);
    true
}

/// How a path begins, and where its body begins.
fn start_of(chars: &Vec<char>) -> (r: (PathStart, usize))
    ensures
        r.0 == path_start(chars@),
        r.1 <= chars@.len(),
        chars@.skip(r.1 as int) == path_body(chars@),
{
    let start = if chars.len() > 0 && chars[0] == '/' {
        PathStart::Root
    } else if chars.len() > 0 && chars[0] == '.' && (chars.len() == 1 || chars[1] == '/') {
        PathStart::Here
    } else {
        PathStart::Name
    };
    proof {
        assert(chars@.skip(0) =~= chars@);
    }
    match start {
        PathStart::Name => (start, 0),
        _ => (start, 1),
    }
}

/// The path relative to a base, if it lies under it.
pub fn relative_path(path: &str, base: &str) -> (r: Option<String>)
    ensures
        text::opt_text(r) == path_behind(path@, base@),
{
    let a = chars_of(path);
    let b = chars_of(base);
    let (a_start, a_body) = start_of(&a);
    if b.len() == 0 {
        let to = last_name(&a, a_body);
        let out = string_of(&a, 0, to);
        proof {
            assert(a@.len() - path_body(a@).len() == a_body);
            assert(out@ =~= path@.take(a_body as int) + to_last_name(path_body(path@)));
        }
        return Some(out);
    }
    let (b_start, b_body) = start_of(&b);
    let same = match (&a_start, &b_start) {
        (PathStart::Root, PathStart::Root) => true,
        (PathStart::Here, PathStart::Here) => true,
        (PathStart::Name, PathStart::Name) => true,
        _ => false,
    };
    if !same {
        return None;
    }
    let mut i: usize = a_body;
    let mut k: usize = b_body;
    loop
        invariant
            a@ == path@,
            b@ == base@,
            b@.len() > 0,
            path_start(a@) == path_start(b@),
            i <= a@.len(),
            k <= b@.len(),
            path_behind(path@, base@) == body_behind(a@.skip(i as int), b@.skip(k as int)),
        decreases b@.len() - k,
    {
        i = first_name(&a, i);
        k = first_name(&b, k);
        if k == b.len() {
            let to = last_name(&a, i);
            return Some(string_of(&a, i, to));
        }
        if i == a.len() {
            return None;
        }
        let j = part_end(&a, i);
        let l = part_end(&b, k);
        proof {
            let p = a@.skip(i as int);
            let q = b@.skip(k as int);
            assert(p.take(j - i) =~= a@.subrange(i as int, j as int));
            assert(q.take(l - k) =~= b@.subrange(k as int, l as int));
            assert(p.skip(front_size(p)) =~= a@.skip(i + front_size(p)));
            assert(q.skip(front_size(q)) =~= b@.skip(k + front_size(q)));
            assert(front_size(q) > 0);
        }
        if !same_name(&a, i, j, &b, k, l) {
            return None;
        }
        i = if j < a.len() {
            j + 1
        } else {
            j
        };
        k = if l < b.len() {
            l + 1
        } else {
            l
        };
    }
}

/// The path of a document that a URI names, relative to the root, with forward
/// slashes.
pub open spec fn uri_path(root: Seq<char>, uri: Seq<char>) -> Option<Seq<char>> {
    match text::strip_prefix(uri, "file://"@) {
        Some(raw) => match decoded(raw) {
            Some(path) => match path_behind(path, root) {
                Some(rel) => Some(text::replace_char(rel, '\\', "/"@)),
                None => None,
            },
            None => None,
        },
        None => None,
    }
}

/// The path of a document that a URI names, relative to the root, with forward
/// slashes; nothing for other URIs and for documents outside the root.
pub fn rel_path_from_uri(root: &str, uri: &str) -> (r: Option<String>)
    ensures
        text::opt_text(r) == uri_path(root@, uri@),
{
    let raw = match after_prefix(uri, "file://") {
        Some(raw) => raw,
        None => {
            return None;
        },
    };
    let path = match percent_decode(raw.as_str()) {
        Some(path) => path,
        None => {
            return None;
        },
    };
    match relative_path(path.as_str(), root) {
        Some(rel) => Some(replaced(rel.as_str(), '\\', "/")),
        None => None,
    }
}

/// The URI of a file.
pub open spec fn path_uri(path: Seq<char>) -> Seq<char> {
    "file://"@ + (if path.len() > 0 && path[0] == '/' {
        Seq::empty()
    } else {
        seq!['/']
    }) + escaped(encode_utf8(path))
}

/// The URI of a file.
pub fn file_uri(path: &str) -> (r: String)
    ensures
        r@ == path_uri(path@),
{
    let mut out = "file://".to_owned();
    let chars = chars_of(path);
    if !(chars.len() > 0 && chars[0] == '/') {
        out.push('/');
    }
    out.append(percent_encode(path).as_str());
    assert(out@ =~= path_uri(path@));
    out
}

/// A path with another behind it, and a slash between them.
pub open spec fn under(root: Seq<char>, rel: Seq<char>) -> Seq<char> {
    if root.len() == 0 || root.last() == '/' {
        root + rel
    } else {
        root + seq!['/'] + rel
    }
}

/// A path with another behind it; an absolute one takes its place.
pub open spec fn path_join(root: Seq<char>, rel: Seq<char>) -> Seq<char> {
    if rel.len() > 0 && rel[0] == '/' {
        rel
    } else {
        under(root, rel)
    }
}

/// The path of a document below the root.
pub fn document_path(root: &str, rel: &str) -> (r: String)
    ensures
        r@ == path_join(root@, rel@),
{
    let a = chars_of(root);
    let b = chars_of(rel);
    if b.len() > 0 && b[0] == '/' {
        return rel.to_owned();
    }
    let mut out = root.to_owned();
    if a.len() > 0 && a[a.len() - 1] != '/' {
        out.push('/');
    }
    out.append(rel);
    assert(out@ =~= path_join(root@, rel@));
    out
}

/// The first name of a base is the first name of what lies under it.
proof fn lemma_first_name_under(b: Seq<char>, t: Seq<char>)
    ensures
        from_first_name(under(b, t)) == if from_first_name(b).len() == 0 {
            from_first_name(t)
        } else {
            under(from_first_name(b), t)
        },
    decreases b.len(),
{
    let all = under(b, t);
    let n = text::find_char(b, '/');
    text::lemma_find_char(b, '/');
    if b.len() == 0 {
        assert(all =~= t);
    } else if n < b.len() {
        assert forall|i: int| 0 <= i < n implies all[i] != '/' by {
            assert(all[i] == b[i]);
        }
        text::lemma_find_char_is(all, '/', n);
        assert(all.take(n) =~= b.take(n));
        if is_void(b.take(n)) {
            let rest = b.skip(n + 1);
            if rest.len() > 0 {
                assert(rest.last() == b.last());
            }
            assert(all.skip(n + 1) =~= under(rest, t));
            lemma_first_name_under(rest, t);
        }
    } else {
        assert(b.last() == b[b.len() - 1]);
        assert(all =~= b + seq!['/'] + t);
        assert forall|i: int| 0 <= i < n implies all[i] != '/' by {
            assert(all[i] == b[i]);
        }
        text::lemma_find_char_is(all, '/', n);
        assert(all.take(n) =~= b);
        assert(b.take(n) =~= b);
        if is_void(b) {
            assert(all.skip(n + 1) =~= t);
            assert(b.skip(n).len() == 0);
            assert(from_first_name(b.skip(n)).len() == 0);
        }
    }
}

/// What remains behind a base is what was put under it.
proof fn lemma_behind_under(b: Seq<char>, t: Seq<char>)
    ensures
        body_behind(under(b, t), b) == Some(to_last_name(from_first_name(t))),
    decreases b.len(),
{
    lemma_first_name_under(b, t);
    lemma_from_first_name(b);
    let q = from_first_name(b);
    if q.len() > 0 {
        let p = under(q, t);
        let n = text::find_char(q, '/');
        text::lemma_find_char(q, '/');
        assert forall|i: int| 0 <= i < n implies p[i] != '/' by {
            assert(p[i] == q[i]);
        }
        if n == q.len() {
            assert(q.last() == q[q.len() - 1]);
        }
        text::lemma_find_char_is(p, '/', n);
        assert(p.take(n) =~= q.take(n));
        let rest = q.skip(front_size(q));
        if rest.len() > 0 {
            assert(rest.last() == q.last());
        }
        assert(p.skip(front_size(p)) =~= under(rest, t));
        lemma_behind_under(rest, t);
    }
}

proof fn lemma_nothing_to_replace(s: Seq<char>, from: char, to: Seq<char>)
    requires
        !s.contains(from),
    ensures
        text::replace_char(s, from, to) == s,
    decreases s.len(),
{
    if s.len() > 0 {
        let front = s.drop_last();
        assert(s[s.len() - 1] != from) by {
            assert(s.contains(s[s.len() - 1]));
        }
        assert forall|i: int| 0 <= i < front.len() implies front[i] != from by {
            assert(s.contains(s[i]));
        }
        lemma_nothing_to_replace(front, from, to);
        assert(front + seq![s.last()] =~= s);
    }
}

/// The URI of a document leads back to its path, for every document below an
/// absolute root whose path begins and ends with a name and holds no backslash.
pub proof fn documents_are_found_again(root: Seq<char>, rel: Seq<char>)
    requires
        root.len() > 0,
        root[0] == '/',
        from_first_name(rel) == rel,
        to_last_name(rel) == rel,
        !rel.contains('\\'),
    ensures
        uri_path(root, path_uri(path_join(root, rel))) == Some(rel),
{
    let path = path_join(root, rel);
    let raw = escaped(encode_utf8(path));
    text::lemma_find_char(rel, '/');
    if rel.len() > 0 && rel[0] == '/' {
        assert(text::find_char(rel, '/') == 0);
        lemma_from_first_name(rel.skip(1));
    }
    assert(path[0] == '/');
    let uri = path_uri(path);
    assert(uri =~= "file://"@ + raw);
    assert(uri.take("file://"@.len() as int) =~= "file://"@);
    assert(uri.skip("file://"@.len() as int) =~= raw);
    decoding_undoes_encoding(path);
    let body = root.skip(1);
    if body.len() > 0 {
        assert(body.last() == root.last());
    }
    assert(path.skip(1) =~= under(body, rel));
    lemma_behind_under(body, rel);
    lemma_nothing_to_replace(rel, '\\', "/"@);
}

} // verus!
