//! What URIs and relative paths are, told by their bytes and by the names in
//! them.
use vstd::prelude::*;
use vstd::utf8::*;

use crate::text;
use crate::uri;

verus! {

/// The char of a hexadecimal digit, in upper case.
pub open spec fn is_hex_char(c: char, n: int) -> bool {
    c as u32 == if n < 10 {
        48 + n
    } else {
        55 + n
    }
}

/// Escaping works byte by byte: letters, digits and `/.-_~` stand for
/// themselves, and any other byte is a percent sign and its two hexadecimal
/// digits in upper case.
pub proof fn bytes_are_escaped_one_by_one(bytes: Seq<u8>, b: u8, high: char, low: char)
    requires
        is_hex_char(high, b as int / 16),
        is_hex_char(low, b as int % 16),
    ensures
        uri::escaped(Seq::empty()).len() == 0,
        ({
            let stays = 'a' as u32 <= b <= 'z' as u32 || 'A' as u32 <= b <= 'Z' as u32 || '0' as u32
                <= b <= '9' as u32 || b == '/' as u32 || b == '.' as u32 || b == '-' as u32 || b
                == '_' as u32 || b == '~' as u32;
            &&& stays ==> uri::escaped(bytes.push(b)) == uri::escaped(bytes).push(b as char)
            &&& !stays ==> uri::escaped(bytes.push(b)) == uri::escaped(bytes) + seq![
                '%',
                high,
                low,
            ]
        }),
{
    assert(bytes.push(b).drop_last() =~= bytes);
    assert(uri::hex_digit(b as int / 16) == high) by {
        let n = b as int / 16;
        assert(0 <= n < 16);
        assert(high == (if n < 10 {
            (48 + n) as char
        } else {
            (55 + n) as char
        }));
    }
    assert(uri::hex_digit(b as int % 16) == low) by {
        let n = b as int % 16;
        assert(low == (if n < 10 {
            (48 + n) as char
        } else {
            (55 + n) as char
        }));
    }
}

/// The value of a hexadecimal digit in upper or lower case, and of nothing else.
pub proof fn hexadecimal_digits_have_their_values(b: u8)
    ensures
        48 <= b <= 57 ==> uri::hex_value(b) == Some((b - 48) as u8),
        65 <= b <= 70 ==> uri::hex_value(b) == Some((b - 55) as u8),
        97 <= b <= 102 ==> uri::hex_value(b) == Some((b - 87) as u8),
        uri::hex_value(b) is Some ==> 48 <= b <= 57 || 65 <= b <= 70 || 97 <= b <= 102,
{
}

/// Unescaping works byte by byte: a percent sign and two hexadecimal digits give
/// the byte of that value, and any other byte stands for itself. A percent sign
/// with anything else behind it cannot be unescaped.
pub proof fn bytes_are_unescaped_one_by_one(rest: Seq<u8>, b: u8, high: u8, low: u8)
    ensures
        uri::unescaped(Seq::empty()) == Some(Seq::<u8>::empty()),
        b != 37 ==> uri::unescaped(seq![b] + rest) == match uri::unescaped(rest) {
            Some(bytes) => Some(seq![b] + bytes),
            None => None,
        },
        uri::hex_value(high) is Some && uri::hex_value(low) is Some ==> uri::unescaped(
            seq![37u8, high, low] + rest,
        ) == match uri::unescaped(rest) {
            Some(bytes) => Some(
                seq![(16 * uri::hex_value(high)->0 + uri::hex_value(low)->0) as u8] + bytes,
            ),
            None => None,
        },
        uri::hex_value(high) is None || uri::hex_value(low) is None ==> uri::unescaped(
            seq![37u8, high, low] + rest,
        ) is None,
        uri::unescaped(seq![37u8]) is None,
        uri::unescaped(seq![37u8, b]) is None,
{
    let plain = seq![b] + rest;
    assert(plain.skip(1) =~= rest);
    let coded = seq![37u8, high, low] + rest;
    assert(coded[0] == 37 && coded[1] == high && coded[2] == low);
    assert(coded.skip(3) =~= rest);
    if uri::hex_value(high) is Some && uri::hex_value(low) is Some {
        let h = uri::hex_value(high)->0;
        let l = uri::hex_value(low)->0;
        assert(h * 16 + l == 16 * h + l);
    }
}

/// A text is decoded to the text that its unescaped bytes encode, and not at all
/// where they cannot be unescaped or encode none.
pub proof fn texts_are_decoded(s: Seq<char>, t: Seq<char>)
    ensures
        uri::unescaped(encode_utf8(s)) == Some(encode_utf8(t)) ==> uri::decoded(s) == Some(t),
        uri::decoded(s) == Some(t) ==> uri::unescaped(encode_utf8(s)) == Some(encode_utf8(t)),
{
    encode_utf8_valid_utf8(t);
    encode_utf8_decode_utf8(t);
    if uri::decoded(s) == Some(t) {
        decode_utf8_encode_utf8(uri::unescaped(encode_utf8(s))->0);
    }
}

/// The URI of a path is `file://` and its escaped bytes, behind a slash where
/// the path does not start with one.
pub proof fn uris_of_paths(path: Seq<char>)
    ensures
        path.len() > 0 && path[0] == '/' ==> uri::path_uri(path) == "file://"@ + uri::escaped(
            encode_utf8(path),
        ),
        path.len() == 0 || path[0] != '/' ==> uri::path_uri(path) == "file:///"@ + uri::escaped(
            encode_utf8(path),
        ),
{
    reveal_strlit("file://");
    reveal_strlit("file:///");
    assert("file:///"@ =~= "file://"@ + seq!['/']);
    assert("file://"@ + Seq::<char>::empty() =~= "file://"@);
}

/// A path in a directory is the directory and the path with one slash between
/// them, unless the path is absolute and stands for itself.
pub proof fn paths_are_joined(root: Seq<char>, rel: Seq<char>)
    ensures
        rel.len() > 0 && rel[0] == '/' ==> uri::path_join(root, rel) == rel,
        !(rel.len() > 0 && rel[0] == '/') ==> {
            &&& root.len() == 0 ==> uri::path_join(root, rel) == rel
            &&& root.len() > 0 && root.last() == '/' ==> uri::path_join(root, rel) == root + rel
            &&& root.len() > 0 && root.last() != '/' ==> uri::path_join(root, rel) == root + seq![
                '/',
            ] + rel
        },
{
    assert(Seq::<char>::empty() + rel =~= rel);
    if root.len() == 0 {
        assert(root + rel =~= rel);
    }
}

/// The names in a path: the parts between its slashes, without empty ones and
/// those that are a dot.
pub open spec fn names(s: Seq<char>) -> Seq<Seq<char>>
    decreases s.len(),
{
    if s.len() == 0 {
        Seq::empty()
    } else {
        let n = text::find_char(s, '/');
        let part = s.take(n);
        (if part.len() == 0 || part == seq!['.'] {
            Seq::empty()
        } else {
            seq![part]
        }) + if 0 <= n < s.len() {
            names(s.skip(n + 1))
        } else {
            Seq::empty()
        }
    }
}

proof fn lemma_one_part(s: Seq<char>)
    requires
        !s.contains('/'),
    ensures
        uri::is_void(s) ==> names(s).len() == 0,
        !uri::is_void(s) ==> names(s) == seq![s],
        text::find_char(s, '/') == s.len(),
{
    text::lemma_find_char(s, '/');
    if s.len() > 0 {
        let n = text::find_char(s, '/');
        if n < s.len() {
            assert(s[n] == '/');
        }
        assert(s.take(n) =~= s);
        if !uri::is_void(s) {
            assert(seq![s] + Seq::<Seq<char>>::empty() =~= seq![s]);
        }
    }
}

proof fn lemma_names_concat(a: Seq<char>, b: Seq<char>)
    ensures
        names(a + seq!['/'] + b) == names(a) + names(b),
    decreases a.len(),
{
    let s = a + seq!['/'] + b;
    let n = text::find_char(a, '/');
    text::lemma_find_char(a, '/');
    if n < a.len() {
        assert forall|i: int| 0 <= i < n implies s[i] != '/' by {
            assert(s[i] == a[i]);
        }
        assert(s[n] == a[n]);
        text::lemma_find_char_is(s, '/', n);
        assert(s.take(n) =~= a.take(n));
        assert(s.skip(n + 1) =~= a.skip(n + 1) + seq!['/'] + b);
        lemma_names_concat(a.skip(n + 1), b);
        let front = if uri::is_void(a.take(n)) {
            Seq::<Seq<char>>::empty()
        } else {
            seq![a.take(n)]
        };
        assert(front + (names(a.skip(n + 1)) + names(b)) =~= (front + names(a.skip(n + 1))) + names(
            b,
        ));
    } else {
        assert forall|i: int| 0 <= i < a.len() implies s[i] != '/' by {
            assert(s[i] == a[i]);
        }
        assert(s[a.len() as int] == '/');
        text::lemma_find_char_is(s, '/', a.len() as int);
        assert(s.take(a.len() as int) =~= a);
        assert(s.skip(a.len() as int + 1) =~= b);
        assert(!a.contains('/')) by {
            if a.contains('/') {
                let i = choose|i: int| 0 <= i < a.len() && a[i] == '/';
                assert(s[i] == '/');
            }
        }
        lemma_one_part(a);
    }
}

proof fn lemma_names_of_front(s: Seq<char>)
    ensures
        names(uri::from_first_name(s)) == names(s),
    decreases s.len(),
{
    if s.len() > 0 && uri::is_void(s.take(text::find_char(s, '/'))) {
        text::lemma_find_char(s, '/');
        let rest = s.skip(uri::front_size(s));
        lemma_names_of_front(rest);
        assert(names(s) =~= names(rest));
    }
}

proof fn lemma_cut(s: Seq<char>)
    requires
        s.len() > 0,
    ensures
        ({
            let k = uri::last_part(s);
            &&& 0 <= k <= s.len()
            &&& !s.skip(k).contains('/')
            &&& k > 0 ==> s == s.take(k - 1) + seq!['/'] + s.skip(k) && names(s) == names(
                s.take(k - 1),
            ) + names(s.skip(k))
            &&& k == 0 ==> s.skip(k) == s
        }),
{
    let k = uri::last_part(s);
    uri::lemma_last_part(s);
    let last = s.skip(k);
    if last.contains('/') {
        let i = choose|i: int| 0 <= i < last.len() && last[i] == '/';
        assert(s[k + i] == '/');
    }
    if k > 0 {
        assert(s =~= s.take(k - 1) + seq!['/'] + last);
        lemma_names_concat(s.take(k - 1), last);
    } else {
        assert(last =~= s);
    }
}

proof fn lemma_names_of_back(s: Seq<char>)
    ensures
        names(uri::to_last_name(s)) == names(s),
        uri::to_last_name(s).len() <= s.len(),
        uri::to_last_name(s) == s.take(uri::to_last_name(s).len() as int),
        uri::to_last_name(s).len() > 0 ==> names(s).len() > 0 && text::ends_with(
            uri::to_last_name(s),
            names(s).last(),
        ),
    decreases s.len(),
{
    if s.len() == 0 {
        assert(s.take(0) =~= s);
    } else {
        lemma_cut(s);
        let k = uri::last_part(s);
        let last = s.skip(k);
        lemma_one_part(last);
        if uri::is_void(last) {
            let fewer = s.take(k - if k > 0 {
                1int
            } else {
                0int
            });
            lemma_names_of_back(fewer);
            if k > 0 {
                assert(names(s) =~= names(fewer));
            } else {
                assert(names(s).len() == 0);
                assert(names(s) =~= names(fewer));
            }
            let t = uri::to_last_name(s);
            assert(fewer.take(t.len() as int) =~= s.take(t.len() as int));
        } else {
            assert(s.take(s.len() as int) =~= s);
            assert(names(s).last() == last);
            assert(s.skip(s.len() - last.len()) =~= last);
        }
    }
}

proof fn lemma_starts_with_a_name(p: Seq<char>)
    requires
        p.len() > 0 ==> !uri::is_void(p.take(text::find_char(p, '/'))),
    ensures
        uri::to_last_name(p).len() > 0 ==> names(p).len() > 0 && text::starts_with(
            uri::to_last_name(p),
            names(p)[0],
        ),
        p.len() > 0 ==> uri::to_last_name(p).len() > 0,
{
    if p.len() > 0 {
        let t = uri::to_last_name(p);
        let n = text::find_char(p, '/');
        text::lemma_find_char(p, '/');
        let first = p.take(n);
        assert(names(p)[0] == first);
        lemma_names_of_back(p);
        if t.len() < n {
            assert(!t.contains('/')) by {
                if t.contains('/') {
                    let i = choose|i: int| 0 <= i < t.len() && t[i] == '/';
                    assert(p[i] == '/');
                }
            }
            lemma_one_part(t);
            assert(names(t)[0] == first);
            assert(t.len() == first.len());
        }
        assert(t.take(n) =~= first);
    }
}

proof fn lemma_behind(path: Seq<char>, base: Seq<char>)
    ensures
        uri::body_behind(path, base) matches Some(rel) ==> {
            &&& names(path) == names(base) + names(rel)
            &&& rel.len() > 0 ==> names(rel).len() > 0 && text::starts_with(rel, names(rel)[0])
                && text::ends_with(rel, names(rel).last())
            &&& exists|i: int|
                0 <= i <= path.len() - rel.len() && rel == #[trigger] path.subrange(
                    i,
                    i + rel.len(),
                )
        },
        uri::body_behind(path, base) is None ==> !(names(base).len() <= names(path).len() && names(
            path,
        ).take(names(base).len() as int) == names(base)),
    decreases base.len(),
{
    let b = uri::from_first_name(base);
    let p = uri::from_first_name(path);
    uri::lemma_from_first_name(base);
    uri::lemma_from_first_name(path);
    lemma_names_of_front(base);
    lemma_names_of_front(path);
    text::lemma_find_char(b, '/');
    text::lemma_find_char(p, '/');
    let k = path.len() - p.len();
    if b.len() == 0 {
        let rel = uri::to_last_name(p);
        lemma_names_of_back(p);
        lemma_starts_with_a_name(p);
        assert(names(base) =~= Seq::<Seq<char>>::empty());
        assert(names(base) + names(rel) =~= names(rel));
        assert(p.take(rel.len() as int) =~= path.subrange(k, k + rel.len()));
    } else {
        let bn = text::find_char(b, '/');
        let pn = text::find_char(p, '/');
        let bs = b.skip(uri::front_size(b));
        assert(names(b) =~= seq![b.take(bn)] + names(bs));
        assert(names(b)[0] == b.take(bn));
        if p.len() > 0 {
            let ps = p.skip(uri::front_size(p));
            assert(names(p) =~= seq![p.take(pn)] + names(ps));
            assert(names(p)[0] == p.take(pn));
            if p.take(pn) == b.take(bn) {
                lemma_behind(ps, bs);
                match uri::body_behind(ps, bs) {
                    Some(rel) => {
                        assert(names(path) =~= names(base) + names(rel));
                        let i = choose|i: int|
                            0 <= i <= ps.len() - rel.len() && rel == #[trigger] ps.subrange(
                                i,
                                i + rel.len(),
                            );
                        let at = k + uri::front_size(p) + i;
                        assert(ps.subrange(i, i + rel.len()) =~= path.subrange(at, at + rel.len()));
                    },
                    None => {
                        let n = names(base).len() as int;
                        if n <= names(path).len() && names(path).take(n) == names(base) {
                            assert(names(ps).take(n - 1) =~= names(bs)) by {
                                assert forall|i: int| 0 <= i < n - 1 implies names(ps)[i] == names(
                                    bs,
                                )[i] by {
                                    assert(names(path).take(n)[i + 1] == names(base)[i + 1]);
                                }
                            }
                        }
                    },
                }
            } else {
                let n = names(base).len() as int;
                if n <= names(path).len() && names(path).take(n) == names(base) {
                    assert(names(path).take(n)[0] == names(base)[0]);
                }
            }
        } else {
            assert(names(path).len() == 0);
        }
    }
}

/// How a path starts: at the root, at the place where it is read from, or with
/// a name.
pub open spec fn same_start(a: Seq<char>, b: Seq<char>) -> bool {
    &&& (a.len() > 0 && a[0] == '/') == (b.len() > 0 && b[0] == '/')
    &&& (a == seq!['.'] || (a.len() > 1 && a[0] == '.' && a[1] == '/')) == (b == seq!['.'] || (
    b.len() > 1 && b[0] == '.' && b[1] == '/'))
}

proof fn lemma_start(s: Seq<char>)
    ensures
        uri::path_start(s) is Root <==> s.len() > 0 && s[0] == '/',
        uri::path_start(s) is Here <==> s == seq!['.'] || (s.len() > 1 && s[0] == '.' && s[1] == '/'),
        names(uri::path_body(s)) == names(s),
{
    if s.len() == 1 && s[0] == '.' {
        assert(s =~= seq!['.']);
    }
    if uri::path_start(s) is Root {
        let none = Seq::<char>::empty();
        lemma_names_concat(none, s.skip(1));
        assert(s =~= none + seq!['/'] + s.skip(1));
        assert(names(none) + names(s.skip(1)) =~= names(s.skip(1)));
    } else if uri::path_start(s) is Here {
        let here = seq!['.'];
        assert(!here.contains('/'));
        lemma_one_part(here);
        if s.len() == 1 {
            assert(s =~= here);
            assert(s.skip(1) =~= Seq::<char>::empty());
            assert(names(s) =~= names(s.skip(1)));
        } else {
            let none = Seq::<char>::empty();
            let rest = s.skip(2);
            lemma_names_concat(here, rest);
            lemma_names_concat(none, rest);
            assert(s =~= here + seq!['/'] + rest);
            assert(s.skip(1) =~= none + seq!['/'] + rest);
            assert(names(here) =~= names(none));
        }
    }
}

/// A path behind another is a stretch of it: the names of the whole are those of
/// the base and then those of the stretch, which starts with its first name and
/// ends with its last. There is one exactly where both start alike and the names
/// of the path begin with those of the base.
pub proof fn paths_behind_hold_the_other_names(path: Seq<char>, base: Seq<char>)
    requires
        base.len() > 0,
    ensures
        uri::path_behind(path, base) matches Some(rel) ==> {
            &&& same_start(path, base)
            &&& names(path) == names(base) + names(rel)
            &&& rel.len() > 0 ==> names(rel).len() > 0 && text::starts_with(rel, names(rel)[0])
                && text::ends_with(rel, names(rel).last())
            &&& exists|i: int|
                0 <= i <= path.len() - rel.len() && rel == #[trigger] path.subrange(
                    i,
                    i + rel.len(),
                )
        },
        uri::path_behind(path, base) is None ==> !(same_start(path, base) && names(base).len()
            <= names(path).len() && names(path).take(names(base).len() as int) == names(base)),
{
    lemma_start(path);
    lemma_start(base);
    let p = uri::path_body(path);
    let b = uri::path_body(base);
    lemma_behind(p, b);
    if let Some(rel) = uri::path_behind(path, base) {
        let i = choose|i: int|
            0 <= i <= p.len() - rel.len() && rel == #[trigger] p.subrange(i, i + rel.len());
        let at = path.len() - p.len() + i;
        assert(p.subrange(i, i + rel.len()) =~= path.subrange(at, at + rel.len()));
    }
}

/// Behind an empty path a path has all its names, and is kept from its start to
/// its last name.
pub proof fn paths_behind_nothing_are_kept(path: Seq<char>)
    ensures
        uri::path_behind(path, Seq::empty()) is Some,
        ({
            let rel = uri::path_behind(path, Seq::empty())->0;
            &&& rel.len() <= path.len()
            &&& rel == path.take(rel.len() as int)
            &&& names(rel) == names(path)
            &&& names(rel).len() > 0 ==> text::ends_with(rel, names(rel).last())
        }),
{
    let rel = uri::path_behind(path, Seq::empty())->0;
    let p = uri::path_body(path);
    let t = uri::to_last_name(p);
    let n = path.len() - p.len();
    lemma_start(path);
    lemma_start(rel);
    lemma_names_of_back(p);
    assert(rel =~= path.take(n) + t);
    assert(rel =~= path.take(rel.len() as int));
    if n == 0 {
        assert(rel =~= t);
    } else if path[0] == '/' {
        let none = Seq::<char>::empty();
        assert(rel =~= none + seq!['/'] + t);
        lemma_names_concat(none, t);
        assert(names(none) + names(t) =~= names(t));
    } else {
        let here = seq!['.'];
        assert(!here.contains('/'));
        lemma_one_part(here);
        if t.len() == 0 {
            assert(rel =~= here);
            assert(names(rel) =~= names(t));
        } else {
            let none = Seq::<char>::empty();
            assert(t[0] == p[0]);
            assert(p[0] == '/');
            let rest = t.skip(1);
            assert(t =~= none + seq!['/'] + rest);
            assert(rel =~= here + seq!['/'] + rest);
            lemma_names_concat(here, rest);
            lemma_names_concat(none, rest);
            assert(names(here) =~= names(none));
        }
    }
    if names(rel).len() > 0 {
        if t.len() == 0 {
            assert(names(t).len() == 0);
        }
        let last = names(rel).last();
        assert(t.skip(t.len() - last.len()) == last);
        assert(rel.skip(rel.len() - last.len()) =~= last);
    }
}

/// The path of a URI is read from what stands behind `file://`, decoded, as it
/// stands behind the root, with slashes for backslashes. Anything else has none.
pub proof fn uris_lead_to_paths(root: Seq<char>, raw: Seq<char>, other: Seq<char>)
    requires
        !text::starts_with(other, "file://"@),
    ensures
        uri::uri_path(root, "file://"@ + raw) == match uri::decoded(raw) {
            Some(path) => match uri::path_behind(path, root) {
                Some(rel) => Some(text::replace_char(rel, '\\', seq!['/'])),
                None => None,
            },
            None => None,
        },
        uri::uri_path(root, other) is None,
{
    reveal_strlit("/");
    assert("/"@ =~= seq!['/']);
    let front = "file://"@;
    assert((front + raw).take(front.len() as int) =~= front);
    assert((front + raw).skip(front.len() as int) =~= raw);
}

} // verus!
