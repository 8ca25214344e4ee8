//! What the operations on texts, numbers and bytes do, told by how their results
//! are made up of their arguments.
use vstd::prelude::*;
use vstd::utf8::*;

use crate::bytes;
use crate::number;
use crate::text;

verus! {

/// Trimming a text at its start takes off all the white space there and nothing
/// else.
pub proof fn trimming_starts(s: Seq<char>)
    ensures
        text::trim_start(s).len() <= s.len(),
        text::trim_start(s) == s.skip(s.len() - text::trim_start(s).len()),
        forall|i: int|
            0 <= i < s.len() - text::trim_start(s).len() ==> text::is_space(#[trigger] s[i]),
        text::trim_start(s).len() > 0 ==> !text::is_space(text::trim_start(s)[0]),
    decreases s.len(),
{
    if s.len() > 0 && text::is_space(s[0]) {
        let rest = s.skip(1);
        trimming_starts(rest);
        let n = s.len() - text::trim_start(s).len();
        assert(rest.skip(n - 1) =~= s.skip(n));
        assert forall|i: int| 0 <= i < n implies text::is_space(#[trigger] s[i]) by {
            if i > 0 {
                assert(s[i] == rest[i - 1]);
            }
        }
    } else {
        assert(s.skip(0) =~= s);
    }
}

/// Trimming a text at its end takes off all the white space there and nothing
/// else.
pub proof fn trimming_ends(s: Seq<char>)
    ensures
        text::trim_end(s).len() <= s.len(),
        text::trim_end(s) == s.take(text::trim_end(s).len() as int),
        forall|i: int| text::trim_end(s).len() <= i < s.len() ==> text::is_space(#[trigger] s[i]),
        text::trim_end(s).len() > 0 ==> !text::is_space(text::trim_end(s).last()),
    decreases s.len(),
{
    if s.len() > 0 && text::is_space(s.last()) {
        let rest = s.drop_last();
        trimming_ends(rest);
        let n = text::trim_end(s).len() as int;
        assert(rest.take(n) =~= s.take(n));
        assert forall|i: int| n <= i < s.len() implies text::is_space(#[trigger] s[i]) by {
            if i < rest.len() {
                assert(s[i] == rest[i]);
            }
        }
    } else {
        assert(s.take(s.len() as int) =~= s);
    }
}

/// A trimmed text is the stretch of a text between the white space at its start
/// and that at its end.
pub proof fn trimming_takes_off_white_space(s: Seq<char>)
    ensures
        ({
            let from = s.len() - text::trim_start(s).len();
            let to = from + text::trim(s).len();
            &&& 0 <= from <= to <= s.len()
            &&& text::trim(s) == s.subrange(from, to)
            &&& forall|i: int| 0 <= i < from ==> text::is_space(#[trigger] s[i])
            &&& forall|i: int| to <= i < s.len() ==> text::is_space(#[trigger] s[i])
            &&& from < to ==> !text::is_space(s[from]) && !text::is_space(s[to - 1])
        }),
{
    trimming_starts(s);
    let rest = text::trim_start(s);
    trimming_ends(rest);
    let from = s.len() - rest.len();
    let to = from + text::trim(s).len();
    assert(rest.take(text::trim(s).len() as int) =~= s.subrange(from, to));
    assert forall|i: int| to <= i < s.len() implies text::is_space(#[trigger] s[i]) by {
        assert(s[i] == rest[i - from]);
    }
    if from < to {
        assert(s[from] == rest[0]);
        assert(s[to - 1] == text::trim(s).last());
    }
}

/// Chars are white space by their code points, as Unicode has it.
pub proof fn white_space_is_known(c: char)
    ensures
        text::is_space(c) <==> ({
            let n = c as u32;
            ||| 9 <= n <= 13
            ||| n == 32
            ||| n == 133
            ||| n == 160
            ||| n == 5760
            ||| 8192 <= n <= 8202
            ||| n == 8232
            ||| n == 8233
            ||| n == 8239
            ||| n == 8287
            ||| n == 12288
        }),
{
}

/// A char is found where it stands for the first time, and at the end where it
/// stands nowhere.
pub proof fn chars_are_found_first(before: Seq<char>, c: char, rest: Seq<char>)
    requires
        forall|i: int| 0 <= i < before.len() ==> #[trigger] before[i] != c,
    ensures
        text::find_char(before + seq![c] + rest, c) == before.len(),
        text::find_char(before, c) == before.len(),
{
    let s = before + seq![c] + rest;
    let n = before.len() as int;
    assert forall|i: int| 0 <= i < n implies s[i] != c by {
        assert(s[i] == before[i]);
    }
    assert(s[n] == c);
    text::lemma_find_char_is(s, c, n);
    text::lemma_find_char_is(before, c, n);
}

/// A text is cut into lines at each line feed: what stands before the first one
/// is the first line, without a carriage return at its end, and the rest gives
/// the other lines. Without a line feed the text is one line, and an empty text
/// none.
pub proof fn lines_are_cut_at_line_feeds(a: Seq<char>, b: Seq<char>)
    requires
        forall|i: int| 0 <= i < a.len() ==> #[trigger] a[i] != '\n',
    ensures
        text::lines(a + seq!['\n'] + b) == seq![
            if a.len() > 0 && a.last() == '\r' {
                a.drop_last()
            } else {
                a
            },
        ] + text::lines(b),
        a.len() > 0 ==> text::lines(a) == seq![a],
        text::lines(Seq::empty()).len() == 0,
{
    let s = a + seq!['\n'] + b;
    let n = a.len() as int;
    assert(s[n] == '\n');
    assert forall|i: int| 0 <= i < n implies s[i] != '\n' by {
        assert(s[i] == a[i]);
    }
    text::lemma_find_char_is(s, '\n', n);
    assert(s.take(n) =~= a);
    assert(s.skip(n + 1) =~= b);
    text::lemma_find_char(a, '\n');
}

/// Joined parts stand one behind the other with the separator between them.
pub proof fn joining_puts_the_separator_between(
    parts: Seq<Seq<char>>,
    part: Seq<char>,
    sep: Seq<char>,
)
    ensures
        text::join(Seq::empty(), sep).len() == 0,
        text::join(seq![part], sep) == part,
        parts.len() > 0 ==> text::join(parts.push(part), sep) == text::join(parts, sep) + sep
            + part,
{
    assert(parts.push(part).drop_last() =~= parts);
}

/// A text starts with its front and ends with its back, and taking the front
/// off leaves the back.
pub proof fn fronts_and_backs_are_found(front: Seq<char>, back: Seq<char>)
    ensures
        text::starts_with(front + back, front),
        text::ends_with(front + back, back),
        text::strip_prefix(front + back, front) == Some(back),
{
    let s = front + back;
    assert(s.take(front.len() as int) =~= front);
    assert(s.skip(front.len() as int) =~= back);
}

/// A text starts with another only where it is that one and something behind
/// it, and ends with it only where something stands before it. A front that is
/// taken off was there.
pub proof fn nothing_else_is_found(s: Seq<char>, part: Seq<char>)
    ensures
        text::starts_with(s, part) ==> s == part + s.skip(part.len() as int),
        text::ends_with(s, part) ==> s == s.take(s.len() - part.len()) + part,
        text::strip_prefix(s, part) is Some <==> text::starts_with(s, part),
        text::strip_prefix(s, part) matches Some(rest) ==> s == part + rest,
{
    if text::starts_with(s, part) {
        assert(s =~= part + s.skip(part.len() as int));
    }
    if text::ends_with(s, part) {
        assert(s =~= s.take(s.len() - part.len()) + part);
    }
}

/// Replacing a char puts the new text in the place of each such char, and
/// leaves every other char.
pub proof fn replacing_works_char_by_char(s: Seq<char>, c: char, from: char, to: Seq<char>)
    ensures
        text::replace_char(Seq::empty(), from, to).len() == 0,
        c == from ==> text::replace_char(s.push(c), from, to) == text::replace_char(s, from, to)
            + to,
        c != from ==> text::replace_char(s.push(c), from, to) == text::replace_char(
            s,
            from,
            to,
        ).push(c),
{
    assert(s.push(c).drop_last() =~= s);
}

/// A number in decimal ends with the digit of its ones, and what stands before
/// that is the number of its tens.
pub proof fn decimals_are_written_digit_by_digit(n: nat, d: nat, c: char)
    requires
        d < 10,
        c as u32 == 48 + d,
    ensures
        number::decimal(d) == seq![c],
        n > 0 ==> number::decimal(10 * n + d) == number::decimal(n).push(c),
        number::decimal_int(n as int) == number::decimal(n),
        n > 0 ==> number::decimal_int(-(n as int)) == seq!['-'] + number::decimal(n),
{
    assert(number::digit(d) == c) by {
        assert(c == (48 + d) as char);
    }
    if n > 0 {
        assert((10 * n + d) / 10 == n && (10 * n + d) % 10 == d) by (nonlinear_arith)
            requires
                d < 10,
        ;
    }
}

/// A text of digits is read as the number that they write, a digit more being
/// ten times the number and that digit, if it is at most the greatest one
/// allowed. A plus before it makes no difference.
pub proof fn digits_are_read(s: Seq<char>, c: char, max: nat)
    requires
        forall|i: int| 0 <= i < s.len() ==> '0' <= #[trigger] s[i] <= '9',
        '0' <= c <= '9',
    ensures
        number::digits_value(Seq::empty()) == 0,
        number::digits_value(s.push(c)) == 10 * number::digits_value(s) + (c as u32 - 48),
        s.len() > 0 && number::digits_value(s) <= max ==> number::parse_unsigned(s, max) == Some(
            number::digits_value(s),
        ) && number::parse_unsigned(seq!['+'] + s, max) == Some(number::digits_value(s))
            && number::parse_signed(s, max) == Some(number::digits_value(s) as int)
            && number::parse_signed(seq!['+'] + s, max) == Some(number::digits_value(s) as int),
        s.len() > 0 && number::digits_value(s) > max ==> number::parse_unsigned(s, max) is None
            && number::parse_unsigned(seq!['+'] + s, max) is None && number::parse_signed(
            s,
            max,
        ) is None && number::parse_signed(seq!['+'] + s, max) is None,
        s.len() > 0 && number::digits_value(s) <= max + 1 ==> number::parse_signed(
            seq!['-'] + s,
            max,
        ) == Some(-(number::digits_value(s) as int)),
        s.len() > 0 && number::digits_value(s) > max + 1 ==> number::parse_signed(
            seq!['-'] + s,
            max,
        ) is None,
{
    assert(s.push(c).drop_last() =~= s);
    assert((seq!['+'] + s).skip(1) =~= s);
    assert((seq!['-'] + s).skip(1) =~= s);
    if s.len() > 0 {
        assert('0' <= s[0] <= '9');
    }
}

/// Nothing but digits is read as a number, behind one sign at most, and at
/// least one digit.
pub proof fn only_digits_are_read(s: Seq<char>, max: nat)
    ensures
        number::parse_unsigned(s, max) is Some ==> {
            let digits = if s[0] == '+' {
                s.skip(1)
            } else {
                s
            };
            digits.len() > 0 && forall|i: int|
                0 <= i < digits.len() ==> '0' <= #[trigger] digits[i] <= '9'
        },
        number::parse_signed(s, max) is Some ==> {
            let digits = if s[0] == '+' || s[0] == '-' {
                s.skip(1)
            } else {
                s
            };
            digits.len() > 0 && forall|i: int|
                0 <= i < digits.len() ==> '0' <= #[trigger] digits[i] <= '9'
        },
{
    assert(forall|t: Seq<char>|
        #![trigger number::all_digits(t)]
        number::all_digits(t) ==> forall|i: int|
            0 <= i < t.len() ==> '0' <= #[trigger] t[i] <= '9') by {
        assert forall|t: Seq<char>|
            #![trigger number::all_digits(t)]
            number::all_digits(t) implies forall|i: int|
            0 <= i < t.len() ==> '0' <= #[trigger] t[i] <= '9' by {
            assert forall|i: int| 0 <= i < t.len() implies '0' <= #[trigger] t[i] <= '9' by {
                assert(number::is_digit(t[i]));
            }
        }
    }
}

/// A match is where the bytes stand for the first time, and there is none only
/// where they stand nowhere.
pub proof fn matches_are_the_first(haystack: Seq<u8>, needle: Seq<u8>)
    ensures
        bytes::first_match(haystack, needle) matches Some(i) ==> {
            &&& 0 <= i <= haystack.len() - needle.len()
            &&& haystack.subrange(i, i + needle.len()) == needle
            &&& forall|j: int|
                0 <= j < i ==> #[trigger] haystack.subrange(j, j + needle.len()) != needle
        },
        bytes::first_match(haystack, needle) is None ==> forall|j: int|
            0 <= j <= haystack.len() - needle.len() ==> #[trigger] haystack.subrange(
                j,
                j + needle.len(),
            ) != needle,
    decreases haystack.len(),
{
    if haystack.len() >= needle.len() {
        assert(haystack.take(needle.len() as int) =~= haystack.subrange(0, needle.len() as int));
        if haystack.take(needle.len() as int) != needle {
            if haystack.len() == 0 {
                assert(haystack.take(0) =~= needle);
            }
            let rest = haystack.skip(1);
            matches_are_the_first(rest, needle);
            assert forall|j: int| 1 <= j <= haystack.len() - needle.len() implies rest.subrange(
                j - 1,
                j - 1 + needle.len(),
            ) == #[trigger] haystack.subrange(j, j + needle.len()) by {
                assert(rest.subrange(j - 1, j - 1 + needle.len()) =~= haystack.subrange(
                    j,
                    j + needle.len(),
                ));
            }
        }
    }
}

/// The end of a text within a number of bytes is its longest end that takes no
/// more of them in UTF-8.
pub proof fn ends_are_as_long_as_they_can_be(s: Seq<char>, max: nat)
    ensures
        ({
            let end = bytes::suffix_within(s, max);
            &&& end.len() <= s.len()
            &&& end == s.skip(s.len() - end.len())
            &&& end.len() > 0 ==> encode_utf8(end).len() <= max
            &&& forall|k: int|
                0 <= k < s.len() - end.len() ==> encode_utf8(#[trigger] s.skip(k)).len() > max
        }),
    decreases s.len(),
{
    if s.len() == 0 || encode_utf8(s).len() <= max {
        assert(s.skip(0) =~= s);
    } else {
        let rest = s.skip(1);
        ends_are_as_long_as_they_can_be(rest, max);
        let end = bytes::suffix_within(s, max);
        assert(rest.skip(rest.len() - end.len()) =~= s.skip(s.len() - end.len()));
        assert forall|k: int| 0 <= k < s.len() - end.len() implies encode_utf8(
            #[trigger] s.skip(k),
        ).len() > max by {
            if k == 0 {
                assert(s.skip(0) =~= s);
            } else {
                assert(s.skip(k) =~= rest.skip(k - 1));
            }
        }
    }
}

/// Bytes in UTF-8 are read as the text that they encode.
pub proof fn encoded_texts_are_read_back(s: Seq<char>)
    ensures
        bytes::lossy(encode_utf8(s)) == s,
{
    encode_utf8_valid_utf8(s);
    encode_utf8_decode_utf8(s);
}

/// Bytes that are no UTF-8 are read as the standard library reads them, with
/// replacement chars.
pub proof fn other_bytes_are_replaced(raw: Seq<u8>)
    ensures
        valid_utf8(raw) ==> encode_utf8(bytes::lossy(raw)) == raw,
        !valid_utf8(raw) ==> bytes::lossy(raw) == bytes::lossy_decoding(raw),
{
    if valid_utf8(raw) {
        decode_utf8_encode_utf8(raw);
    }
}

/// The models of lists and of options hold every text of them.
pub proof fn text_models_hold_every_text(v: Seq<String>, o: Option<String>)
    ensures
        text::texts(v) == v.map_values(|s: String| s@),
        text::opt_text(o) == match o {
            Some(s) => Some(s@),
            None => None,
        },
{
    assert(text::texts(v) =~= v.map_values(|s: String| s@));
}

} // verus!
