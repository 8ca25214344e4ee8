//! Bytes: searching, decoding, and the end of a text measured in bytes.
use crate::text::chars_of;
use vstd::prelude::*;
use vstd::string::*;
use vstd::utf8::*;

verus! {

/// The position of the first occurrence of `needle`.
pub open spec fn first_match(haystack: Seq<u8>, needle: Seq<u8>) -> Option<int>
    decreases haystack.len(),
{
    if haystack.len() < needle.len() {
        None
    } else if haystack.take(needle.len() as int) == needle {
        Some(0)
    } else if haystack.len() == 0 {
        None
    } else {
        match first_match(haystack.skip(1), needle) {
            Some(i) => Some(i + 1),
            None => None,
        }
    }
}

/// Whether `needle` stands at position `i`.
pub open spec fn occurs_at(haystack: Seq<u8>, needle: Seq<u8>, i: int) -> bool {
    &&& 0 <= i
    &&& i + needle.len() <= haystack.len()
    &&& haystack.subrange(i, i + needle.len()) == needle
}

/// `first_match` gives the first position at which the needle stands, if any.
pub proof fn lemma_first_match(haystack: Seq<u8>, needle: Seq<u8>)
    ensures
        match first_match(haystack, needle) {
            Some(i) => occurs_at(haystack, needle, i) && forall|j: int|
                0 <= j < i ==> !occurs_at(haystack, needle, j),
            None => forall|j: int| !occurs_at(haystack, needle, j),
        },
    decreases haystack.len(),
{
    if haystack.len() < needle.len() {
    } else if haystack.take(needle.len() as int) == needle {
        assert(haystack.subrange(0, needle.len() as int) =~= haystack.take(needle.len() as int));
    } else {
        assert(haystack.subrange(0, needle.len() as int) =~= haystack.take(needle.len() as int));
        if haystack.len() == 0 {
            assert(haystack.take(0) =~= needle);
        }
        let rest = haystack.skip(1);
        lemma_first_match(rest, needle);
        assert forall|j: int| 0 < j implies (#[trigger] occurs_at(haystack, needle, j)
            == occurs_at(rest, needle, j - 1)) by {
            if j + needle.len() <= haystack.len() {
                assert(haystack.subrange(j, j + needle.len()) =~= rest.subrange(
                    j - 1,
                    j - 1 + needle.len(),
                ));
            }
        }
    }
}

/// The position of the first occurrence of `needle` in `haystack`.
pub fn find_bytes(haystack: &[u8], needle: &[u8]) -> (r: Option<usize>)
    requires
        needle@.len() > 0,
    ensures
        match r {
            Some(i) => first_match(haystack@, needle@) == Some(i as int) && i + needle@.len()
                <= haystack@.len(),
            None => first_match(haystack@, needle@) is None,
        },
{
    proof {
        lemma_first_match(haystack@, needle@);
    }
    if haystack.len() < needle.len() {
        return None;
    }
    let size: usize = haystack.len();
    let last: usize = size - needle.len();
    let mut i: usize = 0;
    while i <= last
        invariant
            needle@.len() > 0,
            size == haystack@.len(),
            last + needle@.len() == size,
            i <= last + 1,
            forall|j: int| 0 <= j < i ==> !occurs_at(haystack@, needle@, j),
            match first_match(haystack@, needle@) {
                Some(k) => occurs_at(haystack@, needle@, k) && forall|j: int|
                    0 <= j < k ==> !occurs_at(haystack@, needle@, j),
                None => forall|j: int| !occurs_at(haystack@, needle@, j),
            },
        decreases last + 1 - i,
    {
        let mut k: usize = 0;
        while k < needle.len() && haystack[i + k] == needle[k]
            invariant
                i <= last,
                size == haystack@.len(),
                last + needle@.len() == size,
                k <= needle@.len(),
                forall|m: int| 0 <= m < k ==> haystack@[i + m] == needle@[m],
            decreases needle@.len() - k,
        {
            k = k + 1;
        }
        if k == needle.len() {
            proof {
                assert(haystack@.subrange(i as int, i + needle@.len()) =~= needle@);
                assert(occurs_at(haystack@, needle@, i as int));
            }
            return Some(i);
        }
        proof {
            assert(haystack@.subrange(i as int, i + needle@.len())[k as int] != needle@[k as int]);
            assert(!occurs_at(haystack@, needle@, i as int));
        }
        i = i + 1;
    }
    proof {
        assert forall|j: int| !occurs_at(haystack@, needle@, j) by {}
    }
    None
}

/// `String::from_utf8`: text where the bytes are valid UTF-8, and nothing where
/// they are not.
#[verifier::external_body]
pub(crate) fn utf8_text(bytes: Vec<u8>) -> (r: Option<String>)
    ensures
        match r {
            Some(s) => valid_utf8(bytes@) && s@ == decode_utf8(bytes@),
            None => !valid_utf8(bytes@),
        },
{
    String::from_utf8(bytes).ok()
}

/// What `String::from_utf8_lossy` makes of bytes that are not valid UTF-8.
pub uninterp spec fn lossy_decoding(bytes: Seq<u8>) -> Seq<char>;

/// Bytes as text: valid UTF-8 as it is, anything else as the lossy decoding has it.
pub open spec fn lossy(bytes: Seq<u8>) -> Seq<char> {
    if valid_utf8(bytes) {
        decode_utf8(bytes)
    } else {
        lossy_decoding(bytes)
    }
}

/// `String::from_utf8_lossy`: valid UTF-8 is decoded as it is, and the text for
/// other bytes depends on the bytes alone. Where the replacement characters
/// stand in that text is not said.
#[verifier::external_body]
pub(crate) fn lossy_text(bytes: &[u8]) -> (r: String)
    ensures
        r@ == (if valid_utf8(bytes@) {
            decode_utf8(bytes@)
        } else {
            lossy_decoding(bytes@)
        }),
{
    String::from_utf8_lossy(bytes).into_owned()
}

/// The longest suffix whose UTF-8 encoding has at most `max` bytes.
pub open spec fn suffix_within(s: Seq<char>, max: nat) -> Seq<char>
    decreases s.len(),
{
    if s.len() == 0 || encode_utf8(s).len() <= max {
        s
    } else {
        suffix_within(s.skip(1), max)
    }
}

/// How many bytes a character takes in UTF-8.
fn width_of(c: char) -> (r: usize)
    ensures
        r == encode_scalar(c as u32).len(),
{
    let n: u32 = c as u32;
    if n <= 0x7f {
        1
    } else if n <= 0x7ff {
        2
    } else if n <= 0xffff {
        3
    } else {
        4
    }
}

/// The last `max` bytes of `text`, or fewer where a character would be cut.
pub fn tail<'a>(text: &'a str, max: usize) -> (r: &'a str)
    ensures
        r@ == suffix_within(text@, max as nat),
{
    let chars = chars_of(text);
    let mut total: usize = text.as_bytes().len();
    let mut from: usize = 0;
    proof {
        assert(chars@.skip(0) =~= chars@);
    }
    while from < chars.len() && total > max
        invariant
            from <= chars@.len(),
            chars@ == text@,
            total == encode_utf8(chars@.skip(from as int)).len(),
            suffix_within(text@, max as nat) == suffix_within(
                chars@.skip(from as int),
                max as nat,
            ),
        decreases chars@.len() - from,
    {
        proof {
            assert(chars@.skip(from as int)[0] == chars@[from as int]);
            assert(chars@.skip(from as int).drop_first() =~= chars@.skip(from + 1));
            assert(chars@.skip(from as int).skip(1) =~= chars@.skip(from + 1));
        }
        total = total - width_of(chars[from]);
        from = from + 1;
    }
    proof {
        assert(chars@.skip(from as int) =~= text@.subrange(from as int, text@.len() as int));
    }
    text.substring_char(from, chars.len())
}

} // verus!
