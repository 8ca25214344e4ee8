//! The wire format of a language server: framed JSON messages.
use crate::bytes;
use crate::json;
use crate::json::{encode, read_bytes, Json, JsonNumber, JsonView, NumberView};
use crate::number;
use crate::number::{decimal_text, read_usize};
use crate::text;
use crate::text::{after_prefix, chars_of, string_of, trimmed};
use vstd::prelude::*;
use vstd::string::*;
use vstd::utf8::*;

verus! {

/// The header of a message with a body of `n` bytes.
pub open spec fn header_text(n: nat) -> Seq<char> {
    "Content-Length: "@ + number::decimal(n) + "\r\n\r\n"@
}

/// A message on the wire.
pub open spec fn framed(body: Seq<u8>) -> Seq<u8> {
    encode_utf8(header_text(body.len())) + body
}

/// Put a header in front of the body of a message.
pub fn frame(body: &Vec<u8>) -> (r: Vec<u8>)
    ensures
        r@ == framed(body@),
{
    let mut header = "Content-Length: ".to_owned();
    header.append(decimal_text(body.len() as u64).as_str());
    header.append("\r\n\r\n");
    let bytes = header.as_str().as_bytes();
    let mut out: Vec<u8> = Vec::new();
    out.extend_from_slice(bytes);
    out.extend_from_slice(body.as_slice());
    assert(out@ =~= framed(body@));
    out
}

/// A message on the wire.
pub fn message_frame(message: &Json) -> (r: Vec<u8>)
    ensures
        r@ == framed(json::json_encoding(message@)),
{
    frame(&encode(message))
}

/// The text without the line endings behind it.
pub open spec fn without_ending(s: Seq<char>) -> Seq<char>
    decreases s.len(),
{
    if s.len() > 0 && (s.last() == '\r' || s.last() == '\n') {
        without_ending(s.drop_last())
    } else {
        s
    }
}

/// What a line of a header leads to.
pub enum HeaderStep {
    /// The header goes on.
    More,
    /// The header is complete, and a body of this many bytes follows.
    Body(usize),
    /// The header is complete and has not said how long the body is.
    MissingLength,
    /// This is no length.
    BadLength(String),
    /// The stream has ended.
    Exited,
}

/// The model of a [`HeaderStep`].
pub enum HeaderView {
    /// The header goes on, with the length that it has said so far.
    More(Option<nat>),
    Body(nat),
    MissingLength,
    BadLength(Seq<char>),
}

/// What a line of a header leads to, after a header that has said a length.
pub open spec fn header_step(length: Option<nat>, line: Seq<char>) -> HeaderView {
    let kept = without_ending(line);
    if kept.len() == 0 {
        match length {
            Some(n) => HeaderView::Body(n),
            None => HeaderView::MissingLength,
        }
    } else {
        match text::strip_prefix(kept, "Content-Length:"@) {
            Some(rest) => match number::parse_unsigned(text::trim(rest), usize::MAX as nat) {
                Some(n) => HeaderView::More(Some(n)),
                None => HeaderView::BadLength(text::trim(rest)),
            },
            None => HeaderView::More(length),
        }
    }
}

/// A header that is being read.
pub struct HeaderReader {
    /// The length of the body, once the header has said it.
    pub length: Option<usize>,
}

/// A length that may be missing.
pub open spec fn opt_length(length: Option<usize>) -> Option<nat> {
    match length {
        Some(n) => Some(n as nat),
        None => None,
    }
}

/// Where the text ends without the line endings behind it.
fn ending_at(chars: &Vec<char>) -> (r: usize)
    ensures
        r <= chars@.len(),
        chars@.take(r as int) == without_ending(chars@),
{
    let mut to: usize = chars.len();
    assert(chars@.take(to as int) =~= chars@);
    while to > 0 && (chars[to - 1] == '\r' || chars[to - 1] == '\n')
        invariant
            to <= chars@.len(),
            without_ending(chars@) == without_ending(chars@.take(to as int)),
        decreases to,
    {
        proof {
            assert(chars@.take(to as int).last() == chars@[to - 1]);
            assert(chars@.take(to as int).drop_last() =~= chars@.take(to - 1));
        }
        to = to - 1;
    }
    proof {
        if to > 0 {
            assert(chars@.take(to as int).last() == chars@[to - 1]);
        }
    }
    to
}

impl HeaderReader {
    /// A header of which nothing has been read.
    pub fn new() -> (r: Self)
        ensures
            r.length is None,
    {
        HeaderReader { length: None }
    }

    /// Take in one line of the header, with its ending; None is the end of the
    /// stream.
    pub fn line(&mut self, line: Option<&str>) -> (r: HeaderStep)
        ensures
            match line {
                None => r is Exited && final(self).length == old(self).length,
                Some(line) => match header_step(opt_length(old(self).length), line@) {
                    HeaderView::More(length) => r is More && opt_length(final(self).length)
                        == length,
                    HeaderView::Body(n) => r matches HeaderStep::Body(k) && k == n && final(self).length == old(self).length,
                    HeaderView::MissingLength => r is MissingLength && final(self).length == old(self).length,
                    HeaderView::BadLength(s) => r matches HeaderStep::BadLength(t) && t@ == s
                        && final(self).length == old(self).length,
                },
            },
    {
        let line = match line {
            Some(line) => line,
            None => {
                return HeaderStep::Exited;
            },
        };
        let chars = chars_of(line);
        let end = ending_at(&chars);
        if end == 0 {
            return match self.length {
                Some(n) => HeaderStep::Body(n),
                None => HeaderStep::MissingLength,
            };
        }
        let kept = string_of(&chars, 0, end);
        proof {
            assert(kept@ =~= without_ending(line@));
        }
        match after_prefix(kept.as_str(), "Content-Length:") {
            Some(rest) => {
                let value = trimmed(rest.as_str());
                match read_usize(value.as_str()) {
                    Some(n) => {
                        self.length = Some(n);
                        HeaderStep::More
                    },
                    None => HeaderStep::BadLength(value),
                }
            },
            None => HeaderStep::More,
        }
    }
}

/// Read the body of a message.
pub fn decode_message(body: &Vec<u8>) -> (r: Result<Json, serde_json::Error>)
    ensures
        match r {
            Ok(message) => json::json_of_bytes(body@) == Some(message@),
            Err(_) => json::json_of_bytes(body@) is None,
        },
{
    read_bytes(body.as_slice())
}

/// Read one message from a stream of bytes: its body, and what follows it.
pub open spec fn read_frame(stream: Seq<u8>, length: Option<nat>) -> Option<(Seq<u8>, Seq<u8>)>
    decreases stream.len(),
{
    match bytes::first_match(stream, seq![0x0au8]) {
        Some(n) => if 0 <= n < stream.len() && valid_utf8(stream.take(n + 1)) {
            let rest = stream.skip(n + 1);
            match header_step(length, decode_utf8(stream.take(n + 1))) {
                HeaderView::More(next) => read_frame(rest, next),
                HeaderView::Body(k) => if k <= rest.len() {
                    Some((rest.take(k as int), rest.skip(k as int)))
                } else {
                    None
                },
                _ => None,
            }
        } else {
            None
        },
        None => None,
    }
}

proof fn lemma_header_line(line: Seq<char>, rest: Seq<u8>)
    requires
        line.len() > 0,
        is_ascii_chars(line),
        line.last() == '\n',
        forall|i: int| 0 <= i < line.len() - 1 ==> line[i] != '\n',
    ensures
        bytes::first_match(encode_utf8(line) + rest, seq![0x0au8]) == Some(line.len() - 1),
        (encode_utf8(line) + rest).take(line.len() as int) == encode_utf8(line),
        (encode_utf8(line) + rest).skip(line.len() as int) == rest,
{
    is_ascii_chars_encode_utf8(line);
    let stream = encode_utf8(line) + rest;
    let newline = seq![0x0au8];
    bytes::lemma_first_match(stream, newline);
    assert(stream.take(line.len() as int) =~= encode_utf8(line));
    assert(stream.skip(line.len() as int) =~= rest);
    let last = line.len() - 1;
    assert(line[last] as u8 == 0x0au8);
    assert(stream.subrange(last, last + 1) =~= newline);
    assert(bytes::occurs_at(stream, newline, last));
    assert forall|j: int| 0 <= j < last implies !bytes::occurs_at(stream, newline, j) by {
        assert(stream.subrange(j, j + 1)[0] == line[j] as u8);
        assert(line[j] != '\n');
        assert('\0' <= line[j] <= '\u{7f}');
        assert(newline[0] == 0x0au8);
    }
}

proof fn lemma_trim_one_space(digits: Seq<char>)
    requires
        digits.len() > 0,
        number::all_digits(digits),
    ensures
        text::trim(seq![' '] + digits) == digits,
{
    let s = seq![' '] + digits;
    assert(s.skip(1) =~= digits);
    assert(number::is_digit(digits[0]));
    assert(number::is_digit(digits[digits.len() - 1]));
    assert(text::trim_start(digits) == digits);
    assert(text::trim_start(s) == digits);
}

/// A message that was put on the wire is read back, and what follows it stays
/// in the stream.
pub proof fn frames_are_read_back(body: Seq<u8>, rest: Seq<u8>)
    requires
        body.len() <= usize::MAX,
    ensures
        read_frame(framed(body) + rest, None) == Some((body, rest)),
{
    reveal_strlit("Content-Length: ");
    reveal_strlit("Content-Length:");
    reveal_strlit("\r\n\r\n");
    let digits = number::decimal(body.len());
    number::decimal_reads_back(body.len(), usize::MAX as nat);
    assert forall|i: int| 0 <= i < digits.len() implies '0' <= #[trigger] digits[i] <= '9' by {
        assert(number::is_digit(digits[i]));
    }
    let name = "Content-Length: "@;
    let line = name + digits + seq!['\r', '\n'];
    let blank = seq!['\r', '\n'];
    let header = header_text(body.len());
    assert(is_ascii_chars(line));
    assert(is_ascii_chars(blank));
    assert(header =~= line + blank);
    assert(is_ascii_chars(header));
    is_ascii_chars_encode_utf8(line);
    is_ascii_chars_encode_utf8(blank);
    is_ascii_chars_encode_utf8(header);
    assert(encode_utf8(header) =~= encode_utf8(line) + encode_utf8(blank));
    let stream = framed(body) + rest;
    let second = encode_utf8(blank) + (body + rest);
    assert(stream =~= encode_utf8(line) + second);
    lemma_header_line(line, second);
    lemma_header_line(blank, body + rest);
    encode_utf8_valid_utf8(line);
    encode_utf8_decode_utf8(line);
    encode_utf8_valid_utf8(blank);
    encode_utf8_decode_utf8(blank);
    // The first line says the length.
    let kept = name + digits;
    assert(line.drop_last() =~= kept.push('\r'));
    assert(line.drop_last().drop_last() =~= kept);
    assert(kept.last() == digits.last());
    reveal_with_fuel(without_ending, 3);
    assert(without_ending(line) == kept);
    assert(kept.take(15) =~= "Content-Length:"@);
    assert(kept.skip(15) =~= seq![' '] + digits);
    lemma_trim_one_space(digits);
    assert(header_step(None, line) == HeaderView::More(Some(body.len())));
    // The second one ends the header.
    assert(blank.drop_last() =~= seq!['\r']);
    assert(blank.drop_last().drop_last() =~= Seq::<char>::empty());
    assert(without_ending(blank).len() == 0);
    assert(header_step(Some(body.len()), blank) == HeaderView::Body(body.len()));
    let tail = body + rest;
    assert(tail.take(body.len() as int) =~= body);
    assert(tail.skip(body.len() as int) =~= rest);
    reveal_with_fuel(read_frame, 2);
    assert(read_frame(second, Some(body.len())) == Some((body, rest)));
}

/// Put an entry into an object.
pub fn put(entries: &mut Vec<(String, Json)>, key: &str, value: Json)
    ensures
        json::entries_view(final(entries)@) == json::entries_view(old(entries)@).insert(
            key@,
            value@,
        ),
{
    let ghost before = entries@;
    entries.push((key.to_owned(), value));
    proof {
        assert(entries@.drop_last() =~= before);
    }
}

/// A request.
pub open spec fn request_json(id: nat, method: Seq<char>, params: JsonView) -> JsonView {
    JsonView::Object(
        map![
            "jsonrpc"@ => JsonView::Str("2.0"@),
            "id"@ => JsonView::Number(NumberView::Unsigned(id)),
            "method"@ => JsonView::Str(method),
            "params"@ => params,
        ],
    )
}

/// A request.
pub fn request_message(id: u64, method: &str, params: Json) -> (r: Json)
    ensures
        r@ == request_json(id as nat, method@, params@),
{
    let mut entries: Vec<(String, Json)> = Vec::new();
    put(&mut entries, "jsonrpc", Json::Str("2.0".to_owned()));
    put(&mut entries, "id", Json::Number(JsonNumber::Unsigned(id)));
    put(&mut entries, "method", Json::Str(method.to_owned()));
    put(&mut entries, "params", params);
    Json::Object(entries)
}

/// A notification.
pub open spec fn notification_json(method: Seq<char>, params: JsonView) -> JsonView {
    JsonView::Object(
        map![
            "jsonrpc"@ => JsonView::Str("2.0"@),
            "method"@ => JsonView::Str(method),
            "params"@ => params,
        ],
    )
}

/// A notification.
pub fn notification_message(method: &str, params: Json) -> (r: Json)
    ensures
        r@ == notification_json(method@, params@),
{
    let mut entries: Vec<(String, Json)> = Vec::new();
    put(&mut entries, "jsonrpc", Json::Str("2.0".to_owned()));
    put(&mut entries, "method", Json::Str(method.to_owned()));
    put(&mut entries, "params", params);
    Json::Object(entries)
}

/// The answer to a request of the server that is granted.
pub open spec fn granted_json(id: JsonView) -> JsonView {
    JsonView::Object(
        map![
            "jsonrpc"@ => JsonView::Str("2.0"@),
            "id"@ => id,
            "result"@ => JsonView::Null,
        ],
    )
}

/// The answer to a request of the server that is granted.
pub fn granted_message(id: Json) -> (r: Json)
    ensures
        r@ == granted_json(id@),
{
    let mut entries: Vec<(String, Json)> = Vec::new();
    put(&mut entries, "jsonrpc", Json::Str("2.0".to_owned()));
    put(&mut entries, "id", id);
    put(&mut entries, "result", Json::Null);
    Json::Object(entries)
}

/// The answer to a request of the server that is not known here.
pub open spec fn unknown_method_json(id: JsonView) -> JsonView {
    JsonView::Object(
        map![
            "jsonrpc"@ => JsonView::Str("2.0"@),
            "id"@ => id,
            "error"@ => JsonView::Object(
                map![
                    "code"@ => JsonView::Number(NumberView::Negative(-32601)),
                    "message"@ => JsonView::Str("Method not found"@),
                ],
            ),
        ],
    )
}

/// The answer to a request of the server that is not known here.
pub fn unknown_method_message(id: Json) -> (r: Json)
    ensures
        r@ == unknown_method_json(id@),
{
    let mut error: Vec<(String, Json)> = Vec::new();
    put(&mut error, "code", Json::Number(JsonNumber::Signed(-32601)));
    put(&mut error, "message", Json::Str("Method not found".to_owned()));
    let mut entries: Vec<(String, Json)> = Vec::new();
    put(&mut entries, "jsonrpc", Json::Str("2.0".to_owned()));
    put(&mut entries, "id", id);
    put(&mut entries, "error", Json::Object(error));
    Json::Object(entries)
}

} // verus!
