//! What is made of the answers of a language server, told by the entries of the
//! answers.
use vstd::prelude::*;

use crate::json::{JsonView, NumberView};
use crate::symbols;
use crate::symbols::{PositionView, TargetView};
use crate::text;
use crate::uri;

verus! {

/// Stripping a text keeps every line in order but those that start, behind
/// white space, with three backticks and those that are three dashes between
/// white space. The lines that are kept are joined and trimmed.
pub proof fn stripping_keeps_every_other_line(s: Seq<char>)
    ensures
        symbols::without_fences(s) == text::trim(
            text::join(
                text::lines(s).filter(
                    |line: Seq<char>|
                        !({
                            let start = text::trim_start(line);
                            start.len() >= 3 && start[0] == '`' && start[1] == '`' && start[2] == '`'
                        }) && !({
                            let core = text::trim(line);
                            core.len() == 3 && core[0] == '-' && core[1] == '-' && core[2] == '-'
                        }),
                ),
                seq!['\n'],
            ),
        ),
{
    reveal_strlit("\n");
    assert("\n"@ =~= seq!['\n']);
    lemma_content_lines(text::lines(s));
}

proof fn lemma_content_lines(lines: Seq<Seq<char>>)
    ensures
        symbols::content_lines(lines) == lines.filter(
            |line: Seq<char>|
                !({
                    let start = text::trim_start(line);
                    start.len() >= 3 && start[0] == '`' && start[1] == '`' && start[2] == '`'
                }) && !({
                    let core = text::trim(line);
                    core.len() == 3 && core[0] == '-' && core[1] == '-' && core[2] == '-'
                }),
        ),
    decreases lines.len(),
{
    reveal(Seq::filter);
    if lines.len() > 0 {
        let line = lines.last();
        lemma_content_lines(lines.drop_last());
        reveal_strlit("```");
        reveal_strlit("---");
        let start = text::trim_start(line);
        let core = text::trim(line);
        if start.len() >= 3 && start[0] == '`' && start[1] == '`' && start[2] == '`' {
            assert(start.subrange(0, 3) =~= "```"@);
        }
        if text::starts_with(start, "```"@) {
            assert(start.subrange(0, 3)[0] == '`');
            assert(start.subrange(0, 3)[1] == '`');
            assert(start.subrange(0, 3)[2] == '`');
        }
        if core.len() == 3 && core[0] == '-' && core[1] == '-' && core[2] == '-' {
            assert(core =~= "---"@);
        }
    }
}

proof fn lemma_shown(s: Seq<char>)
    ensures
        text::trim(symbols::without_fences(s)) == symbols::without_fences(s),
{
    symbols::stripped_texts_are_trimmed(s);
}

/// The hover of an answer whose contents are a string is that string, stripped,
/// and there is none only where nothing is left of it.
pub proof fn string_hovers_are_shown(entries: Map<Seq<char>, JsonView>, s: Seq<char>)
    requires
        entries.contains_key("contents"@),
        entries["contents"@] == JsonView::Str(s),
    ensures
        symbols::without_fences(s).len() > 0 ==> symbols::hover_text(
            Some(JsonView::Object(entries)),
        ) == Some(symbols::without_fences(s)),
        symbols::without_fences(s).len() == 0 ==> symbols::hover_text(
            Some(JsonView::Object(entries)),
        ) is None,
{
    lemma_shown(s);
}

/// The hover of an answer whose contents are an object with a string at `value`
/// is that string, stripped, and there is none only where nothing is left of it.
/// What else stands in the object makes no difference.
pub proof fn object_hovers_are_shown(
    entries: Map<Seq<char>, JsonView>,
    contents: Map<Seq<char>, JsonView>,
    s: Seq<char>,
)
    requires
        entries.contains_key("contents"@),
        entries["contents"@] == JsonView::Object(contents),
        contents.contains_key("value"@),
        contents["value"@] == JsonView::Str(s),
    ensures
        symbols::without_fences(s).len() > 0 ==> symbols::hover_text(
            Some(JsonView::Object(entries)),
        ) == Some(symbols::without_fences(s)),
        symbols::without_fences(s).len() == 0 ==> symbols::hover_text(
            Some(JsonView::Object(entries)),
        ) is None,
{
    lemma_shown(s);
}

/// The hover of an answer whose contents are an array is made of every part
/// that is a string and of the string at `value` of every part that has one, in
/// order, with an empty line between them, and then stripped.
pub proof fn array_hovers_hold_every_part(
    entries: Map<Seq<char>, JsonView>,
    parts: Seq<JsonView>,
)
    requires
        entries.contains_key("contents"@),
        entries["contents"@] == JsonView::Array(parts),
    ensures
        ({
            let texts = parts.filter_map(
                |part: JsonView|
                    match part {
                        JsonView::Str(s) => Some(s),
                        JsonView::Object(part_entries) => if part_entries.contains_key("value"@) {
                            match part_entries["value"@] {
                                JsonView::Str(s) => Some(s),
                                _ => None::<Seq<char>>,
                            }
                        } else {
                            None::<Seq<char>>
                        },
                        _ => None::<Seq<char>>,
                    },
            );
            let shown = symbols::without_fences(text::join(texts, seq!['\n', '\n']));
            &&& shown.len() > 0 ==> symbols::hover_text(Some(JsonView::Object(entries))) == Some(
                shown,
            )
            &&& shown.len() == 0 ==> symbols::hover_text(Some(JsonView::Object(entries))) is None
        }),
{
    reveal_strlit("\n\n");
    assert("\n\n"@ =~= seq!['\n', '\n']);
    lemma_part_texts(parts);
    lemma_shown(text::join(symbols::part_texts(parts), "\n\n"@));
}

proof fn lemma_part_texts(parts: Seq<JsonView>)
    ensures
        symbols::part_texts(parts) == parts.filter_map(
            |part: JsonView|
                match part {
                    JsonView::Str(s) => Some(s),
                    JsonView::Object(part_entries) => if part_entries.contains_key("value"@) {
                        match part_entries["value"@] {
                            JsonView::Str(s) => Some(s),
                            _ => None::<Seq<char>>,
                        }
                    } else {
                        None::<Seq<char>>
                    },
                    _ => None::<Seq<char>>,
                },
        ),
    decreases parts.len(),
{
    let f = |part: JsonView|
        match part {
            JsonView::Str(s) => Some(s),
            JsonView::Object(part_entries) => if part_entries.contains_key("value"@) {
                match part_entries["value"@] {
                    JsonView::Str(s) => Some(s),
                    _ => None::<Seq<char>>,
                }
            } else {
                None::<Seq<char>>
            },
            _ => None::<Seq<char>>,
        };
    if parts.len() > 0 {
        lemma_part_texts(parts.drop_last());
        assert(symbols::part_text(parts.last()) == f(parts.last()));
        assert(symbols::part_texts(parts) =~= parts.filter_map(f));
    }
}

/// There is no hover without an answer, without contents, and where the
/// contents are neither a string, nor an array, nor an object with a string at
/// `value`.
pub proof fn other_hovers_are_missing(answer: JsonView)
    requires
        match answer {
            JsonView::Object(entries) => {
                entries.contains_key("contents"@) ==> match entries["contents"@] {
                    JsonView::Str(_) => false,
                    JsonView::Array(_) => false,
                    JsonView::Object(contents) => {
                        contents.contains_key("value"@) ==> !(contents["value"@] is Str)
                    },
                    _ => true,
                }
            },
            _ => true,
        },
    ensures
        symbols::hover_text(None) is None,
        symbols::hover_text(Some(answer)) is None,
{
    let none = Seq::<char>::empty();
    assert(symbols::contents_text(answer) =~= none);
    assert(text::lines(none) =~= Seq::<Seq<char>>::empty());
    assert(symbols::content_lines(text::lines(none)) =~= Seq::<Seq<char>>::empty());
    assert(text::join(Seq::<Seq<char>>::empty(), "\n"@) =~= none);
    lemma_trim_nothing();
}

proof fn lemma_trim_nothing()
    ensures
        text::trim(Seq::<char>::empty()) == Seq::<char>::empty(),
{
    assert(text::trim_start(Seq::<char>::empty()) =~= Seq::<char>::empty());
    assert(text::trim_end(Seq::<char>::empty()) =~= Seq::<char>::empty());
}

/// An object with a line and a character.
pub open spec fn is_place(json: JsonView, line: nat, character: nat) -> bool {
    json matches JsonView::Object(m) && m.contains_key("line"@) && m.contains_key("character"@)
        && m["line"@] == JsonView::Number(NumberView::Unsigned(line)) && m["character"@]
        == JsonView::Number(NumberView::Unsigned(character))
}

/// An object with some line and some character.
pub open spec fn has_place(json: JsonView) -> bool {
    json matches JsonView::Object(m) && m.contains_key("line"@) && m.contains_key("character"@) && (
    m["line"@] matches JsonView::Number(NumberView::Unsigned(_))) && (
    m["character"@] matches JsonView::Number(NumberView::Unsigned(_)))
}

/// A location gives a target exactly where it has a string as its URI that
/// leads to a path, and a range whose start and end both have a line and a
/// character. The plain names of the entries come before those of a location
/// link, which count only where the plain ones are missing. Each number of the
/// target is the one of the location as it fits in 32 bits.
pub proof fn locations_give_their_targets(
    root: Seq<char>,
    location: Map<Seq<char>, JsonView>,
    path: Seq<char>,
    start_line: nat,
    start_character: nat,
    end_line: nat,
    end_character: nat,
)
    requires
        ({
            let link = if location.contains_key("uri"@) {
                "uri"@
            } else {
                "targetUri"@
            };
            let span = if location.contains_key("range"@) {
                "range"@
            } else {
                "targetRange"@
            };
            &&& location.contains_key(link)
            &&& location[link] is Str
            &&& uri::uri_path(root, location[link]->Str_0) == Some(path)
            &&& location.contains_key(span)
            &&& location[span] matches JsonView::Object(range)
            &&& range.contains_key("start"@)
            &&& is_place(range["start"@], start_line, start_character)
            &&& range.contains_key("end"@)
            &&& is_place(range["end"@], end_line, end_character)
        }),
    ensures
        symbols::target_of(root, JsonView::Object(location)) == Some(
            TargetView {
                path,
                start_line: start_line % 4294967296,
                start_character: start_character % 4294967296,
                end_line: end_line % 4294967296,
                end_character: end_character % 4294967296,
            },
        ),
{
}

/// What gives a target is an object with a URI that leads to a path and with a
/// range whose start and end have a line and a character.
pub proof fn other_locations_give_nothing(root: Seq<char>, location: JsonView)
    requires
        symbols::target_of(root, location) is Some,
    ensures
        location is Object,
        ({
            let entries = location->Object_0;
            let link = if entries.contains_key("uri"@) {
                "uri"@
            } else {
                "targetUri"@
            };
            let span = if entries.contains_key("range"@) {
                "range"@
            } else {
                "targetRange"@
            };
            &&& entries.contains_key(link)
            &&& entries[link] is Str
            &&& uri::uri_path(root, entries[link]->Str_0) is Some
            &&& entries.contains_key(span)
            &&& entries[span] matches JsonView::Object(range)
            &&& range.contains_key("start"@)
            &&& has_place(range["start"@])
            &&& range.contains_key("end"@)
            &&& has_place(range["end"@])
        }),
{
}

/// The definitions in an answer that is an array are the targets of all its
/// locations that give one, in order. An answer that is a location by itself is
/// read as an array of that one. Anything else has none.
pub proof fn definitions_come_in_order(
    root: Seq<char>,
    items: Seq<JsonView>,
    entries: Map<Seq<char>, JsonView>,
    other: Option<JsonView>,
)
    requires
        other matches Some(json) ==> !(json is Array) && !(json is Object),
    ensures
        symbols::definition_targets(root, Some(JsonView::Array(items))) == items.filter_map(
            |item: JsonView| symbols::target_of(root, item),
        ),
        entries.contains_key("uri"@) || entries.contains_key("targetUri"@)
            ==> symbols::definition_targets(root, Some(JsonView::Object(entries)))
            == symbols::definition_targets(
            root,
            Some(JsonView::Array(seq![JsonView::Object(entries)])),
        ),
        !entries.contains_key("uri"@) && !entries.contains_key("targetUri"@)
            ==> symbols::definition_targets(root, Some(JsonView::Object(entries))).len() == 0,
        symbols::definition_targets(root, other).len() == 0,
{
    lemma_targets(root, items);
}

proof fn lemma_targets(root: Seq<char>, items: Seq<JsonView>)
    ensures
        symbols::targets_of(root, items) == items.filter_map(
            |item: JsonView| symbols::target_of(root, item),
        ),
    decreases items.len(),
{
    if items.len() > 0 {
        lemma_targets(root, items.drop_last());
        assert(symbols::targets_of(root, items) =~= items.filter_map(
            |item: JsonView| symbols::target_of(root, item),
        ));
    }
}

/// A target holds the places of its file that do not come before its start and
/// that come before its end, by line and then by character. A place is declared
/// by targets exactly where one of them holds it.
pub proof fn targets_hold_their_span(target: TargetView, place: PositionView, targets: Seq<TargetView>)
    ensures
        symbols::target_holds(target, place) <==> ({
            &&& target.path == place.path
            &&& target.start_line < place.line || (target.start_line == place.line
                && target.start_character <= place.character)
            &&& place.line < target.end_line || (place.line == target.end_line && place.character
                < target.end_character)
        }),
        symbols::is_declared(targets.push(target), place) <==> symbols::is_declared(targets, place)
            || symbols::target_holds(target, place),
        !symbols::is_declared(Seq::empty(), place),
{
    let more = targets.push(target);
    if symbols::is_declared(targets, place) {
        let i = choose|i: int|
            0 <= i < targets.len() && symbols::target_holds(#[trigger] targets[i], place);
        assert(symbols::target_holds(more[i], place));
    }
    if symbols::target_holds(target, place) {
        assert(symbols::target_holds(more[targets.len() as int], place));
    }
    if symbols::is_declared(more, place) {
        let i = choose|i: int|
            0 <= i < more.len() && symbols::target_holds(#[trigger] more[i], place);
        if i < targets.len() {
            assert(symbols::target_holds(targets[i], place));
        }
    }
}

} // verus!
