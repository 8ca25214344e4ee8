//! What a language server says of a symbol: hover texts and definitions.
use crate::json;
use crate::json::{Json, JsonView};
use crate::text;
use crate::text::{has_prefix, joined, line_list, same_text, trimmed, trimmed_start};
use crate::uri;
use crate::uri::rel_path_from_uri;
use vstd::prelude::*;
use vstd::string::*;

verus! {

/// A place in a document; lines and characters count from 0.
#[derive(Clone, Debug, PartialEq, Eq)]
pub struct LspPosition {
    pub path: String,
    pub line: u32,
    pub character: u32,
}

/// A range in a document; its end lies behind it.
#[derive(Clone, Debug, PartialEq, Eq)]
pub struct DefinitionTarget {
    pub path: String,
    pub start_line: u32,
    pub start_character: u32,
    pub end_line: u32,
    pub end_character: u32,
}

#[derive(Clone, Debug, PartialEq, Eq)]
pub struct HoverResult {
    pub text: String,
}

/// The model of an [`LspPosition`].
pub struct PositionView {
    pub path: Seq<char>,
    pub line: nat,
    pub character: nat,
}

impl View for LspPosition {
    type V = PositionView;

    open spec fn view(&self) -> PositionView {
        PositionView {
            path: self.path@,
            line: self.line as nat,
            character: self.character as nat,
        }
    }
}

/// The model of a [`DefinitionTarget`].
pub struct TargetView {
    pub path: Seq<char>,
    pub start_line: nat,
    pub start_character: nat,
    pub end_line: nat,
    pub end_character: nat,
}

impl View for DefinitionTarget {
    type V = TargetView;

    open spec fn view(&self) -> TargetView {
        TargetView {
            path: self.path@,
            start_line: self.start_line as nat,
            start_character: self.start_character as nat,
            end_line: self.end_line as nat,
            end_character: self.end_character as nat,
        }
    }
}

impl View for HoverResult {
    type V = Seq<char>;

    open spec fn view(&self) -> Seq<char> {
        self.text@
    }
}

/// The models of a list of targets.
pub open spec fn target_views(targets: Seq<DefinitionTarget>) -> Seq<TargetView> {
    Seq::new(targets.len(), |i: int| targets[i]@)
}

/// The text of a hover that may be missing.
pub open spec fn opt_hover(hover: Option<HoverResult>) -> Option<Seq<char>> {
    match hover {
        Some(h) => Some(h@),
        None => None,
    }
}

/// Whether a line is a fence of a code block or a rule.
pub open spec fn is_fence(line: Seq<char>) -> bool {
    text::starts_with(text::trim_start(line), "```"@) || text::trim(line) == "---"@
}

/// The lines that are neither a fence nor a rule.
pub open spec fn content_lines(lines: Seq<Seq<char>>) -> Seq<Seq<char>>
    decreases lines.len(),
{
    if lines.len() == 0 {
        Seq::empty()
    } else if is_fence(lines.last()) {
        content_lines(lines.drop_last())
    } else {
        content_lines(lines.drop_last()).push(lines.last())
    }
}

/// The text without fences and rules.
pub open spec fn without_fences(s: Seq<char>) -> Seq<char> {
    text::trim(text::join(content_lines(text::lines(s)), "\n"@))
}

/// The text without fences of code blocks, without rules, and without white
/// space on either side.
pub fn strip_markdown_fences(text: &str) -> (r: String)
    ensures
        r@ == without_fences(text@),
{
    let lines = line_list(text);
    let mut out: Vec<String> = Vec::new();
    let mut i: usize = 0;
    while i < lines.len()
        invariant
            i <= lines@.len(),
            text::texts(lines@) == text::lines(text@),
            text::texts(out@) == content_lines(text::texts(lines@).take(i as int)),
        decreases lines@.len() - i,
    {
        let ghost all = text::texts(lines@);
        let ghost before = out@;
        let line = lines[i].as_str();
        proof {
            assert(all.take(i + 1).drop_last() =~= all.take(i as int));
            assert(all.take(i + 1).last() == line@);
        }
        let fence = has_prefix(trimmed_start(line).as_str(), "```") || same_text(
            trimmed(line).as_str(),
            "---",
        );
        if !fence {
            let kept = line.to_owned();
            out.push(kept);
            proof {
                text::lemma_texts_push(before, kept);
            }
        }
        i = i + 1;
    }
    assert(text::texts(lines@).take(i as int) =~= text::texts(lines@));
    trimmed(joined(&out, "\n").as_str())
}

/// The text of one part of a hover that has several.
pub open spec fn part_text(part: JsonView) -> Option<Seq<char>> {
    match part {
        JsonView::Str(s) => Some(s),
        _ => json::str_at(part, "value"@),
    }
}

/// The texts of the parts of a hover.
pub open spec fn part_texts(parts: Seq<JsonView>) -> Seq<Seq<char>>
    decreases parts.len(),
{
    if parts.len() == 0 {
        Seq::empty()
    } else {
        match part_text(parts.last()) {
            Some(s) => part_texts(parts.drop_last()).push(s),
            None => part_texts(parts.drop_last()),
        }
    }
}

/// The text of the answer to a hover request.
pub open spec fn contents_text(result: JsonView) -> Seq<char> {
    match json::field(result, "contents"@) {
        Some(JsonView::Str(s)) => s,
        Some(JsonView::Array(parts)) => text::join(part_texts(parts), "\n\n"@),
        Some(contents) => match json::str_at(contents, "value"@) {
            Some(s) => s,
            None => Seq::empty(),
        },
        None => Seq::empty(),
    }
}

/// The hover text that an answer gives; nothing where there is none to show.
pub open spec fn hover_text(result: Option<JsonView>) -> Option<Seq<char>> {
    match result {
        Some(json) => {
            let s = without_fences(contents_text(json));
            if text::trim(s).len() == 0 {
                None
            } else {
                Some(s)
            }
        },
        None => None,
    }
}

fn joined_parts(parts: &Vec<Json>) -> (r: String)
    ensures
        r@ == text::join(part_texts(json::items_view(parts@)), "\n\n"@),
{
    let mut out: Vec<String> = Vec::new();
    let mut i: usize = 0;
    while i < parts.len()
        invariant
            i <= parts@.len(),
            text::texts(out@) == part_texts(json::items_view(parts@.take(i as int))),
        decreases parts@.len() - i,
    {
        let ghost before = out@;
        proof {
            assert(parts@.take(i + 1).drop_last() =~= parts@.take(i as int));
            let views = json::items_view(parts@.take(i as int));
            assert(views.push(parts@[i as int]@).drop_last() =~= views);
        }
        let part = &parts[i];
        let text = match part {
            Json::Str(s) => Some(s.as_str()),
            _ => part.str_at("value"),
        };
        if let Some(s) = text {
            let kept = s.to_owned();
            out.push(kept);
            proof {
                text::lemma_texts_push(before, kept);
            }
        }
        i = i + 1;
    }
    assert(parts@.take(i as int) =~= parts@);
    joined(&out, "\n\n")
}

/// The hover text that an answer gives; nothing where there is none to show.
pub fn hover_from(result: Option<&Json>) -> (r: Option<HoverResult>)
    ensures
        opt_hover(r) == hover_text(
            match result {
                Some(json) => Some(json@),
                None => None,
            },
        ),
{
    let result = match result {
        Some(result) => result,
        None => {
            return None;
        },
    };
    let contents = match result.get("contents") {
        Some(Json::Str(s)) => s.clone(),
        Some(Json::Array(parts)) => joined_parts(parts),
        Some(contents) => match contents.str_at("value") {
            Some(s) => s.to_owned(),
            None => String::new(),
        },
        None => String::new(),
    };
    let text = strip_markdown_fences(contents.as_str());
    if trimmed(text.as_str()).as_str().is_empty() {
        None
    } else {
        Some(HoverResult { text })
    }
}

/// The entry at a key, or else the one at another.
pub open spec fn either_field(json: JsonView, key: Seq<char>, other: Seq<char>) -> Option<JsonView> {
    match json::field(json, key) {
        Some(v) => Some(v),
        None => json::field(json, other),
    }
}

fn get_either<'a>(json: &'a Json, key: &str, other: &str) -> (r: Option<&'a Json>)
    ensures
        match r {
            Some(v) => either_field(json@, key@, other@) == Some(v@),
            None => either_field(json@, key@, other@) is None,
        },
{
    match json.get(key) {
        Some(v) => Some(v),
        None => json.get(other),
    }
}

/// A place of a range; coordinates are taken modulo 2^32.
pub open spec fn place_of(json: JsonView) -> Option<(nat, nat)> {
    match (json::nat_at(json, "line"@), json::nat_at(json, "character"@)) {
        (Some(line), Some(character)) => Some(
            (line % 0x1_0000_0000, character % 0x1_0000_0000),
        ),
        _ => None,
    }
}

fn place_from(json: &Json) -> (r: Option<(u32, u32)>)
    ensures
        match r {
            Some((line, character)) => place_of(json@) == Some((line as nat, character as nat)),
            None => place_of(json@) is None,
        },
{
    match (json.u64_at("line"), json.u64_at("character")) {
        (Some(line), Some(character)) => Some(
            ((line % 0x1_0000_0000) as u32, (character % 0x1_0000_0000) as u32),
        ),
        _ => None,
    }
}

/// The range in a document below the root that a location or a link names.
pub open spec fn target_of(root: Seq<char>, location: JsonView) -> Option<TargetView> {
    match (
        either_field(location, "uri"@, "targetUri"@),
        either_field(location, "range"@, "targetRange"@),
    ) {
        (Some(JsonView::Str(uri)), Some(range)) => match (
            json::field(range, "start"@),
            json::field(range, "end"@),
            uri::uri_path(root, uri),
        ) {
            (Some(start), Some(end), Some(path)) => match (place_of(start), place_of(end)) {
                (Some((start_line, start_character)), Some((end_line, end_character))) => Some(
                    TargetView { path, start_line, start_character, end_line, end_character },
                ),
                _ => None,
            },
            _ => None,
        },
        _ => None,
    }
}

/// The range in a document below the root that a location or a link names.
pub fn definition_from_location(root: &str, location: &Json) -> (r: Option<DefinitionTarget>)
    ensures
        match r {
            Some(target) => target_of(root@, location@) == Some(target@),
            None => target_of(root@, location@) is None,
        },
{
    let uri = match get_either(location, "uri", "targetUri") {
        Some(Json::Str(uri)) => uri,
        _ => {
            return None;
        },
    };
    let range = match get_either(location, "range", "targetRange") {
        Some(range) => range,
        None => {
            return None;
        },
    };
    match (range.get("start"), range.get("end"), rel_path_from_uri(root, uri.as_str())) {
        (Some(start), Some(end), Some(path)) => match (place_from(start), place_from(end)) {
            (Some((start_line, start_character)), Some((end_line, end_character))) => Some(
                DefinitionTarget { path, start_line, start_character, end_line, end_character },
            ),
            _ => None,
        },
        _ => None,
    }
}

/// The targets that some locations name, in their order.
pub open spec fn targets_of(root: Seq<char>, locations: Seq<JsonView>) -> Seq<TargetView>
    decreases locations.len(),
{
    if locations.len() == 0 {
        Seq::empty()
    } else {
        let before = targets_of(root, locations.drop_last());
        match target_of(root, locations.last()) {
            Some(target) => before.push(target),
            None => before,
        }
    }
}

/// The targets of the answer to a definition request: a list of locations, or
/// one alone.
pub open spec fn definition_targets(root: Seq<char>, result: Option<JsonView>) -> Seq<TargetView> {
    match result {
        Some(JsonView::Array(items)) => targets_of(root, items),
        Some(JsonView::Object(entries)) => if entries.contains_key("targetUri"@)
            || entries.contains_key("uri"@) {
            targets_of(root, seq![JsonView::Object(entries)])
        } else {
            Seq::empty()
        },
        _ => Seq::empty(),
    }
}

/// The targets of the answer to a definition request.
pub fn definitions_from(root: &str, result: Option<&Json>) -> (r: Vec<DefinitionTarget>)
    ensures
        target_views(r@) == definition_targets(
            root@,
            match result {
                Some(json) => Some(json@),
                None => None,
            },
        ),
{
    let mut out: Vec<DefinitionTarget> = Vec::new();
    let result = match result {
        Some(result) => result,
        None => {
            return out;
        },
    };
    match result {
        Json::Array(items) => {
            let mut i: usize = 0;
            while i < items.len()
                invariant
                    i <= items@.len(),
                    target_views(out@) == targets_of(
                        root@,
                        json::items_view(items@.take(i as int)),
                    ),
                decreases items@.len() - i,
            {
                let ghost before = out@;
                proof {
                    assert(items@.take(i + 1).drop_last() =~= items@.take(i as int));
                    let views = json::items_view(items@.take(i as int));
                    assert(views.push(items@[i as int]@).drop_last() =~= views);
                }
                if let Some(target) = definition_from_location(root, &items[i]) {
                    out.push(target);
                    proof {
                        assert(target_views(out@) =~= target_views(before).push(target@));
                    }
                }
                i = i + 1;
            }
            assert(items@.take(i as int) =~= items@);
            out
        },
        Json::Object(_) => {
            if result.get("targetUri").is_some() || result.get("uri").is_some() {
                if let Some(target) = definition_from_location(root, result) {
                    out.push(target);
                }
                proof {
                    reveal_with_fuel(targets_of, 2);
                    let list = seq![result@];
                    assert(list.drop_last() =~= Seq::<JsonView>::empty());
                    assert(target_views(out@) =~= targets_of(root@, list));
                }
            }
            out
        },
        _ => out,
    }
}

/// Whether a range holds a place: at its start or behind it, and before its end.
pub open spec fn target_holds(target: TargetView, place: PositionView) -> bool {
    &&& target.path == place.path
    &&& target.start_line <= place.line <= target.end_line
    &&& place.line == target.start_line ==> place.character >= target.start_character
    &&& place.line == target.end_line ==> place.character < target.end_character
}

/// Whether a range holds a place.
pub fn target_contains_position(target: &DefinitionTarget, pos: &LspPosition) -> (r: bool)
    ensures
        r == target_holds(target@, pos@),
{
    if !same_text(target.path.as_str(), pos.path.as_str()) || pos.line < target.start_line
        || pos.line > target.end_line {
        return false;
    }
    let after_start = pos.line > target.start_line || pos.character >= target.start_character;
    let before_end = pos.line < target.end_line || pos.character < target.end_character;
    after_start && before_end
}

/// Whether a place lies in one of the ranges.
pub open spec fn is_declared(targets: Seq<TargetView>, place: PositionView) -> bool {
    exists|i: int| 0 <= i < targets.len() && target_holds(#[trigger] targets[i], place)
}

/// Whether a place lies in one of the ranges.
pub fn declares(targets: &Vec<DefinitionTarget>, pos: &LspPosition) -> (r: bool)
    ensures
        r == is_declared(target_views(targets@), pos@),
{
    let mut i: usize = 0;
    while i < targets.len()
        invariant
            i <= targets@.len(),
            forall|j: int| 0 <= j < i ==> !target_holds(target_views(targets@)[j], pos@),
        decreases targets@.len() - i,
    {
        if target_contains_position(&targets[i], pos) {
            proof {
                assert(target_holds(target_views(targets@)[i as int], pos@));
            }
            return true;
        }
        i = i + 1;
    }
    false
}

/// What a hover needs next.
pub enum HoverStep {
    /// Ask where the symbol is defined.
    AskDefinition,
    /// This is the answer.
    Done(Option<HoverResult>),
}

/// A hover that is being looked up: first its text, then the definitions of
/// the symbol, as a hover on a declaration says nothing new.
pub struct HoverLookup {
    pub position: LspPosition,
    pub hover: Option<HoverResult>,
}

impl HoverLookup {
    /// A lookup that waits for the text.
    pub fn new(position: LspPosition) -> (r: Self)
        ensures
            r.position == position,
            r.hover is None,
    {
        HoverLookup { position, hover: None }
    }

    /// A lookup that has waited in a queue. One that was canceled meanwhile is
    /// not begun, and its answer is that there is nothing to show.
    pub fn queued(position: LspPosition, canceled: bool) -> (r: Option<Self>)
        ensures
            canceled ==> r is None,
            !canceled ==> r is Some && r->0.position == position && r->0.hover is None,
    {
        if canceled {
            None
        } else {
            Some(HoverLookup::new(position))
        }
    }

    /// Take in the answer to the hover request.
    pub fn text(&mut self, result: Option<&Json>) -> (r: HoverStep)
        ensures
            final(self).position == old(self).position,
            ({
                let found = hover_text(
                    match result {
                        Some(json) => Some(json@),
                        None => None,
                    },
                );
                match found {
                    None => r == HoverStep::Done(None) && final(self).hover == old(self).hover,
                    Some(s) => r is AskDefinition && opt_hover(final(self).hover) == Some(s),
                }
            }),
    {
        match hover_from(result) {
            None => HoverStep::Done(None),
            Some(hover) => {
                self.hover = Some(hover);
                HoverStep::AskDefinition
            },
        }
    }

    /// Take in the answer to the definition request.
    pub fn definitions(self, root: &str, result: Option<&Json>) -> (r: Option<HoverResult>)
        ensures
            ({
                let targets = definition_targets(
                    root@,
                    match result {
                        Some(json) => Some(json@),
                        None => None,
                    },
                );
                r == if is_declared(targets, self.position@) {
                    None
                } else {
                    self.hover
                }
            }),
    {
        let targets = definitions_from(root, result);
        if declares(&targets, &self.position) {
            None
        } else {
            self.hover
        }
    }
}

/// Whether what is left of a line between its white space makes it a fence.
spec fn is_fence_core(s: Seq<char>) -> bool {
    text::starts_with(s, "```"@) || s == "---"@
}

/// Whether no part of a text between line breaks is a fence.
spec fn is_clean(s: Seq<char>) -> bool
    decreases s.len(),
{
    let n = text::find_char(s, '\n');
    if 0 <= n < s.len() {
        !is_fence_core(text::trim(s.take(n))) && is_clean(s.skip(n + 1))
    } else {
        !is_fence_core(text::trim(s))
    }
}

proof fn lemma_trim_end_prefix(s: Seq<char>)
    ensures
        text::trim_end(s).len() <= s.len(),
        text::trim_end(s) == s.take(text::trim_end(s).len() as int),
        forall|i: int| text::trim_end(s).len() <= i < s.len() ==> text::is_space(#[trigger] s[i]),
    decreases s.len(),
{
    if s.len() > 0 && text::is_space(s.last()) {
        lemma_trim_end_prefix(s.drop_last());
        let n = text::trim_end(s).len() as int;
        assert(s.drop_last().take(n) =~= s.take(n));
        assert forall|i: int| n <= i < s.len() implies text::is_space(#[trigger] s[i]) by {
            if i < s.len() - 1 {
                assert(s.drop_last()[i] == s[i]);
            }
        }
    } else {
        assert(s.take(s.len() as int) =~= s);
    }
}

proof fn lemma_fence_core(line: Seq<char>)
    ensures
        is_fence(line) == is_fence_core(text::trim(line)),
{
    reveal_strlit("```");
    let x = text::trim_start(line);
    let y = text::trim(line);
    lemma_trim_end_prefix(x);
    let fence = "```"@;
    if text::starts_with(x, fence) {
        assert(x.take(3)[2] == '`');
        assert(!text::is_space(x[2]));
        assert(y.take(3) =~= x.take(3));
    }
    if text::starts_with(y, fence) {
        assert(y.take(3) =~= x.take(3));
    }
}

proof fn lemma_trim_drop_last(s: Seq<char>)
    requires
        s.len() > 0,
        text::is_space(s.last()),
    ensures
        text::trim(s.drop_last()) == text::trim(s),
    decreases s.len(),
{
    if text::is_space(s[0]) {
        if s.len() == 1 {
            assert(s.skip(1) =~= s.drop_last());
            assert(s.drop_last().len() == 0);
        } else {
            let rest = s.skip(1);
            assert(rest.last() == s.last());
            lemma_trim_drop_last(rest);
            assert(s.drop_last().skip(1) =~= rest.drop_last());
            assert(s.drop_last()[0] == s[0]);
        }
    } else {
        assert(s.len() >= 2);
        assert(s.drop_last()[0] == s[0]);
    }
}

proof fn lemma_clean_skip(s: Seq<char>)
    requires
        s.len() > 0,
        text::is_space(s[0]),
        is_clean(s),
    ensures
        is_clean(s.skip(1)),
{
    let n = text::find_char(s, '\n');
    let rest = s.skip(1);
    text::lemma_find_char(s, '\n');
    if n > 0 {
        assert forall|i: int| 0 <= i < n - 1 implies rest[i] != '\n' by {
            assert(s[i + 1] != '\n');
        }
        text::lemma_find_char_is(rest, '\n', n - 1);
        if n < s.len() {
            assert(rest.take(n - 1) =~= s.take(n).skip(1));
            assert(s.take(n)[0] == s[0]);
            assert(rest.skip(n) =~= s.skip(n + 1));
        }
    }
}

proof fn lemma_clean_drop_last(s: Seq<char>)
    requires
        s.len() > 0,
        text::is_space(s.last()),
        is_clean(s),
    ensures
        is_clean(s.drop_last()),
    decreases s.len(),
{
    let n = text::find_char(s, '\n');
    let front = s.drop_last();
    text::lemma_find_char(s, '\n');
    assert forall|i: int| 0 <= i < n && i < front.len() implies front[i] != '\n' by {
        assert(s[i] != '\n');
    }
    if n < s.len() - 1 {
        text::lemma_find_char_is(front, '\n', n);
        let rest = s.skip(n + 1);
        assert(rest.last() == s.last());
        lemma_clean_drop_last(rest);
        assert(front.skip(n + 1) =~= rest.drop_last());
        assert(front.take(n) =~= s.take(n));
    } else {
        text::lemma_find_char_is(front, '\n', front.len() as int);
        if n == s.len() - 1 {
            assert(front =~= s.take(n));
        } else {
            lemma_trim_drop_last(s);
        }
    }
}

proof fn lemma_clean_trim_start(s: Seq<char>)
    requires
        is_clean(s),
    ensures
        is_clean(text::trim_start(s)),
    decreases s.len(),
{
    if s.len() > 0 && text::is_space(s[0]) {
        lemma_clean_skip(s);
        lemma_clean_trim_start(s.skip(1));
    }
}

proof fn lemma_clean_trim_end(s: Seq<char>)
    requires
        is_clean(s),
    ensures
        is_clean(text::trim_end(s)),
    decreases s.len(),
{
    if s.len() > 0 && text::is_space(s.last()) {
        lemma_clean_drop_last(s);
        lemma_clean_trim_end(s.drop_last());
    }
}

/// A clean text with a clean line behind it is clean.
proof fn lemma_clean_append(s: Seq<char>, line: Seq<char>)
    requires
        is_clean(s),
        !line.contains('\n'),
        !is_fence(line),
    ensures
        is_clean(s + seq!['\n'] + line),
    decreases s.len(),
{
    let all = s + seq!['\n'] + line;
    let n = text::find_char(s, '\n');
    text::lemma_find_char(s, '\n');
    assert forall|i: int| 0 <= i < n implies all[i] != '\n' by {
        assert(all[i] == s[i]);
    }
    text::lemma_find_char_is(all, '\n', n);
    assert(all.take(n) =~= s.take(n));
    if n < s.len() {
        lemma_clean_append(s.skip(n + 1), line);
        assert(all.skip(n + 1) =~= s.skip(n + 1) + seq!['\n'] + line);
    } else {
        assert(s.take(n) =~= s);
        assert(all.skip(n + 1) =~= line);
        lemma_clean_line(line);
    }
}

proof fn lemma_clean_line(line: Seq<char>)
    requires
        !line.contains('\n'),
        !is_fence(line),
    ensures
        is_clean(line),
{
    lemma_fence_core(line);
    assert forall|i: int| 0 <= i < line.len() implies line[i] != '\n' by {
        assert(line.contains(line[i]));
    }
    text::lemma_find_char_is(line, '\n', line.len() as int);
}

proof fn lemma_lines_have_no_breaks(s: Seq<char>, i: int)
    requires
        0 <= i < text::lines(s).len(),
    ensures
        !text::lines(s)[i].contains('\n'),
    decreases s.len(),
{
    text::lemma_find_char(s, '\n');
    let n = text::find_char(s, '\n');
    if n < s.len() {
        let first = text::strip_cr(s.take(n));
        if i == 0 {
            assert forall|k: int| 0 <= k < first.len() implies first[k] != '\n' by {
                assert(first[k] == s[k]);
            }
            assert(text::lines(s)[0] == first);
        } else {
            lemma_lines_have_no_breaks(s.skip(n + 1), i - 1);
            assert(text::lines(s)[i] == text::lines(s.skip(n + 1))[i - 1]);
        }
    }
}

proof fn lemma_clean_contents(lines: Seq<Seq<char>>)
    requires
        forall|i: int| 0 <= i < lines.len() ==> !(#[trigger] lines[i]).contains('\n'),
    ensures
        is_clean(text::join(content_lines(lines), "\n"@)),
        content_lines(lines).len() == 0 ==> text::join(content_lines(lines), "\n"@).len() == 0,
    decreases lines.len(),
{
    reveal_strlit("\n");
    assert("\n"@ =~= seq!['\n']);
    let kept = content_lines(lines);
    if lines.len() == 0 {
        lemma_nothing_is_clean();
    } else {
        let front = lines.drop_last();
        assert forall|i: int| 0 <= i < front.len() implies !(#[trigger] front[i]).contains('\n') by {
            assert(front[i] == lines[i]);
        }
        lemma_clean_contents(front);
        let last = lines.last();
        if !is_fence(last) {
            assert(!lines[lines.len() - 1].contains('\n'));
            let before = content_lines(front);
            assert(kept.drop_last() =~= before);
            if kept.len() == 1 {
                lemma_clean_line(last);
            } else {
                lemma_clean_append(text::join(before, "\n"@), last);
            }
        }
    }
}

proof fn lemma_nothing_is_clean()
    ensures
        is_clean(Seq::empty()),
{
    reveal_strlit("```");
    reveal_strlit("---");
    assert("---"@.len() == 3);
    assert(text::trim(Seq::<char>::empty()) =~= Seq::<char>::empty());
}

proof fn lemma_lines_of_clean(s: Seq<char>, i: int)
    requires
        is_clean(s),
        0 <= i < text::lines(s).len(),
    ensures
        !is_fence(text::lines(s)[i]),
    decreases s.len(),
{
    text::lemma_find_char(s, '\n');
    let n = text::find_char(s, '\n');
    if n < s.len() {
        if i == 0 {
            let whole = s.take(n);
            let first = text::strip_cr(whole);
            if whole.len() > 0 && whole.last() == '\r' {
                lemma_trim_drop_last(whole);
            }
            lemma_fence_core(first);
            assert(text::lines(s)[0] == first);
        } else {
            lemma_lines_of_clean(s.skip(n + 1), i - 1);
            assert(text::lines(s)[i] == text::lines(s.skip(n + 1))[i - 1]);
        }
    } else {
        lemma_fence_core(s);
    }
}

/// No line of a stripped text is a fence or a rule.
pub proof fn no_fence_is_left(s: Seq<char>)
    ensures
        forall|i: int|
            0 <= i < text::lines(without_fences(s)).len() ==> !is_fence(
                #[trigger] text::lines(without_fences(s))[i],
            ),
{
    let lines = text::lines(s);
    assert forall|i: int| 0 <= i < lines.len() implies !(#[trigger] lines[i]).contains('\n') by {
        lemma_lines_have_no_breaks(s, i);
    }
    lemma_clean_contents(lines);
    let joined = text::join(content_lines(lines), "\n"@);
    lemma_clean_trim_start(joined);
    lemma_clean_trim_end(text::trim_start(joined));
    let t = without_fences(s);
    assert forall|i: int| 0 <= i < text::lines(t).len() implies !is_fence(
        #[trigger] text::lines(t)[i],
    ) by {
        lemma_lines_of_clean(t, i);
    }
}

proof fn lemma_trim_start_suffix(s: Seq<char>)
    ensures
        text::trim_start(s).len() <= s.len(),
        text::trim_start(s) == s.skip(s.len() - text::trim_start(s).len()),
        text::trim_start(s).len() > 0 ==> !text::is_space(text::trim_start(s)[0]),
    decreases s.len(),
{
    if s.len() > 0 && text::is_space(s[0]) {
        let rest = s.skip(1);
        lemma_trim_start_suffix(rest);
        let n = text::trim_start(s).len();
        assert(rest.skip(rest.len() - n) =~= s.skip(s.len() - n));
    } else {
        assert(s.skip(0) =~= s);
    }
}

proof fn lemma_trim_end_stops(s: Seq<char>)
    ensures
        text::trim_end(s).len() > 0 ==> !text::is_space(text::trim_end(s).last()),
    decreases s.len(),
{
    if s.len() > 0 && text::is_space(s.last()) {
        lemma_trim_end_stops(s.drop_last());
    }
}

/// A trimmed text has no white space on either side, and trimming it again
/// changes nothing.
proof fn lemma_trim_again(s: Seq<char>)
    ensures
        text::trim(text::trim(s)) == text::trim(s),
        text::trim(s).len() > 0 ==> !text::is_space(text::trim(s).last()),
{
    let x = text::trim_start(s);
    let y = text::trim(s);
    lemma_trim_start_suffix(s);
    lemma_trim_end_prefix(x);
    lemma_trim_end_stops(x);
    if y.len() > 0 {
        assert(y[0] == x[0]);
    }
    assert(text::trim_start(y) == y);
}

/// Nothing is filtered from lines without fences.
proof fn lemma_content_of_clean(lines: Seq<Seq<char>>)
    requires
        forall|i: int| 0 <= i < lines.len() ==> !is_fence(#[trigger] lines[i]),
    ensures
        content_lines(lines) == lines,
    decreases lines.len(),
{
    if lines.len() > 0 {
        let front = lines.drop_last();
        assert forall|i: int| 0 <= i < front.len() implies !is_fence(#[trigger] front[i]) by {
            assert(front[i] == lines[i]);
        }
        lemma_content_of_clean(front);
        assert(!is_fence(lines[lines.len() - 1]));
        assert(front.push(lines.last()) =~= lines);
    } else {
        assert(lines =~= Seq::empty());
    }
}

/// Whether a carriage return stands before a line feed.
pub open spec fn has_crlf(s: Seq<char>) -> bool {
    exists|i: int| 0 <= i < s.len() - 1 && #[trigger] s[i] == '\r' && s[i + 1] == '\n'
}

/// Joining the lines of a text gives it back, if it does not end with a line
/// feed and breaks its lines with line feeds alone.
proof fn lemma_join_lines(s: Seq<char>)
    requires
        s.len() > 0 ==> s.last() != '\n',
        !has_crlf(s),
    ensures
        text::join(text::lines(s), "\n"@) == s,
        s.len() > 0 ==> text::lines(s).len() > 0,
    decreases s.len(),
{
    reveal_strlit("\n");
    assert("\n"@ =~= seq!['\n']);
    let n = text::find_char(s, '\n');
    text::lemma_find_char(s, '\n');
    if s.len() > 0 && n < s.len() {
        let first = s.take(n);
        let rest = s.skip(n + 1);
        if n > 0 {
            assert(first.last() == s[n - 1]);
            assert(s[n - 1] != '\r');
        }
        assert(text::strip_cr(first) == first);
        assert(n < s.len() - 1);
        assert(rest.last() == s.last());
        if has_crlf(rest) {
            let i = choose|i: int|
                0 <= i < rest.len() - 1 && #[trigger] rest[i] == '\r' && rest[i + 1] == '\n';
            assert(s[n + 1 + i] == '\r' && s[n + 1 + i + 1] == '\n');
        }
        lemma_join_lines(rest);
        let all = text::lines(s);
        assert(all =~= seq![first] + text::lines(rest));
        text::lemma_join_front(all, "\n"@);
        assert(all.skip(1) =~= text::lines(rest));
        assert(first + seq!['\n'] + rest =~= s);
    } else if s.len() > 0 {
        assert(text::lines(s).len() == 1);
    } else {
        assert(text::join(text::lines(s), "\n"@) =~= s);
    }
}

/// A stripped text is trimmed.
pub proof fn stripped_texts_are_trimmed(s: Seq<char>)
    ensures
        text::trim(without_fences(s)) == without_fences(s),
{
    lemma_trim_again(text::join(content_lines(text::lines(s)), "\n"@));
}

/// Stripping a stripped text again changes nothing, unless a carriage return
/// stands before a line feed in it, which then counts as part of the line
/// break.
pub proof fn stripping_again_changes_nothing(s: Seq<char>)
    requires
        !has_crlf(without_fences(s)),
    ensures
        without_fences(without_fences(s)) == without_fences(s),
{
    let t = without_fences(s);
    no_fence_is_left(s);
    lemma_content_of_clean(text::lines(t));
    lemma_trim_again(text::join(content_lines(text::lines(s)), "\n"@));
    lemma_join_lines(t);
}

proof fn lemma_lines_lack(s: Seq<char>, c: char, i: int)
    requires
        !s.contains(c),
        0 <= i < text::lines(s).len(),
    ensures
        !text::lines(s)[i].contains(c),
    decreases s.len(),
{
    text::lemma_find_char(s, '\n');
    let n = text::find_char(s, '\n');
    if n < s.len() {
        let first = text::strip_cr(s.take(n));
        let rest = s.skip(n + 1);
        if i == 0 {
            assert forall|k: int| 0 <= k < first.len() implies first[k] != c by {
                assert(s.contains(s[k]));
            }
            assert(text::lines(s)[0] == first);
        } else {
            assert forall|k: int| 0 <= k < rest.len() implies rest[k] != c by {
                assert(s.contains(s[n + 1 + k]));
            }
            lemma_lines_lack(rest, c, i - 1);
            assert(text::lines(s)[i] == text::lines(rest)[i - 1]);
        }
    }
}

proof fn lemma_join_lacks(lines: Seq<Seq<char>>, c: char)
    requires
        forall|i: int| 0 <= i < lines.len() ==> !(#[trigger] lines[i]).contains(c),
        c != '\n',
    ensures
        !text::join(content_lines(lines), "\n"@).contains(c),
    decreases lines.len(),
{
    reveal_strlit("\n");
    assert("\n"@ =~= seq!['\n']);
    if lines.len() > 0 {
        let front = lines.drop_last();
        assert forall|i: int| 0 <= i < front.len() implies !(#[trigger] front[i]).contains(c) by {
            assert(front[i] == lines[i]);
        }
        lemma_join_lacks(front, c);
        let last = lines.last();
        assert(!lines[lines.len() - 1].contains(c));
        if !is_fence(last) {
            let before = content_lines(front);
            let kept = content_lines(lines);
            assert(kept.drop_last() =~= before);
            let whole = text::join(kept, "\n"@);
            if kept.len() > 1 {
                let head = text::join(before, "\n"@);
                assert(whole == head + "\n"@ + last);
                assert forall|k: int| 0 <= k < whole.len() implies whole[k] != c by {
                    if k < head.len() {
                        assert(head.contains(head[k]));
                    } else if k > head.len() {
                        assert(last.contains(last[k - head.len() - 1]));
                    }
                }
            }
        }
    }
}

/// Stripping a stripped text again changes nothing, for every text without a
/// carriage return.
pub proof fn stripping_plain_lines_again_changes_nothing(s: Seq<char>)
    requires
        !s.contains('\r'),
    ensures
        without_fences(without_fences(s)) == without_fences(s),
{
    let lines = text::lines(s);
    assert forall|i: int| 0 <= i < lines.len() implies !(#[trigger] lines[i]).contains('\r') by {
        lemma_lines_lack(s, '\r', i);
    }
    lemma_join_lacks(lines, '\r');
    let joined = text::join(content_lines(lines), "\n"@);
    let x = text::trim_start(joined);
    let t = without_fences(s);
    lemma_trim_start_suffix(joined);
    lemma_trim_end_prefix(x);
    if has_crlf(t) {
        let i = choose|i: int|
            0 <= i < t.len() - 1 && #[trigger] t[i] == '\r' && t[i + 1] == '\n';
        assert(t[i] == x[i]);
        assert(x[i] == joined[joined.len() - x.len() + i]);
        assert(joined.contains('\r'));
    }
    stripping_again_changes_nothing(s);
}

} // verus!
