//! JSON trees, read and written with `serde_json`.
use crate::text::same_text;
use vstd::prelude::*;
use vstd::string::*;

verus! {

/// A JSON value as `serde_json` holds it.
#[verifier::external_type_specification]
#[verifier::external_body]
pub struct ExValue(serde_json::Value);

/// A JSON number as `serde_json` holds it.
#[verifier::external_type_specification]
#[verifier::external_body]
pub struct ExNumber(serde_json::Number);

/// Why `serde_json` could not read or write a value.
#[verifier::external_type_specification]
#[verifier::external_body]
pub struct ExJsonError(serde_json::Error);

/// A JSON number: one that this program writes, or one that was read.
#[derive(Debug, PartialEq)]
pub enum JsonNumber {
    Unsigned(u64),
    Signed(i64),
    Parsed(serde_json::Number),
}

/// A JSON value. The last entry for a key is the one that counts.
#[derive(Debug, PartialEq)]
pub enum Json {
    Null,
    Bool(bool),
    Number(JsonNumber),
    Str(String),
    Array(Vec<Json>),
    Object(Vec<(String, Json)>),
}

/// The model of a number: an integer, or a number with a fraction or an
/// exponent, which nothing here looks into.
pub enum NumberView {
    Unsigned(nat),
    Negative(int),
    Fraction(serde_json::Number),
}

/// The model of a JSON value.
pub enum JsonView {
    Null,
    Bool(bool),
    Number(NumberView),
    Str(Seq<char>),
    Array(Seq<JsonView>),
    Object(Map<Seq<char>, JsonView>),
}

/// What number a `serde_json::Number` is.
pub uninterp spec fn number_model(number: serde_json::Number) -> NumberView;

/// What a `serde_json::Value` holds.
pub uninterp spec fn value_model(value: serde_json::Value) -> JsonView;

/// What `serde_json::from_str` reads from a text; nothing where it is no JSON.
pub uninterp spec fn json_of_text(text: Seq<char>) -> Option<JsonView>;

/// What `serde_json::from_slice` reads from bytes; nothing where they are no JSON.
pub uninterp spec fn json_of_bytes(bytes: Seq<u8>) -> Option<JsonView>;

/// The bytes that `serde_json::to_vec` writes for a value.
pub uninterp spec fn json_encoding(value: JsonView) -> Seq<u8>;

impl View for JsonNumber {
    type V = NumberView;

    open spec fn view(&self) -> NumberView {
        match *self {
            JsonNumber::Unsigned(n) => NumberView::Unsigned(n as nat),
            JsonNumber::Signed(n) => if n < 0 {
                NumberView::Negative(n as int)
            } else {
                NumberView::Unsigned(n as nat)
            },
            JsonNumber::Parsed(n) => number_model(n),
        }
    }
}

/// The models of a list of values.
pub open spec fn items_view(items: Seq<Json>) -> Seq<JsonView>
    decreases items,
{
    if items.len() == 0 {
        Seq::empty()
    } else {
        items_view(items.drop_last()).push(json_view(items.last()))
    }
}

/// The model of the entries of an object.
pub open spec fn entries_view(entries: Seq<(String, Json)>) -> Map<Seq<char>, JsonView>
    decreases entries,
{
    if entries.len() == 0 {
        Map::empty()
    } else {
        entries_view(entries.drop_last()).insert(entries.last().0@, json_view(entries.last().1))
    }
}

/// The model of a JSON value.
pub open spec fn json_view(json: Json) -> JsonView
    decreases json,
{
    match json {
        Json::Null => JsonView::Null,
        Json::Bool(b) => JsonView::Bool(b),
        Json::Number(n) => JsonView::Number(n@),
        Json::Str(s) => JsonView::Str(s@),
        Json::Array(items) => JsonView::Array(items_view(items@)),
        Json::Object(entries) => JsonView::Object(entries_view(entries@)),
    }
}

impl View for Json {
    type V = JsonView;

    open spec fn view(&self) -> JsonView {
        json_view(*self)
    }
}

/// One level of a `serde_json::Value`.
enum Node {
    Null,
    Bool(bool),
    Number(JsonNumber),
    Str(String),
    Array(Vec<serde_json::Value>),
    Object(Vec<(String, serde_json::Value)>),
}

/// The models of the entries of one level.
spec fn node_entries(entries: Seq<(String, serde_json::Value)>) -> Map<Seq<char>, JsonView>
    decreases entries.len(),
{
    if entries.len() == 0 {
        Map::empty()
    } else {
        node_entries(entries.drop_last()).insert(entries.last().0@, value_model(entries.last().1))
    }
}

/// The model of one level.
spec fn node_view(node: Node) -> JsonView {
    match node {
        Node::Null => JsonView::Null,
        Node::Bool(b) => JsonView::Bool(b),
        Node::Number(n) => JsonView::Number(n@),
        Node::Str(s) => JsonView::Str(s@),
        Node::Array(items) => JsonView::Array(
            Seq::new(items@.len(), |i: int| value_model(items@[i])),
        ),
        Node::Object(entries) => JsonView::Object(node_entries(entries@)),
    }
}

/// Whether no key occurs twice.
spec fn distinct_keys(entries: Seq<(String, serde_json::Value)>) -> bool {
    forall|i: int, j: int|
        0 <= i < j < entries.len() ==> (#[trigger] entries[i]).0@ != (#[trigger] entries[j]).0@
}

/// The variants of `serde_json::Value`, told apart: the level holds what the
/// value holds, and an object has each key once.
#[verifier::external_body]
fn open_value(value: serde_json::Value) -> (r: Node)
    ensures
        node_view(r) == value_model(value),
        r matches Node::Object(entries) ==> distinct_keys(entries@),
{
    match value {
        serde_json::Value::Null => Node::Null,
        serde_json::Value::Bool(b) => Node::Bool(b),
        serde_json::Value::Number(n) => Node::Number(JsonNumber::Parsed(n)),
        serde_json::Value::String(s) => Node::Str(s),
        serde_json::Value::Array(items) => Node::Array(items),
        serde_json::Value::Object(entries) => Node::Object(entries.into_iter().collect()),
    }
}

/// The variants of `serde_json::Value`, put together: the value holds what the
/// level holds.
#[verifier::external_body]
fn close_value(node: Node) -> (r: serde_json::Value)
    ensures
        value_model(r) == node_view(node),
{
    match node {
        Node::Null => serde_json::Value::Null,
        Node::Bool(b) => serde_json::Value::Bool(b),
        Node::Number(JsonNumber::Unsigned(n)) => serde_json::Value::from(n),
        Node::Number(JsonNumber::Signed(n)) => serde_json::Value::from(n),
        Node::Number(JsonNumber::Parsed(n)) => serde_json::Value::Number(n),
        Node::Str(s) => serde_json::Value::String(s),
        Node::Array(items) => serde_json::Value::Array(items),
        Node::Object(entries) => serde_json::Value::Object(entries.into_iter().collect()),
    }
}

/// `serde_json::Number::as_u64`: the number where it is an integer that is not
/// negative.
#[verifier::external_body]
fn number_u64(number: &serde_json::Number) -> (r: Option<u64>)
    ensures
        match r {
            Some(n) => number_model(*number) == NumberView::Unsigned(n as nat),
            None => !(number_model(*number) is Unsigned),
        },
{
    number.as_u64()
}

/// `serde_json::Number::clone`: the copy is the same number.
#[verifier::external_body]
fn copy_number(number: &serde_json::Number) -> (r: serde_json::Number)
    ensures
        number_model(r) == number_model(*number),
{
    number.clone()
}

/// `serde_json::from_str`, into a `serde_json::Value`: what is read is a
/// function of the text.
#[verifier::external_body]
fn parse_text(text: &str) -> (r: Result<serde_json::Value, serde_json::Error>)
    ensures
        match r {
            Ok(value) => json_of_text(text@) == Some(value_model(value)),
            Err(_) => json_of_text(text@) is None,
        },
{
    serde_json::from_str(text)
}

/// `serde_json::from_slice`, into a `serde_json::Value`: what is read is a
/// function of the bytes.
#[verifier::external_body]
fn parse_bytes(bytes: &[u8]) -> (r: Result<serde_json::Value, serde_json::Error>)
    ensures
        match r {
            Ok(value) => json_of_bytes(bytes@) == Some(value_model(value)),
            Err(_) => json_of_bytes(bytes@) is None,
        },
{
    serde_json::from_slice(bytes)
}

/// `serde_json::to_vec`: a `serde_json::Value` can always be written, as the keys
/// of its objects are strings and a `Vec` takes every byte, and the bytes are a
/// function of what the value holds.
#[verifier::external_body]
fn write_value(value: &serde_json::Value) -> (r: Result<Vec<u8>, serde_json::Error>)
    ensures
        r is Ok,
        r->Ok_0@ == json_encoding(value_model(*value)),
{
    serde_json::to_vec(value)
}

/// A missing entry reads as nothing.
pub open spec fn field(json: JsonView, key: Seq<char>) -> Option<JsonView> {
    match json {
        JsonView::Object(entries) => if entries.contains_key(key) {
            Some(entries[key])
        } else {
            None
        },
        _ => None,
    }
}

/// A text, where the value is one.
pub open spec fn str_of(json: JsonView) -> Option<Seq<char>> {
    match json {
        JsonView::Str(s) => Some(s),
        _ => None,
    }
}

/// A truth value, where the value is one.
pub open spec fn bool_of(json: JsonView) -> Option<bool> {
    match json {
        JsonView::Bool(b) => Some(b),
        _ => None,
    }
}

/// A natural number, where the value is one.
pub open spec fn nat_of(json: JsonView) -> Option<nat> {
    match json {
        JsonView::Number(NumberView::Unsigned(n)) => Some(n),
        _ => None,
    }
}

/// A text at a key.
pub open spec fn str_at(json: JsonView, key: Seq<char>) -> Option<Seq<char>> {
    match field(json, key) {
        Some(v) => str_of(v),
        None => None,
    }
}

/// A natural number at a key.
pub open spec fn nat_at(json: JsonView, key: Seq<char>) -> Option<nat> {
    match field(json, key) {
        Some(v) => nat_of(v),
        None => None,
    }
}

/// A truth value at a key.
pub open spec fn bool_at(json: JsonView, key: Seq<char>) -> Option<bool> {
    match field(json, key) {
        Some(v) => bool_of(v),
        None => None,
    }
}

proof fn lemma_items_view(items: Seq<Json>)
    ensures
        items_view(items).len() == items.len(),
        forall|i: int| 0 <= i < items.len() ==> items_view(items)[i] == (#[trigger] items[i])@,
    decreases items.len(),
{
    if items.len() > 0 {
        lemma_items_view(items.drop_last());
        assert forall|i: int| 0 <= i < items.len() implies items_view(items)[i] == (
        #[trigger] items[i])@ by {
            if i < items.len() - 1 {
                assert(items.drop_last()[i] == items[i]);
            }
        }
    }
}

proof fn lemma_entries_push(entries: Seq<(String, Json)>, entry: (String, Json))
    ensures
        entries_view(entries.push(entry)) == entries_view(entries).insert(entry.0@, entry.1@),
{
    assert(entries.push(entry).drop_last() =~= entries);
}

proof fn lemma_items_push(items: Seq<Json>, item: Json)
    ensures
        items_view(items.push(item)) == items_view(items).push(item@),
{
    assert(items.push(item).drop_last() =~= items);
}

/// The entries of one level form a finite map that has each entry's value
/// under its key.
proof fn lemma_node_entries(entries: Seq<(String, serde_json::Value)>)
    requires
        distinct_keys(entries),
    ensures
        node_entries(entries).dom().finite(),
        forall|i: int|
            0 <= i < entries.len() ==> node_entries(entries).contains_key(
                (#[trigger] entries[i]).0@,
            ) && node_entries(entries)[entries[i].0@] == value_model(entries[i].1),
    decreases entries.len(),
{
    if entries.len() > 0 {
        let front = entries.drop_last();
        assert forall|i: int, j: int| 0 <= i < j < front.len() implies (#[trigger] front[i]).0@ != (
        #[trigger] front[j]).0@ by {
            assert(entries[i].0@ != entries[j].0@);
        }
        lemma_node_entries(front);
        assert forall|i: int| 0 <= i < entries.len() implies node_entries(entries).contains_key(
            (#[trigger] entries[i]).0@,
        ) && node_entries(entries)[entries[i].0@] == value_model(entries[i].1) by {
            if i < front.len() {
                assert(front[i] == entries[i]);
                assert(entries[i].0@ != entries[entries.len() - 1].0@);
            }
        }
    }
}

/// The tree of a `serde_json::Value`.
fn tree_of(value: serde_json::Value) -> (r: Json)
    ensures
        r@ == value_model(value),
    decreases value_model(value),
{
    match open_value(value) {
        Node::Null => Json::Null,
        Node::Bool(b) => Json::Bool(b),
        Node::Number(n) => Json::Number(n),
        Node::Str(s) => Json::Str(s),
        Node::Array(items) => {
            let mut out: Vec<Json> = Vec::new();
            let ghost all = items@;
            let ghost whole = value_model(value);
            for item in it: items.into_iter()
                invariant
                    it.seq() == all,
                    whole == value_model(value),
                    whole == JsonView::Array(Seq::new(all.len(), |i: int| value_model(all[i]))),
                    out@.len() == it.index(),
                    forall|k: int| 0 <= k < out@.len() ==> (#[trigger] out@[k])@ == value_model(all[k]),
            {
                proof {
                    assert(item == all[it.index() as int]);
                    let list = Seq::new(all.len(), |i: int| value_model(all[i]));
                    assert(list[it.index() as int] == value_model(item));
                    assert(whole->Array_0 == list);
                    assert(decreases_to!(whole => whole->Array_0));
                    assert(decreases_to!(list => list[it.index() as int]));
                }
                out.push(tree_of(item));
            }
            proof {
                lemma_items_view(out@);
                let list = Seq::new(all.len(), |i: int| value_model(all[i]));
                assert(out@.len() == all.len());
                assert forall|i: int| 0 <= i < list.len() implies items_view(out@)[i]
                    == list[i] by {
                    assert(out@[i]@ == value_model(all[i]));
                }
                assert(items_view(out@) =~= list);
            }
            Json::Array(out)
        },
        Node::Object(entries) => {
            let mut out: Vec<(String, Json)> = Vec::new();
            let ghost all = entries@;
            let ghost whole = value_model(value);
            proof {
                lemma_node_entries(all);
            }
            for entry in it: entries.into_iter()
                invariant
                    it.seq() == all,
                    whole == value_model(value),
                    whole == JsonView::Object(node_entries(all)),
                    node_entries(all).dom().finite(),
                    forall|i: int|
                        0 <= i < all.len() ==> node_entries(all).contains_key(
                            (#[trigger] all[i]).0@,
                        ) && node_entries(all)[all[i].0@] == value_model(all[i].1),
                    out@.len() == it.index(),
                    entries_view(out@) == node_entries(all.take(it.index() as int)),
            {
                let ghost before = out@;
                let (key, inner) = entry;
                proof {
                    assert(entry == all[it.index() as int]);
                    let map = node_entries(all);
                    assert(map.contains_key(key@));
                    vstd::map::axiom_map_index_decreases_finite(map, key@);
                    assert(whole->Object_0 == map);
                    assert(decreases_to!(whole => whole->Object_0));
                    assert(decreases_to!(map => map[key@]));
                }
                let tree = tree_of(inner);
                out.push((key, tree));
                proof {
                    lemma_entries_push(before, (key, tree));
                    assert(all.take(it.index() + 1).drop_last() =~= all.take(it.index() as int));
                }
            }
            proof {
                assert(all.take(all.len() as int) =~= all);
            }
            Json::Object(out)
        },
    }
}

proof fn lemma_json_items(json: Json, items: Seq<Json>, i: int)
    requires
        json matches Json::Array(v) && v@ == items,
        0 <= i < items.len(),
    ensures
        decreases_to!(json => items[i]),
{
    let v = json->Array_0;
    assert(decreases_to!(json => v));
    assert(decreases_to!(v => v@));
    assert(decreases_to!(items => items[i]));
}

proof fn lemma_json_entries(json: Json, entries: Seq<(String, Json)>, i: int)
    requires
        json matches Json::Object(v) && v@ == entries,
        0 <= i < entries.len(),
    ensures
        decreases_to!(json => entries[i].1),
{
    let v = json->Object_0;
    assert(decreases_to!(json => v));
    assert(decreases_to!(v => v@));
    assert(decreases_to!(entries => entries[i]));
    assert(decreases_to!(entries[i] => entries[i].1));
}

pub(crate) fn clone_number(number: &JsonNumber) -> (r: JsonNumber)
    ensures
        r@ == number@,
{
    match number {
        JsonNumber::Unsigned(n) => JsonNumber::Unsigned(*n),
        JsonNumber::Signed(n) => JsonNumber::Signed(*n),
        JsonNumber::Parsed(n) => JsonNumber::Parsed(copy_number(n)),
    }
}

impl Clone for JsonNumber {
    fn clone(&self) -> (r: Self)
        ensures
            r@ == self@,
    {
        clone_number(self)
    }
}

/// A copy of a JSON value.
pub fn copy_json(json: &Json) -> (r: Json)
    ensures
        r@ == json@,
    decreases json,
{
    match json {
        Json::Null => Json::Null,
        Json::Bool(b) => Json::Bool(*b),
        Json::Number(n) => Json::Number(clone_number(n)),
        Json::Str(s) => Json::Str(s.clone()),
        Json::Array(items) => {
            let mut out: Vec<Json> = Vec::new();
            let mut i: usize = 0;
            while i < items.len()
                invariant
                    i <= items@.len(),
                    *json == Json::Array(*items),
                    items_view(out@) == items_view(items@.take(i as int)),
                decreases items@.len() - i,
            {
                proof {
                    lemma_json_items(*json, items@, i as int);
                }
                let ghost before = out@;
                let item = copy_json(&items[i]);
                out.push(item);
                i = i + 1;
                proof {
                    lemma_items_push(before, item);
                    assert(items@.take(i as int).drop_last() =~= items@.take(i - 1));
                }
            }
            assert(items@.take(i as int) =~= items@);
            Json::Array(out)
        },
        Json::Object(entries) => {
            let mut out: Vec<(String, Json)> = Vec::new();
            let mut i: usize = 0;
            while i < entries.len()
                invariant
                    i <= entries@.len(),
                    *json == Json::Object(*entries),
                    entries_view(out@) == entries_view(entries@.take(i as int)),
                decreases entries@.len() - i,
            {
                proof {
                    lemma_json_entries(*json, entries@, i as int);
                }
                let ghost before = out@;
                let key = entries[i].0.clone();
                let inner = copy_json(&entries[i].1);
                out.push((key, inner));
                i = i + 1;
                proof {
                    lemma_entries_push(before, (key, inner));
                    assert(entries@.take(i as int).drop_last() =~= entries@.take(i - 1));
                }
            }
            assert(entries@.take(i as int) =~= entries@);
            Json::Object(out)
        },
    }
}

/// The `serde_json::Value` of a tree.
fn value_of(json: &Json) -> (r: serde_json::Value)
    ensures
        value_model(r) == json@,
    decreases json,
{
    match json {
        Json::Null => close_value(Node::Null),
        Json::Bool(b) => close_value(Node::Bool(*b)),
        Json::Number(n) => close_value(Node::Number(clone_number(n))),
        Json::Str(s) => close_value(Node::Str(s.clone())),
        Json::Array(items) => {
            let mut out: Vec<serde_json::Value> = Vec::new();
            let mut i: usize = 0;
            while i < items.len()
                invariant
                    i <= items@.len(),
                    *json == Json::Array(*items),
                    out@.len() == i,
                    forall|k: int| 0 <= k < i ==> value_model(#[trigger] out@[k]) == items@[k]@,
                decreases items@.len() - i,
            {
                proof {
                    lemma_json_items(*json, items@, i as int);
                }
                out.push(value_of(&items[i]));
                i = i + 1;
            }
            proof {
                lemma_items_view(items@);
                let list = Seq::new(out@.len(), |k: int| value_model(out@[k]));
                assert forall|k: int| 0 <= k < list.len() implies list[k] == items_view(
                    items@,
                )[k] by {
                    assert(list[k] == value_model(out@[k]));
                    assert(items_view(items@)[k] == items@[k]@);
                }
                assert(list =~= items_view(items@));
            }
            close_value(Node::Array(out))
        },
        Json::Object(entries) => {
            let mut out: Vec<(String, serde_json::Value)> = Vec::new();
            let mut i: usize = 0;
            while i < entries.len()
                invariant
                    i <= entries@.len(),
                    *json == Json::Object(*entries),
                    node_entries(out@) == entries_view(entries@.take(i as int)),
                decreases entries@.len() - i,
            {
                proof {
                    lemma_json_entries(*json, entries@, i as int);
                }
                let ghost before = out@;
                let key = entries[i].0.clone();
                let inner = value_of(&entries[i].1);
                out.push((key, inner));
                i = i + 1;
                proof {
                    assert(out@.drop_last() =~= before);
                    assert(entries@.take(i as int).drop_last() =~= entries@.take(i - 1));
                }
            }
            assert(entries@.take(i as int) =~= entries@);
            close_value(Node::Object(out))
        },
    }
}

/// Read a JSON value from a text.
pub fn read_text(text: &str) -> (r: Option<Json>)
    ensures
        match r {
            Some(json) => json_of_text(text@) == Some(json@),
            None => json_of_text(text@) is None,
        },
{
    match parse_text(text) {
        Ok(value) => Some(tree_of(value)),
        Err(_) => None,
    }
}

/// Read a JSON value from bytes.
pub fn read_bytes(bytes: &[u8]) -> (r: Result<Json, serde_json::Error>)
    ensures
        match r {
            Ok(json) => json_of_bytes(bytes@) == Some(json@),
            Err(_) => json_of_bytes(bytes@) is None,
        },
{
    match parse_bytes(bytes) {
        Ok(value) => Ok(tree_of(value)),
        Err(err) => Err(err),
    }
}

/// Write a JSON value.
pub fn encode(json: &Json) -> (r: Vec<u8>)
    ensures
        r@ == json_encoding(json@),
{
    match write_value(&value_of(json)) {
        Ok(bytes) => bytes,
        Err(_) => Vec::new(),
    }
}

impl Json {
    /// The value at a key of an object.
    pub fn get(&self, key: &str) -> (r: Option<&Json>)
        ensures
            match r {
                Some(v) => field(self@, key@) == Some(v@),
                None => field(self@, key@) is None,
            },
    {
        match self {
            Json::Object(entries) => {
                let mut n: usize = entries.len();
                assert(entries@.take(n as int) =~= entries@);
                while n > 0
                    invariant
                        n <= entries@.len(),
                        entries_view(entries@).contains_key(key@) == entries_view(
                            entries@.take(n as int),
                        ).contains_key(key@),
                        entries_view(entries@)[key@] == entries_view(
                            entries@.take(n as int),
                        )[key@],
                        self@ == JsonView::Object(entries_view(entries@)),
                    decreases n,
                {
                    proof {
                        assert(entries@.take(n as int).last() == entries@[n - 1]);
                        assert(entries@.take(n as int).drop_last() =~= entries@.take(n - 1));
                    }
                    if same_text(entries[n - 1].0.as_str(), key) {
                        return Some(&entries[n - 1].1);
                    }
                    n = n - 1;
                }
                assert(entries@.take(n as int).len() == 0);
                None
            },
            _ => None,
        }
    }

    /// The text, where the value is one.
    pub fn as_str(&self) -> (r: Option<&str>)
        ensures
            match r {
                Some(s) => str_of(self@) == Some(s@),
                None => str_of(self@) is None,
            },
    {
        match self {
            Json::Str(s) => Some(s.as_str()),
            _ => None,
        }
    }

    /// The natural number, where the value is one.
    pub fn as_u64(&self) -> (r: Option<u64>)
        ensures
            match r {
                Some(n) => nat_of(self@) == Some(n as nat),
                None => nat_of(self@) is None,
            },
    {
        match self {
            Json::Number(JsonNumber::Unsigned(n)) => Some(*n),
            Json::Number(JsonNumber::Signed(n)) => if *n < 0 {
                None
            } else {
                Some(*n as u64)
            },
            Json::Number(JsonNumber::Parsed(n)) => number_u64(n),
            _ => None,
        }
    }

    /// The truth value, where the value is one.
    pub fn as_bool(&self) -> (r: Option<bool>)
        ensures
            r == bool_of(self@),
    {
        match self {
            Json::Bool(b) => Some(*b),
            _ => None,
        }
    }

    /// The text at a key.
    pub fn str_at(&self, key: &str) -> (r: Option<&str>)
        ensures
            match r {
                Some(s) => str_at(self@, key@) == Some(s@),
                None => str_at(self@, key@) is None,
            },
    {
        match self.get(key) {
            Some(v) => v.as_str(),
            None => None,
        }
    }

    /// The natural number at a key.
    pub fn u64_at(&self, key: &str) -> (r: Option<u64>)
        ensures
            match r {
                Some(n) => nat_at(self@, key@) == Some(n as nat),
                None => nat_at(self@, key@) is None,
            },
    {
        match self.get(key) {
            Some(v) => v.as_u64(),
            None => None,
        }
    }

    /// The truth value at a key.
    pub fn bool_at(&self, key: &str) -> (r: Option<bool>)
        ensures
            r == bool_at(self@, key@),
    {
        match self.get(key) {
            Some(v) => v.as_bool(),
            None => None,
        }
    }
}

} // verus!
