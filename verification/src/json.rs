//! JSON values as the library reads and builds them.

use serde_json::Value;
use vstd::prelude::*;

use crate::lists::reversed;
use crate::text;

verus! {

/// A JSON number. Numbers that are not whole, or too large to be whole, keep their notation.
#[derive(Debug, Clone)]
pub enum JsonNumber {
    Unsigned(u64),
    /// A whole number below zero.
    Negative(i64),
    Notation(String),
}

/// A JSON value.
#[derive(Debug)]
pub enum Json {
    Null,
    Bool(bool),
    Number(JsonNumber),
    Text(String),
    Array(Vec<Json>),
    Object(Vec<(String, Json)>),
}

pub enum NumberView {
    Unsigned(u64),
    Negative(i64),
    Notation(Seq<char>),
}

pub enum JsonView {
    Null,
    Bool(bool),
    Number(NumberView),
    Text(Seq<char>),
    Array(Seq<JsonView>),
    Object(Seq<(Seq<char>, JsonView)>),
}

impl View for JsonNumber {
    type V = NumberView;

    open spec fn view(&self) -> NumberView {
        match self {
            JsonNumber::Unsigned(n) => NumberView::Unsigned(*n),
            JsonNumber::Negative(n) => NumberView::Negative(*n),
            JsonNumber::Notation(s) => NumberView::Notation(s@),
        }
    }
}

impl Json {
    /// The value as a mathematical tree.
    pub open spec fn tree(self) -> JsonView
        decreases self,
    {
        match self {
            Json::Null => JsonView::Null,
            Json::Bool(b) => JsonView::Bool(b),
            Json::Number(n) => JsonView::Number(n@),
            Json::Text(s) => JsonView::Text(s@),
            Json::Array(items) => JsonView::Array(
                Seq::new(
                    items@.len(),
                    |i: int|
                        if 0 <= i < items@.len() {
                            items@[i].tree()
                        } else {
                            JsonView::Null
                        },
                ),
            ),
            Json::Object(entries) => JsonView::Object(
                Seq::new(
                    entries@.len(),
                    |i: int|
                        if 0 <= i < entries@.len() {
                            (entries@[i].0@, entries@[i].1.tree())
                        } else {
                            (Seq::empty(), JsonView::Null)
                        },
                ),
            ),
        }
    }
}

impl View for Json {
    type V = JsonView;

    open spec fn view(&self) -> JsonView {
        self.tree()
    }
}

// ---------------------------------------------------------------------------
// Parsing
// ---------------------------------------------------------------------------

/// A value that `serde_json` has parsed.
#[verifier::external_type_specification]
#[verifier::external_body]
pub struct ExValue(serde_json::Value);

pub open spec fn value_result(result: Result<Value, String>) -> Result<
    Value,
    Seq<char>,
> {
    match result {
        Ok(value) => Ok(value),
        Err(message) => Err(message@),
    }
}

/// What `serde_json::from_str` makes of a text: a value, or the message of its error.
pub uninterp spec fn parsed_value(text: Seq<char>) -> Result<Value, Seq<char>>;

/// What a value of `serde_json` holds.
pub uninterp spec fn value_contents(value: Value) -> JsonView;

/// Parses JSON text with `serde_json::from_str`. The contract names the outcome; it is a function
/// of the text alone.
#[verifier::external_body]
fn parse_value(text: &str) -> (result: Result<Value, String>)
    ensures
        value_result(result) == parsed_value(text@),
{
    serde_json::from_str::<Value>(text).map_err(|err| err.to_string())
}

/// A value of `serde_json`, taken apart once.
enum OpenedValue {
    Null,
    Bool(bool),
    /// The number as an unsigned and as a signed one, where it is such a number, and its notation.
    Number { unsigned: Option<u64>, signed: Option<i64>, notation: String },
    Text(String),
    Array(Vec<Value>),
    Object(Vec<(String, Value)>),
}

/// A number that has been read in three ways.
spec fn number_of(unsigned: Option<u64>, signed: Option<i64>, notation: Seq<char>) -> NumberView {
    match unsigned {
        Some(n) => NumberView::Unsigned(n),
        None => match signed {
            Some(n) => NumberView::Negative(n),
            None => NumberView::Notation(notation),
        },
    }
}

/// What a value holds that has been taken apart.
spec fn opened_contents(opened: OpenedValue) -> JsonView {
    match opened {
        OpenedValue::Null => JsonView::Null,
        OpenedValue::Bool(b) => JsonView::Bool(b),
        OpenedValue::Number { unsigned, signed, notation } => JsonView::Number(
            number_of(unsigned, signed, notation@),
        ),
        OpenedValue::Text(s) => JsonView::Text(s@),
        OpenedValue::Array(items) => JsonView::Array(
            items@.map_values(|item: Value| value_contents(item)),
        ),
        OpenedValue::Object(entries) => JsonView::Object(
            entries@.map_values(|entry: (String, Value)| (entry.0@, value_contents(entry.1))),
        ),
    }
}

/// Takes a `serde_json::Value` apart, one arm for each variant; a number is read with `as_u64`,
/// `as_i64` and `to_string`. The contract says what the value holds in terms of its parts.
#[verifier::external_body]
fn open_value(value: Value) -> (opened: OpenedValue)
    ensures
        value_contents(value) == opened_contents(opened),
{
    match value {
        Value::Null => OpenedValue::Null,
        Value::Bool(b) => OpenedValue::Bool(b),
        Value::Number(n) => OpenedValue::Number {
            unsigned: n.as_u64(),
            signed: n.as_i64(),
            notation: n.to_string(),
        },
        Value::String(s) => OpenedValue::Text(s),
        Value::Array(items) => OpenedValue::Array(items),
        Value::Object(entries) => OpenedValue::Object(entries.into_iter().collect()),
    }
}

/// The whole of a value.
fn json_of(value: Value) -> (json: Json)
    ensures
        json@ == value_contents(value),
    decreases value_contents(value),
{
    let ghost whole = value_contents(value);
    match open_value(value) {
        OpenedValue::Null => Json::Null,
        OpenedValue::Bool(b) => Json::Bool(b),
        OpenedValue::Number { unsigned, signed, notation } => Json::Number(
            match unsigned {
                Some(n) => JsonNumber::Unsigned(n),
                None => match signed {
                    Some(n) => JsonNumber::Negative(n),
                    None => JsonNumber::Notation(notation),
                },
            },
        ),
        OpenedValue::Text(s) => Json::Text(s),
        OpenedValue::Array(items) => {
            let ghost all = items@;
            let mut rest = reversed(items);
            let mut list: Vec<Json> = Vec::new();
            while rest.len() > 0
                invariant
                    whole == value_contents(value),
                    whole == JsonView::Array(all.map_values(|item: Value| value_contents(item))),
                    rest@.len() + list@.len() == all.len(),
                    forall|j: int|
                        0 <= j < rest@.len() ==> (#[trigger] rest@[j]) == all[all.len() - 1 - j],
                    forall|j: int|
                        0 <= j < list@.len() ==> (#[trigger] list@[j])@ == value_contents(all[j]),
                decreases rest.len(),
            {
                let item = rest.pop().unwrap();
                proof {
                    let i = list@.len() as int;
                    assert(item == all[i]);
                    assert(whole->Array_0[i] == value_contents(item));
                    assert(decreases_to!(whole => whole->Array_0));
                    assert(decreases_to!(whole->Array_0 => whole->Array_0[i]));
                }
                list.push(json_of(item));
            }
            let json = Json::Array(list);
            assert(json@->Array_0 =~= whole->Array_0);
            json
        },
        OpenedValue::Object(entries) => {
            let ghost all = entries@;
            let mut rest = reversed(entries);
            let mut list: Vec<(String, Json)> = Vec::new();
            while rest.len() > 0
                invariant
                    whole == value_contents(value),
                    whole == JsonView::Object(
                        all.map_values(
                            |entry: (String, Value)| (entry.0@, value_contents(entry.1)),
                        ),
                    ),
                    rest@.len() + list@.len() == all.len(),
                    forall|j: int|
                        0 <= j < rest@.len() ==> (#[trigger] rest@[j]) == all[all.len() - 1 - j],
                    forall|j: int|
                        0 <= j < list@.len() ==> (#[trigger] list@[j]).0@ == all[j].0@
                            && list@[j].1@ == value_contents(all[j].1),
                decreases rest.len(),
            {
                let (key, item) = rest.pop().unwrap();
                proof {
                    let i = list@.len() as int;
                    assert((key, item) == all[i]);
                    assert(whole->Object_0[i] == (key@, value_contents(item)));
                    assert(decreases_to!(whole => whole->Object_0));
                    assert(decreases_to!(whole->Object_0 => whole->Object_0[i]));
                    assert(decreases_to!(whole->Object_0[i] => whole->Object_0[i].1));
                }
                list.push((key, json_of(item)));
            }
            let json = Json::Object(list);
            assert(json@->Object_0 =~= whole->Object_0);
            json
        },
    }
}

/// What a text holds as JSON, or the message that says why it is none.
pub open spec fn parsed_json(text: Seq<char>) -> Result<JsonView, Seq<char>> {
    match parsed_value(text) {
        Ok(value) => Ok(value_contents(value)),
        Err(message) => Err(message),
    }
}

pub open spec fn json_result(result: Result<Json, String>) -> Result<JsonView, Seq<char>> {
    match result {
        Ok(json) => Ok(json@),
        Err(message) => Err(message@),
    }
}

/// Parses JSON text.
pub fn parse_json(text: &str) -> (result: Result<Json, String>)
    ensures
        json_result(result) == parsed_json(text@),
{
    match parse_value(text) {
        Ok(value) => Ok(json_of(value)),
        Err(message) => Err(message),
    }
}

// ---------------------------------------------------------------------------
// Reading
// ---------------------------------------------------------------------------

/// The value of the first entry with the given key.
pub open spec fn entry(entries: Seq<(Seq<char>, JsonView)>, key: Seq<char>) -> Option<JsonView>
    decreases entries.len(),
{
    if entries.len() == 0 {
        None
    } else if entries[0].0 == key {
        Some(entries[0].1)
    } else {
        entry(entries.skip(1), key)
    }
}

impl JsonView {
    /// The member of an object with the given key.
    pub open spec fn member(self, key: Seq<char>) -> Option<JsonView> {
        match self {
            JsonView::Object(entries) => entry(entries, key),
            _ => None,
        }
    }

    /// The text that the value is.
    pub open spec fn text(self) -> Option<Seq<char>> {
        match self {
            JsonView::Text(s) => Some(s),
            _ => None,
        }
    }

    /// The items of the array that the value is.
    pub open spec fn items(self) -> Option<Seq<JsonView>> {
        match self {
            JsonView::Array(items) => Some(items),
            _ => None,
        }
    }

    /// The text of the member with the given key.
    pub open spec fn text_member(self, key: Seq<char>) -> Option<Seq<char>> {
        match self.member(key) {
            Some(member) => member.text(),
            None => None,
        }
    }

    /// The text of the member with the given key, or `fallback`.
    pub open spec fn text_member_or(self, key: Seq<char>, fallback: Seq<char>) -> Seq<char> {
        match self.text_member(key) {
            Some(s) => s,
            None => fallback,
        }
    }

    /// The items of the member with the given key.
    pub open spec fn items_member(self, key: Seq<char>) -> Option<Seq<JsonView>> {
        match self.member(key) {
            Some(member) => member.items(),
            None => None,
        }
    }
}

/// The contents of a list of values.
pub open spec fn trees(items: Seq<Json>) -> Seq<JsonView> {
    items.map_values(|item: Json| item@)
}

/// The content of an optional value.
pub open spec fn opt_tree(value: Option<&Json>) -> Option<JsonView> {
    match value {
        Some(json) => Some(json@),
        None => None,
    }
}

impl Json {
    /// The member of an object with the given key.
    pub fn get(&self, key: &str) -> (found: Option<&Json>)
        ensures
            opt_tree(found) == self@.member(key@),
    {
        match self {
            Json::Object(entries) => {
                let ghost all = self@->Object_0;
                let mut i: usize = 0;
                assert(all.skip(0) == all);
                while i < entries.len()
                    invariant
                        i <= entries.len(),
                        *self == Json::Object(*entries),
                        self@ == JsonView::Object(all),
                        all.len() == entries.len(),
                        entry(all, key@) == entry(all.skip(i as int), key@),
                    decreases entries.len() - i,
                {
                    assert(all[i as int] == (entries@[i as int].0@, entries@[i as int].1@));
                    if text::same_text(entries[i].0.as_str(), key) {
                        return Some(&entries[i].1);
                    }
                    assert(all.skip(i as int).skip(1) == all.skip(i + 1));
                    i = i + 1;
                }
                None
            },
            _ => None,
        }
    }

    /// The text that the value is.
    pub fn as_text(&self) -> (found: Option<&str>)
        ensures
            text::opt_str(found) == self@.text(),
    {
        match self {
            Json::Text(s) => Some(s.as_str()),
            _ => None,
        }
    }

    /// The items of the array that the value is.
    pub fn as_items(&self) -> (found: Option<&Vec<Json>>)
        ensures
            found is Some <==> self@.items() is Some,
            found is Some ==> self@.items() == Some(trees(found->0@)),
    {
        match self {
            Json::Array(items) => {
                assert(trees(items@) == self@.items()->0);
                Some(items)
            },
            _ => None,
        }
    }

    /// The text of the member with the given key.
    pub fn get_text(&self, key: &str) -> (found: Option<&str>)
        ensures
            text::opt_str(found) == self@.text_member(key@),
    {
        match self.get(key) {
            Some(member) => member.as_text(),
            None => None,
        }
    }

    /// The text of the member with the given key, or `fallback`.
    pub fn get_text_or<'a>(&'a self, key: &str, fallback: &'a str) -> (found: &'a str)
        ensures
            found@ == self@.text_member_or(key@, fallback@),
    {
        match self.get_text(key) {
            Some(s) => s,
            None => fallback,
        }
    }

    /// Whether the member with the given key is the given text.
    pub fn has_text(&self, key: &str, expected: &str) -> (b: bool)
        ensures
            b == (self@.text_member(key@) == Some(expected@)),
    {
        match self.get_text(key) {
            Some(s) => text::same_text(s, expected),
            None => false,
        }
    }

    /// The items of the member with the given key.
    pub fn get_items(&self, key: &str) -> (found: Option<&Vec<Json>>)
        ensures
            found is Some <==> self@.items_member(key@) is Some,
            found is Some ==> self@.items_member(key@) == Some(trees(found->0@)),
    {
        match self.get(key) {
            Some(member) => member.as_items(),
            None => None,
        }
    }
}

// ---------------------------------------------------------------------------
// Writing
// ---------------------------------------------------------------------------

/// How a character stands in a JSON string.
pub open spec fn json_escape(c: char) -> Seq<char> {
    let n = c as u32;
    if c == '"' {
        seq!['\\', '"']
    } else if c == '\\' {
        seq!['\\', '\\']
    } else if n == 0x08 {
        seq!['\\', 'b']
    } else if n == 0x09 {
        seq!['\\', 't']
    } else if n == 0x0a {
        seq!['\\', 'n']
    } else if n == 0x0c {
        seq!['\\', 'f']
    } else if n == 0x0d {
        seq!['\\', 'r']
    } else if n < 0x20 {
        seq!['\\', 'u', '0', '0', text::hex_digit(n as int / 16), text::hex_digit(n as int % 16)]
    } else {
        seq![c]
    }
}

/// The characters of `s` as they stand in a JSON string.
pub open spec fn json_escaped(s: Seq<char>) -> Seq<char>
    decreases s.len(),
{
    if s.len() == 0 {
        Seq::empty()
    } else {
        json_escaped(s.drop_last()) + json_escape(s.last())
    }
}

/// `s` as a JSON string, in quotes.
pub open spec fn json_quoted(s: Seq<char>) -> Seq<char> {
    seq!['"'] + json_escaped(s) + seq!['"']
}

/// Writes a text as a JSON string with `serde_json::to_string`: in quotes, with `"`, `\` and the
/// control characters below U+0020 escaped and every other character as it is. Writing a text
/// cannot fail.
#[verifier::external_body]
pub(crate) fn quote_json(text: &str) -> (quoted: String)
    ensures
        quoted@ == json_quoted(text@),
{
    serde_json::to_string(text).unwrap_or_default()
}

/// A JSON string.
pub fn text_json(value: &str) -> (json: Json)
    ensures
        json@ == JsonView::Text(value@),
{
    Json::Text(value.to_owned())
}

/// The JSON object without members.
pub open spec fn object_view() -> JsonView {
    JsonView::Object(Seq::empty())
}

impl JsonView {
    /// The object with one member more, at the end.
    pub open spec fn with(self, key: Seq<char>, value: JsonView) -> JsonView {
        match self {
            JsonView::Object(entries) => JsonView::Object(entries.push((key, value))),
            _ => self,
        }
    }

    /// The object with one member more, whose value is a text.
    pub open spec fn with_text(self, key: Seq<char>, value: Seq<char>) -> JsonView {
        self.with(key, JsonView::Text(value))
    }
}

/// The JSON object without members.
pub fn empty_object() -> (json: Json)
    ensures
        json@ == object_view(),
{
    let json = Json::Object(Vec::new());
    assert(json@->Object_0 == Seq::<(Seq<char>, JsonView)>::empty());
    json
}

impl Json {
    /// The object with one member more, at the end; what is no object stays as it is.
    pub fn with(self, key: &str, value: Json) -> (json: Json)
        ensures
            json@ == self@.with(key@, value@),
    {
        let ghost before = self@;
        match self {
            Json::Object(entries) => {
                let mut entries = entries;
                entries.push((key.to_owned(), value));
                let json = Json::Object(entries);
                assert(json@->Object_0 == before->Object_0.push((key@, value@)));
                json
            },
            other => other,
        }
    }

    /// The object with one member more, whose value is a text.
    pub fn with_text(self, key: &str, value: &str) -> (json: Json)
        ensures
            json@ == self@.with_text(key@, value@),
    {
        self.with(key, text_json(value))
    }
}

/// A JSON array.
pub fn array_json(items: Vec<Json>) -> (json: Json)
    ensures
        json@ == JsonView::Array(trees(items@)),
{
    let json = Json::Array(items);
    assert(json@->Array_0 == trees(items@));
    json
}

/// A whole number as JSON.
pub open spec fn number_view(n: u64) -> JsonView {
    JsonView::Number(NumberView::Unsigned(n))
}

/// A whole number as JSON.
pub fn number_json(n: u64) -> (json: Json)
    ensures
        json@ == number_view(n),
{
    Json::Number(JsonNumber::Unsigned(n))
}

/// A list of texts as JSON.
pub open spec fn text_array(list: Seq<Seq<char>>) -> JsonView {
    JsonView::Array(list.map_values(|s: Seq<char>| JsonView::Text(s)))
}

/// A list of texts as JSON.
pub fn text_array_json(list: Vec<String>) -> (json: Json)
    ensures
        json@ == text_array(text::texts(list@)),
{
    let mut items: Vec<Json> = Vec::new();
    let mut i: usize = 0;
    while i < list.len()
        invariant
            i <= list.len(),
            items@.len() == i,
            forall|j: int| 0 <= j < i ==> (#[trigger] items@[j])@ == JsonView::Text(list@[j]@),
        decreases list.len() - i,
    {
        items.push(text_json(list[i].as_str()));
        i = i + 1;
    }
    assert(trees(items@) =~= text::texts(list@).map_values(|s: Seq<char>| JsonView::Text(s)));
    array_json(items)
}

// ---------------------------------------------------------------------------
// Laws
// ---------------------------------------------------------------------------

/// A member is found exactly if an entry has its key, and the first such entry gives its value.
pub proof fn law_first_entry_is_the_member(entries: Seq<(Seq<char>, JsonView)>, key: Seq<char>)
    ensures
        JsonView::Object(entries).member(key) is Some <==> exists|i: int|
            0 <= i < entries.len() && (#[trigger] entries[i]).0 == key,
        forall|i: int|
            0 <= i < entries.len() && (#[trigger] entries[i]).0 == key && (forall|j: int|
                0 <= j < i ==> (#[trigger] entries[j]).0 != key) ==> JsonView::Object(
                entries,
            ).member(key) == Some(entries[i].1),
    decreases entries.len(),
{
    if entries.len() > 0 {
        let rest = entries.skip(1);
        law_first_entry_is_the_member(rest, key);
        assert(forall|i: int| 0 <= i < rest.len() ==> #[trigger] rest[i] == entries[i + 1]);
        assert(forall|i: int| 1 <= i < entries.len() ==> #[trigger] entries[i] == rest[i - 1]);
        if entries[0].0 != key {
            if entry(rest, key) is Some {
                let i = choose|i: int| 0 <= i < rest.len() && (#[trigger] rest[i]).0 == key;
                assert(entries[i + 1].0 == key);
            }
            assert forall|i: int|
                0 <= i < entries.len() && (#[trigger] entries[i]).0 == key && (forall|j: int|
                    0 <= j < i ==> (#[trigger] entries[j]).0 != key) implies entry(entries, key)
                == Some(entries[i].1) by {
                assert(rest[i - 1].0 == key);
                assert forall|j: int| 0 <= j < i - 1 implies (#[trigger] rest[j]).0 != key by {
                    assert(entries[j + 1].0 != key);
                }
            }
        } else {
            assert(entries[0].0 == key);
        }
    }
}

/// An object without members has none; one with a member more has that member, unless it had one of
/// that name before, and all other members as before.
pub proof fn law_added_member_is_found(
    object: JsonView,
    key: Seq<char>,
    value: JsonView,
    other: Seq<char>,
)
    requires
        object is Object,
    ensures
        object_view() is Object,
        object_view().member(other) is None,
        object.with(key, value) is Object,
        object.member(other) is Some ==> object.with(key, value).member(other) == object.member(
            other,
        ),
        object.member(other) is None && other == key ==> object.with(key, value).member(other)
            == Some(value),
        object.member(other) is None && other != key ==> object.with(key, value).member(other)
            is None,
    decreases object->Object_0.len(),
{
    let entries = object->Object_0;
    let after = entries.push((key, value));
    if entries.len() > 0 {
        let rest = JsonView::Object(entries.skip(1));
        law_added_member_is_found(rest, key, value, other);
        assert(after.skip(1) == entries.skip(1).push((key, value)));
        assert(after[0] == entries[0]);
    } else {
        assert(after.skip(1) == Seq::<(Seq<char>, JsonView)>::empty());
        assert(entry(after.skip(1), other) is None);
        assert(after[0] == (key, value));
    }
}

/// A list of texts is written with all its texts, in order.
pub proof fn law_text_array_holds_all_texts(list: Seq<Seq<char>>)
    ensures
        text_array(list).items() matches Some(items) && items.len() == list.len() && forall|i: int|
            0 <= i < list.len() ==> (#[trigger] items[i]).text() == Some(list[i]),
{
}

/// How members are found, of all objects at once.
pub(crate) proof fn lemma_members()
    ensures
        object_view() is Object,
        forall|key: Seq<char>| (#[trigger] object_view().member(key)) is None,
        forall|object: JsonView, key: Seq<char>, value: JsonView|
            object is Object ==> (#[trigger] object.with(key, value)) is Object,
        forall|object: JsonView, key: Seq<char>, value: JsonView, other: Seq<char>|
            object is Object ==> (#[trigger] object.with(key, value).member(other)) == (
            if object.member(other) is Some {
                object.member(other)
            } else if other == key {
                Some(value)
            } else {
                None
            }),
{
    assert forall|object: JsonView, key: Seq<char>, value: JsonView, other: Seq<char>|
        object is Object implies (#[trigger] object.with(key, value).member(other)) == (
        if object.member(other) is Some {
            object.member(other)
        } else if other == key {
            Some(value)
        } else {
            None
        }) by {
        law_added_member_is_found(object, key, value, other);
    }
}

/// A text is escaped piece by piece: every character of it is written, in order.
pub proof fn law_escaping_goes_piece_by_piece(a: Seq<char>, b: Seq<char>)
    ensures
        json_escaped(a + b) == json_escaped(a) + json_escaped(b),
    decreases b.len(),
{
    if b.len() == 0 {
        assert(a + b =~= a);
        assert(json_escaped(b) =~= Seq::<char>::empty());
    } else {
        let rest = b.drop_last();
        law_escaping_goes_piece_by_piece(a, rest);
        assert((a + b).drop_last() =~= a + rest);
        assert((a + b).last() == b.last());
        assert(json_escaped(a + b) =~= json_escaped(a) + json_escaped(b));
    }
}

/// What is escaped holds no control character; a quotation mark in it follows a backslash.
pub proof fn law_escaped_text_can_stand_in_quotes(s: Seq<char>)
    ensures
        forall|i: int| 0 <= i < json_escaped(s).len() ==> (#[trigger] json_escaped(s)[i]) as u32 >= 0x20,
        forall|i: int|
            0 <= i < json_escaped(s).len() && (#[trigger] json_escaped(s)[i]) == '"' ==> i > 0
                && json_escaped(s)[i - 1] == '\\',
        forall|i: int| 0 <= i < s.len() && (#[trigger] s[i]) as u32 >= 0x20 && s[i] != '"' && s[i]
            != '\\' ==> json_escaped(s).contains(s[i]),
    decreases s.len(),
{
    if s.len() > 0 {
        let rest = s.drop_last();
        law_escaped_text_can_stand_in_quotes(rest);
        let before = json_escaped(rest);
        let last = json_escape(s.last());
        let all = json_escaped(s);
        assert(all == before + last);
        assert forall|i: int| 0 <= i < all.len() implies (#[trigger] all[i]) as u32 >= 0x20 by {
            if i < before.len() {
                assert(all[i] == before[i]);
            } else {
                assert(all[i] == last[i - before.len()]);
            }
        }
        assert forall|i: int| 0 <= i < all.len() && (#[trigger] all[i]) == '"' implies i > 0 && all[i
            - 1] == '\\' by {
            if i < before.len() {
                assert(all[i] == before[i]);
                assert(all[i - 1] == before[i - 1]);
            } else {
                assert(all[i] == last[i - before.len()]);
                assert(i == before.len() + 1);
                assert(all[i - 1] == last[0]);
            }
        }
        assert forall|i: int|
            0 <= i < s.len() && (#[trigger] s[i]) as u32 >= 0x20 && s[i] != '"' && s[i]
                != '\\' implies all.contains(s[i]) by {
            if i < rest.len() {
                assert(rest[i] == s[i]);
                let k = choose|k: int| 0 <= k < before.len() && before[k] == s[i];
                assert(all[k] == s[i]);
            } else {
                assert(last =~= seq![s[i]]);
                assert(all[before.len() as int] == s[i]);
            }
        }
    }
}

proof fn lemma_escape_front(s: Seq<char>)
    requires
        s.len() > 0,
    ensures
        json_escaped(s) == json_escape(s[0]) + json_escaped(s.skip(1)),
{
    let one = seq![s[0]];
    law_escaping_goes_piece_by_piece(one, s.skip(1));
    assert(one + s.skip(1) =~= s);
    assert(one.drop_last() =~= Seq::<char>::empty());
    assert(json_escaped(one.drop_last()) =~= Seq::<char>::empty());
    assert(json_escaped(one) =~= json_escape(s[0]));
}

/// Different texts are quoted differently.
pub proof fn law_quoted_texts_differ(a: Seq<char>, b: Seq<char>)
    requires
        json_quoted(a) == json_quoted(b),
    ensures
        a == b,
{
    let x = json_quoted(a);
    let y = json_quoted(b);
    assert(x.subrange(1, x.len() - 1) =~= json_escaped(a));
    assert(y.subrange(1, y.len() - 1) =~= json_escaped(b));
    lemma_escaped_differ(a, b);
}

proof fn lemma_escaped_differ(a: Seq<char>, b: Seq<char>)
    requires
        json_escaped(a) == json_escaped(b),
    ensures
        a == b,
    decreases a.len(),
{
    if a.len() > 0 {
        lemma_escape_front(a);
    }
    if b.len() > 0 {
        lemma_escape_front(b);
    }
    if a.len() == 0 {
        assert(json_escaped(a).len() == 0);
        assert(b.len() == 0 || json_escape(b[0]).len() > 0);
        assert(a =~= b);
    } else if b.len() == 0 {
        assert(json_escaped(b).len() == 0);
        assert(json_escape(a[0]).len() > 0);
        assert(a =~= b);
    } else {
        let x = json_escape(a[0]);
        let y = json_escape(b[0]);
        let all = json_escaped(a);
        lemma_escape_tells(a[0], b[0], all);
        assert(a[0] == b[0]) by {
            assert(all.take(x.len() as int) =~= x);
            assert(all.take(y.len() as int) =~= y);
        }
        assert(all.skip(x.len() as int) =~= json_escaped(a.skip(1)));
        assert(all.skip(x.len() as int) =~= json_escaped(b.skip(1)));
        lemma_escaped_differ(a.skip(1), b.skip(1));
        assert(a =~= seq![a[0]] + a.skip(1));
        assert(b =~= seq![b[0]] + b.skip(1));
    }
}

/// Where a text begins with the escapes of two characters, they are one.
proof fn lemma_escape_tells(c: char, d: char, all: Seq<char>)
    ensures
        json_escape(c).len() <= all.len() && json_escape(d).len() <= all.len() && all.take(
            json_escape(c).len() as int,
        ) == json_escape(c) && all.take(json_escape(d).len() as int) == json_escape(d) ==> c == d,
{
    let x = json_escape(c);
    let y = json_escape(d);
    if x.len() <= all.len() && y.len() <= all.len() && all.take(x.len() as int) == x && all.take(
        y.len() as int,
    ) == y {
        assert(x[0] == all.take(x.len() as int)[0] && y[0] == all.take(y.len() as int)[0]);
        assert(x[0] == all[0] && y[0] == all[0]);
        if x.len() > 1 && y.len() > 1 {
            assert(x[1] == all.take(x.len() as int)[1] && y[1] == all.take(y.len() as int)[1]);
            assert(x[1] == all[1] && y[1] == all[1]);
            if x.len() == 6 && y.len() == 6 {
                assert(x[4] == all.take(6)[4] && y[4] == all.take(6)[4]);
                assert(x[5] == all.take(6)[5] && y[5] == all.take(6)[5]);
                assert(c as u32 == d as u32);
            }
        }
    }
}

} // verus!
