//! JSON documents, which `serde_json` reads and writes.
//!
//! Each function here that names a function of `serde_json` hands its arguments to that one.
//! What it promises of the result was read off that crate and is not proved. The crate keeps
//! the members of an object in the order of their names, so that a document is written in one
//! way only. The functions behind those read members and records with them, and are proved.
use crate::names::{distinct_names, map_of};
use vstd::prelude::*;

verus! {

/// A JSON document.
pub enum JsonTree {
    Null,
    Bool(bool),
    /// An integer that is not negative.
    Unsigned(u64),
    /// A negative integer.
    Signed(i64),
    /// Any other number, as the bits that it is kept in.
    Real(int),
    Text(Seq<char>),
    List(Seq<JsonTree>),
    Object(Map<Seq<char>, JsonTree>),
}

/// The member of an object that is called `key`.
pub open spec fn member_of(tree: JsonTree, key: Seq<char>) -> Option<JsonTree> {
    match tree {
        JsonTree::Object(members) => if members.contains_key(key) {
            Some(members[key])
        } else {
            None
        },
        _ => None,
    }
}

/// The text that a document is.
pub open spec fn text_in(tree: Option<JsonTree>) -> Option<Seq<char>> {
    match tree {
        Some(JsonTree::Text(s)) => Some(s),
        _ => None,
    }
}

/// The number that a document is, where that is an integer from 0 to `u64::MAX`.
pub open spec fn number_in(tree: Option<JsonTree>) -> Option<u64> {
    match tree {
        Some(JsonTree::Unsigned(n)) => Some(n),
        _ => None,
    }
}

/// The truth value that a document is.
pub open spec fn truth_in(tree: Option<JsonTree>) -> Option<bool> {
    match tree {
        Some(JsonTree::Bool(b)) => Some(b),
        _ => None,
    }
}

/// The text that a document is, or that there is none.
pub open spec fn optional_text_in(tree: Option<JsonTree>) -> Option<Option<Seq<char>>> {
    match tree {
        None | Some(JsonTree::Null) => Some(None),
        Some(JsonTree::Text(s)) => Some(Some(s)),
        _ => None,
    }
}

/// The number that a document is, or that there is none.
pub open spec fn optional_number_in(tree: Option<JsonTree>) -> Option<Option<u64>> {
    match tree {
        None | Some(JsonTree::Null) => Some(None),
        Some(JsonTree::Unsigned(n)) => Some(Some(n)),
        _ => None,
    }
}

/// The texts that a document is a list of.
pub open spec fn texts_in(tree: Option<JsonTree>) -> Option<Seq<Seq<char>>> {
    match tree {
        Some(JsonTree::List(items)) => if forall|i: int| 0 <= i < items.len() ==> #[trigger] items[i] is Text {
            Some(Seq::new(items.len(), |i: int| items[i]->Text_0))
        } else {
            None
        },
        _ => None,
    }
}

/// The document that is a list of texts.
pub open spec fn texts_doc(texts: Seq<Seq<char>>) -> JsonTree {
    JsonTree::List(Seq::new(texts.len(), |i: int| JsonTree::Text(texts[i])))
}

/// Whether a document is a record of `count` fields: an object, or a list with a place for
/// each field.
pub open spec fn is_record(tree: JsonTree, count: nat) -> bool {
    match tree {
        JsonTree::Object(_) => true,
        JsonTree::List(items) => items.len() == count,
        _ => false,
    }
}

/// The field of a record that is called `name`, or stands at `place`.
pub open spec fn field_of(tree: JsonTree, place: int, name: Seq<char>) -> Option<JsonTree> {
    match tree {
        JsonTree::List(items) => if 0 <= place < items.len() {
            Some(items[place])
        } else {
            None
        },
        _ => member_of(tree, name),
    }
}

/// Whether a document has at most `depth` lists and objects inside each other, and no
/// number but integers.
pub open spec fn shallow(tree: JsonTree, depth: nat) -> bool
    decreases depth,
{
    match tree {
        JsonTree::Real(_) => false,
        JsonTree::List(items) => depth > 0 && forall|i: int|
            0 <= i < items.len() ==> shallow(#[trigger] items[i], (depth - 1) as nat),
        JsonTree::Object(members) => depth > 0 && forall|key: Seq<char>|
            members.contains_key(key) ==> shallow(#[trigger] members[key], (depth - 1) as nat),
        _ => true,
    }
}

/// `serde_json::Value`, a JSON document.
#[verifier::external_type_specification]
#[verifier::external_body]
pub struct ExJsonValue(serde_json::Value);

/// The document that a `serde_json::Value` holds.
pub uninterp spec fn json_tree(value: serde_json::Value) -> JsonTree;

/// The documents that some values hold.
pub open spec fn json_trees(values: Seq<serde_json::Value>) -> Seq<JsonTree> {
    Seq::new(values.len(), |i: int| json_tree(values[i]))
}

/// The names and documents of some members.
pub open spec fn json_member_refs(members: Seq<(String, &serde_json::Value)>) -> Seq<(Seq<char>, JsonTree)> {
    Seq::new(members.len(), |i: int| (members[i].0@, json_tree(*members[i].1)))
}

/// `{`
pub const OBJECT_OPEN: u8 = 0x7B;

/// `}`
pub const OBJECT_CLOSE: u8 = 0x7D;

/// `[`
pub const LIST_OPEN: u8 = 0x5B;

/// `]`
pub const LIST_CLOSE: u8 = 0x5D;

/// `,`
pub const COMMA: u8 = 0x2C;

/// `:`
pub const COLON: u8 = 0x3A;

/// `"`
pub const QUOTE: u8 = 0x22;

/// Whether a byte is JSON whitespace.
pub open spec fn is_space(b: u8) -> bool {
    b == 0x20 || b == 0x0A || b == 0x09 || b == 0x0D
}

/// Whether a JSON value can end in front of `rest`.
pub open spec fn closes(rest: Seq<u8>) -> bool {
    rest.len() > 0 ==> rest[0] == COMMA || rest[0] == COLON || rest[0] == OBJECT_CLOSE || rest[0] == LIST_CLOSE
}

/// Whether a text is one JSON value, also where it stands inside another.
pub open spec fn stands_alone(text: Seq<u8>) -> bool {
    &&& text.len() > 0
    &&& !is_space(text[0])
    &&& forall|rest: Seq<u8>| closes(rest) ==> #[trigger] json_value_end(text + rest) == Some(text.len())
}

/// The document that a JSON text stands for, or what the error says.
pub uninterp spec fn json_parsed(text: Seq<u8>) -> Result<JsonTree, Seq<char>>;

/// How many bytes of a text its first JSON value ends behind.
pub uninterp spec fn json_value_end(text: Seq<u8>) -> Option<nat>;

/// The JSON text that a document is written as.
pub uninterp spec fn json_bytes(tree: JsonTree) -> Seq<u8>;

/// The characters of the JSON text that a document is displayed as.
pub uninterp spec fn json_display(tree: JsonTree) -> Seq<char>;

/// `serde_json::from_slice`: reads a JSON text.
#[verifier::external_body]
pub(crate) fn json_parse(text: &[u8]) -> (res: Result<serde_json::Value, String>)
    ensures
        json_parsed(text@) == parse_view(res),
{
    serde_json::from_slice(text).map_err(|e: serde_json::Error| e.to_string())
}

/// The first step of `serde_json::StreamDeserializer` over `serde::de::IgnoredAny`: passes over
/// the first JSON value of a text. Behind a text, a list or an object there may be
/// anything, behind other values only what can follow them.
#[verifier::external_body]
pub(crate) fn json_skip(text: &[u8]) -> (res: Option<usize>)
    ensures
        match res {
            Some(end) => json_value_end(text@) == Some(end as nat) && 0 < end <= text@.len(),
            None => json_value_end(text@) is None,
        },
{
    let mut values = serde_json::Deserializer::from_slice(text).into_iter::<serde::de::IgnoredAny>();
    match values.next() {
        Some(Ok(_)) => Some(values.byte_offset()),
        _ => None,
    }
}

/// What parsing gave, as a value.
pub open spec fn parse_view(res: Result<serde_json::Value, String>) -> Result<JsonTree, Seq<char>> {
    match res {
        Ok(value) => Ok(json_tree(value)),
        Err(e) => Err(e@),
    }
}

/// `serde_json::to_vec`: writes a document, as one JSON value without whitespace in front, and a
/// text in quotes. What it writes of documents of integers and texts, which are not too deep to
/// be read, reads back as the same document.
#[verifier::external_body]
pub(crate) fn json_write(value: &serde_json::Value) -> (res: Vec<u8>)
    ensures
        res@ == json_bytes(json_tree(*value)),
        shallow(json_tree(*value), 4) ==> json_parsed(res@) is Ok && json_parsed(res@)->Ok_0 == json_tree(*value),
        stands_alone(res@),
        json_tree(*value) is Text ==> res@[0] == QUOTE,
{
    serde_json::to_vec(value).expect("a value is written to memory")
}

/// `serde_json::Value::to_string`: displays a document.
#[verifier::external_body]
pub(crate) fn json_show(value: &serde_json::Value) -> (res: String)
    ensures
        res@ == json_display(json_tree(*value)),
{
    value.to_string()
}

/// `serde_json::Value::get`: a member of an object.
#[verifier::external_body]
pub(crate) fn json_get<'a>(value: &'a serde_json::Value, key: &str) -> (res: Option<&'a serde_json::Value>)
    ensures
        match res {
            Some(member) => member_of(json_tree(*value), key@) == Some(json_tree(*member)),
            None => member_of(json_tree(*value), key@) is None,
        },
{
    value.get(key)
}

/// `serde_json::Value::as_str`: the text that a document is.
#[verifier::external_body]
pub(crate) fn json_as_text(value: &serde_json::Value) -> (res: Option<String>)
    ensures
        res.deep_view() == text_in(Some(json_tree(*value))),
{
    value.as_str().map(String::from)
}

/// `serde_json::Value::as_u64`: the number that a document is.
#[verifier::external_body]
pub(crate) fn json_as_number(value: &serde_json::Value) -> (res: Option<u64>)
    ensures
        res == number_in(Some(json_tree(*value))),
{
    value.as_u64()
}

/// `serde_json::Value::as_array`: the items of a list.
#[verifier::external_body]
pub(crate) fn json_as_list(value: &serde_json::Value) -> (res: Option<&Vec<serde_json::Value>>)
    ensures
        match res {
            Some(items) => json_tree(*value) == JsonTree::List(json_trees(items@)),
            None => !(json_tree(*value) is List),
        },
{
    value.as_array()
}

/// `serde_json::Value::as_bool`: the truth value that a document is.
#[verifier::external_body]
pub(crate) fn json_as_bool(value: &serde_json::Value) -> (res: Option<bool>)
    ensures
        res == truth_in(Some(json_tree(*value))),
{
    value.as_bool()
}

/// `serde_json::Value::is_null`: whether a document is `null`.
#[verifier::external_body]
pub(crate) fn json_is_null(value: &serde_json::Value) -> (res: bool)
    ensures
        res == (json_tree(*value) is Null),
{
    value.is_null()
}

/// `serde_json::Value::as_object`: the members of an object, each name once.
#[verifier::external_body]
pub(crate) fn json_as_object(value: &serde_json::Value) -> (res: Option<Vec<(String, &serde_json::Value)>>)
    ensures
        match res {
            Some(members) => json_tree(*value) == JsonTree::Object(map_of(json_member_refs(members@)))
                && distinct_names(json_member_refs(members@)),
            None => !(json_tree(*value) is Object),
        },
{
    value.as_object().map(|members| members.iter().map(|(name, member)| (name.clone(), member)).collect())
}

/// `serde_json::Value::Null`.
#[verifier::external_body]
pub(crate) fn json_null() -> (res: serde_json::Value)
    ensures
        json_tree(res) == JsonTree::Null,
{
    serde_json::Value::Null
}

/// `serde_json::Value::from` on a text.
#[verifier::external_body]
pub(crate) fn json_text(s: &str) -> (res: serde_json::Value)
    ensures
        json_tree(res) == JsonTree::Text(s@),
{
    serde_json::Value::from(s)
}

/// `serde_json::Value::from` on a number.
#[verifier::external_body]
pub(crate) fn json_number(n: u64) -> (res: serde_json::Value)
    ensures
        json_tree(res) == JsonTree::Unsigned(n),
{
    serde_json::Value::from(n)
}

/// `serde_json::Value::from` on a truth value.
#[verifier::external_body]
pub(crate) fn json_bool(b: bool) -> (res: serde_json::Value)
    ensures
        json_tree(res) == JsonTree::Bool(b),
{
    serde_json::Value::from(b)
}

/// `serde_json::Value::from` on a list of values.
#[verifier::external_body]
pub(crate) fn json_list(items: Vec<serde_json::Value>) -> (res: serde_json::Value)
    ensures
        json_tree(res) == JsonTree::List(json_trees(items@)),
{
    serde_json::Value::from(items)
}

/// `serde_json::Value::Object` on `serde_json::Map::new`: the object without members.
#[verifier::external_body]
pub(crate) fn json_object() -> (res: serde_json::Value)
    ensures
        json_tree(res) == JsonTree::Object(Map::empty()),
{
    serde_json::Value::Object(serde_json::Map::new())
}

/// `serde_json::Map::insert` on the members of an object: gives it a member, in place of one
/// that has the name.
#[verifier::external_body]
pub(crate) fn json_insert(object: &mut serde_json::Value, name: &str, value: serde_json::Value)
    requires
        json_tree(*old(object)) is Object,
    ensures
        json_tree(*final(object)) == JsonTree::Object(
            json_tree(*old(object))->Object_0.insert(name@, json_tree(value)),
        ),
{
    object.as_object_mut().expect("the value is an object").insert(name.to_string(), value);
}

/// The object with one member.
pub(crate) fn json_object1(name: &str, value: serde_json::Value) -> (res: serde_json::Value)
    ensures
        json_tree(res) == JsonTree::Object(map![name@ => json_tree(value)]),
{
    let mut object = json_object();
    json_insert(&mut object, name, value);
    object
}

/// Reads a list of texts.
pub(crate) fn read_texts(value: &serde_json::Value) -> (res: Option<Vec<String>>)
    ensures
        res.deep_view() == texts_in(Some(json_tree(*value))),
{
    let items = match json_as_list(value) {
        Some(items) => items,
        None => return None,
    };
    let ghost trees = json_trees(items@);
    let mut out: Vec<String> = Vec::new();
    let mut i: usize = 0;
    while i < items.len()
        invariant
            i <= items@.len(),
            trees == json_trees(items@),
            json_tree(*value) == JsonTree::List(trees),
            out@.len() == i,
            forall|j: int| 0 <= j < i ==> #[trigger] trees[j] == JsonTree::Text(out@[j]@),
        decreases items@.len() - i,
    {
        match json_as_text(&items[i]) {
            Some(text) => {
                assert(trees[i as int] == JsonTree::Text(text@));
                out.push(text);
            },
            None => {
                assert(!(trees[i as int] is Text));
                return None;
            },
        }
        i = i + 1;
    }
    assert(out.deep_view() =~= Seq::new(trees.len(), |j: int| trees[j]->Text_0));
    Some(out)
}

/// The list of some texts.
pub(crate) fn json_texts(texts: &Vec<String>) -> (res: serde_json::Value)
    ensures
        json_tree(res) == texts_doc(texts.deep_view()),
{
    let mut items: Vec<serde_json::Value> = Vec::new();
    let mut i: usize = 0;
    while i < texts.len()
        invariant
            i <= texts@.len(),
            items@.len() == i,
            forall|j: int| 0 <= j < i ==> #[trigger] json_tree(items@[j]) == JsonTree::Text(texts@[j]@),
        decreases texts@.len() - i,
    {
        items.push(json_text(texts[i].as_str()));
        i = i + 1;
    }
    proof {
        let texts = texts.deep_view();
        assert(json_trees(items@) =~= Seq::new(texts.len(), |j: int| JsonTree::Text(texts[j])));
    }
    json_list(items)
}

/// The text of the member called `key`.
pub(crate) fn text_member(value: &serde_json::Value, key: &str) -> (res: Option<String>)
    ensures
        res.deep_view() == text_in(member_of(json_tree(*value), key@)),
{
    match json_get(value, key) {
        Some(member) => json_as_text(member),
        None => None,
    }
}

/// The number of the member called `key`.
pub(crate) fn number_member(value: &serde_json::Value, key: &str) -> (res: Option<u64>)
    ensures
        res == number_in(member_of(json_tree(*value), key@)),
{
    match json_get(value, key) {
        Some(member) => json_as_number(member),
        None => None,
    }
}

/// Whether a document is a record of `count` fields.
pub(crate) fn is_record_of(value: &serde_json::Value, count: usize) -> (res: bool)
    ensures
        res == is_record(json_tree(*value), count as nat),
{
    match json_as_list(value) {
        Some(items) => items.len() == count,
        None => json_as_object(value).is_some(),
    }
}

/// The field of a record that is called `name`, or stands at `place`.
pub(crate) fn record_field<'a>(value: &'a serde_json::Value, place: usize, name: &str) -> (res: Option<&'a serde_json::Value>)
    ensures
        match res {
            Some(field) => field_of(json_tree(*value), place as int, name@) == Some(json_tree(*field)),
            None => field_of(json_tree(*value), place as int, name@) is None,
        },
{
    match json_as_list(value) {
        Some(items) => if place < items.len() {
            assert(json_trees(items@)[place as int] == json_tree(items@[place as int]));
            Some(&items[place])
        } else {
            None
        },
        None => json_get(value, name),
    }
}

/// Reads a text.
pub(crate) fn text_field(value: &serde_json::Value, place: usize, name: &str) -> (res: Option<String>)
    ensures
        res.deep_view() == text_in(field_of(json_tree(*value), place as int, name@)),
{
    match record_field(value, place, name) {
        Some(field) => json_as_text(field),
        None => None,
    }
}

/// Reads a number.
pub(crate) fn number_field(value: &serde_json::Value, place: usize, name: &str) -> (res: Option<u64>)
    ensures
        res == number_in(field_of(json_tree(*value), place as int, name@)),
{
    match record_field(value, place, name) {
        Some(field) => json_as_number(field),
        None => None,
    }
}

/// A list of texts is read as those texts, in their order; a list with anything else in it is
/// none.
pub proof fn texts_are_read_in_order(items: Seq<JsonTree>, texts: Seq<Seq<char>>)
    ensures
        texts_in(Some(texts_doc(texts))) == Some(texts),
        texts_in(Some(JsonTree::List(items))) == Some(texts) ==> items.len() == texts.len() && forall|i: int|
            0 <= i < items.len() ==> #[trigger] items[i] == JsonTree::Text(texts[i]),
        (exists|i: int| 0 <= i < items.len() && !(#[trigger] items[i] is Text)) ==> texts_in(
            Some(JsonTree::List(items)),
        ) is None,
        texts_in(None) is None,
{
    let all = texts_doc(texts)->List_0;
    assert(Seq::new(all.len(), |i: int| all[i]->Text_0) =~= texts);
    if texts_in(Some(JsonTree::List(items))) == Some(texts) {
        assert forall|i: int| 0 <= i < items.len() implies #[trigger] items[i] == JsonTree::Text(texts[i]) by {
            assert(items[i] is Text);
            assert(texts[i] == items[i]->Text_0);
        }
    }
}

}
