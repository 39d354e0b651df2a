//! JSON records, in the form that serde gives structs, maps and lists of them.
//!
//! A record is an object, in which each field stands at most once and fields of other names are
//! passed over, or a list with a place for each field. It is written as an object, with the
//! fields in their order. Texts, numbers and what is passed over are left to `serde_json`.
use crate::bytes::{copy_from, extend};
use crate::json::{
    closes, is_space, json_as_bool, json_as_number, json_as_text, json_bytes, json_is_null, json_parse, json_parsed, json_skip, json_text,
    json_tree, json_value_end, json_write, number_in, optional_number_in, optional_text_in, read_texts, shallow,
    stands_alone, text_in, texts_in, truth_in, JsonTree, COLON, COMMA, LIST_CLOSE, LIST_OPEN,
    OBJECT_CLOSE, OBJECT_OPEN, QUOTE,
};
use crate::names::distinct_names;
use crate::text::same_text;
use vstd::prelude::*;
use vstd::slice::slice_subrange;

verus! {

/// A text from its first byte on that is no whitespace.
pub open spec fn after_spaces(text: Seq<u8>) -> Seq<u8>
    decreases text.len(),
{
    if text.len() > 0 && is_space(text[0]) {
        after_spaces(text.drop_first())
    } else {
        text
    }
}

/// Whether a text starts with a byte.
pub open spec fn starts(text: Seq<u8>, b: u8) -> bool {
    text.len() > 0 && text[0] == b
}

/// A text in two parts.
pub ghost struct Split {
    pub value: Seq<u8>,
    pub rest: Seq<u8>,
}

/// The first JSON value of a text, and what stands behind it.
pub open spec fn value_at(text: Seq<u8>) -> Option<Split> {
    match json_value_end(text) {
        Some(n) => if 0 < n <= text.len() {
            Some(Split { value: text.take(n as int), rest: text.skip(n as int) })
        } else {
            None
        },
        None => None,
    }
}

/// Where the next entry of a list or an object starts: at once for the first one, behind a
/// comma for the others.
pub open spec fn next_entry(text: Seq<u8>, first: bool) -> Option<Seq<u8>> {
    let t = after_spaces(text);
    if first {
        Some(t)
    } else if starts(t, COMMA) {
        Some(after_spaces(t.drop_first()))
    } else {
        None
    }
}

/// What comes next in an object.
pub ghost enum NextName {
    End { rest: Seq<u8> },
    /// The name of a member, and what stands from its value on.
    Name { name: Seq<char>, rest: Seq<u8> },
    Broken,
}

/// The name of a member with its value behind it.
pub open spec fn name_at(text: Seq<u8>) -> NextName {
    match value_at(text) {
        Some(split) => match json_parsed(split.value) {
            Ok(JsonTree::Text(name)) => {
                let colon = after_spaces(split.rest);
                if starts(text, QUOTE) && starts(colon, COLON) {
                    NextName::Name { name, rest: after_spaces(colon.drop_first()) }
                } else {
                    NextName::Broken
                }
            },
            _ => NextName::Broken,
        },
        None => NextName::Broken,
    }
}

/// What comes next in an object.
pub open spec fn next_name(text: Seq<u8>, first: bool) -> NextName {
    if starts(after_spaces(text), OBJECT_CLOSE) {
        NextName::End { rest: after_spaces(text).drop_first() }
    } else {
        match next_entry(text, first) {
            Some(t) => name_at(t),
            None => NextName::Broken,
        }
    }
}

/// What comes next in a list.
pub ghost enum NextItem {
    End { rest: Seq<u8> },
    /// What stands from the item on.
    Item { rest: Seq<u8> },
    Broken,
}

/// What comes next in a list.
pub open spec fn next_item(text: Seq<u8>, first: bool) -> NextItem {
    if starts(after_spaces(text), LIST_CLOSE) {
        NextItem::End { rest: after_spaces(text).drop_first() }
    } else {
        match next_entry(text, first) {
            Some(rest) => NextItem::Item { rest },
            None => NextItem::Broken,
        }
    }
}

/// A member of an object: its name, and its value as a text.
pub ghost struct Member {
    pub name: Seq<char>,
    pub value: Seq<u8>,
}

/// The members of an object, and what stands behind it.
pub ghost struct Members {
    pub members: Seq<Member>,
    pub rest: Seq<u8>,
}

/// The items of a list as texts, and what stands behind it.
pub ghost struct Items {
    pub items: Seq<Seq<u8>>,
    pub rest: Seq<u8>,
}

proof fn lemma_after_spaces(text: Seq<u8>)
    ensures
        after_spaces(text).len() <= text.len(),
        after_spaces(text).len() > 0 ==> !is_space(after_spaces(text)[0]),
    decreases text.len(),
{
    if text.len() > 0 && is_space(text[0]) {
        lemma_after_spaces(text.drop_first());
    }
}

/// What comes next in a text is shorter than the text.
pub proof fn lemma_next_shrinks(text: Seq<u8>, first: bool)
    ensures
        next_entry(text, first) matches Some(t) ==> t.len() <= text.len(),
        next_name(text, first) matches NextName::Name { name, rest } ==> rest.len() < text.len(),
        next_name(text, first) matches NextName::End { rest } ==> rest.len() < text.len(),
        next_item(text, first) matches NextItem::Item { rest } ==> rest.len() <= text.len(),
        next_item(text, first) matches NextItem::End { rest } ==> rest.len() < text.len(),
{
    lemma_after_spaces(text);
    lemma_after_spaces(after_spaces(text).drop_first());
    match next_entry(text, first) {
        Some(t) => match value_at(t) {
            Some(split) => {
                lemma_after_spaces(split.rest);
                lemma_after_spaces(after_spaces(split.rest).drop_first());
            },
            None => {},
        },
        None => {},
    }
}

/// The members of an object, from behind its brace or a member on.
pub open spec fn members_in(text: Seq<u8>, first: bool) -> Option<Members>
    decreases text.len(),
{
    match next_name(text, first) {
        NextName::End { rest } => Some(Members { members: seq![], rest }),
        NextName::Name { name, rest } => match value_at(rest) {
            Some(split) => {
                proof {
                    lemma_next_shrinks(text, first);
                }
                match members_in(split.rest, false) {
                    Some(more) => Some(
                        Members {
                            members: seq![Member { name, value: split.value }] + more.members,
                            rest: more.rest,
                        },
                    ),
                    None => None,
                }
            },
            None => None,
        },
        NextName::Broken => None,
    }
}

/// The items of a list, from behind its bracket or an item on.
pub open spec fn items_in(text: Seq<u8>, first: bool) -> Option<Items>
    decreases text.len(),
{
    match next_item(text, first) {
        NextItem::End { rest } => Some(Items { items: seq![], rest }),
        NextItem::Item { rest } => match value_at(rest) {
            Some(split) => {
                proof {
                    lemma_next_shrinks(text, first);
                }
                match items_in(split.rest, false) {
                    Some(more) => Some(Items { items: seq![split.value] + more.items, rest: more.rest }),
                    None => None,
                }
            },
            None => None,
        },
        NextItem::Broken => None,
    }
}

/// The fields of a record, by their names or by their places.
pub ghost enum Record {
    Named(Seq<Member>),
    Placed(Seq<Seq<u8>>),
}

/// A record, and what stands behind it.
pub ghost struct RecordSplit {
    pub record: Record,
    pub rest: Seq<u8>,
}

/// The record that a text starts with.
pub open spec fn record_at(text: Seq<u8>) -> Option<RecordSplit> {
    if starts(text, OBJECT_OPEN) {
        match members_in(text.drop_first(), true) {
            Some(found) => Some(RecordSplit { record: Record::Named(found.members), rest: found.rest }),
            None => None,
        }
    } else if starts(text, LIST_OPEN) {
        match items_in(text.drop_first(), true) {
            Some(found) => Some(RecordSplit { record: Record::Placed(found.items), rest: found.rest }),
            None => None,
        }
    } else {
        None
    }
}

/// The record that a text is, but for whitespace around it.
pub open spec fn record_in(text: Seq<u8>) -> Option<Record> {
    match record_at(after_spaces(text)) {
        Some(found) => if after_spaces(found.rest).len() == 0 {
            Some(found.record)
        } else {
            None
        },
        None => None,
    }
}

/// How often a name stands among members.
pub open spec fn times(members: Seq<Member>, name: Seq<char>) -> nat
    decreases members.len(),
{
    if members.len() == 0 {
        0
    } else {
        times(members.drop_last(), name) + if members.last().name == name {
            1nat
        } else {
            0nat
        }
    }
}

/// The value of the last member with a name.
pub open spec fn value_of(members: Seq<Member>, name: Seq<char>) -> Option<Seq<u8>>
    decreases members.len(),
{
    if members.len() == 0 {
        None
    } else if members.last().name == name {
        Some(members.last().value)
    } else {
        value_of(members.drop_last(), name)
    }
}

/// A field of a record.
pub ghost enum Field {
    Absent,
    /// The field stands twice, or is no document that can be read.
    Broken,
    Holds(JsonTree),
}

/// What the text of a field holds.
pub open spec fn holds(text: Seq<u8>) -> Field {
    match json_parsed(text) {
        Ok(tree) => Field::Holds(tree),
        Err(_) => Field::Broken,
    }
}

/// The field of a record that is called `name`, or stands at `place`.
pub open spec fn field_in(record: Record, place: int, name: Seq<char>) -> Field {
    match record {
        Record::Named(members) => if times(members, name) == 0 {
            Field::Absent
        } else if times(members, name) == 1 {
            holds(value_of(members, name)->0)
        } else {
            Field::Broken
        },
        Record::Placed(items) => if 0 <= place < items.len() {
            holds(items[place])
        } else {
            Field::Absent
        },
    }
}

/// Whether a record can have `count` fields.
pub open spec fn has_fields(record: Record, count: nat) -> bool {
    record matches Record::Placed(items) ==> items.len() == count
}

/// The text that a field is.
pub open spec fn text_field_in(field: Field) -> Option<Seq<char>> {
    match field {
        Field::Holds(tree) => text_in(Some(tree)),
        _ => None,
    }
}

/// The number that a field is.
pub open spec fn number_field_in(field: Field) -> Option<u64> {
    match field {
        Field::Holds(tree) => number_in(Some(tree)),
        _ => None,
    }
}

/// The truth value that a field is.
pub open spec fn truth_field_in(field: Field) -> Option<bool> {
    match field {
        Field::Holds(tree) => truth_in(Some(tree)),
        _ => None,
    }
}

/// The texts that a field is a list of.
pub open spec fn texts_field_in(field: Field) -> Option<Seq<Seq<char>>> {
    match field {
        Field::Holds(tree) => texts_in(Some(tree)),
        _ => None,
    }
}

/// The text that a field is, which may be left out.
pub open spec fn optional_text_field_in(field: Field) -> Option<Option<Seq<char>>> {
    match field {
        Field::Absent => Some(None),
        Field::Broken => None,
        Field::Holds(tree) => optional_text_in(Some(tree)),
    }
}

/// The number that a field is, which may be left out.
pub open spec fn optional_number_field_in(field: Field) -> Option<Option<u64>> {
    match field {
        Field::Absent => Some(None),
        Field::Broken => None,
        Field::Holds(tree) => optional_number_in(Some(tree)),
    }
}

/// What stands between the entries of a list or an object.
pub open spec fn separator(first: bool) -> Seq<u8> {
    if first {
        seq![]
    } else {
        seq![COMMA]
    }
}

/// The text of the name of a member.
pub open spec fn name_text(name: Seq<char>, first: bool) -> Seq<u8> {
    separator(first) + json_bytes(JsonTree::Text(name)) + seq![COLON]
}

/// The text of members, to the end of the object.
pub open spec fn members_text(members: Seq<Member>, first: bool) -> Seq<u8>
    decreases members.len(),
{
    if members.len() == 0 {
        seq![OBJECT_CLOSE]
    } else {
        name_text(members[0].name, first) + members[0].value + members_text(members.drop_first(), false)
    }
}

/// The text of an object.
pub open spec fn object_text(members: Seq<Member>) -> Seq<u8> {
    seq![OBJECT_OPEN] + members_text(members, true)
}

/// The text of items, to the end of the list.
pub open spec fn items_text(items: Seq<Seq<u8>>, first: bool) -> Seq<u8>
    decreases items.len(),
{
    if items.len() == 0 {
        seq![LIST_CLOSE]
    } else {
        separator(first) + items[0] + items_text(items.drop_first(), false)
    }
}

/// The text of a list.
pub open spec fn list_text(items: Seq<Seq<u8>>) -> Seq<u8> {
    seq![LIST_OPEN] + items_text(items, true)
}

/// The fields of a record that is written.
pub open spec fn fields_of(fields: Seq<(Seq<char>, JsonTree)>) -> Seq<Member> {
    Seq::new(fields.len(), |i: int| Member { name: fields[i].0, value: json_bytes(fields[i].1) })
}

/// The text of a record.
pub open spec fn record_text(fields: Seq<(Seq<char>, JsonTree)>) -> Seq<u8> {
    object_text(fields_of(fields))
}

/// Whether the text of a document reads back as the document, also inside other texts.
pub open spec fn is_written(tree: JsonTree) -> bool {
    &&& stands_alone(json_bytes(tree))
    &&& json_parsed(json_bytes(tree)) == Ok::<JsonTree, Seq<char>>(tree)
    &&& tree is Text ==> json_bytes(tree)[0] == QUOTE
}

/// Whether the names and the fields of a record read back.
pub open spec fn are_written(fields: Seq<(Seq<char>, JsonTree)>) -> bool {
    forall|i: int|
        0 <= i < fields.len() ==> is_written(JsonTree::Text((#[trigger] fields[i]).0)) && is_written(fields[i].1)
}

/// Records in a list, and what stands behind it.
pub ghost struct Records {
    pub records: Seq<Record>,
    pub rest: Seq<u8>,
}

/// Records with names in an object, and what stands behind it.
pub ghost struct NamedRecords {
    pub entries: Seq<(Seq<char>, Record)>,
    pub rest: Seq<u8>,
}

proof fn lemma_members_shrink(text: Seq<u8>, first: bool)
    ensures
        members_in(text, first) matches Some(found) ==> found.rest.len() < text.len(),
    decreases text.len(),
{
    lemma_next_shrinks(text, first);
    if let NextName::Name { name, rest } = next_name(text, first) {
        if let Some(split) = value_at(rest) {
            lemma_members_shrink(split.rest, false);
        }
    }
}

proof fn lemma_items_shrink(text: Seq<u8>, first: bool)
    ensures
        items_in(text, first) matches Some(found) ==> found.rest.len() < text.len(),
    decreases text.len(),
{
    lemma_next_shrinks(text, first);
    if let NextItem::Item { rest } = next_item(text, first) {
        if let Some(split) = value_at(rest) {
            lemma_items_shrink(split.rest, false);
        }
    }
}

/// What stands behind a record is shorter than what it stands in.
pub proof fn lemma_record_shrinks(text: Seq<u8>)
    ensures
        record_at(text) matches Some(found) ==> found.rest.len() < text.len(),
{
    if text.len() > 0 {
        lemma_members_shrink(text.drop_first(), true);
        lemma_items_shrink(text.drop_first(), true);
    }
}

/// The records of a list, from behind its bracket or a record on.
pub open spec fn records_in(text: Seq<u8>, first: bool) -> Option<Records>
    decreases text.len(),
{
    match next_item(text, first) {
        NextItem::End { rest } => Some(Records { records: seq![], rest }),
        NextItem::Item { rest } => match record_at(rest) {
            Some(found) => {
                proof {
                    lemma_next_shrinks(text, first);
                    lemma_record_shrinks(rest);
                }
                match records_in(found.rest, false) {
                    Some(more) => Some(Records { records: seq![found.record] + more.records, rest: more.rest }),
                    None => None,
                }
            },
            None => None,
        },
        NextItem::Broken => None,
    }
}

/// The records of an object, from behind its brace or a record on.
pub open spec fn named_records_in(text: Seq<u8>, first: bool) -> Option<NamedRecords>
    decreases text.len(),
{
    match next_name(text, first) {
        NextName::End { rest } => Some(NamedRecords { entries: seq![], rest }),
        NextName::Name { name, rest } => match record_at(rest) {
            Some(found) => {
                proof {
                    lemma_next_shrinks(text, first);
                    lemma_record_shrinks(rest);
                }
                match named_records_in(found.rest, false) {
                    Some(more) => Some(
                        NamedRecords { entries: seq![(name, found.record)] + more.entries, rest: more.rest },
                    ),
                    None => None,
                }
            },
            None => None,
        },
        NextName::Broken => None,
    }
}

/// The records that a text is a list of, but for whitespace around it.
pub open spec fn record_list_in(text: Seq<u8>) -> Option<Seq<Record>> {
    let t = after_spaces(text);
    if starts(t, LIST_OPEN) {
        match records_in(t.drop_first(), true) {
            Some(found) => if after_spaces(found.rest).len() == 0 {
                Some(found.records)
            } else {
                None
            },
            None => None,
        }
    } else {
        None
    }
}

/// The records that a text is an object of, with their names, but for whitespace around it.
pub open spec fn record_map_in(text: Seq<u8>) -> Option<Seq<(Seq<char>, Record)>> {
    let t = after_spaces(text);
    if starts(t, OBJECT_OPEN) {
        match named_records_in(t.drop_first(), true) {
            Some(found) => if after_spaces(found.rest).len() == 0 {
                Some(found.entries)
            } else {
                None
            },
            None => None,
        }
    } else {
        None
    }
}

proof fn lemma_name_reads(name: Seq<char>, first: bool, value: Seq<u8>)
    requires
        is_written(JsonTree::Text(name)),
        value.len() > 0,
        !is_space(value[0]),
    ensures
        next_name(name_text(name, first) + value, first) == (NextName::Name { name, rest: value }),
{
    let key = json_bytes(JsonTree::Text(name));
    let behind = seq![COLON] + value;
    let entry = key + behind;
    let text = name_text(name, first) + value;
    assert(text =~= separator(first) + entry);
    if first {
        assert(text =~= entry);
    } else {
        assert(text.drop_first() =~= entry);
    }
    assert(entry[0] == key[0]);
    assert(next_entry(text, first) == Some(entry));
    assert(json_value_end(entry) == Some(key.len()));
    assert(entry.take(key.len() as int) =~= key);
    assert(entry.skip(key.len() as int) =~= behind);
    assert(behind.drop_first() =~= value);
}

/// Members read back as they were written.
proof fn lemma_members_read(members: Seq<Member>, first: bool, rest: Seq<u8>)
    requires
        forall|i: int|
            0 <= i < members.len() ==> is_written(JsonTree::Text((#[trigger] members[i]).name)) && stands_alone(
                members[i].value,
            ),
    ensures
        members_in(members_text(members, first) + rest, first) == Some(Members { members, rest }),
    decreases members.len(),
{
    let text = members_text(members, first) + rest;
    if members.len() == 0 {
        assert(text.drop_first() =~= rest);
        assert(members =~= seq![]);
    } else {
        let more = members.drop_first();
        let value = members[0].value;
        let tail = members_text(more, false) + rest;
        assert forall|i: int| 0 <= i < more.len() implies is_written(JsonTree::Text((#[trigger] more[i]).name))
            && stands_alone(more[i].value) by {
            assert(more[i] == members[i + 1]);
        }
        lemma_members_read(more, false, rest);
        assert(text =~= name_text(members[0].name, first) + (value + tail));
        assert(is_written(JsonTree::Text(members[0].name)));
        lemma_name_reads(members[0].name, first, value + tail);
        lemma_members_close(more, rest);
        assert(json_value_end(value + tail) == Some(value.len()));
        assert((value + tail).take(value.len() as int) =~= value);
        assert((value + tail).skip(value.len() as int) =~= tail);
        assert(seq![Member { name: members[0].name, value }] + more =~= members);
    }
}

proof fn lemma_members_close(members: Seq<Member>, rest: Seq<u8>)
    ensures
        closes(members_text(members, false) + rest),
        !is_space((members_text(members, false) + rest)[0]),
{
    let text = members_text(members, false) + rest;
    if members.len() > 0 {
        assert(name_text(members[0].name, false)[0] == COMMA);
        assert(text[0] == COMMA);
    } else {
        assert(text[0] == OBJECT_CLOSE);
    }
}

proof fn lemma_fields_written(fields: Seq<(Seq<char>, JsonTree)>)
    requires
        are_written(fields),
    ensures
        forall|i: int|
            0 <= i < fields_of(fields).len() ==> is_written(JsonTree::Text((#[trigger] fields_of(fields)[i]).name))
                && stands_alone(fields_of(fields)[i].value),
{
    assert forall|i: int| 0 <= i < fields_of(fields).len() implies is_written(
        JsonTree::Text((#[trigger] fields_of(fields)[i]).name),
    ) && stands_alone(fields_of(fields)[i].value) by {
        assert(is_written(JsonTree::Text(fields[i].0)) && is_written(fields[i].1));
    }
}

/// A record reads back as it was written, wherever it stands.
pub proof fn record_reads_back(fields: Seq<(Seq<char>, JsonTree)>, rest: Seq<u8>)
    requires
        are_written(fields),
    ensures
        record_at(record_text(fields) + rest) == Some(
            RecordSplit { record: Record::Named(fields_of(fields)), rest },
        ),
{
    lemma_fields_written(fields);
    let text = record_text(fields) + rest;
    assert(text.drop_first() =~= members_text(fields_of(fields), true) + rest);
    lemma_members_read(fields_of(fields), true, rest);
}

/// A record that stands alone reads back as it was written.
pub proof fn record_stands_alone(fields: Seq<(Seq<char>, JsonTree)>)
    requires
        are_written(fields),
    ensures
        record_in(record_text(fields)) == Some(Record::Named(fields_of(fields))),
{
    record_reads_back(fields, seq![]);
    assert(record_text(fields) + seq![] =~= record_text(fields));
}

proof fn lemma_field_found(fields: Seq<(Seq<char>, JsonTree)>, name: Seq<char>, n: int)
    requires
        distinct_names(fields),
        0 <= n <= fields.len(),
    ensures
        forall|i: int|
            0 <= i < n && (#[trigger] fields[i]).0 == name ==> times(fields_of(fields).take(n), name) == 1 && value_of(
                fields_of(fields).take(n),
                name,
            ) == Some(json_bytes(fields[i].1)),
        (forall|i: int| 0 <= i < n ==> (#[trigger] fields[i]).0 != name) ==> times(fields_of(fields).take(n), name) == 0,
    decreases n,
{
    let members = fields_of(fields);
    if n > 0 {
        lemma_field_found(fields, name, n - 1);
        assert(members.take(n).drop_last() =~= members.take(n - 1));
        assert(members.take(n).last() == members[n - 1]);
        assert forall|i: int| 0 <= i < n && (#[trigger] fields[i]).0 == name implies times(members.take(n), name) == 1
            && value_of(members.take(n), name) == Some(json_bytes(fields[i].1)) by {
            if i < n - 1 {
                assert(fields[i].0 != fields[n - 1].0);
            } else {
                assert forall|j: int| 0 <= j < n - 1 implies (#[trigger] fields[j]).0 != name by {
                    assert(fields[j].0 != fields[n - 1].0);
                }
            }
        }
    }
}

/// Each field of a record that was written is found under its name.
pub proof fn fields_are_found(fields: Seq<(Seq<char>, JsonTree)>, i: int, place: int)
    requires
        are_written(fields),
        distinct_names(fields),
        0 <= i < fields.len(),
    ensures
        field_in(Record::Named(fields_of(fields)), place, fields[i].0) == Field::Holds(fields[i].1),
{
    lemma_field_found(fields, fields[i].0, fields.len() as int);
    assert(fields_of(fields).take(fields.len() as int) =~= fields_of(fields));
    assert(is_written(fields[i].1));
}

/// The texts of records.
pub open spec fn record_texts(rows: Seq<Seq<(Seq<char>, JsonTree)>>) -> Seq<Seq<u8>> {
    Seq::new(rows.len(), |i: int| record_text(rows[i]))
}

/// Records, as they read back.
pub open spec fn records_of(rows: Seq<Seq<(Seq<char>, JsonTree)>>) -> Seq<Record> {
    Seq::new(rows.len(), |i: int| Record::Named(fields_of(rows[i])))
}

proof fn lemma_records_read(rows: Seq<Seq<(Seq<char>, JsonTree)>>, first: bool, rest: Seq<u8>)
    requires
        forall|i: int| 0 <= i < rows.len() ==> are_written(#[trigger] rows[i]),
    ensures
        records_in(items_text(record_texts(rows), first) + rest, first) == Some(
            Records { records: records_of(rows), rest },
        ),
    decreases rows.len(),
{
    let texts = record_texts(rows);
    let text = items_text(texts, first) + rest;
    if rows.len() == 0 {
        assert(text.drop_first() =~= rest);
        assert(records_of(rows) =~= seq![]);
    } else {
        let more = rows.drop_first();
        assert forall|i: int| 0 <= i < more.len() implies are_written(#[trigger] more[i]) by {
            assert(more[i] == rows[i + 1]);
        }
        lemma_records_read(more, false, rest);
        assert(texts.drop_first() =~= record_texts(more));
        let tail = items_text(record_texts(more), false) + rest;
        let entry = record_text(rows[0]) + tail;
        assert(text =~= separator(first) + entry);
        if first {
            assert(text =~= entry);
        } else {
            assert(text.drop_first() =~= entry);
        }
        assert(entry[0] == OBJECT_OPEN);
        assert(next_item(text, first) == (NextItem::Item { rest: entry }));
        record_reads_back(rows[0], tail);
        assert(seq![Record::Named(fields_of(rows[0]))] + records_of(more) =~= records_of(rows));
    }
}

/// A list of records reads back as it was written.
pub proof fn record_list_reads_back(rows: Seq<Seq<(Seq<char>, JsonTree)>>)
    requires
        forall|i: int| 0 <= i < rows.len() ==> are_written(#[trigger] rows[i]),
    ensures
        record_list_in(list_text(record_texts(rows))) == Some(records_of(rows)),
{
    let text = list_text(record_texts(rows));
    lemma_records_read(rows, true, seq![]);
    assert(text.drop_first() =~= items_text(record_texts(rows), true) + seq![]);
}

/// Records with names, as members with their texts.
pub open spec fn entry_texts(entries: Seq<(Seq<char>, Seq<(Seq<char>, JsonTree)>)>) -> Seq<Member> {
    Seq::new(entries.len(), |i: int| Member { name: entries[i].0, value: record_text(entries[i].1) })
}

/// Records with names, as they read back.
pub open spec fn entries_of(entries: Seq<(Seq<char>, Seq<(Seq<char>, JsonTree)>)>) -> Seq<(Seq<char>, Record)> {
    Seq::new(entries.len(), |i: int| (entries[i].0, Record::Named(fields_of(entries[i].1))))
}

/// Whether the names and the records read back.
pub open spec fn entries_are_written(entries: Seq<(Seq<char>, Seq<(Seq<char>, JsonTree)>)>) -> bool {
    forall|i: int|
        0 <= i < entries.len() ==> is_written(JsonTree::Text((#[trigger] entries[i]).0)) && are_written(entries[i].1)
}

proof fn lemma_entries_read(entries: Seq<(Seq<char>, Seq<(Seq<char>, JsonTree)>)>, first: bool, rest: Seq<u8>)
    requires
        entries_are_written(entries),
    ensures
        named_records_in(members_text(entry_texts(entries), first) + rest, first) == Some(
            NamedRecords { entries: entries_of(entries), rest },
        ),
    decreases entries.len(),
{
    let members = entry_texts(entries);
    let text = members_text(members, first) + rest;
    if entries.len() == 0 {
        assert(text.drop_first() =~= rest);
        assert(entries_of(entries) =~= seq![]);
    } else {
        let more = entries.drop_first();
        assert forall|i: int| 0 <= i < more.len() implies is_written(JsonTree::Text((#[trigger] more[i]).0))
            && are_written(more[i].1) by {
            assert(more[i] == entries[i + 1]);
        }
        lemma_entries_read(more, false, rest);
        assert(members.drop_first() =~= entry_texts(more));
        let tail = members_text(entry_texts(more), false) + rest;
        let entry = record_text(entries[0].1) + tail;
        assert(text =~= name_text(entries[0].0, first) + entry);
        assert(entry[0] == OBJECT_OPEN);
        assert(is_written(JsonTree::Text(entries[0].0)));
        lemma_name_reads(entries[0].0, first, entry);
        record_reads_back(entries[0].1, tail);
        assert(seq![(entries[0].0, Record::Named(fields_of(entries[0].1)))] + entries_of(more) =~= entries_of(entries));
    }
}

/// An object of records reads back as it was written.
pub proof fn record_map_reads_back(entries: Seq<(Seq<char>, Seq<(Seq<char>, JsonTree)>)>)
    requires
        entries_are_written(entries),
    ensures
        record_map_in(object_text(entry_texts(entries))) == Some(entries_of(entries)),
{
    let text = object_text(entry_texts(entries));
    lemma_entries_read(entries, true, seq![]);
    assert(text.drop_first() =~= members_text(entry_texts(entries), true) + seq![]);
}

fn skip_spaces(text: &[u8], from: usize) -> (res: usize)
    requires
        from <= text@.len(),
    ensures
        from <= res <= text@.len(),
        text@.skip(res as int) == after_spaces(text@.skip(from as int)),
{
    let mut at: usize = from;
    while at < text.len() && (text[at] == 0x20 || text[at] == 0x0A || text[at] == 0x09 || text[at] == 0x0D)
        invariant
            from <= at <= text@.len(),
            after_spaces(text@.skip(at as int)) == after_spaces(text@.skip(from as int)),
        decreases text@.len() - at,
    {
        assert(text@.skip(at as int)[0] == text@[at as int]);
        assert(text@.skip(at as int).drop_first() =~= text@.skip(at + 1));
        at = at + 1;
    }
    if at < text.len() {
        assert(text@.skip(at as int)[0] == text@[at as int]);
    }
    at
}

fn starts_at(text: &[u8], at: usize, b: u8) -> (res: bool)
    requires
        at <= text@.len(),
    ensures
        res == starts(text@.skip(at as int), b),
        res ==> at < text@.len() && at < usize::MAX && text@.skip(at as int).drop_first() == text@.skip(at + 1),
{
    if at < text.len() {
        assert(text@.skip(at as int).drop_first() =~= text@.skip(at + 1));
        text[at] == b
    } else {
        false
    }
}

/// The end of the first JSON value from a place on.
fn value_end(text: &[u8], at: usize) -> (res: Option<usize>)
    requires
        at <= text@.len(),
    ensures
        match res {
            Some(end) => at < end <= text@.len() && value_at(text@.skip(at as int)) == Some(
                Split { value: text@.subrange(at as int, end as int), rest: text@.skip(end as int) },
            ),
            None => value_at(text@.skip(at as int)) is None,
        },
{
    let part = slice_subrange(text, at, text.len());
    assert(part@ =~= text@.skip(at as int));
    match json_skip(part) {
        Some(n) => {
            assert(part@.take(n as int) =~= text@.subrange(at as int, at + n));
            assert(part@.skip(n as int) =~= text@.skip(at + n));
            Some(at + n)
        },
        None => None,
    }
}

fn next_entry_at(text: &[u8], at: usize, first: bool) -> (res: Option<usize>)
    requires
        at <= text@.len(),
    ensures
        match res {
            Some(to) => at <= to <= text@.len() && next_entry(text@.skip(at as int), first) == Some(
                text@.skip(to as int),
            ),
            None => next_entry(text@.skip(at as int), first) is None,
        },
{
    let t = skip_spaces(text, at);
    if first {
        Some(t)
    } else if starts_at(text, t, COMMA) {
        Some(skip_spaces(text, t + 1))
    } else {
        None
    }
}

/// What comes next in an object, with the place where it goes on.
enum NameStep {
    End(usize),
    Name(String, usize),
    Broken,
}

spec fn name_step_is(step: NameStep, text: Seq<u8>, next: NextName) -> bool {
    match step {
        NameStep::End(to) => to <= text.len() && next == (NextName::End { rest: text.skip(to as int) }),
        NameStep::Name(name, to) => to <= text.len() && next == (NextName::Name {
            name: name@,
            rest: text.skip(to as int),
        }),
        NameStep::Broken => next == NextName::Broken,
    }
}

fn next_name_at(text: &[u8], at: usize, first: bool) -> (res: NameStep)
    requires
        at <= text@.len(),
    ensures
        name_step_is(res, text@, next_name(text@.skip(at as int), first)),
        res matches NameStep::Name(_, to) ==> at < to,
        res matches NameStep::End(to) ==> at < to,
{
    let t = skip_spaces(text, at);
    if starts_at(text, t, OBJECT_CLOSE) {
        return NameStep::End(t + 1);
    }
    let from = match next_entry_at(text, at, first) {
        Some(from) => from,
        None => return NameStep::Broken,
    };
    let end = match value_end(text, from) {
        Some(end) => end,
        None => return NameStep::Broken,
    };
    let key = slice_subrange(text, from, end);
    let value = match json_parse(key) {
        Ok(value) => value,
        Err(_) => return NameStep::Broken,
    };
    let name = match json_as_text(&value) {
        Some(name) => name,
        None => return NameStep::Broken,
    };
    let colon = skip_spaces(text, end);
    if starts_at(text, from, QUOTE) && starts_at(text, colon, COLON) {
        NameStep::Name(name, skip_spaces(text, colon + 1))
    } else {
        NameStep::Broken
    }
}

/// What comes next in a list, with the place where it goes on.
enum ItemStep {
    End(usize),
    Item(usize),
    Broken,
}

spec fn item_step_is(step: ItemStep, text: Seq<u8>, next: NextItem) -> bool {
    match step {
        ItemStep::End(to) => to <= text.len() && next == (NextItem::End { rest: text.skip(to as int) }),
        ItemStep::Item(to) => to <= text.len() && next == (NextItem::Item { rest: text.skip(to as int) }),
        ItemStep::Broken => next == NextItem::Broken,
    }
}

fn next_item_at(text: &[u8], at: usize, first: bool) -> (res: ItemStep)
    requires
        at <= text@.len(),
    ensures
        item_step_is(res, text@, next_item(text@.skip(at as int), first)),
        res matches ItemStep::Item(to) ==> at <= to,
        res matches ItemStep::End(to) ==> at < to,
{
    let t = skip_spaces(text, at);
    if starts_at(text, t, LIST_CLOSE) {
        return ItemStep::End(t + 1);
    }
    match next_entry_at(text, at, first) {
        Some(to) => ItemStep::Item(to),
        None => ItemStep::Broken,
    }
}

/// The fields of a record, by their names or by their places, as texts.
pub enum Fields {
    Named(Vec<(String, Vec<u8>)>),
    Placed(Vec<Vec<u8>>),
}

/// Names with texts, as members.
pub open spec fn members_view(members: Seq<(String, Vec<u8>)>) -> Seq<Member> {
    Seq::new(members.len(), |i: int| Member { name: members[i].0@, value: members[i].1@ })
}

/// Texts, as values.
pub open spec fn texts_view(items: Seq<Vec<u8>>) -> Seq<Seq<u8>> {
    Seq::new(items.len(), |i: int| items[i]@)
}

impl View for Fields {
    type V = Record;

    open spec fn view(&self) -> Record {
        match self {
            Fields::Named(members) => Record::Named(members_view(members@)),
            Fields::Placed(items) => Record::Placed(texts_view(items@)),
        }
    }
}

spec fn members_behind(before: Seq<Member>, found: Option<Members>) -> Option<Members> {
    match found {
        Some(found) => Some(Members { members: before + found.members, rest: found.rest }),
        None => None,
    }
}

fn read_members(text: &[u8], from: usize) -> (res: Option<(Vec<(String, Vec<u8>)>, usize)>)
    requires
        from <= text@.len(),
    ensures
        match res {
            Some((members, to)) => from <= to <= text@.len() && members_in(text@.skip(from as int), true) == Some(
                Members { members: members_view(members@), rest: text@.skip(to as int) },
            ),
            None => members_in(text@.skip(from as int), true) is None,
        },
{
    let mut out: Vec<(String, Vec<u8>)> = Vec::new();
    let mut at: usize = from;
    let mut first = true;
    let ghost whole = members_in(text@.skip(from as int), true);
    proof {
        assert(members_view(out@) =~= seq![]);
        if let Some(found) = whole {
            assert(seq![] + found.members =~= found.members);
        }
    }
    loop
        invariant
            from <= at <= text@.len(),
            whole == members_in(text@.skip(from as int), true),
            whole == members_behind(members_view(out@), members_in(text@.skip(at as int), first)),
        decreases text@.len() - at,
    {
        let (name, value_from) = match next_name_at(text, at, first) {
            NameStep::End(to) => {
                assert(members_view(out@) + seq![] =~= members_view(out@));
                return Some((out, to));
            },
            NameStep::Name(name, to) => (name, to),
            NameStep::Broken => return None,
        };
        let end = match value_end(text, value_from) {
            Some(end) => end,
            None => return None,
        };
        let value = copy_from(slice_subrange(text, value_from, end), 0);
        assert(value@ =~= text@.subrange(value_from as int, end as int));
        let ghost before = members_view(out@);
        let ghost member = Member { name: name@, value: value@ };
        out.push((name, value));
        proof {
            assert(members_view(out@) =~= before.push(member));
            let more = members_in(text@.skip(end as int), false);
            if let Some(more) = more {
                assert(before + (seq![member] + more.members) =~= before.push(member) + more.members);
            }
        }
        at = end;
        first = false;
    }
}

spec fn items_behind(before: Seq<Seq<u8>>, found: Option<Items>) -> Option<Items> {
    match found {
        Some(found) => Some(Items { items: before + found.items, rest: found.rest }),
        None => None,
    }
}

fn read_items(text: &[u8], from: usize) -> (res: Option<(Vec<Vec<u8>>, usize)>)
    requires
        from <= text@.len(),
    ensures
        match res {
            Some((items, to)) => from <= to <= text@.len() && items_in(text@.skip(from as int), true) == Some(
                Items { items: texts_view(items@), rest: text@.skip(to as int) },
            ),
            None => items_in(text@.skip(from as int), true) is None,
        },
{
    let mut out: Vec<Vec<u8>> = Vec::new();
    let mut at: usize = from;
    let mut first = true;
    let ghost whole = items_in(text@.skip(from as int), true);
    proof {
        assert(texts_view(out@) =~= seq![]);
        if let Some(found) = whole {
            assert(seq![] + found.items =~= found.items);
        }
    }
    loop
        invariant
            from <= at <= text@.len(),
            whole == items_in(text@.skip(from as int), true),
            whole == items_behind(texts_view(out@), items_in(text@.skip(at as int), first)),
        decreases text@.len() - at,
    {
        let value_from = match next_item_at(text, at, first) {
            ItemStep::End(to) => {
                assert(texts_view(out@) + seq![] =~= texts_view(out@));
                return Some((out, to));
            },
            ItemStep::Item(to) => to,
            ItemStep::Broken => return None,
        };
        let end = match value_end(text, value_from) {
            Some(end) => end,
            None => return None,
        };
        let value = copy_from(slice_subrange(text, value_from, end), 0);
        assert(value@ =~= text@.subrange(value_from as int, end as int));
        let ghost before = texts_view(out@);
        let ghost item = value@;
        out.push(value);
        proof {
            assert(texts_view(out@) =~= before.push(item));
            let more = items_in(text@.skip(end as int), false);
            if let Some(more) = more {
                assert(before + (seq![item] + more.items) =~= before.push(item) + more.items);
            }
        }
        at = end;
        first = false;
    }
}

/// Reads the record that stands at a place.
fn read_record_at(text: &[u8], at: usize) -> (res: Option<(Fields, usize)>)
    requires
        at <= text@.len(),
    ensures
        match res {
            Some((fields, to)) => at < to <= text@.len() && record_at(text@.skip(at as int)) == Some(
                RecordSplit { record: fields@, rest: text@.skip(to as int) },
            ),
            None => record_at(text@.skip(at as int)) is None,
        },
{
    if starts_at(text, at, OBJECT_OPEN) {
        match read_members(text, at + 1) {
            Some((members, to)) => Some((Fields::Named(members), to)),
            None => None,
        }
    } else if starts_at(text, at, LIST_OPEN) {
        match read_items(text, at + 1) {
            Some((items, to)) => Some((Fields::Placed(items), to)),
            None => None,
        }
    } else {
        None
    }
}

fn ends_at(text: &[u8], at: usize) -> (res: bool)
    requires
        at <= text@.len(),
    ensures
        res == (after_spaces(text@.skip(at as int)).len() == 0),
{
    skip_spaces(text, at) == text.len()
}

/// Reads the record that a text is.
pub(crate) fn read_record(text: &[u8]) -> (res: Option<Fields>)
    ensures
        match res {
            Some(fields) => record_in(text@) == Some(fields@),
            None => record_in(text@) is None,
        },
{
    let at = skip_spaces(text, 0);
    assert(text@.skip(0) =~= text@);
    match read_record_at(text, at) {
        Some((fields, to)) => if ends_at(text, to) {
            Some(fields)
        } else {
            None
        },
        None => None,
    }
}

/// Records, as values.
pub open spec fn rows_view(rows: Seq<Fields>) -> Seq<Record> {
    Seq::new(rows.len(), |i: int| rows[i]@)
}

spec fn records_behind(before: Seq<Record>, found: Option<Records>) -> Option<Records> {
    match found {
        Some(found) => Some(Records { records: before + found.records, rest: found.rest }),
        None => None,
    }
}

/// Reads the records that a text is a list of.
pub(crate) fn read_record_list(text: &[u8]) -> (res: Option<Vec<Fields>>)
    ensures
        match res {
            Some(rows) => record_list_in(text@) == Some(rows_view(rows@)),
            None => record_list_in(text@) is None,
        },
{
    let start = skip_spaces(text, 0);
    assert(text@.skip(0) =~= text@);
    if !starts_at(text, start, LIST_OPEN) {
        return None;
    }
    let from: usize = start + 1;
    let mut out: Vec<Fields> = Vec::new();
    let mut at: usize = from;
    let mut first = true;
    let ghost whole = records_in(text@.skip(from as int), true);
    proof {
        assert(rows_view(out@) =~= seq![]);
        if let Some(found) = whole {
            assert(seq![] + found.records =~= found.records);
        }
    }
    loop
        invariant
            from <= at <= text@.len(),
            starts(after_spaces(text@), LIST_OPEN),
            after_spaces(text@).drop_first() == text@.skip(from as int),
            whole == records_in(text@.skip(from as int), true),
            whole == records_behind(rows_view(out@), records_in(text@.skip(at as int), first)),
        decreases text@.len() - at,
    {
        let item_from = match next_item_at(text, at, first) {
            ItemStep::End(to) => {
                assert(rows_view(out@) + seq![] =~= rows_view(out@));
                return if ends_at(text, to) {
                    Some(out)
                } else {
                    None
                };
            },
            ItemStep::Item(to) => to,
            ItemStep::Broken => return None,
        };
        let (fields, end) = match read_record_at(text, item_from) {
            Some(found) => found,
            None => return None,
        };
        let ghost before = rows_view(out@);
        let ghost record = fields@;
        out.push(fields);
        proof {
            assert(rows_view(out@) =~= before.push(record));
            let more = records_in(text@.skip(end as int), false);
            if let Some(more) = more {
                assert(before + (seq![record] + more.records) =~= before.push(record) + more.records);
            }
        }
        at = end;
        first = false;
    }
}

/// Records with names, as values.
pub open spec fn named_rows_view(rows: Seq<(String, Fields)>) -> Seq<(Seq<char>, Record)> {
    Seq::new(rows.len(), |i: int| (rows[i].0@, rows[i].1@))
}

spec fn entries_behind(before: Seq<(Seq<char>, Record)>, found: Option<NamedRecords>) -> Option<NamedRecords> {
    match found {
        Some(found) => Some(NamedRecords { entries: before + found.entries, rest: found.rest }),
        None => None,
    }
}

/// Reads the records that a text is an object of.
pub(crate) fn read_record_map(text: &[u8]) -> (res: Option<Vec<(String, Fields)>>)
    ensures
        match res {
            Some(rows) => record_map_in(text@) == Some(named_rows_view(rows@)),
            None => record_map_in(text@) is None,
        },
{
    let start = skip_spaces(text, 0);
    assert(text@.skip(0) =~= text@);
    if !starts_at(text, start, OBJECT_OPEN) {
        return None;
    }
    let from: usize = start + 1;
    let mut out: Vec<(String, Fields)> = Vec::new();
    let mut at: usize = from;
    let mut first = true;
    let ghost whole = named_records_in(text@.skip(from as int), true);
    proof {
        assert(named_rows_view(out@) =~= seq![]);
        if let Some(found) = whole {
            assert(seq![] + found.entries =~= found.entries);
        }
    }
    loop
        invariant
            from <= at <= text@.len(),
            starts(after_spaces(text@), OBJECT_OPEN),
            after_spaces(text@).drop_first() == text@.skip(from as int),
            whole == named_records_in(text@.skip(from as int), true),
            whole == entries_behind(named_rows_view(out@), named_records_in(text@.skip(at as int), first)),
        decreases text@.len() - at,
    {
        let (name, record_from) = match next_name_at(text, at, first) {
            NameStep::End(to) => {
                assert(named_rows_view(out@) + seq![] =~= named_rows_view(out@));
                return if ends_at(text, to) {
                    Some(out)
                } else {
                    None
                };
            },
            NameStep::Name(name, to) => (name, to),
            NameStep::Broken => return None,
        };
        let (fields, end) = match read_record_at(text, record_from) {
            Some(found) => found,
            None => return None,
        };
        let ghost before = named_rows_view(out@);
        let ghost entry = (name@, fields@);
        out.push((name, fields));
        proof {
            assert(named_rows_view(out@) =~= before.push(entry));
            let more = named_records_in(text@.skip(end as int), false);
            if let Some(more) = more {
                assert(before + (seq![entry] + more.entries) =~= before.push(entry) + more.entries);
            }
        }
        at = end;
        first = false;
    }
}

/// A field that was read.
enum FieldValue {
    Absent,
    Broken,
    Holds(serde_json::Value),
}

spec fn field_view(value: FieldValue) -> Field {
    match value {
        FieldValue::Absent => Field::Absent,
        FieldValue::Broken => Field::Broken,
        FieldValue::Holds(value) => Field::Holds(json_tree(value)),
    }
}

fn read_holds(text: &[u8]) -> (res: FieldValue)
    ensures
        field_view(res) == holds(text@),
{
    match json_parse(text) {
        Ok(value) => FieldValue::Holds(value),
        Err(_) => FieldValue::Broken,
    }
}

impl Fields {
    /// Whether the record can have `count` fields.
    pub(crate) fn has_count(&self, count: usize) -> (res: bool)
        ensures
            res == has_fields(self@, count as nat),
    {
        match self {
            Fields::Named(_) => true,
            Fields::Placed(items) => items.len() == count,
        }
    }

    fn field(&self, place: usize, name: &str) -> (res: FieldValue)
        ensures
            field_view(res) == field_in(self@, place as int, name@),
    {
        let members = match self {
            Fields::Named(members) => members,
            Fields::Placed(items) => {
                if place < items.len() {
                    return read_holds(items[place].as_slice());
                }
                return FieldValue::Absent;
            },
        };
        let ghost all = members_view(members@);
        let mut count: usize = 0;
        let mut last: usize = 0;
        let mut i: usize = 0;
        while i < members.len()
            invariant
                i <= members@.len(),
                count <= i,
                all == members_view(members@),
                times(all.take(i as int), name@) == count,
                count > 0 ==> last < i && value_of(all.take(i as int), name@) == Some(members@[last as int].1@),
            decreases members@.len() - i,
        {
            assert(all.take(i + 1).drop_last() =~= all.take(i as int));
            assert(all.take(i + 1).last() == all[i as int]);
            if same_text(members[i].0.as_str(), name) {
                count = count + 1;
                last = i;
            }
            i = i + 1;
        }
        assert(all.take(i as int) =~= all);
        if count == 0 {
            FieldValue::Absent
        } else if count == 1 {
            read_holds(members[last].1.as_slice())
        } else {
            FieldValue::Broken
        }
    }

    /// Reads a text.
    pub(crate) fn text(&self, place: usize, name: &str) -> (res: Option<String>)
        ensures
            res.deep_view() == text_field_in(field_in(self@, place as int, name@)),
    {
        match self.field(place, name) {
            FieldValue::Holds(value) => json_as_text(&value),
            _ => None,
        }
    }

    /// Reads a number.
    pub(crate) fn number(&self, place: usize, name: &str) -> (res: Option<u64>)
        ensures
            res == number_field_in(field_in(self@, place as int, name@)),
    {
        match self.field(place, name) {
            FieldValue::Holds(value) => json_as_number(&value),
            _ => None,
        }
    }

    /// Reads a truth value.
    pub(crate) fn truth(&self, place: usize, name: &str) -> (res: Option<bool>)
        ensures
            res == truth_field_in(field_in(self@, place as int, name@)),
    {
        match self.field(place, name) {
            FieldValue::Holds(value) => json_as_bool(&value),
            _ => None,
        }
    }

    /// Reads a list of texts.
    pub(crate) fn texts(&self, place: usize, name: &str) -> (res: Option<Vec<String>>)
        ensures
            res.deep_view() == texts_field_in(field_in(self@, place as int, name@)),
    {
        match self.field(place, name) {
            FieldValue::Holds(value) => read_texts(&value),
            _ => None,
        }
    }

    /// Reads a text that may be left out.
    pub(crate) fn optional_text(&self, place: usize, name: &str) -> (res: Option<Option<String>>)
        ensures
            res.deep_view() == optional_text_field_in(field_in(self@, place as int, name@)),
    {
        match self.field(place, name) {
            FieldValue::Absent => Some(None),
            FieldValue::Broken => None,
            FieldValue::Holds(value) => if json_is_null(&value) {
                Some(None)
            } else {
                match json_as_text(&value) {
                    Some(text) => Some(Some(text)),
                    None => None,
                }
            },
        }
    }

    /// Reads a number that may be left out.
    pub(crate) fn optional_number(&self, place: usize, name: &str) -> (res: Option<Option<u64>>)
        ensures
            res == optional_number_field_in(field_in(self@, place as int, name@)),
    {
        match self.field(place, name) {
            FieldValue::Absent => Some(None),
            FieldValue::Broken => None,
            FieldValue::Holds(value) => if json_is_null(&value) {
                Some(None)
            } else {
                match json_as_number(&value) {
                    Some(n) => Some(Some(n)),
                    None => None,
                }
            },
        }
    }
}

fn put_name(out: &mut Vec<u8>, name: &str, first: bool)
    ensures
        final(out)@ == old(out)@ + name_text(name@, first),
        is_written(JsonTree::Text(name@)),
{
    if !first {
        out.push(COMMA);
    }
    let value = json_text(name);
    assert(shallow(json_tree(value), 4));
    let key = json_write(&value);
    extend(out, key.as_slice());
    out.push(COLON);
    assert(out@ =~= old(out)@ + name_text(name@, first));
}

/// Names with documents, as values.
pub open spec fn fields_view(fields: Seq<(String, serde_json::Value)>) -> Seq<(Seq<char>, JsonTree)> {
    Seq::new(fields.len(), |i: int| (fields[i].0@, json_tree(fields[i].1)))
}

/// Writes a record.
pub(crate) fn write_record(fields: &Vec<(String, serde_json::Value)>) -> (res: Vec<u8>)
    requires
        forall|i: int| 0 <= i < fields@.len() ==> shallow(json_tree((#[trigger] fields@[i]).1), 4),
    ensures
        res@ == record_text(fields_view(fields@)),
        are_written(fields_view(fields@)),
{
    let ghost all = fields_of(fields_view(fields@));
    let mut out: Vec<u8> = Vec::new();
    out.push(OBJECT_OPEN);
    let mut i: usize = 0;
    assert(all.skip(0) =~= all);
    assert(out@ =~= seq![OBJECT_OPEN]);
    while i < fields.len()
        invariant
            i <= fields@.len(),
            all == fields_of(fields_view(fields@)),
            forall|j: int| 0 <= j < fields@.len() ==> shallow(json_tree((#[trigger] fields@[j]).1), 4),
            forall|j: int|
                0 <= j < i ==> is_written(JsonTree::Text((#[trigger] fields@[j]).0@)) && is_written(
                    json_tree(fields@[j].1),
                ),
            out@ + members_text(all.skip(i as int), i == 0) == object_text(all),
        decreases fields@.len() - i,
    {
        let ghost before = out@;
        let ghost left = all.skip(i as int);
        put_name(&mut out, fields[i].0.as_str(), i == 0);
        let value = json_write(&fields[i].1);
        extend(&mut out, value.as_slice());
        proof {
            assert(left[0] == all[i as int]);
            assert(left.drop_first() =~= all.skip(i + 1));
            assert(out@ + members_text(all.skip(i + 1), false) =~= before + members_text(left, i == 0));
        }
        i = i + 1;
    }
    out.push(OBJECT_CLOSE);
    proof {
        assert(all.skip(i as int) =~= seq![]);
        assert forall|j: int| 0 <= j < fields_view(fields@).len() implies is_written(
            JsonTree::Text((#[trigger] fields_view(fields@)[j]).0),
        ) && is_written(fields_view(fields@)[j].1) by {
            assert(is_written(JsonTree::Text(fields@[j].0@)));
        }
    }
    out
}

/// Writes an object of members that are texts already.
pub(crate) fn write_object(members: &Vec<(String, Vec<u8>)>) -> (res: Vec<u8>)
    ensures
        res@ == object_text(members_view(members@)),
        forall|i: int| 0 <= i < members@.len() ==> is_written(JsonTree::Text((#[trigger] members@[i]).0@)),
{
    let ghost all = members_view(members@);
    let mut out: Vec<u8> = Vec::new();
    out.push(OBJECT_OPEN);
    let mut i: usize = 0;
    assert(all.skip(0) =~= all);
    assert(out@ =~= seq![OBJECT_OPEN]);
    while i < members.len()
        invariant
            i <= members@.len(),
            all == members_view(members@),
            forall|j: int| 0 <= j < i ==> is_written(JsonTree::Text((#[trigger] members@[j]).0@)),
            out@ + members_text(all.skip(i as int), i == 0) == object_text(all),
        decreases members@.len() - i,
    {
        let ghost before = out@;
        let ghost left = all.skip(i as int);
        put_name(&mut out, members[i].0.as_str(), i == 0);
        extend(&mut out, members[i].1.as_slice());
        proof {
            assert(left[0] == all[i as int]);
            assert(left.drop_first() =~= all.skip(i + 1));
            assert(out@ + members_text(all.skip(i + 1), false) =~= before + members_text(left, i == 0));
        }
        i = i + 1;
    }
    out.push(OBJECT_CLOSE);
    assert(all.skip(i as int) =~= seq![]);
    out
}

/// Writes a list of items that are texts already.
pub(crate) fn write_list(items: &Vec<Vec<u8>>) -> (res: Vec<u8>)
    ensures
        res@ == list_text(texts_view(items@)),
{
    let ghost all = texts_view(items@);
    let mut out: Vec<u8> = Vec::new();
    out.push(LIST_OPEN);
    let mut i: usize = 0;
    assert(all.skip(0) =~= all);
    assert(out@ =~= seq![LIST_OPEN]);
    while i < items.len()
        invariant
            i <= items@.len(),
            all == texts_view(items@),
            out@ + items_text(all.skip(i as int), i == 0) == list_text(all),
        decreases items@.len() - i,
    {
        let ghost before = out@;
        let ghost left = all.skip(i as int);
        if i > 0 {
            out.push(COMMA);
        }
        extend(&mut out, items[i].as_slice());
        proof {
            assert(left[0] == all[i as int]);
            assert(left.drop_first() =~= all.skip(i + 1));
            assert(out@ + items_text(all.skip(i + 1), false) =~= before + items_text(left, i == 0));
        }
        i = i + 1;
    }
    out.push(LIST_CLOSE);
    assert(all.skip(i as int) =~= seq![]);
    out
}

proof fn lemma_times(members: Seq<Member>, name: Seq<char>, i: int)
    requires
        0 <= i < members.len(),
        members[i].name == name,
    ensures
        times(members, name) >= 1,
        (forall|k: int| i < k < members.len() ==> (#[trigger] members[k]).name != name) ==> value_of(members, name)
            == Some(members[i].value),
        (forall|k: int| 0 <= k < members.len() && k != i ==> (#[trigger] members[k]).name != name) ==> times(
            members,
            name,
        ) == 1,
    decreases members.len(),
{
    let rest = members.drop_last();
    if i < rest.len() {
        lemma_times(rest, name, i);
        assert(forall|k: int| 0 <= k < rest.len() ==> #[trigger] rest[k] == members[k]);
        assert(members[members.len() - 1] == members.last());
    } else if forall|k: int| 0 <= k < members.len() && k != i ==> (#[trigger] members[k]).name != name {
        assert(forall|k: int| 0 <= k < rest.len() ==> #[trigger] rest[k] == members[k]);
        lemma_no_times(rest, name);
    }
}

proof fn lemma_no_times(members: Seq<Member>, name: Seq<char>)
    requires
        forall|k: int| 0 <= k < members.len() ==> (#[trigger] members[k]).name != name,
    ensures
        times(members, name) == 0,
    decreases members.len(),
{
    if members.len() > 0 {
        let rest = members.drop_last();
        assert(forall|k: int| 0 <= k < rest.len() ==> #[trigger] rest[k] == members[k]);
        lemma_no_times(rest, name);
    }
}

proof fn lemma_times_twice(members: Seq<Member>, name: Seq<char>, i: int, j: int)
    requires
        0 <= i < j < members.len(),
        members[i].name == name,
        members[j].name == name,
    ensures
        times(members, name) >= 2,
    decreases members.len(),
{
    let rest = members.drop_last();
    if j < rest.len() {
        lemma_times_twice(rest, name, i, j);
    } else {
        lemma_times(rest, name, i);
    }
}

/// A field that is named once holds what stands behind its name, wherever it stands and whatever
/// else there is; one that is not named is absent, and one that is named twice is refused. In a
/// list a field is known by its place.
pub proof fn fields_are_known_by_name(
    members: Seq<Member>,
    items: Seq<Seq<u8>>,
    place: int,
    name: Seq<char>,
    i: int,
    j: int,
)
    ensures
        0 <= i < members.len() && members[i].name == name && (forall|k: int|
            0 <= k < members.len() && k != i ==> (#[trigger] members[k]).name != name) ==> field_in(
            Record::Named(members),
            place,
            name,
        ) == holds(members[i].value),
        (forall|k: int| 0 <= k < members.len() ==> (#[trigger] members[k]).name != name) ==> field_in(
            Record::Named(members),
            place,
            name,
        ) == Field::Absent,
        0 <= i < j < members.len() && members[i].name == name && members[j].name == name ==> field_in(
            Record::Named(members),
            place,
            name,
        ) == Field::Broken,
        0 <= place < items.len() ==> field_in(Record::Placed(items), place, name) == holds(items[place]),
        items.len() <= place ==> field_in(Record::Placed(items), place, name) == Field::Absent,
{
    if 0 <= i < members.len() && members[i].name == name {
        lemma_times(members, name, i);
        if i < j < members.len() && members[j].name == name {
            lemma_times_twice(members, name, i, j);
        }
    }
    if forall|k: int| 0 <= k < members.len() ==> (#[trigger] members[k]).name != name {
        lemma_no_times(members, name);
    }
}

/// A field is a text, a number, a truth value or a list of texts only where it holds just that.
/// One that may be left out may also hold nothing.
pub proof fn fields_are_of_their_kind(tree: JsonTree, text: Seq<char>, n: u64, b: bool)
    ensures
        text_field_in(Field::Holds(tree)) == Some(text) <==> tree == JsonTree::Text(text),
        number_field_in(Field::Holds(tree)) == Some(n) <==> tree == JsonTree::Unsigned(n),
        truth_field_in(Field::Holds(tree)) == Some(b) <==> tree == JsonTree::Bool(b),
        optional_text_field_in(Field::Holds(tree)) == Some(Some(text)) <==> tree == JsonTree::Text(text),
        optional_text_field_in(Field::Holds(tree)) == Some(None::<Seq<char>>) <==> tree == JsonTree::Null,
        optional_number_field_in(Field::Holds(tree)) == Some(Some(n)) <==> tree == JsonTree::Unsigned(n),
        optional_number_field_in(Field::Holds(tree)) == Some(None::<u64>) <==> tree == JsonTree::Null,
        optional_text_field_in(Field::Absent) == Some(None::<Seq<char>>),
        optional_number_field_in(Field::Absent) == Some(None::<u64>),
        text_field_in(Field::Absent) is None && number_field_in(Field::Absent) is None && truth_field_in(Field::Absent)
            is None && texts_field_in(Field::Absent) is None,
        text_field_in(Field::Broken) is None && number_field_in(Field::Broken) is None && truth_field_in(Field::Broken)
            is None && texts_field_in(Field::Broken) is None && optional_text_field_in(Field::Broken) is None
            && optional_number_field_in(Field::Broken) is None,
{
}

proof fn lemma_spaces(space: Seq<u8>, text: Seq<u8>)
    requires
        forall|i: int| 0 <= i < space.len() ==> is_space(#[trigger] space[i]),
    ensures
        after_spaces(space + text) == after_spaces(text),
    decreases space.len(),
{
    if space.len() == 0 {
        assert(space + text =~= text);
    } else {
        let rest = space.drop_first();
        assert forall|i: int| 0 <= i < rest.len() implies is_space(#[trigger] rest[i]) by {
            assert(rest[i] == space[i + 1]);
        }
        assert((space + text)[0] == space[0]);
        assert((space + text).drop_first() =~= rest + text);
        lemma_spaces(rest, text);
    }
}

/// Spaces, tabs and ends of lines before a record, a list or an object of records, and before
/// each of their entries, change nothing.
pub proof fn space_changes_nothing(space: Seq<u8>, text: Seq<u8>, first: bool)
    requires
        forall|i: int|
            0 <= i < space.len() ==> #[trigger] space[i] == 0x20 || space[i] == 0x09 || space[i] == 0x0A || space[i]
                == 0x0D,
    ensures
        record_in(space + text) == record_in(text),
        record_list_in(space + text) == record_list_in(text),
        record_map_in(space + text) == record_map_in(text),
        members_in(space + text, first) == members_in(text, first),
        items_in(space + text, first) == items_in(text, first),
        records_in(space + text, first) == records_in(text, first),
        named_records_in(space + text, first) == named_records_in(text, first),
{
    assert forall|i: int| 0 <= i < space.len() implies is_space(#[trigger] space[i]) by {
    }
    lemma_spaces(space, text);
    assert(next_entry(space + text, first) == next_entry(text, first));
    assert(next_name(space + text, first) == next_name(text, first));
    assert(next_item(space + text, first) == next_item(text, first));
}

/// Between the entries of a list or an object there is a comma, and a record starts with a brace
/// or a bracket; other texts are refused.
pub proof fn other_texts_are_no_records(text: Seq<u8>, b: u8)
    requires
        b != 0x20 && b != 0x09 && b != 0x0A && b != 0x0D,
    ensures
        b != 0x7B && b != 0x5B ==> record_in(seq![b] + text) is None,
        b != 0x5B ==> record_list_in(seq![b] + text) is None,
        b != 0x7B ==> record_map_in(seq![b] + text) is None,
        b != 0x2C && b != 0x7D ==> members_in(seq![b] + text, false) is None && named_records_in(seq![b] + text, false)
            is None,
        b != 0x2C && b != 0x5D ==> items_in(seq![b] + text, false) is None && records_in(seq![b] + text, false) is None,
        record_in(seq![]) is None,
{
    let whole = seq![b] + text;
    assert(whole[0] == b);
    assert(!is_space(b));
    assert(after_spaces(whole) == whole);
}

}
