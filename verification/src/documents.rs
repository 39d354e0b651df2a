//! The JSON documents that messages say.
use crate::client::{FileOffer, OfferView};
use crate::handshake::{HandshakePacket, PacketView};
use crate::json::{
    field_of, is_record, is_record_of, json_bytes, json_insert, json_null, json_number, json_object, json_object1,
    json_parsed, json_text, json_texts, json_tree, json_write, member_of, number_field, number_in, shallow, text_field,
    text_in, texts_doc, JsonTree,
};
use crate::records::{
    are_written, field_in, fields_are_found, fields_view, has_fields, read_record, record_in, record_stands_alone,
    record_text, text_field_in, texts_field_in, write_record, Field, Record,
};
use vstd::prelude::*;
use vstd::string::*;

verus! {

/// A number, or that there is none.
pub open spec fn optional_number_doc(n: Option<u64>) -> JsonTree {
    match n {
        Some(n) => JsonTree::Unsigned(n),
        None => JsonTree::Null,
    }
}

/// A message of the application: its text, the group that it is for, and how long it is kept.
pub open spec fn message_doc(text: Seq<char>, to_group: bool, ttl: Option<u64>) -> JsonTree {
    let base = map!["text"@ => JsonTree::Text(text)];
    let grouped = if to_group {
        base.insert("group"@, JsonTree::Text("Lobby"@))
    } else {
        base
    };
    JsonTree::Object(
        match ttl {
            Some(secs) => grouped.insert("ttl"@, JsonTree::Unsigned(secs)),
            None => grouped,
        },
    )
}

/// A notice of how long a node's messages are kept from now on.
pub open spec fn ttl_notice_doc(ttl: Option<u64>) -> JsonTree {
    JsonTree::Object(map!["ttl_notice"@ => optional_number_doc(ttl)])
}

/// What an offer says of a file.
pub open spec fn offered_file_doc(offer: OfferView) -> JsonTree {
    JsonTree::Object(
        map![
            "file_name"@ => JsonTree::Text(offer.file_name),
            "size"@ => JsonTree::Unsigned(offer.size),
            "merkle_root"@ => JsonTree::Text(offer.merkle_root),
        ],
    )
}

/// An offer of a file.
pub open spec fn file_offer_doc(offer: OfferView) -> JsonTree {
    JsonTree::Object(map!["file_offer"@ => offered_file_doc(offer)])
}

/// The acceptance of a file, from an offset on.
pub open spec fn file_accept_doc(merkle_root: Seq<char>, start_offset: Option<u64>) -> JsonTree {
    JsonTree::Object(
        map![
            "file_accept"@ => JsonTree::Object(
                map![
                    "merkle_root"@ => JsonTree::Text(merkle_root),
                    "start_offset"@ => optional_number_doc(start_offset),
                ],
            ),
        ],
    )
}

/// The refusal of a file.
pub open spec fn file_decline_doc(merkle_root: Seq<char>) -> JsonTree {
    JsonTree::Object(
        map!["file_decline"@ => JsonTree::Object(map!["merkle_root"@ => JsonTree::Text(merkle_root)])],
    )
}

/// The file that a document offers.
pub open spec fn offer_in(tree: JsonTree) -> Option<OfferView> {
    let name = text_in(field_of(tree, 0, "file_name"@));
    let size = number_in(field_of(tree, 1, "size"@));
    let root = text_in(field_of(tree, 2, "merkle_root"@));
    if is_record(tree, 3) && name is Some && size is Some && root is Some {
        Some(OfferView { file_name: name->0, size: size->0, merkle_root: root->0 })
    } else {
        None
    }
}

/// What a node says of itself when a session opens, field by field.
pub open spec fn packet_fields(packet: PacketView) -> Seq<(Seq<char>, JsonTree)> {
    seq![
        ("type"@, JsonTree::Text(packet.msg_type)),
        ("pk"@, JsonTree::Text(packet.pk)),
        ("spk"@, JsonTree::Text(packet.spk)),
        ("sig"@, JsonTree::Text(packet.sig)),
        ("extensions"@, texts_doc(packet.extensions)),
    ]
}

/// What a record says of a node when a session opens.
pub open spec fn packet_in(record: Record) -> Option<PacketView> {
    let msg_type = text_field_in(field_in(record, 0, "type"@));
    let pk = text_field_in(field_in(record, 1, "pk"@));
    let spk = text_field_in(field_in(record, 2, "spk"@));
    let sig = text_field_in(field_in(record, 3, "sig"@));
    let extensions = texts_field_in(field_in(record, 4, "extensions"@));
    if has_fields(record, 5) && msg_type is Some && pk is Some && spk is Some && sig is Some && extensions is Some {
        Some(PacketView { msg_type: msg_type->0, pk: pk->0, spk: spk->0, sig: sig->0, extensions: extensions->0 })
    } else {
        None
    }
}

/// The packet that a JSON text stands for, if it is one.
pub open spec fn packet_read(text: Seq<u8>) -> Option<PacketView> {
    match record_in(text) {
        Some(record) => packet_in(record),
        None => None,
    }
}

/// Whether the text of a document reads back as the document.
pub open spec fn reads_back(doc: JsonTree) -> bool {
    json_parsed(json_bytes(doc)) == Ok::<JsonTree, Seq<char>>(doc)
}

fn optional_number(n: Option<u64>) -> (res: serde_json::Value)
    ensures
        json_tree(res) == optional_number_doc(n),
{
    match n {
        Some(n) => json_number(n),
        None => json_null(),
    }
}

/// Writes a message of the application.
pub fn write_message(text: &str, to_group: bool, ttl: Option<u64>) -> (res: Vec<u8>)
    ensures
        res@ == json_bytes(message_doc(text@, to_group, ttl)),
        reads_back(message_doc(text@, to_group, ttl)),
{
    let mut object = json_object();
    json_insert(&mut object, "text", json_text(text));
    if to_group {
        json_insert(&mut object, "group", json_text("Lobby"));
    }
    if let Some(secs) = ttl {
        json_insert(&mut object, "ttl", json_number(secs));
    }
    assert(shallow(json_tree(object), 4)) by {
        reveal_with_fuel(shallow, 3);
    }
    json_write(&object)
}

/// Writes a notice of how long messages are kept.
pub fn write_ttl_notice(ttl: Option<u64>) -> (res: Vec<u8>)
    ensures
        res@ == json_bytes(ttl_notice_doc(ttl)),
        reads_back(ttl_notice_doc(ttl)),
{
    let doc = json_object1("ttl_notice", optional_number(ttl));
    assert(shallow(json_tree(doc), 4)) by {
        reveal_with_fuel(shallow, 3);
    }
    json_write(&doc)
}

/// Writes an offer of a file.
pub fn write_file_offer(offer: &FileOffer) -> (res: Vec<u8>)
    ensures
        res@ == json_bytes(file_offer_doc(offer.deep_view())),
        reads_back(file_offer_doc(offer.deep_view())),
{
    let mut object = json_object();
    json_insert(&mut object, "file_name", json_text(offer.file_name.as_str()));
    json_insert(&mut object, "size", json_number(offer.size));
    json_insert(&mut object, "merkle_root", json_text(offer.merkle_root.as_str()));
    let doc = json_object1("file_offer", object);
    assert(shallow(json_tree(doc), 4)) by {
        reveal_with_fuel(shallow, 4);
    }
    json_write(&doc)
}

/// Writes the acceptance of a file.
pub fn write_file_accept(merkle_root: &str, start_offset: Option<u64>) -> (res: Vec<u8>)
    ensures
        res@ == json_bytes(file_accept_doc(merkle_root@, start_offset)),
        reads_back(file_accept_doc(merkle_root@, start_offset)),
{
    let mut object = json_object();
    json_insert(&mut object, "merkle_root", json_text(merkle_root));
    json_insert(&mut object, "start_offset", optional_number(start_offset));
    let doc = json_object1("file_accept", object);
    assert(shallow(json_tree(doc), 4)) by {
        reveal_with_fuel(shallow, 4);
    }
    json_write(&doc)
}

/// Writes the refusal of a file.
pub fn write_file_decline(merkle_root: &str) -> (res: Vec<u8>)
    ensures
        res@ == json_bytes(file_decline_doc(merkle_root@)),
        reads_back(file_decline_doc(merkle_root@)),
{
    let doc = json_object1("file_decline", json_object1("merkle_root", json_text(merkle_root)));
    assert(shallow(json_tree(doc), 4)) by {
        reveal_with_fuel(shallow, 4);
    }
    json_write(&doc)
}

/// Reads an offered file.
pub(crate) fn read_offer(value: &serde_json::Value) -> (res: Option<FileOffer>)
    ensures
        res.deep_view() == offer_in(json_tree(*value)),
{
    if !is_record_of(value, 3) {
        return None;
    }
    let file_name = match text_field(value, 0, "file_name") {
        Some(name) => name,
        None => return None,
    };
    let size: u64 = match number_field(value, 1, "size") {
        Some(size) => size,
        None => return None,
    };
    let merkle_root = match text_field(value, 2, "merkle_root") {
        Some(root) => root,
        None => return None,
    };
    Some(FileOffer { file_name, size, merkle_root })
}

/// Writes what a node says of itself when a session opens.
pub fn write_packet(packet: &HandshakePacket) -> (res: Vec<u8>)
    ensures
        res@ == record_text(packet_fields(packet@)),
        are_written(packet_fields(packet@)),
{
    let mut fields: Vec<(String, serde_json::Value)> = Vec::new();
    fields.push(("type".to_owned(), json_text(packet.msg_type.as_str())));
    fields.push(("pk".to_owned(), json_text(packet.pk.as_str())));
    fields.push(("spk".to_owned(), json_text(packet.spk.as_str())));
    fields.push(("sig".to_owned(), json_text(packet.sig.as_str())));
    fields.push(("extensions".to_owned(), json_texts(&packet.extensions)));
    proof {
        reveal_with_fuel(shallow, 3);
        assert(fields_view(fields@) =~= packet_fields(packet@));
    }
    write_record(&fields)
}

/// Reads what a node says of itself when a session opens.
pub fn read_packet(text: &[u8]) -> (res: Option<HandshakePacket>)
    ensures
        match res {
            Some(packet) => packet_read(text@) == Some(packet@),
            None => packet_read(text@) is None,
        },
{
    let record = match read_record(text) {
        Some(record) => record,
        None => return None,
    };
    if !record.has_count(5) {
        return None;
    }
    let msg_type = match record.text(0, "type") {
        Some(msg_type) => msg_type,
        None => return None,
    };
    let pk = match record.text(1, "pk") {
        Some(pk) => pk,
        None => return None,
    };
    let spk = match record.text(2, "spk") {
        Some(spk) => spk,
        None => return None,
    };
    let sig = match record.text(3, "sig") {
        Some(sig) => sig,
        None => return None,
    };
    let extensions = match record.texts(4, "extensions") {
        Some(extensions) => extensions,
        None => return None,
    };
    Some(HandshakePacket { msg_type, pk, spk, sig, extensions })
}

/// A packet reads back as it was written.
pub proof fn packet_reads_back(packet: PacketView)
    requires
        are_written(packet_fields(packet)),
    ensures
        packet_read(record_text(packet_fields(packet))) == Some(packet),
{
    reveal_strlit("type");
    reveal_strlit("pk");
    reveal_strlit("spk");
    reveal_strlit("sig");
    reveal_strlit("extensions");
    assert("type"@.len() == 4 && "pk"@.len() == 2 && "spk"@.len() == 3 && "sig"@.len() == 3);
    assert("extensions"@.len() == 10);
    assert("spk"@[1] != "sig"@[1]);
    let fields = packet_fields(packet);
    record_stands_alone(fields);
    fields_are_found(fields, 0, 0);
    fields_are_found(fields, 1, 1);
    fields_are_found(fields, 2, 2);
    fields_are_found(fields, 3, 3);
    fields_are_found(fields, 4, 4);
    let items = texts_doc(packet.extensions)->List_0;
    assert(Seq::new(items.len(), |i: int| items[i]->Text_0) =~= packet.extensions);
}

/// A message of the application says its text, its group and how long it is kept.
pub proof fn message_doc_says(text: Seq<char>, to_group: bool, ttl: Option<u64>)
    ensures
        ({
            let doc = message_doc(text, to_group, ttl);
            &&& text_in(member_of(doc, "text"@)) == Some(text)
            &&& number_in(member_of(doc, "ttl"@)) == ttl
            &&& text_in(member_of(doc, "group"@)) == if to_group {
                Some("Lobby"@)
            } else {
                None
            }
        }),
{
    reveal_strlit("text");
    reveal_strlit("ttl");
    reveal_strlit("group");
    assert("text"@.len() == 4 && "ttl"@.len() == 3 && "group"@.len() == 5);
}

/// A notice is told from the other extension documents, and says the time to live.
pub proof fn ttl_notice_doc_says(ttl: Option<u64>)
    ensures
        member_of(ttl_notice_doc(ttl), "ttl_notice"@) is Some,
        number_in(member_of(ttl_notice_doc(ttl), "ttl_notice"@)) == ttl,
{
}

/// An offer is told from the other extension documents, and says what is offered.
pub proof fn file_offer_doc_says(offer: OfferView)
    ensures
        ({
            let doc = file_offer_doc(offer);
            &&& member_of(doc, "ttl_notice"@) is None
            &&& member_of(doc, "file_offer"@) is Some
            &&& offer_in(member_of(doc, "file_offer"@)->0) == Some(offer)
        }),
{
    reveal_strlit("ttl_notice");
    reveal_strlit("file_offer");
    assert("ttl_notice"@[0] != "file_offer"@[0]);
    reveal_strlit("file_name");
    reveal_strlit("size");
    reveal_strlit("merkle_root");
    assert("file_name"@.len() == 9 && "size"@.len() == 4 && "merkle_root"@.len() == 11);
    let file = offered_file_doc(offer);
    assert(text_in(field_of(file, 0, "file_name"@)) == Some(offer.file_name));
    assert(number_in(field_of(file, 1, "size"@)) == Some(offer.size));
    assert(text_in(field_of(file, 2, "merkle_root"@)) == Some(offer.merkle_root));
}

/// An acceptance is told from the other extension documents, and says the root and the offset.
pub proof fn file_accept_doc_says(merkle_root: Seq<char>, start_offset: Option<u64>)
    ensures
        ({
            let doc = file_accept_doc(merkle_root, start_offset);
            &&& member_of(doc, "ttl_notice"@) is None
            &&& member_of(doc, "file_offer"@) is None
            &&& member_of(doc, "file_accept"@) matches Some(accept) && text_in(member_of(accept, "merkle_root"@))
                == Some(merkle_root) && number_in(member_of(accept, "start_offset"@)) == start_offset
        }),
{
    reveal_strlit("ttl_notice");
    reveal_strlit("file_offer");
    reveal_strlit("file_accept");
    assert("ttl_notice"@.len() == 10 && "file_offer"@.len() == 10 && "file_accept"@.len() == 11);
    reveal_strlit("merkle_root");
    reveal_strlit("start_offset");
    assert("merkle_root"@.len() == 11 && "start_offset"@.len() == 12);
}

/// A refusal is told from the other extension documents, and says the root.
pub proof fn file_decline_doc_says(merkle_root: Seq<char>)
    ensures
        ({
            let doc = file_decline_doc(merkle_root);
            &&& member_of(doc, "ttl_notice"@) is None
            &&& member_of(doc, "file_offer"@) is None
            &&& member_of(doc, "file_accept"@) is None
            &&& member_of(doc, "file_decline"@) matches Some(decline) && text_in(
                member_of(decline, "merkle_root"@),
            ) == Some(merkle_root)
        }),
{
    reveal_strlit("ttl_notice");
    reveal_strlit("file_offer");
    reveal_strlit("file_accept");
    reveal_strlit("file_decline");
    assert("ttl_notice"@.len() == 10 && "file_offer"@.len() == 10 && "file_accept"@.len() == 11);
    assert("file_decline"@.len() == 12);
}

/// A packet that is read has in each of its parts what the record has under the name of that part,
/// and a record with all of them is read as a packet.
pub proof fn packet_parts_have_their_names(record: Record, packet: PacketView)
    ensures
        packet_in(record) == Some(packet) ==> {
            &&& field_in(record, 0, "type"@) == Field::Holds(JsonTree::Text(packet.msg_type))
            &&& field_in(record, 1, "pk"@) == Field::Holds(JsonTree::Text(packet.pk))
            &&& field_in(record, 2, "spk"@) == Field::Holds(JsonTree::Text(packet.spk))
            &&& field_in(record, 3, "sig"@) == Field::Holds(JsonTree::Text(packet.sig))
            &&& texts_field_in(field_in(record, 4, "extensions"@)) == Some(packet.extensions)
        },
        packet_in(record) is None ==> !({
            &&& record is Named
            &&& field_in(record, 0, "type"@) == Field::Holds(JsonTree::Text(packet.msg_type))
            &&& field_in(record, 1, "pk"@) == Field::Holds(JsonTree::Text(packet.pk))
            &&& field_in(record, 2, "spk"@) == Field::Holds(JsonTree::Text(packet.spk))
            &&& field_in(record, 3, "sig"@) == Field::Holds(JsonTree::Text(packet.sig))
            &&& texts_field_in(field_in(record, 4, "extensions"@)) == Some(packet.extensions)
        }),
{
}

/// An offer that is read has the name, the size and the root that the document has under these
/// names, and a document with all three is an offer.
pub proof fn offer_parts_have_their_names(members: Map<Seq<char>, JsonTree>, offer: OfferView)
    ensures
        offer_in(JsonTree::Object(members)) == Some(offer) <==> {
            &&& members.contains_key("file_name"@) && members["file_name"@] == JsonTree::Text(offer.file_name)
            &&& members.contains_key("size"@) && members["size"@] == JsonTree::Unsigned(offer.size)
            &&& members.contains_key("merkle_root"@) && members["merkle_root"@] == JsonTree::Text(offer.merkle_root)
        },
{
}

/// The documents have just the members that they are about.
pub proof fn documents_say_no_more(text: Seq<char>, ttl: Option<u64>, offer: OfferView, offset: u64)
    ensures
        message_doc(text, false, None) == JsonTree::Object(map!["text"@ => JsonTree::Text(text)]),
        ttl_notice_doc(None) == JsonTree::Object(map!["ttl_notice"@ => JsonTree::Null]),
        ttl matches Some(secs) ==> ttl_notice_doc(ttl) == JsonTree::Object(
            map!["ttl_notice"@ => JsonTree::Unsigned(secs)],
        ),
        file_decline_doc(offer.merkle_root) == JsonTree::Object(
            map![
                "file_decline"@ => JsonTree::Object(map!["merkle_root"@ => JsonTree::Text(offer.merkle_root)]),
            ],
        ),
        file_accept_doc(offer.merkle_root, Some(offset)) == JsonTree::Object(
            map![
                "file_accept"@ => JsonTree::Object(
                    map![
                        "merkle_root"@ => JsonTree::Text(offer.merkle_root),
                        "start_offset"@ => JsonTree::Unsigned(offset),
                    ],
                ),
            ],
        ),
{
}

/// An offer may also be a list: of the name, the size and the root, in this order and no more.
pub proof fn offer_may_be_a_list(name: Seq<char>, size: u64, root: Seq<char>, items: Seq<JsonTree>)
    ensures
        offer_in(JsonTree::List(seq![JsonTree::Text(name), JsonTree::Unsigned(size), JsonTree::Text(root)])) == Some(
            OfferView { file_name: name, size, merkle_root: root },
        ),
        items.len() != 3 ==> offer_in(JsonTree::List(items)) is None,
{
}

}
