//! What a node keeps on disk: the peers that it knows and the messages that it has.
//!
//! Both are kept as JSON, encrypted under a key that is derived from the key of the node.
use crate::bytes::{array_at, copy_from, extend};
use crate::json::{json_bool, json_null, json_number, json_text, JsonTree};
use crate::names::{distinct_names, map_entries, map_holds_entries, map_of, NameMap};
use crate::primitives::{
    aes_gcm_open, aes_gcm_opened, aes_gcm_seal, aes_gcm_sealed, bytes_of, hkdf, hkdf_sha256, random_nonce, MAX_SEALED, NONCE_LEN,
    TAG_LEN,
};
use crate::records::{
    are_written, entries_are_written, entries_of, entry_texts, field_in, fields_are_found, fields_of, fields_view,
    has_fields, is_written, list_text, members_view, named_rows_view, number_field_in, object_text,
    optional_number_field_in, optional_text_field_in, read_record_list, read_record_map, record_list_in,
    record_list_reads_back, record_map_in, record_map_reads_back, record_text, record_texts, records_of, rows_view,
    text_field_in, texts_view, truth_field_in, write_list, write_object, write_record, Field, Fields, Member,
    Record,
};
use vstd::prelude::*;
use vstd::string::*;

verus! {

/// What is known of a peer.
#[derive(Debug, Clone)]
pub struct PeerInfo {
    pub static_public_key_b64: String,
    pub custom_name: Option<String>,
    pub is_verified: bool,
}

/// What is known of a peer, as a value.
pub ghost struct PeerInfoView {
    pub static_public_key_b64: Seq<char>,
    pub custom_name: Option<Seq<char>>,
    pub is_verified: bool,
}

impl DeepView for PeerInfo {
    type V = PeerInfoView;

    open spec fn deep_view(&self) -> PeerInfoView {
        PeerInfoView {
            static_public_key_b64: self.static_public_key_b64@,
            custom_name: self.custom_name.deep_view(),
            is_verified: self.is_verified,
        }
    }
}

/// A message as it is kept.
#[derive(Debug, Clone)]
pub struct StoredMessage {
    /// Whom the message was sent to or came from.
    pub peer_id: String,
    /// "Me", "System" or the id of a node.
    pub from: String,
    pub content: String,
    pub is_system: bool,
    pub ttl: Option<u64>,
    /// When the message arrived, in seconds since the Unix epoch.
    pub timestamp_secs: u64,
}

/// A message as it is kept, as a value.
pub ghost struct StoredMessageView {
    pub peer_id: Seq<char>,
    pub from: Seq<char>,
    pub content: Seq<char>,
    pub is_system: bool,
    pub ttl: Option<u64>,
    pub timestamp_secs: u64,
}

impl DeepView for StoredMessage {
    type V = StoredMessageView;

    open spec fn deep_view(&self) -> StoredMessageView {
        StoredMessageView {
            peer_id: self.peer_id@,
            from: self.from@,
            content: self.content@,
            is_system: self.is_system,
            ttl: self.ttl,
            timestamp_secs: self.timestamp_secs,
        }
    }
}

/// Why something could not be stored or loaded.
#[derive(Clone, Copy, Debug, PartialEq, Eq, Structural)]
pub enum StorageError {
    EncryptionFailed,
    TooShort,
    DecryptionFailed,
    InvalidContent,
}

/// The key that what a node keeps is encrypted under.
pub open spec fn storage_key(private_key: Seq<u8>) -> Seq<u8> {
    hkdf_sha256(
        Some("patronus-storage-salt-v1".spec_bytes()),
        private_key,
        "patronus-storage-key-v1".spec_bytes(),
        32,
    )
}

/// What stored data is authenticated with.
pub open spec fn storage_aad() -> Seq<u8> {
    "patronus-storage-aad-v1".spec_bytes()
}

/// Data as it is stored under a key and a nonce: the nonce, the ciphertext and the tag.
pub open spec fn stored(key: Seq<u8>, nonce: Seq<u8>, data: Seq<u8>) -> Seq<u8> {
    nonce + aes_gcm_sealed(key, nonce, data, storage_aad())
}

/// The data that was stored.
pub open spec fn restored(key: Seq<u8>, file: Seq<u8>) -> Result<Seq<u8>, StorageError> {
    if file.len() < NONCE_LEN + TAG_LEN {
        Err(StorageError::TooShort)
    } else {
        match aes_gcm_opened(key, file.take(NONCE_LEN as int), file.skip(NONCE_LEN as int), storage_aad()) {
            Some(data) => Ok(data),
            None => Err(StorageError::DecryptionFailed),
        }
    }
}

/// Derives the key that what a node keeps is encrypted under.
pub fn derive_storage_key(private_key: &[u8]) -> (res: [u8; 32])
    ensures
        res@ == storage_key(private_key@),
{
    hkdf(Some("patronus-storage-salt-v1".as_bytes()), private_key, "patronus-storage-key-v1".as_bytes())
}

fn aad_bytes() -> (res: Vec<u8>)
    ensures
        res@ == storage_aad(),
        res@.len() <= MAX_SEALED,
{
    proof {
        reveal_strlit("patronus-storage-aad-v1");
        vstd::utf8::is_ascii_chars_encode_utf8("patronus-storage-aad-v1"@);
    }
    let mut aad: Vec<u8> = Vec::new();
    extend(&mut aad, "patronus-storage-aad-v1".as_bytes());
    assert(aad@ =~= storage_aad());
    aad
}

/// Encrypts data for storage, under a fresh nonce. Too much data is refused. What is stored
/// is restored as it was.
pub fn encrypt_data(key: &[u8; 32], plaintext: &[u8]) -> (res: Result<Vec<u8>, StorageError>)
    ensures
        match res {
            Ok(file) => plaintext@.len() <= MAX_SEALED && file@ == stored(
                key@,
                file@.take(NONCE_LEN as int),
                plaintext@,
            ) && file@.len() == NONCE_LEN + plaintext@.len() + TAG_LEN && restored(key@, file@) == Ok::<
                Seq<u8>,
                StorageError,
            >(plaintext@),
            Err(e) => plaintext@.len() > MAX_SEALED && e == StorageError::EncryptionFailed,
        },
{
    let nonce = random_nonce();
    encrypt_data_under(key, plaintext, &nonce)
}

/// Encrypts data for storage, under the given nonce.
pub fn encrypt_data_under(key: &[u8; 32], plaintext: &[u8], nonce: &[u8; 12]) -> (res: Result<Vec<u8>, StorageError>)
    ensures
        match res {
            Ok(file) => plaintext@.len() <= MAX_SEALED && file@ == stored(key@, nonce@, plaintext@)
                && file@.take(NONCE_LEN as int) == nonce@ && file@.len() == NONCE_LEN + plaintext@.len() + TAG_LEN
                && restored(key@, file@) == Ok::<Seq<u8>, StorageError>(plaintext@),
            Err(e) => plaintext@.len() > MAX_SEALED && e == StorageError::EncryptionFailed,
        },
{
    if plaintext.len() as u64 > MAX_SEALED {
        return Err(StorageError::EncryptionFailed);
    }
    let aad = aad_bytes();
    let ciphertext = aes_gcm_seal(key, nonce, plaintext, aad.as_slice());
    let mut out: Vec<u8> = Vec::new();
    extend(&mut out, nonce.as_slice());
    extend(&mut out, ciphertext.as_slice());
    assert(out@ =~= nonce@ + ciphertext@);
    assert(out@.take(NONCE_LEN as int) =~= nonce@);
    assert(out@.skip(NONCE_LEN as int) =~= ciphertext@);
    Ok(out)
}

/// Decrypts what was stored.
pub fn decrypt_data(key: &[u8; 32], encrypted: &[u8]) -> (res: Result<Vec<u8>, StorageError>)
    ensures
        match res {
            Ok(data) => restored(key@, encrypted@) == Ok::<Seq<u8>, StorageError>(data@),
            Err(e) => restored(key@, encrypted@) == Err::<Seq<u8>, StorageError>(e),
        },
{
    if encrypted.len() < NONCE_LEN + TAG_LEN {
        return Err(StorageError::TooShort);
    }
    let nonce: [u8; 12] = array_at(encrypted, 0);
    assert(nonce@ =~= encrypted@.take(NONCE_LEN as int));
    let ciphertext = copy_from(encrypted, NONCE_LEN);
    let aad = aad_bytes();
    match aes_gcm_open(key, &nonce, ciphertext.as_slice(), aad.as_slice()) {
        Some(data) => Ok(data),
        None => Err(StorageError::DecryptionFailed),
    }
}

/// A peer, field by field.
pub open spec fn peer_fields(peer: PeerInfoView) -> Seq<(Seq<char>, JsonTree)> {
    seq![
        ("static_public_key_b64"@, JsonTree::Text(peer.static_public_key_b64)),
        (
            "custom_name"@,
            match peer.custom_name {
                Some(name) => JsonTree::Text(name),
                None => JsonTree::Null,
            },
        ),
        ("is_verified"@, JsonTree::Bool(peer.is_verified)),
    ]
}

/// The peer that a record is.
pub open spec fn peer_in(record: Record) -> Option<PeerInfoView> {
    let key = text_field_in(field_in(record, 0, "static_public_key_b64"@));
    let name = optional_text_field_in(field_in(record, 1, "custom_name"@));
    let verified = truth_field_in(field_in(record, 2, "is_verified"@));
    if has_fields(record, 3) && key is Some && name is Some && verified is Some {
        Some(PeerInfoView { static_public_key_b64: key->0, custom_name: name->0, is_verified: verified->0 })
    } else {
        None
    }
}

/// The fields of peers that are listed with their ids.
pub open spec fn peer_rows(peers: Seq<(Seq<char>, PeerInfoView)>) -> Seq<(Seq<char>, Seq<(Seq<char>, JsonTree)>)> {
    map_entries(peers, |peer: PeerInfoView| peer_fields(peer))
}

/// The text of the known peers, in the order in which they are listed.
pub open spec fn peers_text(peers: Seq<(Seq<char>, PeerInfoView)>) -> Seq<u8> {
    object_text(entry_texts(peer_rows(peers)))
}

/// The peers that records with ids are. Of peers with one id the last counts.
pub open spec fn peers_in(rows: Seq<(Seq<char>, Record)>) -> Option<Map<Seq<char>, PeerInfoView>> {
    if forall|i: int| 0 <= i < rows.len() ==> peer_in((#[trigger] rows[i]).1) is Some {
        Some(map_of(map_entries(rows, |record: Record| peer_in(record)->0)))
    } else {
        None
    }
}

/// A message, field by field.
pub open spec fn message_fields(message: StoredMessageView) -> Seq<(Seq<char>, JsonTree)> {
    seq![
        ("peer_id"@, JsonTree::Text(message.peer_id)),
        ("from"@, JsonTree::Text(message.from)),
        ("content"@, JsonTree::Text(message.content)),
        ("is_system"@, JsonTree::Bool(message.is_system)),
        (
            "ttl"@,
            match message.ttl {
                Some(ttl) => JsonTree::Unsigned(ttl),
                None => JsonTree::Null,
            },
        ),
        ("timestamp_secs"@, JsonTree::Unsigned(message.timestamp_secs)),
    ]
}

/// The message that a record is.
pub open spec fn message_in(record: Record) -> Option<StoredMessageView> {
    let peer_id = text_field_in(field_in(record, 0, "peer_id"@));
    let from = text_field_in(field_in(record, 1, "from"@));
    let content = text_field_in(field_in(record, 2, "content"@));
    let is_system = truth_field_in(field_in(record, 3, "is_system"@));
    let ttl = optional_number_field_in(field_in(record, 4, "ttl"@));
    let timestamp = number_field_in(field_in(record, 5, "timestamp_secs"@));
    if has_fields(record, 6) && peer_id is Some && from is Some && content is Some && is_system is Some && ttl is Some
        && timestamp is Some {
        Some(
            StoredMessageView {
                peer_id: peer_id->0,
                from: from->0,
                content: content->0,
                is_system: is_system->0,
                ttl: ttl->0,
                timestamp_secs: timestamp->0,
            },
        )
    } else {
        None
    }
}

/// The fields of messages.
pub open spec fn message_rows(history: Seq<StoredMessageView>) -> Seq<Seq<(Seq<char>, JsonTree)>> {
    Seq::new(history.len(), |i: int| message_fields(history[i]))
}

/// The text of the messages.
pub open spec fn history_text(history: Seq<StoredMessageView>) -> Seq<u8> {
    list_text(record_texts(message_rows(history)))
}

/// The messages that records are.
pub open spec fn history_in(rows: Seq<Record>) -> Option<Seq<StoredMessageView>> {
    if forall|i: int| 0 <= i < rows.len() ==> message_in(#[trigger] rows[i]) is Some {
        Some(Seq::new(rows.len(), |i: int| message_in(rows[i])->0))
    } else {
        None
    }
}

/// A peer reads back as it was written.
pub proof fn peer_reads_back(peer: PeerInfoView)
    requires
        are_written(peer_fields(peer)),
    ensures
        peer_in(Record::Named(fields_of(peer_fields(peer)))) == Some(peer),
{
    reveal_strlit("static_public_key_b64");
    reveal_strlit("custom_name");
    reveal_strlit("is_verified");
    assert("custom_name"@[0] != "is_verified"@[0]);
    assert("static_public_key_b64"@.len() == 21 && "custom_name"@.len() == 11 && "is_verified"@.len() == 11);
    let fields = peer_fields(peer);
    fields_are_found(fields, 0, 0);
    fields_are_found(fields, 1, 1);
    fields_are_found(fields, 2, 2);
}

/// The known peers read back as they were written, in whatever order they were listed.
pub proof fn peers_read_back(peers: Seq<(Seq<char>, PeerInfoView)>)
    requires
        entries_are_written(peer_rows(peers)),
    ensures
        ({
            let rows = record_map_in(peers_text(peers));
            rows is Some && peers_in(rows->0) == Some(map_of(peers))
        }),
{
    let written = peer_rows(peers);
    let rows = entries_of(written);
    let read = |record: Record| peer_in(record)->0;
    record_map_reads_back(written);
    assert forall|i: int| 0 <= i < rows.len() implies peer_in((#[trigger] rows[i]).1) == Some(peers[i].1) by {
        assert(are_written(written[i].1));
        peer_reads_back(peers[i].1);
    }
    assert(map_entries(rows, read) =~= peers);
}

/// A message reads back as it was written.
pub proof fn message_reads_back(message: StoredMessageView)
    requires
        are_written(message_fields(message)),
    ensures
        message_in(Record::Named(fields_of(message_fields(message)))) == Some(message),
{
    reveal_strlit("peer_id");
    reveal_strlit("from");
    reveal_strlit("content");
    reveal_strlit("is_system");
    reveal_strlit("ttl");
    reveal_strlit("timestamp_secs");
    assert("peer_id"@[0] != "content"@[0]);
    assert("peer_id"@.len() == 7 && "content"@.len() == 7);
    assert("from"@.len() == 4 && "is_system"@.len() == 9 && "ttl"@.len() == 3 && "timestamp_secs"@.len() == 14);
    let fields = message_fields(message);
    fields_are_found(fields, 0, 0);
    fields_are_found(fields, 1, 1);
    fields_are_found(fields, 2, 2);
    fields_are_found(fields, 3, 3);
    fields_are_found(fields, 4, 4);
    fields_are_found(fields, 5, 5);
}

/// The messages read back as they were written, in their order.
pub proof fn history_reads_back(history: Seq<StoredMessageView>)
    requires
        forall|i: int| 0 <= i < history.len() ==> are_written(message_fields(#[trigger] history[i])),
    ensures
        ({
            let rows = record_list_in(history_text(history));
            rows is Some && history_in(rows->0) == Some(history)
        }),
{
    let written = message_rows(history);
    let rows = records_of(written);
    assert forall|i: int| 0 <= i < written.len() implies are_written(#[trigger] written[i]) by {
        assert(are_written(message_fields(history[i])));
    }
    record_list_reads_back(written);
    assert forall|i: int| 0 <= i < rows.len() implies message_in(#[trigger] rows[i]) == Some(history[i]) by {
        message_reads_back(history[i]);
    }
    assert(Seq::new(rows.len(), |i: int| message_in(rows[i])->0) =~= history);
}

/// What a file of peers says: nothing, where there is no file.
pub open spec fn loaded_peers(
    key: Seq<u8>,
    file: Option<Seq<u8>>,
) -> Result<Map<Seq<char>, PeerInfoView>, StorageError> {
    match file {
        None => Ok(Map::empty()),
        Some(bytes) => match restored(key, bytes) {
            Err(e) => Err(e),
            Ok(text) => match record_map_in(text) {
                Some(rows) => match peers_in(rows) {
                    Some(peers) => Ok(peers),
                    None => Err(StorageError::InvalidContent),
                },
                None => Err(StorageError::InvalidContent),
            },
        },
    }
}

/// What a file of messages says: nothing, where there is no file.
pub open spec fn loaded_history(
    key: Seq<u8>,
    file: Option<Seq<u8>>,
) -> Result<Seq<StoredMessageView>, StorageError> {
    match file {
        None => Ok(Seq::empty()),
        Some(bytes) => match restored(key, bytes) {
            Err(e) => Err(e),
            Ok(text) => match record_list_in(text) {
                Some(rows) => match history_in(rows) {
                    Some(history) => Ok(history),
                    None => Err(StorageError::InvalidContent),
                },
                None => Err(StorageError::InvalidContent),
            },
        },
    }
}

fn write_peer(peer: &PeerInfo) -> (res: Vec<u8>)
    ensures
        res@ == record_text(peer_fields(peer.deep_view())),
        are_written(peer_fields(peer.deep_view())),
{
    let mut fields: Vec<(String, serde_json::Value)> = Vec::new();
    fields.push(("static_public_key_b64".to_owned(), json_text(peer.static_public_key_b64.as_str())));
    let name = match &peer.custom_name {
        Some(name) => json_text(name.as_str()),
        None => json_null(),
    };
    fields.push(("custom_name".to_owned(), name));
    fields.push(("is_verified".to_owned(), json_bool(peer.is_verified)));
    assert(fields_view(fields@) =~= peer_fields(peer.deep_view()));
    write_record(&fields)
}

fn read_peer(record: &Fields) -> (res: Option<PeerInfo>)
    ensures
        res.deep_view() == peer_in(record@),
{
    if !record.has_count(3) {
        return None;
    }
    let static_public_key_b64 = match record.text(0, "static_public_key_b64") {
        Some(key) => key,
        None => return None,
    };
    let custom_name = match record.optional_text(1, "custom_name") {
        Some(name) => name,
        None => return None,
    };
    let is_verified = match record.truth(2, "is_verified") {
        Some(verified) => verified,
        None => return None,
    };
    Some(PeerInfo { static_public_key_b64, custom_name, is_verified })
}

fn write_message(message: &StoredMessage) -> (res: Vec<u8>)
    ensures
        res@ == record_text(message_fields(message.deep_view())),
        are_written(message_fields(message.deep_view())),
{
    let mut fields: Vec<(String, serde_json::Value)> = Vec::new();
    fields.push(("peer_id".to_owned(), json_text(message.peer_id.as_str())));
    fields.push(("from".to_owned(), json_text(message.from.as_str())));
    fields.push(("content".to_owned(), json_text(message.content.as_str())));
    fields.push(("is_system".to_owned(), json_bool(message.is_system)));
    let ttl = match message.ttl {
        Some(ttl) => json_number(ttl),
        None => json_null(),
    };
    fields.push(("ttl".to_owned(), ttl));
    fields.push(("timestamp_secs".to_owned(), json_number(message.timestamp_secs)));
    assert(fields_view(fields@) =~= message_fields(message.deep_view()));
    write_record(&fields)
}

fn read_message(record: &Fields) -> (res: Option<StoredMessage>)
    ensures
        res.deep_view() == message_in(record@),
{
    if !record.has_count(6) {
        return None;
    }
    let peer_id = match record.text(0, "peer_id") {
        Some(peer_id) => peer_id,
        None => return None,
    };
    let from = match record.text(1, "from") {
        Some(from) => from,
        None => return None,
    };
    let content = match record.text(2, "content") {
        Some(content) => content,
        None => return None,
    };
    let is_system = match record.truth(3, "is_system") {
        Some(is_system) => is_system,
        None => return None,
    };
    let ttl = match record.optional_number(4, "ttl") {
        Some(ttl) => ttl,
        None => return None,
    };
    let timestamp_secs: u64 = match record.number(5, "timestamp_secs") {
        Some(timestamp) => timestamp,
        None => return None,
    };
    Some(StoredMessage { peer_id, from, content, is_system, ttl, timestamp_secs })
}

/// Writes the known peers, in the order in which they are listed.
fn write_peers(peers: &Vec<(String, PeerInfo)>) -> (res: Vec<u8>)
    ensures
        res@ == peers_text(peers.deep_view()),
        entries_are_written(peer_rows(peers.deep_view())),
{
    let ghost rows = peer_rows(peers.deep_view());
    let mut members: Vec<(String, Vec<u8>)> = Vec::new();
    let mut i: usize = 0;
    while i < peers.len()
        invariant
            i <= peers@.len(),
            members@.len() == i,
            rows == peer_rows(peers.deep_view()),
            forall|j: int|
                0 <= j < i ==> (#[trigger] members@[j]).0@ == peers@[j].0@ && members@[j].1@ == record_text(rows[j].1)
                    && are_written(rows[j].1),
        decreases peers@.len() - i,
    {
        let text = write_peer(&peers[i].1);
        assert(rows[i as int].1 == peer_fields(peers@[i as int].1.deep_view()));
        members.push((peers[i].0.clone(), text));
        i = i + 1;
    }
    let res = write_object(&members);
    proof {
        assert(members_view(members@) =~= entry_texts(rows));
        assert forall|j: int| 0 <= j < rows.len() implies is_written(JsonTree::Text((#[trigger] rows[j]).0))
            && are_written(rows[j].1) by {
            assert(is_written(JsonTree::Text(members@[j].0@)));
        }
    }
    res
}

fn read_peers(text: &[u8]) -> (res: Option<NameMap<PeerInfo>>)
    ensures
        match record_map_in(text@) {
            Some(rows) => res.deep_view() == peers_in(rows),
            None => res is None,
        },
{
    let rows = match read_record_map(text) {
        Some(rows) => rows,
        None => return None,
    };
    let ghost all = named_rows_view(rows@);
    let ghost read = |record: Record| peer_in(record)->0;
    let mut peers: NameMap<PeerInfo> = NameMap::new();
    let mut i: usize = 0;
    assert(map_entries(all.take(0), read) =~= seq![]);
    while i < rows.len()
        invariant
            i <= rows@.len(),
            all == named_rows_view(rows@),
            read == (|record: Record| peer_in(record)->0),
            record_map_in(text@) == Some(all),
            forall|j: int| 0 <= j < i ==> peer_in((#[trigger] all[j]).1) is Some,
            peers.deep_view() == map_of(map_entries(all.take(i as int), read)),
        decreases rows@.len() - i,
    {
        match read_peer(&rows[i].1) {
            Some(peer) => {
                proof {
                    let longer = map_entries(all.take(i + 1), read);
                    assert(longer.drop_last() =~= map_entries(all.take(i as int), read));
                    assert(longer.last() == (rows@[i as int].0@, peer.deep_view()));
                }
                peers.insert(rows[i].0.clone(), peer);
            },
            None => {
                assert(peer_in(all[i as int].1) is None);
                return None;
            },
        }
        i = i + 1;
    }
    assert(all.take(i as int) =~= all);
    Some(peers)
}

/// Writes the messages.
fn write_history(history: &[StoredMessage]) -> (res: Vec<u8>)
    ensures
        res@ == history_text(history.deep_view()),
        forall|i: int|
            0 <= i < history.deep_view().len() ==> are_written(message_fields(#[trigger] history.deep_view()[i])),
{
    let mut items: Vec<Vec<u8>> = Vec::new();
    let mut i: usize = 0;
    while i < history.len()
        invariant
            i <= history@.len(),
            items@.len() == i,
            forall|j: int|
                0 <= j < i ==> (#[trigger] items@[j])@ == record_text(message_fields(history@[j].deep_view()))
                    && are_written(message_fields(history@[j].deep_view())),
        decreases history@.len() - i,
    {
        items.push(write_message(&history[i]));
        i = i + 1;
    }
    proof {
        assert(texts_view(items@) =~= record_texts(message_rows(history.deep_view())));
        assert forall|j: int| 0 <= j < history.deep_view().len() implies are_written(
            message_fields(#[trigger] history.deep_view()[j]),
        ) by {
            assert(items@[j]@ == record_text(message_fields(history@[j].deep_view())));
        }
    }
    write_list(&items)
}

fn read_history(text: &[u8]) -> (res: Option<Vec<StoredMessage>>)
    ensures
        match record_list_in(text@) {
            Some(rows) => res.deep_view() == history_in(rows),
            None => res is None,
        },
{
    let rows = match read_record_list(text) {
        Some(rows) => rows,
        None => return None,
    };
    let ghost all = rows_view(rows@);
    let mut out: Vec<StoredMessage> = Vec::new();
    let mut i: usize = 0;
    while i < rows.len()
        invariant
            i <= rows@.len(),
            all == rows_view(rows@),
            record_list_in(text@) == Some(all),
            out@.len() == i,
            forall|j: int| 0 <= j < i ==> message_in(#[trigger] all[j]) == Some(out@[j].deep_view()),
        decreases rows@.len() - i,
    {
        assert(all[i as int] == rows@[i as int]@);
        match read_message(&rows[i]) {
            Some(message) => out.push(message),
            None => {
                assert(message_in(all[i as int]) is None);
                return None;
            },
        }
        i = i + 1;
    }
    assert(out.deep_view() =~= Seq::new(all.len(), |j: int| message_in(all[j])->0));
    Some(out)
}

/// Whether `file` is a file of the known peers as they are listed: encrypted, they load as the
/// same peers. There is none exactly where the text is too long to be encrypted.
pub open spec fn peers_saved(
    key: Seq<u8>,
    listed: Seq<(Seq<char>, PeerInfoView)>,
    file: Result<Seq<u8>, StorageError>,
) -> bool {
    let text = peers_text(listed);
    match file {
        Ok(bytes) => text.len() <= MAX_SEALED && bytes == stored(key, bytes.take(NONCE_LEN as int), text)
            && loaded_peers(key, Some(bytes)) == Ok::<Map<Seq<char>, PeerInfoView>, StorageError>(map_of(listed)),
        Err(e) => text.len() > MAX_SEALED && e == StorageError::EncryptionFailed,
    }
}

/// Whether `file` is a file of the known peers, in some order.
pub open spec fn saves_peers(
    key: Seq<u8>,
    peers: Map<Seq<char>, PeerInfoView>,
    file: Result<Seq<u8>, StorageError>,
) -> bool {
    exists|listed: Seq<(Seq<char>, PeerInfoView)>|
        distinct_names(listed) && map_of(listed) == peers && #[trigger] peers_saved(key, listed, file)
}

/// A file or an error, as a value.
pub open spec fn file_view(res: Result<Vec<u8>, StorageError>) -> Result<Seq<u8>, StorageError> {
    match res {
        Ok(file) => Ok(file@),
        Err(e) => Err(e),
    }
}

/// Makes the file of the known peers. It loads as the same peers.
pub fn save_peers(key: &[u8; 32], peers: &NameMap<PeerInfo>) -> (res: Result<Vec<u8>, StorageError>)
    ensures
        saves_peers(key@, peers.deep_view(), file_view(res)),
{
    let entries = peers.entries();
    let text = write_peers(entries);
    proof {
        peers_read_back(entries.deep_view());
    }
    let res = encrypt_data(key, text.as_slice());
    assert(peers_saved(key@, entries.deep_view(), file_view(res)));
    res
}

/// Reads the file of the known peers, where there is one.
pub fn load_peers(key: &[u8; 32], file: Option<&[u8]>) -> (res: Result<NameMap<PeerInfo>, StorageError>)
    ensures
        match res {
            Ok(peers) => loaded_peers(key@, bytes_of(file)) == Ok::<Map<Seq<char>, PeerInfoView>, StorageError>(
                peers.deep_view(),
            ),
            Err(e) => loaded_peers(key@, bytes_of(file)) == Err::<Map<Seq<char>, PeerInfoView>, StorageError>(e),
        },
{
    let bytes = match file {
        Some(bytes) => bytes,
        None => return Ok(NameMap::new()),
    };
    let text = match decrypt_data(key, bytes) {
        Ok(text) => text,
        Err(e) => return Err(e),
    };
    match read_peers(text.as_slice()) {
        Some(peers) => Ok(peers),
        None => Err(StorageError::InvalidContent),
    }
}

/// Makes the file of the messages. It loads as the same messages.
pub fn save_history(key: &[u8; 32], history: &[StoredMessage]) -> (res: Result<Vec<u8>, StorageError>)
    ensures
        ({
            let text = history_text(history.deep_view());
            match res {
                Ok(file) => text.len() <= MAX_SEALED && file@ == stored(key@, file@.take(NONCE_LEN as int), text)
                    && loaded_history(key@, Some(file@)) == Ok::<Seq<StoredMessageView>, StorageError>(
                    history.deep_view(),
                ),
                Err(e) => text.len() > MAX_SEALED && e == StorageError::EncryptionFailed,
            }
        }),
{
    let text = write_history(history);
    proof {
        history_reads_back(history.deep_view());
    }
    encrypt_data(key, text.as_slice())
}

/// Reads the file of the messages, where there is one.
pub fn load_history(key: &[u8; 32], file: Option<&[u8]>) -> (res: Result<Vec<StoredMessage>, StorageError>)
    ensures
        match res {
            Ok(history) => loaded_history(key@, bytes_of(file)) == Ok::<Seq<StoredMessageView>, StorageError>(
                history.deep_view(),
            ),
            Err(e) => loaded_history(key@, bytes_of(file)) == Err::<Seq<StoredMessageView>, StorageError>(e),
        },
{
    let bytes = match file {
        Some(bytes) => bytes,
        None => {
            let history: Vec<StoredMessage> = Vec::new();
            assert(history.deep_view() =~= Seq::empty());
            return Ok(history);
        },
    };
    let text = match decrypt_data(key, bytes) {
        Ok(text) => text,
        Err(e) => return Err(e),
    };
    match read_history(text.as_slice()) {
        Some(history) => Ok(history),
        None => Err(StorageError::InvalidContent),
    }
}

/// The key that things are kept under is derived from the private key of the node.
pub proof fn storage_key_goes_by_private_key(private_key: Seq<u8>)
    ensures
        storage_key(private_key) == hkdf_sha256(
            Some("patronus-storage-salt-v1".spec_bytes()),
            private_key,
            "patronus-storage-key-v1".spec_bytes(),
            32,
        ),
{
}

/// What is stored stands behind its nonce of twelve bytes, and is restored with that nonce. What is
/// too short for a nonce and a tag of sixteen bytes is refused, and so is what does not open.
pub proof fn stored_data_stands_behind_nonce(key: Seq<u8>, nonce: Seq<u8>, data: Seq<u8>, encrypted: Seq<u8>)
    requires
        nonce.len() == 12,
    ensures
        stored(key, nonce, data) == nonce + aes_gcm_sealed(key, nonce, data, "patronus-storage-aad-v1".spec_bytes()),
        encrypted.len() < 16 ==> restored(key, nonce + encrypted) == Err::<Seq<u8>, StorageError>(
            StorageError::TooShort,
        ),
        encrypted.len() >= 16 ==> restored(key, nonce + encrypted) == (match aes_gcm_opened(
            key,
            nonce,
            encrypted,
            "patronus-storage-aad-v1".spec_bytes(),
        ) {
            Some(data) => Ok::<Seq<u8>, StorageError>(data),
            None => Err::<Seq<u8>, StorageError>(StorageError::DecryptionFailed),
        }),
{
    assert((nonce + encrypted).take(12) =~= nonce);
    assert((nonce + encrypted).skip(12) =~= encrypted);
}

/// Without a file there are no peers and no messages; a file that cannot be decrypted gives none
/// but the reason.
pub proof fn missing_file_holds_nothing(key: Seq<u8>, file: Seq<u8>)
    ensures
        loaded_peers(key, None) == Ok::<Map<Seq<char>, PeerInfoView>, StorageError>(Map::empty()),
        loaded_history(key, None) == Ok::<Seq<StoredMessageView>, StorageError>(Seq::empty()),
        restored(key, file) matches Err(e) ==> loaded_peers(key, Some(file)) == Err::<
            Map<Seq<char>, PeerInfoView>,
            StorageError,
        >(e) && loaded_history(key, Some(file)) == Err::<Seq<StoredMessageView>, StorageError>(e),
{
}

/// A file of peers that is made loads as the same peers, and none is refused that is not too long.
pub proof fn saved_peers_load(
    key: Seq<u8>,
    peers: Map<Seq<char>, PeerInfoView>,
    file: Result<Seq<u8>, StorageError>,
)
    requires
        saves_peers(key, peers, file),
    ensures
        file matches Ok(bytes) ==> loaded_peers(key, Some(bytes)) == Ok::<Map<Seq<char>, PeerInfoView>, StorageError>(
            peers,
        ),
        file matches Err(e) ==> e == StorageError::EncryptionFailed,
{
}

/// A message that is read has in each of its parts what the record has under the name of that
/// part.
pub proof fn message_parts_have_their_names(record: Record, message: StoredMessageView)
    requires
        message_in(record) == Some(message),
    ensures
        field_in(record, 0, "peer_id"@) == Field::Holds(JsonTree::Text(message.peer_id)),
        field_in(record, 1, "from"@) == Field::Holds(JsonTree::Text(message.from)),
        field_in(record, 2, "content"@) == Field::Holds(JsonTree::Text(message.content)),
        field_in(record, 3, "is_system"@) == Field::Holds(JsonTree::Bool(message.is_system)),
        message.ttl matches Some(secs) ==> field_in(record, 4, "ttl"@) == Field::Holds(JsonTree::Unsigned(secs)),
        message.ttl is None ==> field_in(record, 4, "ttl"@) == Field::Absent || field_in(record, 4, "ttl"@)
            == Field::Holds(JsonTree::Null),
        field_in(record, 5, "timestamp_secs"@) == Field::Holds(JsonTree::Unsigned(message.timestamp_secs)),
{
}

/// A record with all parts of a message is read as a message.
pub proof fn whole_message_is_read(members: Seq<Member>, message: StoredMessageView)
    requires
        ({
            let record = Record::Named(members);
            &&& field_in(record, 0, "peer_id"@) == Field::Holds(JsonTree::Text(message.peer_id))
            &&& field_in(record, 1, "from"@) == Field::Holds(JsonTree::Text(message.from))
            &&& field_in(record, 2, "content"@) == Field::Holds(JsonTree::Text(message.content))
            &&& field_in(record, 3, "is_system"@) == Field::Holds(JsonTree::Bool(message.is_system))
            &&& message.ttl matches Some(secs) ==> field_in(record, 4, "ttl"@) == Field::Holds(JsonTree::Unsigned(secs))
            &&& message.ttl is None ==> field_in(record, 4, "ttl"@) == Field::Absent || field_in(record, 4, "ttl"@)
                == Field::Holds(JsonTree::Null)
            &&& field_in(record, 5, "timestamp_secs"@) == Field::Holds(JsonTree::Unsigned(message.timestamp_secs))
        }),
    ensures
        message_in(Record::Named(members)) == Some(message),
{
}

/// A peer that is read has in each of its parts what the record has under the name of that part.
pub proof fn peer_parts_have_their_names(record: Record, peer: PeerInfoView)
    requires
        peer_in(record) == Some(peer),
    ensures
        field_in(record, 0, "static_public_key_b64"@) == Field::Holds(JsonTree::Text(peer.static_public_key_b64)),
        peer.custom_name matches Some(name) ==> field_in(record, 1, "custom_name"@) == Field::Holds(
            JsonTree::Text(name),
        ),
        peer.custom_name is None ==> field_in(record, 1, "custom_name"@) == Field::Absent || field_in(
            record,
            1,
            "custom_name"@,
        ) == Field::Holds(JsonTree::Null),
        field_in(record, 2, "is_verified"@) == Field::Holds(JsonTree::Bool(peer.is_verified)),
{
}

/// A record with all parts of a peer is read as a peer.
pub proof fn whole_peer_is_read(members: Seq<Member>, peer: PeerInfoView)
    requires
        ({
            let record = Record::Named(members);
            &&& field_in(record, 0, "static_public_key_b64"@) == Field::Holds(
                JsonTree::Text(peer.static_public_key_b64),
            )
            &&& peer.custom_name matches Some(name) ==> field_in(record, 1, "custom_name"@) == Field::Holds(
                JsonTree::Text(name),
            )
            &&& peer.custom_name is None ==> field_in(record, 1, "custom_name"@) == Field::Absent || field_in(
                record,
                1,
                "custom_name"@,
            ) == Field::Holds(JsonTree::Null)
            &&& field_in(record, 2, "is_verified"@) == Field::Holds(JsonTree::Bool(peer.is_verified))
        }),
    ensures
        peer_in(Record::Named(members)) == Some(peer),
{
}

/// The messages of a file are those of its records, one for each and in their order; one record
/// that is no message spoils the file.
pub proof fn history_is_read_record_by_record(rows: Seq<Record>, i: int)
    requires
        0 <= i < rows.len(),
    ensures
        history_in(rows) matches Some(history) ==> history.len() == rows.len() && message_in(rows[i]) == Some(history[i]),
        message_in(rows[i]) is None ==> history_in(rows) is None,
        history_in(rows) is None ==> exists|k: int| 0 <= k < rows.len() && message_in(#[trigger] rows[k]) is None,
{
}

/// The peers of a file are those of its records, each under the name of its record; one record
/// that is no peer spoils the file.
pub proof fn peers_are_read_record_by_record(rows: Seq<(Seq<char>, Record)>, i: int)
    requires
        0 <= i < rows.len(),
        distinct_names(rows),
    ensures
        peers_in(rows) matches Some(peers) ==> peers.contains_key(rows[i].0) && peer_in(rows[i].1) == Some(
            peers[rows[i].0],
        ),
        peer_in(rows[i].1) is None ==> peers_in(rows) is None,
        peers_in(rows) is None ==> exists|k: int| 0 <= k < rows.len() && peer_in((#[trigger] rows[k]).1) is None,
{
    let f = |record: Record| peer_in(record)->0;
    let entries = map_entries(rows, f);
    assert forall|a: int, b: int| 0 <= a < b < entries.len() implies #[trigger] entries[a].0 != #[trigger] entries[b].0 by {
        assert(rows[a].0 != rows[b].0);
    }
    map_holds_entries(entries);
    assert(entries[i].0 == rows[i].0);
}

/// A file that decrypts to no list of messages, or to no object of peers, is refused for what it
/// holds.
pub proof fn other_content_is_refused(key: Seq<u8>, file: Seq<u8>, text: Seq<u8>)
    requires
        restored(key, file) == Ok::<Seq<u8>, StorageError>(text),
    ensures
        record_list_in(text) is None || history_in(record_list_in(text)->0) is None ==> loaded_history(key, Some(file))
            == Err::<Seq<StoredMessageView>, StorageError>(StorageError::InvalidContent),
        record_map_in(text) is None || peers_in(record_map_in(text)->0) is None ==> loaded_peers(key, Some(file))
            == Err::<Map<Seq<char>, PeerInfoView>, StorageError>(StorageError::InvalidContent),
        record_list_in(text) matches Some(rows) ==> (history_in(rows) matches Some(history) ==> loaded_history(
            key,
            Some(file),
        ) == Ok::<Seq<StoredMessageView>, StorageError>(history)),
        record_map_in(text) matches Some(rows) ==> (peers_in(rows) matches Some(peers) ==> loaded_peers(key, Some(file))
            == Ok::<Map<Seq<char>, PeerInfoView>, StorageError>(peers)),
{
}

}
