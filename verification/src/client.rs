//! A session with a peer: its state, and the messages that it sends and reads.
use crate::bytes::{be32, be32_reads_back, copy_from, extend, from_be32, push_be32, read_be32};
use crate::crypto::{crypto_error_text, opened, sealed, CryptoError, CryptoState, CryptoView, SessionView};
use crate::frame::{
    frame_bytes, frame_is_laid_out, frame_says_its_length, framed, make_frame, read_frame, FrameError, FRAME_PREFIX_LEN, NO_RATCHET,
};
use crate::primitives::{
    hkdf_sha256, random_nonce, zstd_compress, zstd_content, zstd_decompress, zstd_frame, MAX_SEALED, NONCE_LEN, TAG_LEN,
};
use crate::text::{hex_byte, hex_pair, same_text, text2};
use vstd::prelude::*;
use vstd::string::*;

verus! {

/// A message of the application.
pub const APP_MESSAGE: u8 = 0x01;

/// A message that manages the session.
pub const CONTROL_FRAME: u8 = 0x02;

/// A message of an extension.
pub const EXTENSION_DATA: u8 = 0x03;

/// Asks for a sign of life.
pub const CTRL_PING: u8 = 0x01;

/// Gives a sign of life.
pub const CTRL_PONG: u8 = 0x02;

/// Ends the session.
pub const CTRL_BYE: u8 = 0x03;

/// How often a sign of life is asked for, in milliseconds.
pub const KEEP_ALIVE_INTERVAL: u64 = 15000;

/// How long a sign of life is waited for, in milliseconds.
pub const KEEP_ALIVE_TIMEOUT: u64 = 30000;

/// How hard messages are compressed.
pub const COMPRESSION_LEVEL: i32 = 3;

/// How much of a file goes into a chunk.
pub const CHUNK_LEN: usize = 0x10_0000;

/// A message on its way to a peer.
#[derive(Debug, Clone)]
pub enum OutboundMessage {
    Message { target: String, text: String, ttl: Option<u64> },
    TTLNotice { target: String, ttl: Option<u64> },
}

/// What the user interface is told.
#[derive(Debug, Clone)]
pub enum UiEvent {
    Message { from: String, text: String, is_system: bool, ttl: Option<u64>, group: Option<String> },
    HandshakeComplete(String),
    PeerUpdate { id: String, name: String, addr: String },
    FileProgress {
        peer_id: String,
        file_name: String,
        total_size: u64,
        bytes_transferred: u64,
        is_sending: bool,
    },
}

/// What the user interface is told, as a value.
pub ghost enum EventView {
    Message { from: Seq<char>, text: Seq<char>, is_system: bool, ttl: Option<u64>, group: Option<Seq<char>> },
    HandshakeComplete(Seq<char>),
    PeerUpdate { id: Seq<char>, name: Seq<char>, addr: Seq<char> },
    FileProgress {
        peer_id: Seq<char>,
        file_name: Seq<char>,
        total_size: u64,
        bytes_transferred: u64,
        is_sending: bool,
    },
}

impl DeepView for UiEvent {
    type V = EventView;

    open spec fn deep_view(&self) -> EventView {
        match self {
            UiEvent::Message { from, text, is_system, ttl, group } => EventView::Message {
                from: from@,
                text: text@,
                is_system: *is_system,
                ttl: *ttl,
                group: group.deep_view(),
            },
            UiEvent::HandshakeComplete(phrase) => EventView::HandshakeComplete(phrase@),
            UiEvent::PeerUpdate { id, name, addr } => EventView::PeerUpdate { id: id@, name: name@, addr: addr@ },
            UiEvent::FileProgress { peer_id, file_name, total_size, bytes_transferred, is_sending } =>
                EventView::FileProgress {
                    peer_id: peer_id@,
                    file_name: file_name@,
                    total_size: *total_size,
                    bytes_transferred: *bytes_transferred,
                    is_sending: *is_sending,
                },
        }
    }
}

/// What the system tells the user.
pub open spec fn system_event(text: Seq<char>) -> EventView {
    EventView::Message { from: "System"@, text, is_system: true, ttl: None, group: None }
}

/// Tells the user something.
pub fn sys_msg(text: String) -> (res: UiEvent)
    ensures
        res.deep_view() == system_event(text@),
{
    UiEvent::Message { from: "System".to_owned(), text, is_system: true, ttl: None, group: None }
}

/// A file that a peer may have.
#[derive(Debug, Clone)]
pub struct FileOffer {
    pub file_name: String,
    pub size: u64,
    pub merkle_root: String,
}

/// A file that a peer may have, as a value.
pub ghost struct OfferView {
    pub file_name: Seq<char>,
    pub size: u64,
    pub merkle_root: Seq<char>,
}

impl DeepView for FileOffer {
    type V = OfferView;

    open spec fn deep_view(&self) -> OfferView {
        OfferView { file_name: self.file_name@, size: self.size, merkle_root: self.merkle_root@ }
    }
}

/// Why something could not be done, or a session ends, with texts of the kind `T`.
/// Texts are those of the errors of other crates and of the system.
#[derive(Clone, Debug, PartialEq, Eq)]
pub enum Fault<T> {
    Crypto(CryptoError),
    FrameTooShort,
    LengthMismatch,
    MessageTooLarge,
    ChunkTooLarge,
    DecompressionFailed(T),
    EmptyPayload,
    InvalidText,
    InvalidDocument(T),
    InvalidEncoding(T),
    InvalidEphemeralKey,
    InvalidStaticKey,
    /// The static key is no point of the curve.
    InvalidPoint(T),
    InvalidSignature,
    SignatureMismatch,
    UnexpectedNode,
    NoCommonCompression,
    KeyMismatch,
    TimedOut,
    PeerLeft,
    UnknownType(u8),
    ChunkUnreadable,
    ReadFailed(T),
    WriteFailed(T),
}

/// Why something could not be done, or a session ends.
pub type ClientError = Fault<String>;

/// Why something could not be done, as a value.
pub type ErrorView = Fault<Seq<char>>;

impl DeepView for Fault<String> {
    type V = Fault<Seq<char>>;

    open spec fn deep_view(&self) -> Fault<Seq<char>> {
        match *self {
            Fault::Crypto(e) => Fault::Crypto(e),
            Fault::FrameTooShort => Fault::FrameTooShort,
            Fault::LengthMismatch => Fault::LengthMismatch,
            Fault::MessageTooLarge => Fault::MessageTooLarge,
            Fault::ChunkTooLarge => Fault::ChunkTooLarge,
            Fault::DecompressionFailed(text) => Fault::DecompressionFailed(text@),
            Fault::EmptyPayload => Fault::EmptyPayload,
            Fault::InvalidText => Fault::InvalidText,
            Fault::InvalidDocument(text) => Fault::InvalidDocument(text@),
            Fault::InvalidEncoding(text) => Fault::InvalidEncoding(text@),
            Fault::InvalidEphemeralKey => Fault::InvalidEphemeralKey,
            Fault::InvalidStaticKey => Fault::InvalidStaticKey,
            Fault::InvalidPoint(text) => Fault::InvalidPoint(text@),
            Fault::InvalidSignature => Fault::InvalidSignature,
            Fault::SignatureMismatch => Fault::SignatureMismatch,
            Fault::UnexpectedNode => Fault::UnexpectedNode,
            Fault::NoCommonCompression => Fault::NoCommonCompression,
            Fault::KeyMismatch => Fault::KeyMismatch,
            Fault::TimedOut => Fault::TimedOut,
            Fault::PeerLeft => Fault::PeerLeft,
            Fault::UnknownType(msg_type) => Fault::UnknownType(msg_type),
            Fault::ChunkUnreadable => Fault::ChunkUnreadable,
            Fault::ReadFailed(text) => Fault::ReadFailed(text@),
            Fault::WriteFailed(text) => Fault::WriteFailed(text@),
        }
    }
}

/// What is said of an error.
pub open spec fn client_error_text(error: ErrorView) -> Seq<char> {
    match error {
        Fault::Crypto(e) => crypto_error_text(e),
        Fault::FrameTooShort => "Frame too short"@,
        Fault::LengthMismatch => "Payload length mismatch"@,
        Fault::MessageTooLarge => "Message too large to frame (max 4294967295 bytes)"@,
        Fault::ChunkTooLarge => "Ciphertext and tag length overflows u32"@,
        Fault::DecompressionFailed(text) => text,
        Fault::EmptyPayload => "Empty payload after decompression"@,
        Fault::InvalidText => "Invalid text field"@,
        Fault::InvalidDocument(text) => text,
        Fault::InvalidEncoding(text) => text,
        Fault::InvalidEphemeralKey => "Invalid peer ephemeral key"@,
        Fault::InvalidStaticKey => "Invalid peer static key"@,
        Fault::InvalidPoint(text) => text,
        Fault::InvalidSignature => "Invalid peer signature"@,
        Fault::SignatureMismatch => "Handshake signature verification failed"@,
        Fault::UnexpectedNode => "Security Violation (0x03): Peer is not the expected node"@,
        Fault::NoCommonCompression => "Handshake Failed (0x01): No common compression algorithm"@,
        Fault::KeyMismatch => "Security Violation (0x03): TOFU public key mismatch"@,
        Fault::TimedOut => "Connection timed out"@,
        Fault::PeerLeft => "Peer disconnected gracefully via CTRL_BYE"@,
        Fault::UnknownType(msg_type) => unknown_type_text(msg_type),
        Fault::ChunkUnreadable => "Failed to decrypt file chunk"@,
        Fault::ReadFailed(text) => text,
        Fault::WriteFailed(text) => text,
    }
}

/// What is said of a message of an unknown type.
pub open spec fn unknown_type_text(msg_type: u8) -> Seq<char> {
    "Unknown message type: 0x"@ + hex_pair(msg_type)
}

impl Fault<String> {
    /// Says what the error is.
    pub fn message(&self) -> (res: String)
        ensures
            res@ == client_error_text(self.deep_view()),
    {
        match self {
            Fault::Crypto(e) => e.message(),
            Fault::FrameTooShort => "Frame too short".to_owned(),
            Fault::LengthMismatch => "Payload length mismatch".to_owned(),
            Fault::MessageTooLarge => "Message too large to frame (max 4294967295 bytes)".to_owned(),
            Fault::ChunkTooLarge => "Ciphertext and tag length overflows u32".to_owned(),
            Fault::DecompressionFailed(text) => text.clone(),
            Fault::EmptyPayload => "Empty payload after decompression".to_owned(),
            Fault::InvalidText => "Invalid text field".to_owned(),
            Fault::InvalidDocument(text) => text.clone(),
            Fault::InvalidEncoding(text) => text.clone(),
            Fault::InvalidEphemeralKey => "Invalid peer ephemeral key".to_owned(),
            Fault::InvalidStaticKey => "Invalid peer static key".to_owned(),
            Fault::InvalidPoint(text) => text.clone(),
            Fault::InvalidSignature => "Invalid peer signature".to_owned(),
            Fault::SignatureMismatch => "Handshake signature verification failed".to_owned(),
            Fault::UnexpectedNode => "Security Violation (0x03): Peer is not the expected node".to_owned(),
            Fault::NoCommonCompression => "Handshake Failed (0x01): No common compression algorithm".to_owned(),
            Fault::KeyMismatch => "Security Violation (0x03): TOFU public key mismatch".to_owned(),
            Fault::TimedOut => "Connection timed out".to_owned(),
            Fault::PeerLeft => "Peer disconnected gracefully via CTRL_BYE".to_owned(),
            Fault::UnknownType(msg_type) => text2("Unknown message type: 0x", hex_byte(*msg_type).as_str()),
            Fault::ChunkUnreadable => "Failed to decrypt file chunk".to_owned(),
            Fault::ReadFailed(text) => text.clone(),
            Fault::WriteFailed(text) => text.clone(),
        }
    }
}

/// A session with a peer.
pub struct PatronusClient {
    pub crypto: CryptoState,
    pub peer_node_id: Option<String>,
    pub peer_static_pk: Option<String>,
    pub identity_phrase: Option<String>,
    pub selected_compression: Option<String>,
    pub active_extensions: Vec<String>,
    pub peer_extensions: Vec<String>,
    /// Where files are saved.
    pub save_dir: String,
    /// The name and size of the file that is being received.
    pub receiving_file: Option<(String, u64)>,
    pub receiving_key: Option<[u8; 32]>,
    pub receiving_bytes_seen: u64,
    /// The path, key and name of the file that was offered.
    pub pending_send_file: Option<(String, [u8; 32], String)>,
    /// The key of the file that is being sent, its size, how much of it was sent, and its name.
    pub active_send_file: Option<([u8; 32], u64, u64, String)>,
    pub pending_recv_offer: Option<FileOffer>,
    pub pending_pong: bool,
    /// When a sign of life was last asked for, in milliseconds.
    pub last_ping: u64,
    pub send_bye: bool,
}

/// A session with a peer, as a value.
pub ghost struct ClientView {
    pub crypto: CryptoView,
    pub peer_node_id: Option<Seq<char>>,
    pub peer_static_pk: Option<Seq<char>>,
    pub identity_phrase: Option<Seq<char>>,
    pub selected_compression: Option<Seq<char>>,
    pub active_extensions: Seq<Seq<char>>,
    pub peer_extensions: Seq<Seq<char>>,
    pub save_dir: Seq<char>,
    pub receiving_file: Option<(Seq<char>, u64)>,
    pub receiving_key: Option<Seq<u8>>,
    pub receiving_bytes_seen: u64,
    pub pending_send_file: Option<(Seq<char>, Seq<u8>, Seq<char>)>,
    pub active_send_file: Option<(Seq<u8>, u64, u64, Seq<char>)>,
    pub pending_recv_offer: Option<OfferView>,
    pub pending_pong: bool,
    pub last_ping: u64,
    pub send_bye: bool,
}

impl View for PatronusClient {
    type V = ClientView;

    open spec fn view(&self) -> ClientView {
        ClientView {
            crypto: self.crypto@,
            peer_node_id: self.peer_node_id.deep_view(),
            peer_static_pk: self.peer_static_pk.deep_view(),
            identity_phrase: self.identity_phrase.deep_view(),
            selected_compression: self.selected_compression.deep_view(),
            active_extensions: self.active_extensions.deep_view(),
            peer_extensions: self.peer_extensions.deep_view(),
            save_dir: self.save_dir@,
            receiving_file: match self.receiving_file {
                Some((name, size)) => Some((name@, size)),
                None => None,
            },
            receiving_key: match self.receiving_key {
                Some(key) => Some(key@),
                None => None,
            },
            receiving_bytes_seen: self.receiving_bytes_seen,
            pending_send_file: match self.pending_send_file {
                Some((path, key, name)) => Some((path@, key@, name@)),
                None => None,
            },
            active_send_file: match self.active_send_file {
                Some((key, total, sent, name)) => Some((key@, total, sent, name@)),
                None => None,
            },
            pending_recv_offer: self.pending_recv_offer.deep_view(),
            pending_pong: self.pending_pong,
            last_ping: self.last_ping,
            send_bye: self.send_bye,
        }
    }
}

/// Where files are saved unless the user says otherwise.
pub open spec fn default_save_dir() -> Seq<char> {
    "downloads"@
}

impl ClientView {
    /// What the peer is called.
    pub open spec fn peer_name(self) -> Seq<char> {
        match self.peer_node_id {
            Some(id) => id,
            None => "Unknown"@,
        }
    }

    /// The client with another cryptographic session.
    pub open spec fn with_session(self, session: SessionView) -> ClientView {
        ClientView { crypto: CryptoView { session: Some(session), ..self.crypto }, ..self }
    }

    /// The client after one more message was encrypted.
    pub open spec fn after_send(self) -> ClientView {
        self.with_session(self.crypto.session->0.after_send())
    }

    /// The client after the message `index` was decrypted.
    pub open spec fn after_receive(self, index: u32) -> ClientView {
        self.with_session(self.crypto.session->0.after_receive(index))
    }

    /// Whether messages are compressed with Zstandard.
    pub open spec fn uses_zstd(self) -> bool {
        self.selected_compression == Some("compression:zstd"@)
    }

    /// Whether both nodes let messages vanish.
    pub open spec fn messages_vanish(self) -> bool {
        self.active_extensions.contains("vanishing_ink:v1"@)
    }

    /// A message as it is compressed.
    pub open spec fn packed(self, message: Seq<u8>) -> Seq<u8> {
        if self.uses_zstd() {
            zstd_frame(message, COMPRESSION_LEVEL)
        } else {
            message
        }
    }

    /// The message that was compressed.
    pub open spec fn unpacked(self, packed: Seq<u8>) -> Result<Seq<u8>, Seq<char>> {
        if self.uses_zstd() {
            zstd_content(packed)
        } else {
            Ok(packed)
        }
    }
}

/// A frame or an error, as a value.
pub open spec fn frame_view(res: Result<Vec<u8>, ClientError>) -> Result<Seq<u8>, ErrorView> {
    match res {
        Ok(frame) => Ok(frame@),
        Err(e) => Err(e.deep_view()),
    }
}

/// A message and its type, or an error, as a value.
pub open spec fn message_view(res: Result<(u8, Vec<u8>), ClientError>) -> Result<(u8, Seq<u8>), ErrorView> {
    match res {
        Ok((msg_type, payload)) => Ok((msg_type, payload@)),
        Err(e) => Err(e.deep_view()),
    }
}

/// The plaintext of a message: its type and what it says.
pub open spec fn plaintext_of(msg_type: u8, payload: Seq<u8>) -> Seq<u8> {
    seq![msg_type] + payload
}

/// Whether `frame` is what the client sends for the compressed message `packed`: the next
/// message of its ratchet.
pub open spec fn frame_carries(before: ClientView, packed: Seq<u8>, frame: Seq<u8>) -> bool {
    let session = before.crypto.session->0.after_send();
    let data = frame.skip(FRAME_PREFIX_LEN as int);
    &&& packed.len() + TAG_LEN <= u32::MAX
    &&& data.len() == NONCE_LEN + packed.len() + TAG_LEN
    &&& data == sealed(session.send_key, data.take(NONCE_LEN as int), packed, session.topic_id)
    &&& frame == frame_bytes(session.ratchet_send, data)
    &&& opened(session.send_key, data, session.topic_id) == Ok::<Seq<u8>, CryptoError>(packed)
}

/// What sending a message comes to: the frame for it, or why there is none. A step of the
/// ratchet is spent on a message even where it turns out too long for a frame.
pub open spec fn sent(
    before: ClientView,
    after: ClientView,
    msg_type: u8,
    payload: Seq<u8>,
    res: Result<Seq<u8>, ErrorView>,
) -> bool {
    let message = plaintext_of(msg_type, payload);
    let packed = before.packed(message);
    match res {
        Ok(frame) => {
            &&& frame_carries(before, packed, frame)
            &&& before.unpacked(packed) == Ok::<Seq<u8>, Seq<char>>(message)
            &&& after == before.after_send()
        },
        Err(Fault::MessageTooLarge) => {
            &&& packed.len() + TAG_LEN > u32::MAX
            &&& after == if packed.len() <= MAX_SEALED {
                before.after_send()
            } else {
                before
            }
        },
        Err(_) => false,
    }
}

/// What the client makes of the encrypted message `index`: the compressed message.
pub open spec fn decrypted(client: ClientView, index: u32, data: Seq<u8>) -> Result<Seq<u8>, ErrorView> {
    if data.len() < NONCE_LEN + TAG_LEN {
        Err(Fault::FrameTooShort)
    } else {
        match client.crypto.received(data, index) {
            Ok(packed) => Ok(packed),
            Err(e) => Err(Fault::Crypto(e)),
        }
    }
}

/// The type of a message and what it says.
pub open spec fn parts_of(message: Seq<u8>) -> Result<(u8, Seq<u8>), ErrorView> {
    if message.len() == 0 {
        Err(Fault::EmptyPayload)
    } else {
        Ok((message[0], message.skip(1)))
    }
}

/// What the client makes of a compressed message: its type and what it says.
pub open spec fn decompressed(client: ClientView, packed: Seq<u8>) -> Result<(u8, Seq<u8>), ErrorView> {
    match client.unpacked(packed) {
        Ok(message) => parts_of(message),
        Err(text) => Err(Fault::DecompressionFailed(text)),
    }
}

/// What the client makes of an encrypted message with its index in front: its type and what it
/// says.
pub open spec fn read_message(client: ClientView, frame: Seq<u8>) -> Result<(u8, Seq<u8>), ErrorView> {
    if frame.len() < 4 + NONCE_LEN + TAG_LEN {
        Err(Fault::FrameTooShort)
    } else {
        match decrypted(client, from_be32(frame.take(4)) as u32, frame.skip(4)) {
            Ok(packed) => decompressed(client, packed),
            Err(e) => Err(e),
        }
    }
}

/// The client after it read an encrypted message with its index in front. It is as it was
/// where the message could not be decrypted.
pub open spec fn after_reading(client: ClientView, frame: Seq<u8>) -> ClientView {
    let index = from_be32(frame.take(4)) as u32;
    if frame.len() >= 4 + NONCE_LEN + TAG_LEN && decrypted(client, index, frame.skip(4)) is Ok {
        client.after_receive(index)
    } else {
        client
    }
}

/// What the client makes of a file chunk: its type and the bytes of the file.
pub open spec fn chunk_parts(client: ClientView, key: Seq<u8>, data: Seq<u8>) -> Result<(u8, Seq<u8>), ErrorView> {
    match client.crypto.chunk_opened(key, data) {
        Ok(message) => parts_of(message),
        Err(e) => Err(Fault::Crypto(e)),
    }
}

/// What a frame holds, before it is decompressed.
pub ghost enum Received {
    /// What was sent outside the ratchet, with its nonce.
    Chunk(Seq<u8>),
    /// A message of the ratchet.
    Packed { index: u32, packed: Seq<u8> },
}

/// What is wrong with a frame.
pub open spec fn frame_fault(e: FrameError) -> ErrorView {
    match e {
        FrameError::TooShort => Fault::FrameTooShort,
        FrameError::LengthMismatch => Fault::LengthMismatch,
        FrameError::TooLong => Fault::MessageTooLarge,
    }
}

/// What the client makes of a frame.
pub open spec fn received(client: ClientView, frame: Seq<u8>) -> Result<Received, ErrorView> {
    match framed(frame) {
        Err(e) => Err(frame_fault(e)),
        Ok((index, data)) => if index == NO_RATCHET {
            Ok(Received::Chunk(data))
        } else {
            match decrypted(client, index, data) {
                Ok(packed) => Ok(Received::Packed { index, packed }),
                Err(e) => Err(e),
            }
        },
    }
}

/// Takes a message apart.
pub fn message_parts(message: &[u8]) -> (res: Result<(u8, Vec<u8>), ClientError>)
    ensures
        message_view(res) == parts_of(message@),
{
    if message.len() == 0 {
        return Err(Fault::EmptyPayload);
    }
    Ok((message[0], copy_from(message, 1)))
}

fn plaintext(msg_type: u8, payload: &[u8]) -> (res: Vec<u8>)
    ensures
        res@ == plaintext_of(msg_type, payload@),
{
    let mut out: Vec<u8> = Vec::new();
    out.push(msg_type);
    extend(&mut out, payload);
    assert(out@ =~= plaintext_of(msg_type, payload@));
    out
}

impl PatronusClient {
    /// A client with the given secret key, before a handshake.
    pub fn new(static_key: [u8; 32], initial_save_dir: Option<String>, now: u64) -> (res: PatronusClient)
        ensures
            res@.crypto.wf(),
            res@.crypto.static_key == static_key@,
            res@.crypto.ephemeral_secret is Some,
            res@.crypto.session is None,
            res@ == fresh_client(
                res@.crypto,
                match initial_save_dir {
                    Some(dir) => dir@,
                    None => default_save_dir(),
                },
                now,
            ),
    {
        let save_dir = match initial_save_dir {
            Some(dir) => dir,
            None => "downloads".to_owned(),
        };
        let res = PatronusClient {
            crypto: CryptoState::new(static_key),
            peer_node_id: None,
            peer_static_pk: None,
            identity_phrase: None,
            selected_compression: None,
            active_extensions: Vec::new(),
            peer_extensions: Vec::new(),
            save_dir,
            receiving_file: None,
            receiving_key: None,
            receiving_bytes_seen: 0,
            pending_send_file: None,
            active_send_file: None,
            pending_recv_offer: None,
            pending_pong: false,
            last_ping: now,
            send_bye: true,
        };
        assert(res@.active_extensions =~= seq![]);
        assert(res@.peer_extensions =~= seq![]);
        res
    }

    fn uses_zstd(&self) -> (res: bool)
        ensures
            res == self@.uses_zstd(),
    {
        match &self.selected_compression {
            Some(name) => same_text(name.as_str(), "compression:zstd"),
            None => false,
        }
    }

    /// Compresses a message with the algorithm that was agreed on.
    fn pack(&self, message: Vec<u8>) -> (res: Vec<u8>)
        ensures
            res@ == self@.packed(message@),
            self@.unpacked(res@) == Ok::<Seq<u8>, Seq<char>>(message@),
    {
        if !self.uses_zstd() {
            return message;
        }
        zstd_compress(message.as_slice(), COMPRESSION_LEVEL)
    }

    /// Encrypts a message: its type and what it says, compressed, as the next message of the
    /// ratchet, in a frame.
    pub fn encrypt_message(&mut self, msg_type: u8, payload: &[u8]) -> (res: Result<Vec<u8>, ClientError>)
        requires
            old(self)@.crypto.can_send(),
        ensures
            sent(old(self)@, final(self)@, msg_type, payload@, frame_view(res)),
    {
        let packed = self.pack(plaintext(msg_type, payload));
        let nonce = random_nonce();
        self.encrypt_packed(packed.as_slice(), &nonce)
    }

    /// Encrypts a compressed message under the given nonce, as the next message of the
    /// ratchet, in a frame.
    pub fn encrypt_packed(&mut self, packed: &[u8], nonce: &[u8; 12]) -> (res: Result<Vec<u8>, ClientError>)
        requires
            old(self)@.crypto.can_send(),
        ensures
            match res {
                Ok(frame) => {
                    let session = old(self)@.crypto.session->0.after_send();
                    &&& frame_carries(old(self)@, packed@, frame@)
                    &&& frame@ == frame_bytes(
                        session.ratchet_send,
                        sealed(session.send_key, nonce@, packed@, session.topic_id),
                    )
                    &&& final(self)@ == old(self)@.after_send()
                },
                Err(e) => {
                    &&& packed@.len() + TAG_LEN > u32::MAX
                    &&& e.deep_view() == ErrorView::MessageTooLarge
                    &&& final(self)@ == if packed@.len() <= MAX_SEALED {
                        old(self)@.after_send()
                    } else {
                        old(self)@
                    }
                },
            },
    {
        if packed.len() as u64 > MAX_SEALED {
            return Err(Fault::MessageTooLarge);
        }
        let (data, index) = self.crypto.encrypt_under(packed, nonce);
        match make_frame(index, data.as_slice()) {
            Ok(frame) => {
                assert(frame@.skip(FRAME_PREFIX_LEN as int) =~= data@);
                Ok(frame)
            },
            Err(_) => Err(Fault::MessageTooLarge),
        }
    }

    /// Decrypts the message behind its index, and decompresses it.
    pub fn decrypt_message(&mut self, frame: &[u8]) -> (res: Result<(u8, Vec<u8>), ClientError>)
        ensures
            message_view(res) == read_message(old(self)@, frame@),
            final(self)@ == after_reading(old(self)@, frame@),
    {
        if frame.len() < 4 + NONCE_LEN + TAG_LEN {
            return Err(Fault::FrameTooShort);
        }
        let index: u32 = read_be32(frame, 0);
        assert(frame@.subrange(0, 4) =~= frame@.take(4));
        let data = copy_from(frame, 4);
        let packed = match self.crypto.decrypt(data.as_slice(), index) {
            Ok(packed) => packed,
            Err(e) => return Err(Fault::Crypto(e)),
        };
        if !self.uses_zstd() {
            return message_parts(packed.as_slice());
        }
        match zstd_decompress(packed.as_slice()) {
            Ok(message) => message_parts(message.as_slice()),
            Err(text) => Err(Fault::DecompressionFailed(text)),
        }
    }

    /// Reads a frame: the type of the message, what it says, whether it is a message of the
    /// ratchet, and its index. What was sent outside the ratchet stays encrypted.
    pub fn receive_message(&mut self, frame: &[u8]) -> (res: Result<(u8, Vec<u8>, bool, u32), ClientError>)
        ensures
            match received(old(self)@, frame@) {
                Ok(Received::Chunk(data)) => {
                    &&& res matches Ok((msg_type, payload, is_ratchet, index)) && msg_type == EXTENSION_DATA
                        && payload@ == data && !is_ratchet && index == 0
                    &&& final(self)@ == old(self)@
                },
                Ok(Received::Packed { index, packed }) => {
                    &&& final(self)@ == old(self)@.after_receive(index)
                    &&& match decompressed(old(self)@, packed) {
                        Ok((msg_type, payload)) => res matches Ok((t, p, is_ratchet, i)) && t == msg_type && p@
                            == payload && is_ratchet && i == index,
                        Err(e) => res matches Err(error) && error.deep_view() == e,
                    }
                },
                Err(e) => {
                    &&& res matches Err(error) && error.deep_view() == e
                    &&& final(self)@ == old(self)@
                },
            },
    {
        let (index, data) = match read_frame(frame) {
            Ok(parts) => parts,
            Err(FrameError::TooShort) => return Err(Fault::FrameTooShort),
            Err(FrameError::LengthMismatch) => return Err(Fault::LengthMismatch),
            Err(FrameError::TooLong) => return Err(Fault::MessageTooLarge),
        };
        if index == NO_RATCHET {
            return Ok((EXTENSION_DATA, data, false, 0));
        }
        let mut combined: Vec<u8> = Vec::new();
        push_be32(&mut combined, index);
        extend(&mut combined, data.as_slice());
        proof {
            be32_reads_back(index);
            assert(combined@.take(4) =~= be32(index));
            assert(combined@.skip(4) =~= data@);
        }
        match self.decrypt_message(combined.as_slice()) {
            Ok((msg_type, payload)) => Ok((msg_type, payload, true, index)),
            Err(e) => Err(e),
        }
    }

    /// Encrypts a chunk of a file under the key of the file, in a frame.
    pub fn send_file_chunk(&self, key: &[u8; 32], chunk: &[u8]) -> (res: Result<Vec<u8>, ClientError>)
        requires
            self@.crypto.session is Some,
        ensures
            chunk_sent(self@, key@, chunk@, frame_view(res)),
    {
        let nonce = random_nonce();
        self.send_file_chunk_under(key, chunk, &nonce)
    }

    /// Encrypts a chunk of a file under the key of the file and the given nonce, in a frame.
    pub fn send_file_chunk_under(&self, key: &[u8; 32], chunk: &[u8], nonce: &[u8; 12]) -> (res: Result<
        Vec<u8>,
        ClientError,
    >)
        requires
            self@.crypto.session is Some,
        ensures
            chunk_sent(self@, key@, chunk@, frame_view(res)),
            res matches Ok(frame) ==> frame@ == frame_bytes(
                NO_RATCHET,
                sealed(key@, nonce@, plaintext_of(EXTENSION_DATA, chunk@), self@.crypto.session->0.topic_id),
            ),
    {
        let message = plaintext(EXTENSION_DATA, chunk);
        if message.len() as u64 > MAX_SEALED {
            return Err(Fault::ChunkTooLarge);
        }
        let data = self.crypto.encrypt_with_key_under(key, message.as_slice(), nonce);
        match make_frame(NO_RATCHET, data.as_slice()) {
            Ok(frame) => {
                assert(frame@.skip(FRAME_PREFIX_LEN as int) =~= data@);
                Ok(frame)
            },
            Err(_) => Err(Fault::ChunkTooLarge),
        }
    }

    /// Decrypts a chunk of a file.
    pub fn decrypt_file_chunk(&self, key: &[u8; 32], data: &[u8]) -> (res: Result<(u8, Vec<u8>), ClientError>)
        ensures
            message_view(res) == chunk_parts(self@, key@, data@),
            res matches Ok((_, chunk)) ==> chunk@.len() <= data@.len(),
    {
        match self.crypto.decrypt_with_key(key, data) {
            Ok(message) => message_parts(message.as_slice()),
            Err(e) => Err(Fault::Crypto(e)),
        }
    }
}

/// A client before a handshake.
pub open spec fn fresh_client(crypto: CryptoView, save_dir: Seq<char>, now: u64) -> ClientView {
    ClientView {
        crypto,
        peer_node_id: None,
        peer_static_pk: None,
        identity_phrase: None,
        selected_compression: None,
        active_extensions: seq![],
        peer_extensions: seq![],
        save_dir,
        receiving_file: None,
        receiving_key: None,
        receiving_bytes_seen: 0,
        pending_send_file: None,
        active_send_file: None,
        pending_recv_offer: None,
        pending_pong: false,
        last_ping: now,
        send_bye: true,
    }
}

/// What sending a chunk comes to: the frame for it, or that it is too large for one.
pub open spec fn chunk_sent(
    client: ClientView,
    key: Seq<u8>,
    chunk: Seq<u8>,
    res: Result<Seq<u8>, ErrorView>,
) -> bool {
    let message = plaintext_of(EXTENSION_DATA, chunk);
    match res {
        Ok(frame) => {
            let data = frame.skip(FRAME_PREFIX_LEN as int);
            &&& message.len() + TAG_LEN <= u32::MAX
            &&& data.len() == NONCE_LEN + message.len() + TAG_LEN
            &&& data == sealed(key, data.take(NONCE_LEN as int), message, client.crypto.session->0.topic_id)
            &&& frame == frame_bytes(NO_RATCHET, data)
            &&& client.crypto.chunk_opened(key, data) == Ok::<Seq<u8>, CryptoError>(message)
        },
        Err(e) => message.len() + TAG_LEN > u32::MAX && e == ErrorView::ChunkTooLarge,
    }
}

/// A message is its type and, behind it, what it says; taking it apart gives back both. An empty
/// message is refused.
pub proof fn message_comes_apart(msg_type: u8, payload: Seq<u8>)
    ensures
        plaintext_of(msg_type, payload).len() == payload.len() + 1,
        plaintext_of(msg_type, payload)[0] == msg_type,
        parts_of(plaintext_of(msg_type, payload)) == Ok::<(u8, Seq<u8>), ErrorView>((msg_type, payload)),
        parts_of(seq![]) == Err::<(u8, Seq<u8>), ErrorView>(Fault::EmptyPayload),
{
    assert(plaintext_of(msg_type, payload).skip(1) =~= payload);
}

/// A message that is sent goes out under the next index and key of the session, in a frame that
/// says how long it is; the client takes one step and nothing else of it changes.
pub proof fn sending_makes_next_frame(
    before: ClientView,
    after: ClientView,
    msg_type: u8,
    payload: Seq<u8>,
    frame: Seq<u8>,
)
    requires
        before.crypto.session is Some,
        before.crypto.session->0.ratchet_send < u32::MAX,
        sent(before, after, msg_type, payload, Ok(frame)),
    ensures
        ({
            let session = before.crypto.session->0;
            let index = frame[4] * 16777216 + frame[5] * 65536 + frame[6] * 256 + frame[7];
            let says = frame[0] * 16777216 + frame[1] * 65536 + frame[2] * 256 + frame[3];
            let packed = before.packed(seq![msg_type] + payload);
            &&& index == session.ratchet_send + 1
            &&& says == frame.len() - 20
            &&& frame.len() == 36 + packed.len()
            &&& opened(
                hkdf_sha256(None, session.send_key, "time-turner-ratchet".spec_bytes(), 32),
                frame.skip(8),
                session.topic_id,
            ) == Ok::<Seq<u8>, CryptoError>(packed)
            &&& before.unpacked(packed) == Ok::<Seq<u8>, Seq<char>>(seq![msg_type] + payload)
            &&& after.crypto.session is Some
            &&& after.crypto.session->0.ratchet_send == session.ratchet_send + 1
            &&& after.crypto.session->0.recv_key == session.recv_key
            &&& after.crypto.session->0.ratchet_recv == session.ratchet_recv
            &&& after == (ClientView {
                crypto: CryptoView { session: after.crypto.session, ..before.crypto },
                ..before
            })
        }),
{
    let session = before.crypto.session->0.after_send();
    frame_is_laid_out(session.ratchet_send, frame.skip(8));
}

/// Messages are compressed exactly where the two nodes agreed on Zstandard.
pub proof fn only_zstd_compresses(client: ClientView, message: Seq<u8>)
    ensures
        client.selected_compression == Some("compression:zstd"@) ==> client.packed(message) == zstd_frame(message, 3)
            && client.unpacked(message) == zstd_content(message),
        client.selected_compression != Some("compression:zstd"@) ==> client.packed(message) == message
            && client.unpacked(message) == Ok::<Seq<u8>, Seq<char>>(message),
{
}

/// What cannot be read leaves the client as it was, and what can be read moves the receiving chain
/// to the index of the message and nothing else.
pub proof fn reading_moves_one_chain(client: ClientView, frame: Seq<u8>)
    requires
        client.crypto.session is Some,
    ensures
        ({
            let after = after_reading(client, frame);
            let index = frame[0] * 16777216 + frame[1] * 65536 + frame[2] * 256 + frame[3];
            &&& frame.len() < 32 ==> read_message(client, frame) == Err::<(u8, Seq<u8>), ErrorView>(
                Fault::FrameTooShort,
            ) && after == client
            &&& after == client || after.crypto.session is Some && after.crypto.session->0.ratchet_recv == index
            &&& read_message(client, frame) is Ok ==> after.crypto.session->0.ratchet_recv == index
            &&& after.crypto.session->0.send_key == client.crypto.session->0.send_key
            &&& after.crypto.session->0.ratchet_send == client.crypto.session->0.ratchet_send
            &&& after == (ClientView {
                crypto: CryptoView { session: after.crypto.session, ..client.crypto },
                ..client
            })
        }),
{
    if frame.len() >= 4 {
        assert(frame.take(4)[0] == frame[0] && frame.take(4)[1] == frame[1] && frame.take(4)[2] == frame[2]
            && frame.take(4)[3] == frame[3]);
    }
}

/// The peer is called by its id once that is known.
pub proof fn peer_is_called_by_id(client: ClientView, id: Seq<char>)
    ensures
        (ClientView { peer_node_id: Some(id), ..client }).peer_name() == id,
        (ClientView { peer_node_id: None, ..client }).peer_name() == "Unknown"@,
{
}

/// What came from outside is said as it came.
pub proof fn outside_reasons_are_said(reason: Seq<char>)
    ensures
        client_error_text(ErrorView::DecompressionFailed(reason)) == reason,
        client_error_text(ErrorView::InvalidDocument(reason)) == reason,
        client_error_text(ErrorView::InvalidEncoding(reason)) == reason,
        client_error_text(ErrorView::InvalidPoint(reason)) == reason,
        client_error_text(ErrorView::ReadFailed(reason)) == reason,
        client_error_text(ErrorView::WriteFailed(reason)) == reason,
{
}

/// A chunk goes out in a frame that is no message of the ratchet, under the key of the file and
/// the topic of the session, and opens as the type of extensions with the bytes of the chunk
/// behind it.
pub proof fn chunk_goes_out_under_file_key(client: ClientView, key: Seq<u8>, chunk: Seq<u8>, frame: Seq<u8>)
    requires
        client.crypto.session is Some,
        chunk_sent(client, key, chunk, Ok(frame)),
    ensures
        frame[4] == 255 && frame[5] == 255 && frame[6] == 255 && frame[7] == 255,
        frame[0] * 16777216 + frame[1] * 65536 + frame[2] * 256 + frame[3] == frame.len() - 20,
        frame.len() == 37 + chunk.len(),
        opened(key, frame.skip(8), client.crypto.session->0.topic_id) == Ok::<Seq<u8>, CryptoError>(seq![3u8] + chunk),
        chunk_parts(client, key, frame.skip(8)) == Ok::<(u8, Seq<u8>), ErrorView>((3u8, chunk)),
{
    frame_is_laid_out(0xFFFF_FFFF, frame.skip(8));
    message_comes_apart(3, chunk);
}

/// A client before its handshake knows of no peer and of no file, waits for nothing, and says
/// goodbye when it leaves.
pub proof fn fresh_client_knows_nobody(crypto: CryptoView, save_dir: Seq<char>, now: u64)
    ensures
        ({
            let client = fresh_client(crypto, save_dir, now);
            &&& client.crypto == crypto && client.save_dir == save_dir
            &&& client.peer_node_id is None && client.peer_static_pk is None && client.identity_phrase is None
            &&& client.selected_compression is None && client.active_extensions.len() == 0
            &&& client.receiving_file is None && client.receiving_key is None && client.receiving_bytes_seen == 0
            &&& client.pending_send_file is None && client.active_send_file is None && client.pending_recv_offer is None
            &&& !client.pending_pong && client.last_ping == now && client.send_bye
        }),
{
}

/// A message is not sent only where it is too long for a frame once it is compressed, and a chunk
/// only where it is.
pub proof fn only_long_messages_fail(
    before: ClientView,
    after: ClientView,
    msg_type: u8,
    payload: Seq<u8>,
    key: Seq<u8>,
    e: ErrorView,
)
    ensures
        sent(before, after, msg_type, payload, Err(e)) ==> e == ErrorView::MessageTooLarge && before.packed(
            seq![msg_type] + payload,
        ).len() + 16 > 0xFFFF_FFFF,
        chunk_sent(before, key, payload, Err(e)) ==> e == ErrorView::ChunkTooLarge && payload.len() + 17 > 0xFFFF_FFFF,
{
}

/// What cannot be read is told for what it is: a frame that is cut off, one whose length is not
/// what it says, a message that does not decrypt, one that does not decompress, and an empty one.
pub proof fn reading_tells_what_is_wrong(client: ClientView, frame: Seq<u8>, index: u32, data: Seq<u8>)
    ensures
        frame.len() < 20 ==> received(client, frame) == Err::<Received, ErrorView>(Fault::FrameTooShort),
        frame.len() >= 20 && frame[0] * 16777216 + frame[1] * 65536 + frame[2] * 256 + frame[3] != frame.len() - 20
            ==> received(client, frame) == Err::<Received, ErrorView>(Fault::LengthMismatch),
        data.len() < 28 ==> decrypted(client, index, data) == Err::<Seq<u8>, ErrorView>(Fault::FrameTooShort),
        data.len() >= 28 ==> (client.crypto.received(data, index) matches Err(e) ==> decrypted(client, index, data)
            == Err::<Seq<u8>, ErrorView>(Fault::Crypto(e))),
        data.len() >= 28 ==> (client.crypto.received(data, index) matches Ok(packed) ==> decrypted(client, index, data)
            == Ok::<Seq<u8>, ErrorView>(packed)),
        client.unpacked(data) matches Err(text) ==> decompressed(client, data) == Err::<(u8, Seq<u8>), ErrorView>(
            Fault::DecompressionFailed(text),
        ),
        client.unpacked(data) matches Ok(message) ==> decompressed(client, data) == parts_of(message),
{
    frame_says_its_length(frame);
}

/// A chunk that opens under the key of the file is taken apart like a message; one that does not
/// is told for what is wrong with it.
pub proof fn chunk_opens_or_is_told(client: ClientView, key: Seq<u8>, data: Seq<u8>)
    ensures
        client.crypto.session is None ==> chunk_parts(client, key, data) == Err::<(u8, Seq<u8>), ErrorView>(
            Fault::Crypto(CryptoError::HandshakeNotCompleted),
        ),
        client.crypto.session matches Some(session) ==> match opened(key, data, session.topic_id) {
            Ok(message) => chunk_parts(client, key, data) == parts_of(message),
            Err(e) => chunk_parts(client, key, data) == Err::<(u8, Seq<u8>), ErrorView>(Fault::Crypto(e)),
        },
{
}

}
