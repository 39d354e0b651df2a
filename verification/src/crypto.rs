//! The cryptographic state of a session: the handshake, the ratchet and the file keys.
use crate::bytes::{array_at, copy_from, extend};
use crate::json::{json_get, json_parse, json_parsed, json_tree, member_of, read_texts, texts_in};
use crate::order::{bytes_at_most, bytes_le, lemma_lex_antisymmetric, lemma_lex_total, values};
use crate::primitives::{
    aes_gcm_open, aes_gcm_opened, aes_gcm_seal, aes_gcm_sealed, ed25519_key_valid, ed25519_public, ed25519_signature, ed25519_verifies,
    hkdf, hkdf_sha256, random_nonce, random_secret, sha256, sha256_digest, sign, signing_public, verify, x25519,
    x25519_base, x25519_product, MAX_SEALED, NONCE_LEN, TAG_LEN,
};
use crate::text::{capitalize, capitalized};
use vstd::prelude::*;
use vstd::string::*;

verus! {

/// How many steps ahead of the last message a message may be.
pub const MAX_RATCHET_STEPS: u32 = 50;

/// Why a cryptographic operation was refused.
#[derive(Clone, Copy, Debug, PartialEq, Eq, Structural)]
pub enum CryptoError {
    HandshakeAlreadyCompleted,
    HandshakeNotCompleted,
    StaleRatchetIndex,
    RatchetIndexTooFar,
    CiphertextTooShort,
    DecryptionFailed,
}

/// What is said of a refusal.
pub open spec fn crypto_error_text(error: CryptoError) -> Seq<char> {
    match error {
        CryptoError::HandshakeAlreadyCompleted => "handshake already completed"@,
        CryptoError::HandshakeNotCompleted => "handshake not completed"@,
        CryptoError::StaleRatchetIndex => "stale or replayed ratchet index"@,
        CryptoError::RatchetIndexTooFar => "ratched index jumped too far ahead"@,
        CryptoError::CiphertextTooShort => "ciphertext too short"@,
        CryptoError::DecryptionFailed => "decryption failed"@,
    }
}

impl CryptoError {
    /// Says why the operation was refused.
    pub fn message(&self) -> (res: String)
        ensures
            res@ == crypto_error_text(*self),
    {
        match self {
            CryptoError::HandshakeAlreadyCompleted => "handshake already completed".to_owned(),
            CryptoError::HandshakeNotCompleted => "handshake not completed".to_owned(),
            CryptoError::StaleRatchetIndex => "stale or replayed ratchet index".to_owned(),
            CryptoError::RatchetIndexTooFar => "ratched index jumped too far ahead".to_owned(),
            CryptoError::CiphertextTooShort => "ciphertext too short".to_owned(),
            CryptoError::DecryptionFailed => "decryption failed".to_owned(),
        }
    }
}

/// How many words a list has: one for each value of a byte.
pub const WORDS_IN_LIST: usize = 256;

/// The words that identity phrases are made of.
pub struct WordLists {
    pub adjectives: Vec<String>,
    pub colors: Vec<String>,
    pub spirits: Vec<String>,
}

/// Whether a list has a word for each value of a byte, and none twice.
pub open spec fn full_list(words: Seq<Seq<char>>) -> bool {
    words.len() == WORDS_IN_LIST && words.no_duplicates()
}

/// The identity phrase for three bytes: a word of each list.
pub open spec fn identity_phrase(words: WordLists, key: Seq<u8>) -> Seq<char> {
    capitalized(words.adjectives@[key[0] as int]@) + " "@ + capitalized(
        words.colors@[key[1] as int]@,
    ) + " "@ + capitalized(words.spirits@[key[2] as int]@)
}

fn is_full_list(words: &Vec<String>) -> (res: bool)
    ensures
        res == full_list(words.deep_view()),
{
    if words.len() != WORDS_IN_LIST {
        return false;
    }
    let mut i: usize = 0;
    while i < words.len()
        invariant
            i <= words@.len(),
            forall|a: int, b: int|
                0 <= a < b < i ==> #[trigger] words.deep_view()[a] != #[trigger] words.deep_view()[b],
        decreases words@.len() - i,
    {
        let mut j: usize = 0;
        while j < i
            invariant
                j <= i < words@.len(),
                forall|a: int| 0 <= a < j ==> #[trigger] words.deep_view()[a] != words.deep_view()[i as int],
            decreases i - j,
        {
            if words[j] == words[i] {
                assert(words.deep_view()[j as int] == words.deep_view()[i as int]);
                return false;
            }
            j = j + 1;
        }
        i = i + 1;
    }
    true
}

fn read_words(document: &serde_json::Value, key: &str) -> (res: Option<Vec<String>>)
    ensures
        res.deep_view() == texts_in(member_of(json_tree(*document), key@)),
{
    match json_get(document, key) {
        Some(list) => read_texts(list),
        None => None,
    }
}

impl WordLists {
    /// Whether each of the lists is full.
    pub open spec fn wf(self) -> bool {
        &&& full_list(self.adjectives.deep_view())
        &&& full_list(self.colors.deep_view())
        &&& full_list(self.spirits.deep_view())
    }

    /// Takes three lists, if each has a word for each value of a byte, and none twice.
    pub fn new(adjectives: Vec<String>, colors: Vec<String>, spirits: Vec<String>) -> (res: Option<WordLists>)
        ensures
            match res {
                Some(words) => words.wf() && words.adjectives == adjectives && words.colors == colors
                    && words.spirits == spirits,
                None => !(WordLists { adjectives, colors, spirits }).wf(),
            },
    {
        if is_full_list(&adjectives) && is_full_list(&colors) && is_full_list(&spirits) {
            Some(WordLists { adjectives, colors, spirits })
        } else {
            None
        }
    }

    /// Reads the lists `adjectives`, `colors` and `spirits` of a JSON text.
    pub fn from_json(text: &[u8]) -> (res: Option<WordLists>)
        ensures
            match res {
                Some(words) => words.wf() && json_parsed(text@) is Ok && ({
                    let tree = json_parsed(text@)->Ok_0;
                    &&& texts_in(member_of(tree, "adjectives"@)) == Some(words.adjectives.deep_view())
                    &&& texts_in(member_of(tree, "colors"@)) == Some(words.colors.deep_view())
                    &&& texts_in(member_of(tree, "spirits"@)) == Some(words.spirits.deep_view())
                }),
                None => !(json_parsed(text@) matches Ok(tree) && {
                    &&& texts_in(member_of(tree, "adjectives"@)) matches Some(a) && full_list(a)
                    &&& texts_in(member_of(tree, "colors"@)) matches Some(c) && full_list(c)
                    &&& texts_in(member_of(tree, "spirits"@)) matches Some(s) && full_list(s)
                }),
            },
    {
        let document = match json_parse(text) {
            Ok(document) => document,
            Err(_) => return None,
        };
        let adjectives = match read_words(&document, "adjectives") {
            Some(list) => list,
            None => return None,
        };
        let colors = match read_words(&document, "colors") {
            Some(list) => list,
            None => return None,
        };
        let spirits = match read_words(&document, "spirits") {
            Some(list) => list,
            None => return None,
        };
        WordLists::new(adjectives, colors, spirits)
    }
}

/// Makes the identity phrase for three bytes.
pub fn compute_security_code(words: &WordLists, key: &[u8; 3]) -> (res: String)
    requires
        words.wf(),
    ensures
        res@ == identity_phrase(*words, key@),
{
    let mut out = capitalize(words.adjectives[key[0] as usize].as_str());
    out.append(" ");
    out.append(capitalize(words.colors[key[1] as usize].as_str()).as_str());
    out.append(" ");
    out.append(capitalize(words.spirits[key[2] as usize].as_str()).as_str());
    out
}

/// The state of a session as a value.
pub ghost struct SessionView {
    pub send_key: Seq<u8>,
    pub recv_key: Seq<u8>,
    pub topic_id: Seq<u8>,
    pub ratchet_send: u32,
    pub ratchet_recv: u32,
}

/// A cryptographic state as a value.
pub ghost struct CryptoView {
    pub static_key: Seq<u8>,
    pub ephemeral_secret: Option<Seq<u8>>,
    pub ephemeral_public: Seq<u8>,
    pub session: Option<SessionView>,
}

/// What a node signs to bind an ephemeral key to its identity.
pub open spec fn handshake_statement(ephemeral_public: Seq<u8>) -> Seq<u8> {
    "patronus-handshake-v1".spec_bytes() + ephemeral_public
}

/// A key that the shared secret of a handshake gives for a purpose.
pub open spec fn derived_key(shared: Seq<u8>, purpose: Seq<u8>, len: nat) -> Seq<u8> {
    hkdf_sha256(Some("patronus-protocol-v1".spec_bytes()), shared, purpose, len)
}

/// The key for what the initiator sends.
pub open spec fn initiator_key(shared: Seq<u8>) -> Seq<u8> {
    derived_key(shared, "session-encryption-i2r".spec_bytes(), 32)
}

/// The key for what the responder sends.
pub open spec fn responder_key(shared: Seq<u8>) -> Seq<u8> {
    derived_key(shared, "session-encryption-r2i".spec_bytes(), 32)
}

/// The bytes that pick the words of the identity phrase.
pub open spec fn identity_key(shared: Seq<u8>) -> Seq<u8> {
    derived_key(shared, "identity-projection".spec_bytes(), 3)
}

/// The topic of two static keys: the digest of the two, the lower first.
pub open spec fn topic_of(a: Seq<u8>, b: Seq<u8>) -> Seq<u8> {
    if bytes_le(a, b) {
        sha256_digest(a + b)
    } else {
        sha256_digest(b + a)
    }
}

/// The session that a handshake opens.
pub open spec fn opening_session(
    shared: Seq<u8>,
    own_static: Seq<u8>,
    peer_static: Seq<u8>,
    is_initiator: bool,
) -> SessionView {
    SessionView {
        send_key: if is_initiator { initiator_key(shared) } else { responder_key(shared) },
        recv_key: if is_initiator { responder_key(shared) } else { initiator_key(shared) },
        topic_id: topic_of(own_static, peer_static),
        ratchet_send: 0,
        ratchet_recv: 0,
    }
}

/// The key after `key` in a ratchet chain.
pub open spec fn next_key(key: Seq<u8>) -> Seq<u8> {
    hkdf_sha256(None, key, "time-turner-ratchet".spec_bytes(), 32)
}

/// The key `steps` steps after `key`.
pub open spec fn key_after(key: Seq<u8>, steps: nat) -> Seq<u8>
    decreases steps,
{
    if steps == 0 {
        key
    } else {
        next_key(key_after(key, (steps - 1) as nat))
    }
}

/// What a ciphertext of a session is authenticated with.
pub open spec fn session_aad(topic_id: Seq<u8>) -> Seq<u8> {
    "patronus/1.0".spec_bytes() + topic_id
}

/// A message under a key and a nonce: the nonce, the ciphertext and the tag.
pub open spec fn sealed(key: Seq<u8>, nonce: Seq<u8>, message: Seq<u8>, topic_id: Seq<u8>) -> Seq<u8> {
    nonce + aes_gcm_sealed(key, nonce, message, session_aad(topic_id))
}

/// What opens of a nonce, a ciphertext and a tag.
pub open spec fn opened(key: Seq<u8>, data: Seq<u8>, topic_id: Seq<u8>) -> Result<Seq<u8>, CryptoError> {
    if data.len() < NONCE_LEN + TAG_LEN {
        Err(CryptoError::CiphertextTooShort)
    } else {
        match aes_gcm_opened(key, data.take(NONCE_LEN as int), data.skip(NONCE_LEN as int), session_aad(topic_id)) {
            Some(message) => Ok(message),
            None => Err(CryptoError::DecryptionFailed),
        }
    }
}

/// The key of a file: derived from its root, under the topic of the session.
pub open spec fn file_key(root: Seq<u8>, topic_id: Seq<u8>) -> Seq<u8> {
    hkdf_sha256(Some(topic_id), root, "owl-post-file-key".spec_bytes(), 32)
}

impl SessionView {
    /// The session after one more message was sent.
    pub open spec fn after_send(self) -> SessionView {
        SessionView {
            send_key: next_key(self.send_key),
            ratchet_send: (self.ratchet_send + 1) as u32,
            ..self
        }
    }

    /// The session after the message `index` was received.
    pub open spec fn after_receive(self, index: u32) -> SessionView {
        SessionView {
            recv_key: key_after(self.recv_key, (index - self.ratchet_recv) as nat),
            ratchet_recv: index,
            ..self
        }
    }

    /// What the session makes of the message `index`.
    pub open spec fn received(self, data: Seq<u8>, index: u32) -> Result<Seq<u8>, CryptoError> {
        if index <= self.ratchet_recv {
            Err(CryptoError::StaleRatchetIndex)
        } else if index - self.ratchet_recv > MAX_RATCHET_STEPS {
            Err(CryptoError::RatchetIndexTooFar)
        } else {
            opened(key_after(self.recv_key, (index - self.ratchet_recv) as nat), data, self.topic_id)
        }
    }
}

impl CryptoView {
    /// The public key of the node.
    pub open spec fn static_public(self) -> Seq<u8> {
        ed25519_public(self.static_key)
    }

    /// Whether the ephemeral public key is that of the ephemeral secret.
    pub open spec fn wf(self) -> bool {
        self.ephemeral_secret matches Some(secret) ==> key_pair(secret, self.ephemeral_public)
    }

    /// What the state makes of the message `index`.
    pub open spec fn received(self, data: Seq<u8>, index: u32) -> Result<Seq<u8>, CryptoError> {
        match self.session {
            Some(session) => session.received(data, index),
            None => Err(CryptoError::HandshakeNotCompleted),
        }
    }

    /// What the state makes of a file chunk under `key`.
    pub open spec fn chunk_opened(self, key: Seq<u8>, data: Seq<u8>) -> Result<Seq<u8>, CryptoError> {
        match self.session {
            Some(session) => opened(key, data, session.topic_id),
            None => Err(CryptoError::HandshakeNotCompleted),
        }
    }

    /// Whether the next message can be encrypted: there is a session, and its index can be
    /// counted on.
    pub open spec fn can_send(self) -> bool {
        self.session matches Some(session) && session.ratchet_send < u32::MAX
    }
}

/// Whether `public` is the key for `secret`, so that another's product with it is this
/// secret's product with the other's key.
pub open spec fn key_pair(secret: Seq<u8>, public: Seq<u8>) -> bool {
    &&& secret.len() == 32
    &&& public == x25519_product(secret, x25519_base())
    &&& forall|other: Seq<u8>|
        other.len() == 32 ==> #[trigger] x25519_product(other, public) == x25519_product(
            secret,
            x25519_product(other, x25519_base()),
        )
}

struct Session {
    send_key: [u8; 32],
    recv_key: [u8; 32],
    topic_id: [u8; 32],
    ratchet_send: u32,
    ratchet_recv: u32,
}

impl Session {
    spec fn view(self) -> SessionView {
        SessionView {
            send_key: self.send_key@,
            recv_key: self.recv_key@,
            topic_id: self.topic_id@,
            ratchet_send: self.ratchet_send,
            ratchet_recv: self.ratchet_recv,
        }
    }
}

/// The keys of a node and of its session with a peer.
pub struct CryptoState {
    static_key: [u8; 32],
    ephemeral_secret: Option<[u8; 32]>,
    pub local_ephemeral_public: [u8; 32],
    session: Option<Session>,
}

impl View for CryptoState {
    type V = CryptoView;

    closed spec fn view(&self) -> CryptoView {
        CryptoView {
            static_key: self.static_key@,
            ephemeral_secret: match self.ephemeral_secret {
                Some(secret) => Some(secret@),
                None => None,
            },
            ephemeral_public: self.local_ephemeral_public@,
            session: match self.session {
                Some(session) => Some(session.view()),
                None => None,
            },
        }
    }
}

fn handshake_data(ephemeral_public: &[u8; 32]) -> (res: Vec<u8>)
    ensures
        res@ == handshake_statement(ephemeral_public@),
{
    let mut data: Vec<u8> = Vec::new();
    extend(&mut data, "patronus-handshake-v1".as_bytes());
    extend(&mut data, ephemeral_public.as_slice());
    assert(data@ =~= handshake_statement(ephemeral_public@));
    data
}

/// The digest of two static keys, the lower first.
fn topic(a: &[u8; 32], b: &[u8; 32]) -> (res: [u8; 32])
    ensures
        res@ == topic_of(a@, b@),
{
    let mut keys: Vec<u8> = Vec::new();
    if bytes_at_most(a.as_slice(), b.as_slice()) {
        extend(&mut keys, a.as_slice());
        extend(&mut keys, b.as_slice());
        assert(keys@ =~= a@ + b@);
    } else {
        extend(&mut keys, b.as_slice());
        extend(&mut keys, a.as_slice());
        assert(keys@ =~= b@ + a@);
    }
    sha256(keys.as_slice())
}

fn seal(key: &[u8; 32], nonce: &[u8; 12], message: &[u8], topic_id: &[u8; 32]) -> (res: Vec<u8>)
    requires
        message@.len() <= MAX_SEALED,
    ensures
        res@ == sealed(key@, nonce@, message@, topic_id@),
        res@.len() == NONCE_LEN + message@.len() + TAG_LEN,
        res@.take(NONCE_LEN as int) == nonce@,
        opened(key@, res@, topic_id@) == Ok::<Seq<u8>, CryptoError>(message@),
{
    let aad = CryptoState::compute_aad(topic_id);
    let ciphertext = aes_gcm_seal(key, nonce, message, aad.as_slice());
    let mut out: Vec<u8> = Vec::new();
    extend(&mut out, nonce.as_slice());
    extend(&mut out, ciphertext.as_slice());
    assert(out@ =~= nonce@ + ciphertext@);
    assert(out@.take(NONCE_LEN as int) =~= nonce@);
    assert(out@.skip(NONCE_LEN as int) =~= ciphertext@);
    out
}

fn open(key: &[u8; 32], data: &[u8], topic_id: &[u8; 32]) -> (res: Result<Vec<u8>, CryptoError>)
    ensures
        match res {
            Ok(message) => opened(key@, data@, topic_id@) == Ok::<Seq<u8>, CryptoError>(message@)
                && message@.len() + NONCE_LEN + TAG_LEN == data@.len(),
            Err(e) => opened(key@, data@, topic_id@) == Err::<Seq<u8>, CryptoError>(e),
        },
{
    if data.len() < NONCE_LEN + TAG_LEN {
        return Err(CryptoError::CiphertextTooShort);
    }
    let nonce: [u8; 12] = array_at(data, 0);
    assert(nonce@ =~= data@.take(NONCE_LEN as int));
    let ciphertext = copy_from(data, NONCE_LEN);
    let aad = CryptoState::compute_aad(topic_id);
    match aes_gcm_open(key, &nonce, ciphertext.as_slice(), aad.as_slice()) {
        Some(message) => Ok(message),
        None => Err(CryptoError::DecryptionFailed),
    }
}

impl CryptoState {
    /// The state of a node with the given secret key, before a handshake, with a fresh
    /// ephemeral key.
    pub fn new(static_key: [u8; 32]) -> (res: CryptoState)
        ensures
            res@.wf(),
            res@.static_key == static_key@,
            res@.ephemeral_secret is Some,
            res@.session is None,
    {
        let secret = random_secret();
        CryptoState::with_ephemeral(static_key, secret)
    }

    /// The state of a node with the given secret key, before a handshake, with the given
    /// ephemeral secret.
    pub fn with_ephemeral(static_key: [u8; 32], secret: [u8; 32]) -> (res: CryptoState)
        ensures
            res@.wf(),
            res@ == (CryptoView {
                static_key: static_key@,
                ephemeral_secret: Some(secret@),
                ephemeral_public: x25519_product(secret@, x25519_base()),
                session: None,
            }),
    {
        let base: [u8; 32] = [
            9, 0, 0, 0, 0, 0, 0, 0, 0, 0, 0, 0, 0, 0, 0, 0, 0, 0, 0, 0, 0, 0, 0, 0, 0, 0, 0, 0, 0, 0, 0, 0,
        ];
        assert(base@ =~= x25519_base());
        let public = x25519(&secret, &base);
        CryptoState { static_key, ephemeral_secret: Some(secret), local_ephemeral_public: public, session: None }
    }

    /// The public key of the node.
    pub fn static_public(&self) -> (res: [u8; 32])
        ensures
            res@ == self@.static_public(),
            ed25519_key_valid(res@),
    {
        signing_public(&self.static_key)
    }

    /// The ephemeral public key of the node.
    pub fn ephemeral_public(&self) -> (res: [u8; 32])
        ensures
            res@ == self@.ephemeral_public,
    {
        self.local_ephemeral_public
    }

    /// Whether the next message can be encrypted.
    pub fn can_send(&self) -> (res: bool)
        ensures
            res == self@.can_send(),
    {
        match &self.session {
            Some(session) => session.ratchet_send < u32::MAX,
            None => false,
        }
    }

    /// Signs an ephemeral key with the key of the node. The signature verifies against the
    /// public key of the node.
    pub fn sign_handshake(&self, ephemeral_public: &[u8; 32]) -> (res: [u8; 64])
        ensures
            res@ == ed25519_signature(self@.static_key, handshake_statement(ephemeral_public@)),
            ed25519_verifies(self@.static_public(), handshake_statement(ephemeral_public@), res@),
    {
        let data = handshake_data(ephemeral_public);
        sign(&self.static_key, data.as_slice())
    }

    /// Whether a signature binds an ephemeral key to a static one.
    pub fn verify_handshake(
        &self,
        peer_static_public: &[u8; 32],
        peer_ephemeral_public: &[u8; 32],
        signature: &[u8; 64],
    ) -> (res: bool)
        ensures
            res == ed25519_verifies(
                peer_static_public@,
                handshake_statement(peer_ephemeral_public@),
                signature@,
            ),
    {
        let data = handshake_data(peer_ephemeral_public);
        verify(peer_static_public, data.as_slice(), signature)
    }

    /// Opens the session with a peer and tells its identity phrase. The ephemeral secret is
    /// used up: a second call is refused.
    pub fn complete_handshake(
        &mut self,
        peer_ephemeral_public: &[u8; 32],
        peer_static_public: &[u8; 32],
        is_initiator: bool,
        words: &WordLists,
    ) -> (res: Result<String, CryptoError>)
        requires
            words.wf(),
        ensures
            match old(self)@.ephemeral_secret {
                Some(secret) => {
                    let shared = x25519_product(secret, peer_ephemeral_public@);
                    &&& res matches Ok(phrase) && phrase@ == identity_phrase(*words, identity_key(shared))
                    &&& final(self)@ == CryptoView {
                        ephemeral_secret: None,
                        session: Some(
                            opening_session(shared, old(self)@.static_public(), peer_static_public@, is_initiator),
                        ),
                        ..old(self)@
                    }
                },
                None => {
                    &&& res == Err::<String, CryptoError>(CryptoError::HandshakeAlreadyCompleted)
                    &&& final(self)@ == old(self)@
                },
            },
    {
        let secret = match self.ephemeral_secret {
            Some(secret) => secret,
            None => return Err(CryptoError::HandshakeAlreadyCompleted),
        };
        self.ephemeral_secret = None;
        let shared = x25519(&secret, peer_ephemeral_public);
        let salt = Some("patronus-protocol-v1".as_bytes());
        let i2r: [u8; 32] = hkdf(salt, shared.as_slice(), "session-encryption-i2r".as_bytes());
        let r2i: [u8; 32] = hkdf(salt, shared.as_slice(), "session-encryption-r2i".as_bytes());
        let id: [u8; 3] = hkdf(salt, shared.as_slice(), "identity-projection".as_bytes());
        let phrase = compute_security_code(words, &id);
        let own = self.static_public();
        let topic_id = topic(&own, peer_static_public);
        self.session = Some(
            Session {
                send_key: if is_initiator { i2r } else { r2i },
                recv_key: if is_initiator { r2i } else { i2r },
                topic_id,
                ratchet_send: 0,
                ratchet_recv: 0,
            },
        );
        Ok(phrase)
    }

    fn advance_key(key: &[u8; 32]) -> (res: [u8; 32])
        ensures
            res@ == next_key(key@),
    {
        hkdf(None, key.as_slice(), "time-turner-ratchet".as_bytes())
    }

    fn compute_aad(topic_id: &[u8; 32]) -> (res: Vec<u8>)
        ensures
            res@ == session_aad(topic_id@),
            res@.len() <= MAX_SEALED,
    {
        let mut aad: Vec<u8> = Vec::new();
        proof {
            reveal_strlit("patronus/1.0");
            vstd::utf8::is_ascii_chars_encode_utf8("patronus/1.0"@);
        }
        extend(&mut aad, "patronus/1.0".as_bytes());
        extend(&mut aad, topic_id.as_slice());
        assert(aad@ =~= session_aad(topic_id@));
        aad
    }

    /// Encrypts a message under a fresh nonce, after a step of the ratchet. Returns the
    /// nonce with the ciphertext and its tag, and the index of the message.
    pub fn encrypt(&mut self, plaintext: &[u8]) -> (res: (Vec<u8>, u32))
        requires
            old(self)@.can_send(),
            plaintext@.len() <= MAX_SEALED,
        ensures
            ({
                let session = old(self)@.session->0.after_send();
                &&& final(self)@ == CryptoView { session: Some(session), ..old(self)@ }
                &&& res.1 == session.ratchet_send
                &&& res.0@.len() == NONCE_LEN + plaintext@.len() + TAG_LEN
                &&& res.0@ == sealed(session.send_key, res.0@.take(NONCE_LEN as int), plaintext@, session.topic_id)
                &&& opened(session.send_key, res.0@, session.topic_id) == Ok::<Seq<u8>, CryptoError>(plaintext@)
            }),
    {
        let nonce = random_nonce();
        self.encrypt_under(plaintext, &nonce)
    }

    /// Encrypts a message under the given nonce, after a step of the ratchet.
    pub fn encrypt_under(&mut self, plaintext: &[u8], nonce: &[u8; 12]) -> (res: (Vec<u8>, u32))
        requires
            old(self)@.can_send(),
            plaintext@.len() <= MAX_SEALED,
        ensures
            ({
                let session = old(self)@.session->0.after_send();
                &&& final(self)@ == CryptoView { session: Some(session), ..old(self)@ }
                &&& res.1 == session.ratchet_send
                &&& res.0@ == sealed(session.send_key, nonce@, plaintext@, session.topic_id)
                &&& res.0@.len() == NONCE_LEN + plaintext@.len() + TAG_LEN
                &&& res.0@.take(NONCE_LEN as int) == nonce@
                &&& opened(session.send_key, res.0@, session.topic_id) == Ok::<Seq<u8>, CryptoError>(plaintext@)
            }),
    {
        let session = self.session.as_mut().unwrap();
        session.ratchet_send = session.ratchet_send + 1;
        session.send_key = Self::advance_key(&session.send_key);
        let out = seal(&session.send_key, nonce, plaintext, &session.topic_id);
        (out, session.ratchet_send)
    }

    /// Decrypts the message `remote_ratchet`. Only a message that is decrypted moves the
    /// receiving chain; what is refused changes nothing.
    pub fn decrypt(&mut self, data: &[u8], remote_ratchet: u32) -> (res: Result<Vec<u8>, CryptoError>)
        ensures
            match res {
                Ok(message) => {
                    &&& old(self)@.received(data@, remote_ratchet) == Ok::<Seq<u8>, CryptoError>(message@)
                    &&& final(self)@ == CryptoView {
                        session: Some(old(self)@.session->0.after_receive(remote_ratchet)),
                        ..old(self)@
                    }
                },
                Err(e) => {
                    &&& old(self)@.received(data@, remote_ratchet) == Err::<Seq<u8>, CryptoError>(e)
                    &&& final(self)@ == old(self)@
                },
            },
    {
        let session = match self.session.as_mut() {
            Some(session) => session,
            None => return Err(CryptoError::HandshakeNotCompleted),
        };
        if remote_ratchet <= session.ratchet_recv {
            return Err(CryptoError::StaleRatchetIndex);
        }
        let steps: u32 = remote_ratchet - session.ratchet_recv;
        if steps > MAX_RATCHET_STEPS {
            return Err(CryptoError::RatchetIndexTooFar);
        }
        let mut key: [u8; 32] = session.recv_key;
        let mut done: u32 = 0;
        while done < steps
            invariant
                done <= steps,
                key@ == key_after(session.recv_key@, done as nat),
            decreases steps - done,
        {
            key = Self::advance_key(&key);
            done = done + 1;
        }
        match open(&key, data, &session.topic_id) {
            Ok(message) => {
                session.recv_key = key;
                session.ratchet_recv = remote_ratchet;
                Ok(message)
            },
            Err(e) => Err(e),
        }
    }

    /// The key for a file of this session.
    pub fn derive_file_key(&self, root: &[u8]) -> (res: Result<[u8; 32], CryptoError>)
        ensures
            match self@.session {
                Some(session) => res matches Ok(key) && key@ == file_key(root@, session.topic_id),
                None => res == Err::<[u8; 32], CryptoError>(CryptoError::HandshakeNotCompleted),
            },
    {
        match &self.session {
            Some(session) => Ok(
                hkdf(Some(session.topic_id.as_slice()), root, "owl-post-file-key".as_bytes()),
            ),
            None => Err(CryptoError::HandshakeNotCompleted),
        }
    }

    /// Encrypts under a key that is no part of the ratchet, and a fresh nonce.
    pub fn encrypt_with_key(&self, key: &[u8; 32], plaintext: &[u8]) -> (res: Vec<u8>)
        requires
            self@.session is Some,
            plaintext@.len() <= MAX_SEALED,
        ensures
            res@.len() == NONCE_LEN + plaintext@.len() + TAG_LEN,
            res@ == sealed(key@, res@.take(NONCE_LEN as int), plaintext@, self@.session->0.topic_id),
            self@.chunk_opened(key@, res@) == Ok::<Seq<u8>, CryptoError>(plaintext@),
    {
        let nonce = random_nonce();
        self.encrypt_with_key_under(key, plaintext, &nonce)
    }

    /// Encrypts under a key that is no part of the ratchet, and the given nonce.
    pub fn encrypt_with_key_under(&self, key: &[u8; 32], plaintext: &[u8], nonce: &[u8; 12]) -> (res: Vec<u8>)
        requires
            self@.session is Some,
            plaintext@.len() <= MAX_SEALED,
        ensures
            res@ == sealed(key@, nonce@, plaintext@, self@.session->0.topic_id),
            res@.len() == NONCE_LEN + plaintext@.len() + TAG_LEN,
            res@.take(NONCE_LEN as int) == nonce@,
            self@.chunk_opened(key@, res@) == Ok::<Seq<u8>, CryptoError>(plaintext@),
    {
        let session = self.session.as_ref().unwrap();
        seal(key, nonce, plaintext, &session.topic_id)
    }

    /// Decrypts under a key that is no part of the ratchet.
    pub fn decrypt_with_key(&self, key: &[u8; 32], data: &[u8]) -> (res: Result<Vec<u8>, CryptoError>)
        ensures
            match res {
                Ok(message) => self@.chunk_opened(key@, data@) == Ok::<Seq<u8>, CryptoError>(message@)
                    && message@.len() + NONCE_LEN + TAG_LEN == data@.len(),
                Err(e) => self@.chunk_opened(key@, data@) == Err::<Seq<u8>, CryptoError>(e),
            },
    {
        match &self.session {
            Some(session) => open(key, data, &session.topic_id),
            None => Err(CryptoError::HandshakeNotCompleted),
        }
    }
}

/// Whether what `sender` sends next is what `receiver` can follow: they are in one session,
/// and the sending chain is where the receiving one comes to in as many steps as the sender
/// is ahead.
pub open spec fn in_step(sender: SessionView, receiver: SessionView) -> bool {
    &&& sender.topic_id == receiver.topic_id
    &&& sender.ratchet_send >= receiver.ratchet_recv
    &&& sender.send_key == key_after(
        receiver.recv_key,
        (sender.ratchet_send - receiver.ratchet_recv) as nat,
    )
}

/// The session that `node` opens with a peer.
pub open spec fn session_with(
    node: CryptoView,
    peer_ephemeral: Seq<u8>,
    peer_static: Seq<u8>,
    is_initiator: bool,
) -> SessionView {
    opening_session(
        x25519_product(node.ephemeral_secret->0, peer_ephemeral),
        node.static_public(),
        peer_static,
        is_initiator,
    )
}

/// The topic of two keys does not depend on which of them is whose.
pub proof fn topic_is_shared(a: Seq<u8>, b: Seq<u8>)
    ensures
        topic_of(a, b) == topic_of(b, a),
{
    lemma_lex_total(values(a), values(b));
    if bytes_le(a, b) && bytes_le(b, a) {
        lemma_lex_antisymmetric(values(a), values(b));
        assert(a.len() == values(a).len());
        assert forall|i: int| 0 <= i < a.len() implies a[i] == b[i] by {
            assert(values(a)[i] == values(b)[i]);
        }
        assert(a =~= b);
    }
}

/// Steps of a ratchet chain add up.
pub proof fn ratchet_steps_add(key: Seq<u8>, first: nat, second: nat)
    ensures
        key_after(key_after(key, first), second) == key_after(key, first + second),
    decreases second,
{
    if second > 0 {
        ratchet_steps_add(key, first, (second - 1) as nat);
    }
}

/// When two nodes, one of them the initiator, complete the handshake with each other's keys,
/// they come to the same secret, and so to the same identity phrase, the same topic and the
/// same two keys; what one sends under, the other receives under.
pub proof fn handshakes_agree(initiator: CryptoView, responder: CryptoView)
    requires
        initiator.wf(),
        responder.wf(),
        initiator.ephemeral_secret is Some,
        responder.ephemeral_secret is Some,
    ensures
        x25519_product(initiator.ephemeral_secret->0, responder.ephemeral_public) == x25519_product(
            responder.ephemeral_secret->0,
            initiator.ephemeral_public,
        ),
        ({
            let i = session_with(initiator, responder.ephemeral_public, responder.static_public(), true);
            let r = session_with(responder, initiator.ephemeral_public, initiator.static_public(), false);
            &&& i.send_key == r.recv_key
            &&& i.recv_key == r.send_key
            &&& i.topic_id == r.topic_id
            &&& in_step(i, r)
            &&& in_step(r, i)
        }),
{
    let a = initiator.ephemeral_secret->0;
    let b = responder.ephemeral_secret->0;
    assert(x25519_product(a, responder.ephemeral_public) == x25519_product(b, x25519_product(a, x25519_base())));
    topic_is_shared(initiator.static_public(), responder.static_public());
}

/// A node that sends stays in step with the peer, in both directions.
pub proof fn sending_keeps_step(node: SessionView, peer: SessionView)
    requires
        in_step(node, peer),
        in_step(peer, node),
        node.ratchet_send < u32::MAX,
    ensures
        in_step(node.after_send(), peer),
        in_step(peer, node.after_send()),
{
}

/// A node in step with the sender reads the message that the sender encrypts next, however
/// many of those before it were lost, up to the limit; and both stay in step.
pub proof fn message_reaches_peer(sender: SessionView, receiver: SessionView, data: Seq<u8>, message: Seq<u8>)
    requires
        in_step(sender, receiver),
        in_step(receiver, sender),
        sender.ratchet_send < u32::MAX,
        sender.ratchet_send + 1 - receiver.ratchet_recv <= MAX_RATCHET_STEPS,
        opened(sender.after_send().send_key, data, sender.topic_id) == Ok::<Seq<u8>, CryptoError>(message),
    ensures
        receiver.received(data, sender.after_send().ratchet_send) == Ok::<Seq<u8>, CryptoError>(message),
        in_step(sender.after_send(), receiver.after_receive(sender.after_send().ratchet_send)),
        in_step(receiver.after_receive(sender.after_send().ratchet_send), sender.after_send()),
{
    let sent = sender.after_send();
    assert(sent.send_key == key_after(receiver.recv_key, (sent.ratchet_send - receiver.ratchet_recv) as nat));
}

/// A message that was received, and every one before it, is refused from then on.
pub proof fn replay_is_refused(session: SessionView, index: u32, data: Seq<u8>, later: u32)
    requires
        later <= index,
    ensures
        session.after_receive(index).received(data, later) == Err::<Seq<u8>, CryptoError>(
            CryptoError::StaleRatchetIndex,
        ),
{
}

/// A message that is further ahead than the limit is refused.
pub proof fn jump_is_refused(session: SessionView, data: Seq<u8>, index: u32)
    requires
        index > session.ratchet_recv + MAX_RATCHET_STEPS,
    ensures
        session.received(data, index) == Err::<Seq<u8>, CryptoError>(CryptoError::RatchetIndexTooFar),
{
}

/// Sending leaves the receiving side of a session as it is, and receiving the sending side.
pub proof fn directions_are_independent(session: SessionView, index: u32)
    ensures
        session.after_send().recv_key == session.recv_key,
        session.after_send().ratchet_recv == session.ratchet_recv,
        session.after_receive(index).send_key == session.send_key,
        session.after_receive(index).ratchet_send == session.ratchet_send,
        session.after_send().topic_id == session.topic_id,
        session.after_receive(index).topic_id == session.topic_id,
{
}

/// Two nodes with one topic derive the same key for a file, and open each other's chunks.
pub proof fn file_keys_agree(node: CryptoView, peer: CryptoView, root: Seq<u8>, key: Seq<u8>, data: Seq<u8>)
    requires
        node.session is Some,
        peer.session is Some,
        node.session->0.topic_id == peer.session->0.topic_id,
    ensures
        file_key(root, node.session->0.topic_id) == file_key(root, peer.session->0.topic_id),
        node.chunk_opened(key, data) == peer.chunk_opened(key, data),
{
}

/// Each direction of a session has a key of its own, derived from the shared secret for its
/// purpose: what the initiator sends under the responder receives under, and the other way round.
/// The chains start before the first message.
pub proof fn directions_have_their_keys(shared: Seq<u8>, own: Seq<u8>, peer: Seq<u8>, is_initiator: bool)
    ensures
        ({
            let session = opening_session(shared, own, peer, is_initiator);
            let salt = Some("patronus-protocol-v1".spec_bytes());
            let to_responder = hkdf_sha256(salt, shared, "session-encryption-i2r".spec_bytes(), 32);
            let to_initiator = hkdf_sha256(salt, shared, "session-encryption-r2i".spec_bytes(), 32);
            &&& session.send_key == (if is_initiator {
                to_responder
            } else {
                to_initiator
            })
            &&& session.recv_key == (if is_initiator {
                to_initiator
            } else {
                to_responder
            })
            &&& session.ratchet_send == 0
            &&& session.ratchet_recv == 0
        }),
        identity_key(shared) == hkdf_sha256(
            Some("patronus-protocol-v1".spec_bytes()),
            shared,
            "identity-projection".spec_bytes(),
            3,
        ),
{
}

/// The topic of a session is the digest of both static keys, the lower one first, whoever opens
/// the session.
pub proof fn topic_is_digest_of_both_keys(shared: Seq<u8>, low: Seq<u8>, high: Seq<u8>, is_initiator: bool)
    requires
        bytes_le(low, high),
    ensures
        opening_session(shared, low, high, is_initiator).topic_id == sha256_digest(low + high),
        opening_session(shared, high, low, is_initiator).topic_id == sha256_digest(low + high),
{
    topic_is_shared(low, high);
}

/// Each message that is sent takes one step of the ratchet: the next key is derived from the one
/// before, and the index is the next number. The other direction does not move.
pub proof fn sending_takes_one_step(session: SessionView)
    requires
        session.ratchet_send < u32::MAX,
    ensures
        session.after_send().ratchet_send == session.ratchet_send + 1,
        session.after_send().send_key == hkdf_sha256(
            None,
            session.send_key,
            "time-turner-ratchet".spec_bytes(),
            32,
        ),
        session.after_send() == (SessionView {
            send_key: session.after_send().send_key,
            ratchet_send: session.after_send().ratchet_send,
            ..session
        }),
{
}

/// Receiving a message takes as many steps as the index is ahead, one behind the other: skipping
/// a message comes to the same as receiving it.
pub proof fn receiving_takes_steps_in_turn(session: SessionView, index: u32)
    requires
        session.ratchet_recv <= index < u32::MAX,
    ensures
        session.after_receive(session.ratchet_recv) == session,
        session.after_receive(index).ratchet_recv == index,
        session.after_receive((index + 1) as u32).recv_key == hkdf_sha256(
            None,
            session.after_receive(index).recv_key,
            "time-turner-ratchet".spec_bytes(),
            32,
        ),
        session.after_receive(index).after_receive((index + 1) as u32) == session.after_receive((index + 1) as u32),
        session.after_receive(index) == (SessionView {
            recv_key: session.after_receive(index).recv_key,
            ratchet_recv: index,
            ..session
        }),
{
    let recv = session.after_receive(index);
    ratchet_steps_add(session.recv_key, (index - session.ratchet_recv) as nat, 1);
}

/// A message is refused if its index was reached already, and if it is more than fifty ahead;
/// else it is what opens under the key that the chain has at its index, with the topic.
pub proof fn window_is_fifty_messages(session: SessionView, data: Seq<u8>, index: u32)
    ensures
        index <= session.ratchet_recv ==> session.received(data, index) == Err::<Seq<u8>, CryptoError>(
            CryptoError::StaleRatchetIndex,
        ),
        index > session.ratchet_recv + 50 ==> session.received(data, index) == Err::<Seq<u8>, CryptoError>(
            CryptoError::RatchetIndexTooFar,
        ),
        session.ratchet_recv < index <= session.ratchet_recv + 50 ==> session.received(data, index) == opened(
            session.after_receive(index).recv_key,
            data,
            session.topic_id,
        ),
{
}

/// What is encrypted stands behind its nonce of twelve bytes, and opens with that nonce and the
/// topic of the session. What is too short for a nonce and a tag of sixteen bytes is refused, and
/// so is what does not open.
pub proof fn nonce_stands_in_front(
    key: Seq<u8>,
    nonce: Seq<u8>,
    message: Seq<u8>,
    topic_id: Seq<u8>,
    encrypted: Seq<u8>,
)
    requires
        nonce.len() == 12,
    ensures
        sealed(key, nonce, message, topic_id) == nonce + aes_gcm_sealed(
            key,
            nonce,
            message,
            "patronus/1.0".spec_bytes() + topic_id,
        ),
        encrypted.len() < 16 ==> opened(key, nonce + encrypted, topic_id) == Err::<Seq<u8>, CryptoError>(
            CryptoError::CiphertextTooShort,
        ),
        encrypted.len() >= 16 ==> opened(key, nonce + encrypted, topic_id) == (match aes_gcm_opened(
            key,
            nonce,
            encrypted,
            "patronus/1.0".spec_bytes() + topic_id,
        ) {
            Some(message) => Ok::<Seq<u8>, CryptoError>(message),
            None => Err::<Seq<u8>, CryptoError>(CryptoError::DecryptionFailed),
        }),
{
    assert((nonce + encrypted).take(12) =~= nonce);
    assert((nonce + encrypted).skip(12) =~= encrypted);
}

/// The key of a file is derived from its root, with the topic of the session as the salt.
pub proof fn file_key_goes_by_root_and_topic(root: Seq<u8>, topic_id: Seq<u8>)
    ensures
        file_key(root, topic_id) == hkdf_sha256(Some(topic_id), root, "owl-post-file-key".spec_bytes(), 32),
{
}

/// What a node signs tells one ephemeral key from another.
pub proof fn statement_binds_key(ephemeral: Seq<u8>, other: Seq<u8>)
    ensures
        handshake_statement(ephemeral) == "patronus-handshake-v1".spec_bytes() + ephemeral,
        handshake_statement(ephemeral) == handshake_statement(other) ==> ephemeral == other,
{
    let start = "patronus-handshake-v1".spec_bytes();
    assert((start + ephemeral).skip(start.len() as int) =~= ephemeral);
    assert((start + other).skip(start.len() as int) =~= other);
}

/// The phrase of a handshake has an adjective, a color and a spirit in this order, each picked by
/// a byte of its own and with its first letter in upper case.
pub proof fn phrase_has_three_words(words: WordLists, a: u8, b: u8, c: u8)
    ensures
        identity_phrase(words, seq![a, b, c]) == capitalized(words.adjectives@[a as int]@) + " "@ + capitalized(
            words.colors@[b as int]@,
        ) + " "@ + capitalized(words.spirits@[c as int]@),
{
}

/// A list of words has a word for each of the 256 values of a byte, so that two bytes pick the
/// same word only where they are the same.
pub proof fn word_tells_its_byte(words: Seq<Seq<char>>, a: u8, b: u8)
    requires
        full_list(words),
    ensures
        words.len() == 256,
        words[a as int] == words[b as int] <==> a == b,
{
}

}
