//! How two nodes open a session: what they send each other, and what they agree on.
use crate::bytes::{array_at, same_bytes};
use crate::client::{
    client_error_text, frame_view, sys_msg, system_event, ClientError, ClientView, ErrorView, Fault, PatronusClient, UiEvent,
};
use crate::crypto::{
    handshake_statement, handshakes_agree, identity_key, identity_phrase, in_step, opening_session, CryptoError,
    CryptoView, WordLists,
};
use crate::names::NameMap;
use crate::primitives::{
    base64_decode, base64_decoded, base64_encode, base64_symbol, base64_text, ed25519_key_fault, ed25519_public, ed25519_signature,
    ed25519_verifies, public_key_fault, sha256, sha256_digest, x25519_product,
};
use crate::storage::{PeerInfo, PeerInfoView};
use crate::text::{contains_text, copy_texts, same_text, starts_with, text2, text3};
use vstd::prelude::*;
use vstd::string::*;
use vstd::utf8::{encode_utf8, is_ascii_chars, is_ascii_chars_encode_utf8};

verus! {

/// What a node says of itself when a session opens.
#[derive(Debug)]
pub struct HandshakePacket {
    pub msg_type: String,
    /// The ephemeral key, in base64.
    pub pk: String,
    /// The static key, in base64.
    pub spk: String,
    /// The signature on the ephemeral key, in base64.
    pub sig: String,
    pub extensions: Vec<String>,
}

/// What a node says of itself, as a value.
pub ghost struct PacketView {
    pub msg_type: Seq<char>,
    pub pk: Seq<char>,
    pub spk: Seq<char>,
    pub sig: Seq<char>,
    pub extensions: Seq<Seq<char>>,
}

impl View for HandshakePacket {
    type V = PacketView;

    open spec fn view(&self) -> PacketView {
        PacketView {
            msg_type: self.msg_type@,
            pk: self.pk@,
            spk: self.spk@,
            sig: self.sig@,
            extensions: self.extensions.deep_view(),
        }
    }
}

/// The extensions of this node, those that it likes best first.
pub open spec fn supported() -> Seq<Seq<char>> {
    seq!["compression:zstd"@, "ratchet:v1"@, "owl-post:v1"@, "vanishing_ink:v1"@]
}

/// Lists the extensions of this node.
pub fn supported_extensions() -> (res: Vec<String>)
    ensures
        res.deep_view() == supported(),
{
    let mut out: Vec<String> = Vec::new();
    out.push("compression:zstd".to_owned());
    out.push("ratchet:v1".to_owned());
    out.push("owl-post:v1".to_owned());
    out.push("vanishing_ink:v1".to_owned());
    assert(out.deep_view() =~= supported());
    out
}

/// The id of the node with a public key: the digest of the key, in base64.
pub open spec fn node_id_of(public: Seq<u8>) -> Seq<char> {
    base64_text(sha256_digest(public))
}

/// Tells the id of the node with a public key.
pub fn node_id(public: &[u8; 32]) -> (res: String)
    ensures
        res@ == node_id_of(public@),
{
    let digest = sha256(public.as_slice());
    base64_encode(digest.as_slice())
}

/// The bytes that a base64 text stands for, or what is wrong with it. No text is longer than
/// half the address space; one that is longer than an eighth is not looked at.
pub open spec fn decoded(text: Seq<char>) -> Result<Seq<u8>, ErrorView> {
    if encode_utf8(text).len() > usize::MAX / 8 {
        Err(Fault::MessageTooLarge)
    } else {
        match base64_decoded(text) {
            Ok(data) => Ok(data),
            Err(e) => Err(Fault::InvalidEncoding(e)),
        }
    }
}

fn decode(text: &str) -> (res: Result<Vec<u8>, ClientError>)
    ensures
        frame_view(res) == decoded(text@),
{
    if text.as_bytes().len() > usize::MAX / 8 {
        return Err(Fault::MessageTooLarge);
    }
    match base64_decode(text) {
        Ok(data) => Ok(data),
        Err(e) => Err(Fault::InvalidEncoding(e)),
    }
}

/// Whether an extension is a compression algorithm.
pub open spec fn is_compression(extension: Seq<char>) -> bool {
    "compression:"@.is_prefix_of(extension)
}

/// The compression algorithm that two nodes use: the first of the initiator's that the
/// responder has too.
pub open spec fn agreed_compression(initiator: Seq<Seq<char>>, responder: Seq<Seq<char>>) -> Option<Seq<char>>
    decreases initiator.len(),
{
    if initiator.len() == 0 {
        None
    } else if is_compression(initiator[0]) && responder.contains(initiator[0]) {
        Some(initiator[0])
    } else {
        agreed_compression(initiator.drop_first(), responder)
    }
}

/// The extensions of `own` that are in `peer` too.
pub open spec fn shared_extensions(own: Seq<Seq<char>>, peer: Seq<Seq<char>>) -> Seq<Seq<char>> {
    own.filter(|extension: Seq<char>| peer.contains(extension))
}

/// The keys and the signature of a handshake packet.
pub ghost struct PacketKeys {
    pub ephemeral: Seq<u8>,
    pub static_public: Seq<u8>,
    pub signature: Seq<u8>,
}

/// The keys and the signature of a handshake packet, if they are such.
pub open spec fn packet_keys(packet: PacketView) -> Result<PacketKeys, ErrorView> {
    match decoded(packet.pk) {
        Err(e) => Err(e),
        Ok(ephemeral) => if ephemeral.len() != 32 {
            Err(Fault::InvalidEphemeralKey)
        } else {
            match decoded(packet.spk) {
                Err(e) => Err(e),
                Ok(static_public) => if static_public.len() != 32 {
                    Err(Fault::InvalidStaticKey)
                } else if let Some(e) = ed25519_key_fault(static_public) {
                    Err(Fault::InvalidPoint(e))
                } else {
                    match decoded(packet.sig) {
                        Err(e) => Err(e),
                        Ok(signature) => if signature.len() != 64 {
                            Err(Fault::InvalidSignature)
                        } else {
                            Ok(PacketKeys { ephemeral, static_public, signature })
                        },
                    }
                },
            }
        },
    }
}

/// What comes of a handshake: the client, and why there is no session.
pub ghost struct HandshakeOutcome {
    pub client: ClientView,
    pub error: Option<ErrorView>,
}

/// What comes of the packet of a peer whose keys are in order: the peer is the expected one,
/// if one is; the signature is the peer's; there is a compression algorithm that both have;
/// and the peer has the key that it had before.
pub open spec fn keys_outcome(
    client: ClientView,
    keys: PacketKeys,
    is_initiator: bool,
    trusted: Map<Seq<char>, PeerInfoView>,
    expected: Option<Seq<char>>,
    words: WordLists,
) -> HandshakeOutcome {
    let id = node_id_of(keys.static_public);
    let peer = client.peer_extensions;
    let compression = if is_initiator {
        agreed_compression(supported(), peer)
    } else {
        agreed_compression(peer, supported())
    };
    let chosen = ClientView { selected_compression: compression, ..client };
    let agreed = ClientView { active_extensions: shared_extensions(supported(), peer), ..chosen };
    if expected is Some && expected != Some(id) {
        HandshakeOutcome { client, error: Some(Fault::UnexpectedNode) }
    } else if !ed25519_verifies(keys.static_public, handshake_statement(keys.ephemeral), keys.signature) {
        HandshakeOutcome { client, error: Some(Fault::SignatureMismatch) }
    } else if compression is None {
        HandshakeOutcome { client: chosen, error: Some(Fault::NoCommonCompression) }
    } else {
        match client.crypto.ephemeral_secret {
            None => HandshakeOutcome {
                client: agreed,
                error: Some(Fault::Crypto(CryptoError::HandshakeAlreadyCompleted)),
            },
            Some(secret) => {
                let shared = x25519_product(secret, keys.ephemeral);
                let open = ClientView {
                    crypto: CryptoView {
                        ephemeral_secret: None,
                        session: Some(
                            opening_session(
                                shared,
                                client.crypto.static_public(),
                                keys.static_public,
                                is_initiator,
                            ),
                        ),
                        ..client.crypto
                    },
                    ..agreed
                };
                let known = if trusted.contains_key(id) {
                    decoded(trusted[id].static_public_key_b64)
                } else {
                    Ok(keys.static_public)
                };
                if known is Err {
                    HandshakeOutcome { client: open, error: Some(known->Err_0) }
                } else if known->Ok_0 != keys.static_public {
                    HandshakeOutcome { client: open, error: Some(Fault::KeyMismatch) }
                } else {
                    HandshakeOutcome {
                        client: ClientView {
                            identity_phrase: Some(identity_phrase(words, identity_key(shared))),
                            peer_node_id: Some(id),
                            peer_static_pk: Some(base64_text(keys.static_public)),
                            ..open
                        },
                        error: None,
                    }
                }
            },
        }
    }
}

/// What comes of the packet of a peer.
pub open spec fn handshake_outcome(
    client: ClientView,
    packet: PacketView,
    is_initiator: bool,
    trusted: Map<Seq<char>, PeerInfoView>,
    expected: Option<Seq<char>>,
    words: WordLists,
) -> HandshakeOutcome {
    let told = ClientView { peer_extensions: packet.extensions, ..client };
    match packet_keys(packet) {
        Ok(keys) => keys_outcome(told, keys, is_initiator, trusted, expected, words),
        Err(e) => HandshakeOutcome { client: told, error: Some(e) },
    }
}

/// What a client says of itself.
pub open spec fn packet_of(client: CryptoView) -> PacketView {
    PacketView {
        msg_type: "handshake"@,
        pk: base64_text(client.ephemeral_public),
        spk: base64_text(client.static_public()),
        sig: base64_text(ed25519_signature(client.static_key, handshake_statement(client.ephemeral_public))),
        extensions: supported(),
    }
}

/// Whether a packet is what a client says of itself, and reads as its keys and a signature
/// of its own.
pub open spec fn speaks_for(packet: PacketView, client: CryptoView) -> bool {
    &&& packet == packet_of(client)
    &&& packet_keys(packet) == Ok::<PacketKeys, ErrorView>(
        PacketKeys {
            ephemeral: client.ephemeral_public,
            static_public: client.static_public(),
            signature: ed25519_signature(client.static_key, handshake_statement(client.ephemeral_public)),
        },
    )
    &&& ed25519_verifies(
        client.static_public(),
        handshake_statement(client.ephemeral_public),
        ed25519_signature(client.static_key, handshake_statement(client.ephemeral_public)),
    )
}

proof fn base64_is_short(s: Seq<u8>)
    ensures
        base64_text(s).len() <= 2 * s.len() + 4,
        encode_utf8(base64_text(s)).len() == base64_text(s).len(),
{
    lemma_base64_text(s);
    is_ascii_chars_encode_utf8(base64_text(s));
}

proof fn lemma_base64_text(s: Seq<u8>)
    ensures
        base64_text(s).len() <= 2 * s.len() + 4,
        is_ascii_chars(base64_text(s)),
    decreases s.len(),
{
    let a = s[0] as int;
    let b = s[1] as int;
    let c = s[2] as int;
    assert forall|n: int| 0 <= n < 64 implies '\0' <= #[trigger] base64_symbol(n) <= '\u{7f}' by {}
    assert(0 <= a / 4 < 64 && 0 <= a % 4 * 16 + b / 16 < 64 && 0 <= b % 16 * 4 + c / 64 < 64 && 0 <= c % 64 < 64);
    if s.len() > 2 {
        lemma_base64_text(s.skip(3));
    }
}

/// Finds the compression algorithm that two nodes use.
pub fn choose_compression(initiator: &Vec<String>, responder: &Vec<String>) -> (res: Option<String>)
    ensures
        res.deep_view() == agreed_compression(initiator.deep_view(), responder.deep_view()),
{
    let ghost all = initiator.deep_view();
    let mut i: usize = 0;
    assert(all.skip(0) =~= all);
    while i < initiator.len()
        invariant
            i <= initiator@.len(),
            all == initiator.deep_view(),
            agreed_compression(all, responder.deep_view()) == agreed_compression(
                all.skip(i as int),
                responder.deep_view(),
            ),
        decreases initiator@.len() - i,
    {
        assert(all.skip(i as int)[0] == initiator@[i as int]@);
        assert(all.skip(i as int).drop_first() =~= all.skip(i + 1));
        if starts_with(initiator[i].as_str(), "compression:") && contains_text(responder, initiator[i].as_str()) {
            return Some(initiator[i].clone());
        }
        i = i + 1;
    }
    None
}

/// Lists the extensions of `own` that are in `peer` too.
pub fn choose_extensions(own: &Vec<String>, peer: &Vec<String>) -> (res: Vec<String>)
    ensures
        res.deep_view() == shared_extensions(own.deep_view(), peer.deep_view()),
{
    let ghost all = own.deep_view();
    let ghost keep = |extension: Seq<char>| peer.deep_view().contains(extension);
    let mut out: Vec<String> = Vec::new();
    let mut i: usize = 0;
    proof {
        reveal(Seq::filter);
        assert(out.deep_view() =~= all.take(0).filter(keep));
    }
    while i < own.len()
        invariant
            i <= own@.len(),
            all == own.deep_view(),
            keep == (|extension: Seq<char>| peer.deep_view().contains(extension)),
            out.deep_view() == all.take(i as int).filter(keep),
        decreases own@.len() - i,
    {
        let ghost before = out.deep_view();
        proof {
            reveal(Seq::filter);
            assert(all.take(i + 1).drop_last() =~= all.take(i as int));
            assert(all.take(i + 1).last() == own@[i as int]@);
        }
        if contains_text(peer, own[i].as_str()) {
            out.push(own[i].clone());
            assert(out.deep_view() =~= before.push(own@[i as int]@));
        }
        i = i + 1;
    }
    assert(all.take(i as int) =~= all);
    out
}

impl PatronusClient {
    /// What the client says of itself: its keys, its signature and its extensions.
    pub fn handshake_packet(&self) -> (res: HandshakePacket)
        ensures
            speaks_for(res@, self@.crypto),
    {
        let ephemeral = self.crypto.ephemeral_public();
        let signature = self.crypto.sign_handshake(&ephemeral);
        let static_public = self.crypto.static_public();
        proof {
            base64_is_short(ephemeral@);
            base64_is_short(static_public@);
            base64_is_short(signature@);
        }
        HandshakePacket {
            msg_type: "handshake".to_owned(),
            pk: base64_encode(ephemeral.as_slice()),
            spk: base64_encode(static_public.as_slice()),
            sig: base64_encode(signature.as_slice()),
            extensions: supported_extensions(),
        }
    }

    /// Opens the session with the peer that sent a packet. Where a certain node is expected,
    /// the peer must be that one; where the peer is known, it must have the key that it had.
    pub fn handshake(
        &mut self,
        packet: &HandshakePacket,
        is_initiator: bool,
        trusted: &NameMap<PeerInfo>,
        expected: Option<&str>,
        words: &WordLists,
    ) -> (res: Result<(), ClientError>)
        requires
            words.wf(),
        ensures
            ({
                let outcome = handshake_outcome(
                    old(self)@,
                    packet@,
                    is_initiator,
                    trusted.deep_view(),
                    match expected {
                        Some(id) => Some(id@),
                        None => None,
                    },
                    *words,
                );
                &&& final(self)@ == outcome.client
                &&& nothing_view(res) == match outcome.error {
                    None => Ok::<(), ErrorView>(()),
                    Some(e) => Err::<(), ErrorView>(e),
                }
            }),
    {
        self.peer_extensions = copy_texts(&packet.extensions);
        let ephemeral: [u8; 32] = match decode(packet.pk.as_str()) {
            Ok(bytes) => if bytes.len() == 32 {
                assert(bytes@.subrange(0, 32) =~= bytes@);
                array_at(bytes.as_slice(), 0)
            } else {
                return Err(Fault::InvalidEphemeralKey);
            },
            Err(e) => return Err(e),
        };
        let static_public: [u8; 32] = match decode(packet.spk.as_str()) {
            Ok(bytes) => if bytes.len() == 32 {
                assert(bytes@.subrange(0, 32) =~= bytes@);
                array_at(bytes.as_slice(), 0)
            } else {
                return Err(Fault::InvalidStaticKey);
            },
            Err(e) => return Err(e),
        };
        if let Some(e) = public_key_fault(&static_public) {
            return Err(Fault::InvalidPoint(e));
        }
        let signature: [u8; 64] = match decode(packet.sig.as_str()) {
            Ok(bytes) => if bytes.len() == 64 {
                assert(bytes@.subrange(0, 64) =~= bytes@);
                array_at(bytes.as_slice(), 0)
            } else {
                return Err(Fault::InvalidSignature);
            },
            Err(e) => return Err(e),
        };
        let id = node_id(&static_public);
        if let Some(wanted) = expected {
            if !same_text(wanted, id.as_str()) {
                return Err(Fault::UnexpectedNode);
            }
        }
        if !self.crypto.verify_handshake(&static_public, &ephemeral, &signature) {
            return Err(Fault::SignatureMismatch);
        }
        let own = supported_extensions();
        self.selected_compression = if is_initiator {
            choose_compression(&own, &self.peer_extensions)
        } else {
            choose_compression(&self.peer_extensions, &own)
        };
        if self.selected_compression.is_none() {
            return Err(Fault::NoCommonCompression);
        }
        self.active_extensions = choose_extensions(&own, &self.peer_extensions);
        let phrase = match self.crypto.complete_handshake(&ephemeral, &static_public, is_initiator, words) {
            Ok(phrase) => phrase,
            Err(e) => return Err(Fault::Crypto(e)),
        };
        if let Some(known) = trusted.get(id.as_str()) {
            match decode(known.static_public_key_b64.as_str()) {
                Ok(key) => if !same_bytes(key.as_slice(), static_public.as_slice()) {
                    return Err(Fault::KeyMismatch);
                },
                Err(e) => return Err(e),
            }
        }
        self.identity_phrase = Some(phrase);
        self.peer_node_id = Some(id);
        self.peer_static_pk = Some(base64_encode(static_public.as_slice()));
        Ok(())
    }
}

/// Nothing, or an error, as a value.
pub open spec fn nothing_view(res: Result<(), ClientError>) -> Result<(), ErrorView> {
    match res {
        Ok(_) => Ok(()),
        Err(e) => Err(e.deep_view()),
    }
}

/// What is said of a handshake that failed. Of a peer with another key than it had, its id is
/// said too.
pub open spec fn handshake_error_text(error: ErrorView, packet: PacketView) -> Seq<char> {
    let text = client_error_text(error);
    match packet_node(packet) {
        Some(id) => if error == ErrorView::KeyMismatch {
            text + " for peer "@ + id
        } else {
            text
        },
        None => text,
    }
}

/// The id of the node that a packet is from, if it has a key.
pub open spec fn packet_node(packet: PacketView) -> Option<Seq<char>> {
    match decoded(packet.spk) {
        Ok(key) => if key.len() == 32 {
            Some(node_id_of(key))
        } else {
            None
        },
        Err(_) => None,
    }
}

/// Tells the user why a handshake failed.
pub fn handshake_failed(error: ClientError, packet: &HandshakePacket) -> (res: UiEvent)
    ensures
        res.deep_view() == system_event("Handshake failed: "@ + handshake_error_text(error.deep_view(), packet@)),
{
    let mut text = error.message();
    let mismatch = match error {
        Fault::KeyMismatch => true,
        _ => false,
    };
    if let Ok(key) = decode(packet.spk.as_str()) {
        if key.len() == 32 && mismatch {
            assert(key@.subrange(0, 32) =~= key@);
            let id = node_id(&array_at(key.as_slice(), 0));
            text = text3(text.as_str(), " for peer ", id.as_str());
        }
    }
    sys_msg(text2("Handshake failed: ", text.as_str()))
}

/// The algorithm that two nodes use is a compression algorithm of both, and no earlier one of
/// the initiator's is.
pub proof fn compression_is_first_shared(initiator: Seq<Seq<char>>, responder: Seq<Seq<char>>)
    ensures
        match agreed_compression(initiator, responder) {
            Some(x) => exists|i: int|
                0 <= i < initiator.len() && #[trigger] initiator[i] == x && is_compression(x) && responder.contains(x)
                    && forall|j: int|
                    0 <= j < i ==> !(is_compression(#[trigger] initiator[j]) && responder.contains(initiator[j])),
            None => forall|j: int|
                0 <= j < initiator.len() ==> !(is_compression(#[trigger] initiator[j]) && responder.contains(
                    initiator[j],
                )),
        },
    decreases initiator.len(),
{
    if initiator.len() > 0 {
        let rest = initiator.drop_first();
        if is_compression(initiator[0]) && responder.contains(initiator[0]) {
            assert(initiator[0] == agreed_compression(initiator, responder)->0);
        } else {
            compression_is_first_shared(rest, responder);
            match agreed_compression(rest, responder) {
                Some(x) => {
                    let i = choose|i: int|
                        0 <= i < rest.len() && #[trigger] rest[i] == x && is_compression(x) && responder.contains(x)
                            && forall|j: int|
                            0 <= j < i ==> !(is_compression(#[trigger] rest[j]) && responder.contains(rest[j]));
                    assert(initiator[i + 1] == x);
                    assert forall|j: int| 0 <= j < i + 1 implies !(is_compression(#[trigger] initiator[j])
                        && responder.contains(initiator[j])) by {
                        if j > 0 {
                            assert(rest[j - 1] == initiator[j]);
                        }
                    }
                },
                None => {
                    assert forall|j: int| 0 <= j < initiator.len() implies !(is_compression(#[trigger] initiator[j])
                        && responder.contains(initiator[j])) by {
                        if j > 0 {
                            assert(rest[j - 1] == initiator[j]);
                        }
                    }
                },
            }
        }
    }
}

/// An extension is active for one node exactly if it is for the other: if both have it.
pub proof fn extensions_are_mutual(own: Seq<Seq<char>>, peer: Seq<Seq<char>>, extension: Seq<char>)
    ensures
        shared_extensions(own, peer).contains(extension) <==> own.contains(extension) && peer.contains(extension),
        shared_extensions(own, peer).contains(extension) <==> shared_extensions(peer, own).contains(extension),
{
    lemma_shared(own, peer, extension);
    lemma_shared(peer, own, extension);
}

proof fn lemma_shared(own: Seq<Seq<char>>, peer: Seq<Seq<char>>, extension: Seq<char>)
    ensures
        shared_extensions(own, peer).contains(extension) <==> own.contains(extension) && peer.contains(extension),
{
    broadcast use vstd::seq_lib::group_filter_ensures;

    let keep = |x: Seq<char>| peer.contains(x);
    let shared = own.filter(keep);
    if shared.contains(extension) {
        own.lemma_filter_contains_rev(keep, extension);
        let i = choose|i: int| 0 <= i < shared.len() && shared[i] == extension;
        assert(keep(shared[i]));
    }
    if own.contains(extension) && peer.contains(extension) {
        let i = choose|i: int| 0 <= i < own.len() && own[i] == extension;
        own.lemma_filter_contains(keep, i);
    }
}

/// Whether the node with a key is not known, or known with that key.
pub open spec fn trusts(trusted: Map<Seq<char>, PeerInfoView>, static_public: Seq<u8>) -> bool {
    let id = node_id_of(static_public);
    trusted.contains_key(id) ==> decoded(trusted[id].static_public_key_b64) == Ok::<Seq<u8>, ErrorView>(static_public)
}

/// Two nodes that get each other's packets, and do not distrust each other, open one session:
/// they know each other's id, show the same phrase, compress alike, and each can read what
/// the other sends next.
pub proof fn handshake_opens_session(
    initiator: ClientView,
    responder: ClientView,
    from_initiator: PacketView,
    from_responder: PacketView,
    initiator_trusts: Map<Seq<char>, PeerInfoView>,
    responder_trusts: Map<Seq<char>, PeerInfoView>,
    words: WordLists,
)
    requires
        initiator.crypto.wf(),
        responder.crypto.wf(),
        initiator.crypto.ephemeral_secret is Some,
        responder.crypto.ephemeral_secret is Some,
        speaks_for(from_initiator, initiator.crypto),
        speaks_for(from_responder, responder.crypto),
        trusts(initiator_trusts, responder.crypto.static_public()),
        trusts(responder_trusts, initiator.crypto.static_public()),
    ensures
        ({
            let responder_id = node_id_of(responder.crypto.static_public());
            let i = handshake_outcome(
                initiator,
                from_responder,
                true,
                initiator_trusts,
                Some(responder_id),
                words,
            );
            let r = handshake_outcome(responder, from_initiator, false, responder_trusts, None, words);
            &&& i.error is None
            &&& r.error is None
            &&& i.client.peer_node_id == Some(responder_id)
            &&& r.client.peer_node_id == Some(node_id_of(initiator.crypto.static_public()))
            &&& i.client.identity_phrase == r.client.identity_phrase
            &&& i.client.selected_compression == Some("compression:zstd"@)
            &&& r.client.selected_compression == Some("compression:zstd"@)
            &&& i.client.active_extensions == r.client.active_extensions
            &&& i.client.messages_vanish()
            &&& r.client.messages_vanish()
            &&& i.client.crypto.session is Some
            &&& r.client.crypto.session is Some
            &&& in_step(i.client.crypto.session->0, r.client.crypto.session->0)
            &&& in_step(r.client.crypto.session->0, i.client.crypto.session->0)
        }),
{
    handshakes_agree(initiator.crypto, responder.crypto);
    let all = supported();
    reveal_strlit("compression:");
    reveal_strlit("compression:zstd");
    assert("compression:"@ =~= "compression:zstd"@.subrange(0, 12));
    assert(all[0] == "compression:zstd"@);
    assert(all[3] == "vanishing_ink:v1"@);
    assert(agreed_compression(all, all) == Some("compression:zstd"@));
    lemma_shared(all, all, "vanishing_ink:v1"@);
}

/// In every session that a handshake opens, messages are compressed with Zstandard: it is the
/// one algorithm of this node.
pub proof fn session_compresses(
    client: ClientView,
    packet: PacketView,
    is_initiator: bool,
    trusted: Map<Seq<char>, PeerInfoView>,
    expected: Option<Seq<char>>,
    words: WordLists,
)
    ensures
        ({
            let outcome = handshake_outcome(client, packet, is_initiator, trusted, expected, words);
            outcome.error is None ==> outcome.client.uses_zstd()
        }),
{
    let own = supported();
    let peer = packet.extensions;
    compression_is_first_shared(own, peer);
    compression_is_first_shared(peer, own);
    reveal_strlit("compression:");
    reveal_strlit("ratchet:v1");
    reveal_strlit("owl-post:v1");
    reveal_strlit("vanishing_ink:v1");
    assert("compression:"@[0] == 'c');
    assert("ratchet:v1"@[0] == 'r' && "owl-post:v1"@[0] == 'o' && "vanishing_ink:v1"@[0] == 'v');
    assert forall|x: Seq<char>| own.contains(x) && #[trigger] is_compression(x) implies x == "compression:zstd"@ by {
        assert(x[0] == 'c');
    }
}

/// A packet whose signature is not that of its static key opens no session.
pub proof fn forged_packet_is_refused(
    client: ClientView,
    packet: PacketView,
    is_initiator: bool,
    trusted: Map<Seq<char>, PeerInfoView>,
    words: WordLists,
)
    requires
        packet_keys(packet) matches Ok(keys) ==> !ed25519_verifies(
            keys.static_public,
            handshake_statement(keys.ephemeral),
            keys.signature,
        ),
    ensures
        ({
            let outcome = handshake_outcome(client, packet, is_initiator, trusted, None, words);
            &&& outcome.error is Some
            &&& outcome.client.crypto == client.crypto
        }),
{
}

/// A node that is known with another key than the one in its packet is refused.
pub proof fn changed_key_is_refused(
    client: ClientView,
    packet: PacketView,
    is_initiator: bool,
    trusted: Map<Seq<char>, PeerInfoView>,
    expected: Option<Seq<char>>,
    words: WordLists,
)
    requires
        packet_keys(packet) matches Ok(keys) ==> !trusts(trusted, keys.static_public),
    ensures
        handshake_outcome(client, packet, is_initiator, trusted, expected, words).error is Some,
{
}

/// Another node than the expected one is refused, before there is a session.
pub proof fn other_node_is_refused(
    client: ClientView,
    packet: PacketView,
    is_initiator: bool,
    trusted: Map<Seq<char>, PeerInfoView>,
    expected: Seq<char>,
    words: WordLists,
)
    requires
        packet_keys(packet) matches Ok(keys) ==> node_id_of(keys.static_public) != expected,
    ensures
        ({
            let outcome = handshake_outcome(client, packet, is_initiator, trusted, Some(expected), words);
            &&& outcome.error is Some
            &&& outcome.client.crypto == client.crypto
        }),
{
}

/// A peer has an id, a key and a phrase only after a handshake that succeeded.
pub proof fn failed_handshake_names_nobody(
    client: ClientView,
    packet: PacketView,
    is_initiator: bool,
    trusted: Map<Seq<char>, PeerInfoView>,
    expected: Option<Seq<char>>,
    words: WordLists,
)
    ensures
        ({
            let outcome = handshake_outcome(client, packet, is_initiator, trusted, expected, words);
            outcome.error is Some ==> outcome.client.peer_node_id == client.peer_node_id
                && outcome.client.peer_static_pk == client.peer_static_pk && outcome.client.identity_phrase
                == client.identity_phrase
        }),
{
}

/// The keys of a packet are those that it names in base64, if they are thirty-two bytes each and
/// the static one is a point, with a signature of sixty-four bytes.
pub proof fn packet_names_its_keys(packet: PacketView)
    ensures
        packet_keys(packet) matches Ok(keys) ==> decoded(packet.pk) == Ok::<Seq<u8>, ErrorView>(keys.ephemeral)
            && decoded(packet.spk) == Ok::<Seq<u8>, ErrorView>(keys.static_public) && decoded(packet.sig) == Ok::<
            Seq<u8>,
            ErrorView,
        >(keys.signature) && keys.ephemeral.len() == 32 && keys.static_public.len() == 32 && keys.signature.len() == 64
            && ed25519_key_fault(keys.static_public) is None,
        packet_keys(packet) is Err ==> !((decoded(packet.pk) matches Ok(pk) && pk.len() == 32) && (decoded(packet.spk)
            matches Ok(spk) && spk.len() == 32 && ed25519_key_fault(spk) is None) && (decoded(packet.sig) matches Ok(sig)
            && sig.len() == 64)),
{
}

/// Whether two nodes have a compression algorithm in common.
pub open spec fn compress_alike(own: Seq<Seq<char>>, peer: Seq<Seq<char>>) -> bool {
    exists|i: int| 0 <= i < own.len() && "compression:"@.is_prefix_of(#[trigger] own[i]) && peer.contains(own[i])
}

proof fn lemma_compress_alike(own: Seq<Seq<char>>, peer: Seq<Seq<char>>)
    ensures
        agreed_compression(own, peer) is Some <==> compress_alike(own, peer),
        compress_alike(own, peer) <==> compress_alike(peer, own),
{
    compression_is_first_shared(own, peer);
    if compress_alike(own, peer) {
        let i = choose|i: int|
            0 <= i < own.len() && "compression:"@.is_prefix_of(#[trigger] own[i]) && peer.contains(own[i]);
        assert(is_compression(own[i]));
        let k = choose|k: int| 0 <= k < peer.len() && peer[k] == own[i];
        assert("compression:"@.is_prefix_of(peer[k]) && own.contains(peer[k]));
    }
    if compress_alike(peer, own) {
        let i = choose|i: int|
            0 <= i < peer.len() && "compression:"@.is_prefix_of(#[trigger] peer[i]) && own.contains(peer[i]);
        let k = choose|k: int| 0 <= k < own.len() && own[k] == peer[i];
        assert("compression:"@.is_prefix_of(own[k]) && peer.contains(own[k]));
    }
    if agreed_compression(own, peer) is Some {
        let x = agreed_compression(own, peer)->0;
        let i = choose|i: int|
            0 <= i < own.len() && #[trigger] own[i] == x && is_compression(x) && peer.contains(x) && forall|j: int|
                0 <= j < i ==> !(is_compression(#[trigger] own[j]) && peer.contains(own[j]));
        assert("compression:"@.is_prefix_of(own[i]) && peer.contains(own[i]));
    }
}

/// A handshake succeeds exactly if the packet has keys, is from the expected node where one is
/// expected, is signed for its ephemeral key by its static key, the nodes have a compression
/// algorithm in common, the own ephemeral key was not used before, and the node is not known with
/// another key. Then the peer is the node with that key, in a session with its keys.
pub proof fn handshake_succeeds_exactly(
    client: ClientView,
    packet: PacketView,
    is_initiator: bool,
    trusted: Map<Seq<char>, PeerInfoView>,
    expected: Option<Seq<char>>,
    words: WordLists,
    keys: PacketKeys,
)
    requires
        packet_keys(packet) == Ok::<PacketKeys, ErrorView>(keys),
    ensures
        ({
            let outcome = handshake_outcome(client, packet, is_initiator, trusted, expected, words);
            let after = outcome.client;
            let id = base64_text(sha256_digest(keys.static_public));
            let shared = x25519_product(client.crypto.ephemeral_secret->0, keys.ephemeral);
            &&& outcome.error is None <==> {
                &&& expected is None || expected == Some(id)
                &&& ed25519_verifies(
                    keys.static_public,
                    "patronus-handshake-v1".spec_bytes() + keys.ephemeral,
                    keys.signature,
                )
                &&& compress_alike(supported(), packet.extensions)
                &&& client.crypto.ephemeral_secret is Some
                &&& trusted.contains_key(id) ==> decoded(trusted[id].static_public_key_b64) == Ok::<
                    Seq<u8>,
                    ErrorView,
                >(keys.static_public)
            }
            &&& outcome.error is None ==> {
                &&& after.peer_node_id == Some(id)
                &&& after.peer_static_pk == Some(base64_text(keys.static_public))
                &&& after.peer_extensions == packet.extensions
                &&& after.identity_phrase == Some(identity_phrase(words, identity_key(shared)))
                &&& after.crypto.ephemeral_secret is None
                &&& after.crypto.session == Some(
                    opening_session(shared, client.crypto.static_public(), keys.static_public, is_initiator),
                )
                &&& after.active_extensions == shared_extensions(supported(), packet.extensions)
                &&& is_initiator ==> after.selected_compression == agreed_compression(supported(), packet.extensions)
                &&& !is_initiator ==> after.selected_compression == agreed_compression(packet.extensions, supported())
                &&& after == (ClientView {
                    crypto: CryptoView { ephemeral_secret: None, session: after.crypto.session, ..client.crypto },
                    peer_node_id: after.peer_node_id,
                    peer_static_pk: after.peer_static_pk,
                    peer_extensions: after.peer_extensions,
                    identity_phrase: after.identity_phrase,
                    selected_compression: after.selected_compression,
                    active_extensions: after.active_extensions,
                    ..client
                })
            }
        }),
{
    lemma_compress_alike(supported(), packet.extensions);
    lemma_compress_alike(packet.extensions, supported());
}

/// What is wrong with a handshake is told in this order: another node than the expected one, a
/// signature that does not hold, no common compression, a handshake that took place before, and
/// another key than the known one.
pub proof fn handshake_faults_in_order(
    client: ClientView,
    packet: PacketView,
    is_initiator: bool,
    trusted: Map<Seq<char>, PeerInfoView>,
    expected: Option<Seq<char>>,
    words: WordLists,
    keys: PacketKeys,
)
    requires
        packet_keys(packet) == Ok::<PacketKeys, ErrorView>(keys),
    ensures
        ({
            let outcome = handshake_outcome(client, packet, is_initiator, trusted, expected, words);
            let id = base64_text(sha256_digest(keys.static_public));
            let other = expected is Some && expected != Some(id);
            let forged = !ed25519_verifies(
                keys.static_public,
                "patronus-handshake-v1".spec_bytes() + keys.ephemeral,
                keys.signature,
            );
            let apart = !compress_alike(supported(), packet.extensions);
            let again = client.crypto.ephemeral_secret is None;
            &&& other ==> outcome.error == Some(ErrorView::UnexpectedNode)
            &&& !other && forged ==> outcome.error == Some(ErrorView::SignatureMismatch)
            &&& !other && !forged && apart ==> outcome.error == Some(ErrorView::NoCommonCompression)
            &&& !other && !forged && !apart && again ==> outcome.error == Some(
                ErrorView::Crypto(CryptoError::HandshakeAlreadyCompleted),
            )
            &&& !other && !forged && !apart && !again && trusted.contains_key(id) ==> (decoded(
                trusted[id].static_public_key_b64,
            ) matches Ok(known) ==> known != keys.static_public ==> outcome.error == Some(ErrorView::KeyMismatch))
        }),
{
    lemma_compress_alike(supported(), packet.extensions);
    lemma_compress_alike(packet.extensions, supported());
}

/// Two nodes agree on the same extensions: those of this node that the other has too, in this
/// node's order.
pub proof fn shared_extensions_keep_order(own: Seq<Seq<char>>, peer: Seq<Seq<char>>, more: Seq<char>)
    ensures
        shared_extensions(seq![], peer).len() == 0,
        shared_extensions(own.push(more), peer) == (if peer.contains(more) {
            shared_extensions(own, peer).push(more)
        } else {
            shared_extensions(own, peer)
        }),
{
    reveal(Seq::filter);
    assert(own.push(more).drop_last() =~= own);
}

/// What a node says of itself names its two keys and its signature in base64, and its extensions.
pub proof fn packet_speaks_for_its_node(packet: PacketView, client: CryptoView)
    requires
        speaks_for(packet, client),
    ensures
        packet.msg_type == "handshake"@,
        packet.pk == base64_text(client.ephemeral_public),
        packet.spk == base64_text(ed25519_public(client.static_key)),
        packet.sig == base64_text(
            ed25519_signature(client.static_key, "patronus-handshake-v1".spec_bytes() + client.ephemeral_public),
        ),
        packet.extensions == seq!["compression:zstd"@, "ratchet:v1"@, "owl-post:v1"@, "vanishing_ink:v1"@],
{
}

/// Of a node with another key than it had the id is said; of other faults only what they are.
pub proof fn changed_key_is_said_with_id(packet: PacketView, error: ErrorView, key: Seq<u8>)
    requires
        decoded(packet.spk) == Ok::<Seq<u8>, ErrorView>(key),
        key.len() == 32,
    ensures
        error != ErrorView::KeyMismatch ==> handshake_error_text(error, packet) == client_error_text(error),
        handshake_error_text(ErrorView::KeyMismatch, packet) == client_error_text(ErrorView::KeyMismatch)
            + " for peer "@ + base64_text(sha256_digest(key)),
{
}

/// A base64 text stands for the bytes that it decodes to, or is told to be none with the reason,
/// unless it is too long to be looked at.
pub proof fn base64_is_decoded(text: Seq<char>)
    requires
        encode_utf8(text).len() <= usize::MAX / 8,
    ensures
        base64_decoded(text) matches Ok(data) ==> decoded(text) == Ok::<Seq<u8>, ErrorView>(data),
        base64_decoded(text) matches Err(e) ==> decoded(text) == Err::<Seq<u8>, ErrorView>(Fault::InvalidEncoding(e)),
{
}

}
