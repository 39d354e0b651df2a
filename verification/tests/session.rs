use patronus::client::{ClientError, FileOffer, OutboundMessage, PatronusClient, UiEvent, CHUNK_LEN};
use patronus::crypto::{CryptoError, CryptoState, WordLists};
use patronus::documents::{read_packet, write_packet};
use patronus::handshake::{
    choose_compression, choose_extensions, handshake_failed, node_id, supported_extensions, HandshakePacket,
};
use patronus::names::NameMap;
use patronus::storage::PeerInfo;
use patronus::transfer::{AcceptTarget, FileDigest, FileOpening, PlaceError, Resume, Transmission};
use patronus::turn::{Next, Turn, Unsent};

fn hex(bytes: &[u8]) -> String {
    bytes.iter().map(|b| format!("{:02x}", b)).collect()
}

fn list(stem: &str) -> Vec<String> {
    (0..256).map(|i| format!("{}{}", stem, i)).collect()
}

fn words() -> WordLists {
    WordLists::new(list("brave"), list("crimson"), list("stag")).unwrap()
}

fn client(static_byte: u8, ephemeral_byte: u8) -> PatronusClient {
    let mut client = PatronusClient::new([static_byte; 32], None, 1000);
    client.crypto = CryptoState::with_ephemeral([static_byte; 32], [ephemeral_byte; 32]);
    client
}

fn no_peers() -> NameMap<PeerInfo> {
    NameMap::new()
}

/// Two clients in one session.
fn pair() -> (PatronusClient, PatronusClient) {
    let mut alice = client(1, 3);
    let mut bob = client(2, 4);
    let from_alice = alice.handshake_packet();
    let from_bob = bob.handshake_packet();
    alice.handshake(&from_bob, true, &no_peers(), None, &words()).unwrap();
    bob.handshake(&from_alice, false, &no_peers(), None, &words()).unwrap();
    (alice, bob)
}

fn texts(events: &[UiEvent]) -> Vec<String> {
    events
        .iter()
        .map(|event| match event {
            UiEvent::Message { text, .. } => text.clone(),
            other => format!("{:?}", other),
        })
        .collect()
}

fn deliver(from: Turn, to: &mut PatronusClient) -> Turn {
    to.handle_incoming_frame(&from.frame.expect("a frame is sent"))
}

fn say(from: &mut PatronusClient, text: &str) -> Turn {
    from.handle_outbound_command("peer".to_string(), text.to_string(), None)
}

#[test]
fn a_packet_says_who_a_node_is() {
    let packet = client(1, 3).handshake_packet();
    assert_eq!(packet.msg_type, "handshake");
    assert_eq!(packet.pk, "Xf7dO2vUf2+ijuFdlp1bsOpTd01Ii9r53xxuASSz7yI=");
    assert_eq!(packet.spk, "iojj3XQJ8ZX9UtstPLpdcspnCb8dlBIb83SIAbQPb1w=");
    assert_eq!(
        packet.sig,
        "3hw1Q8+unnh2qglCmF7ui7iS658gz+YxLD4Rk6023R4h1u3kQS6F7GpcVB8xjNmXflCgwqVGULJJar8xOm8lCw=="
    );
    assert_eq!(packet.extensions, vec!["compression:zstd", "ratchet:v1", "owl-post:v1", "vanishing_ink:v1"]);
}

#[test]
fn a_packet_reads_back_as_it_was_written() {
    let packet = HandshakePacket {
        msg_type: "handshake".to_string(),
        pk: "a\"b".to_string(),
        spk: "c".to_string(),
        sig: "d".to_string(),
        extensions: vec!["x".to_string(), "y".to_string()],
    };
    let text = write_packet(&packet);
    assert_eq!(
        String::from_utf8(text.clone()).unwrap(),
        r#"{"type":"handshake","pk":"a\"b","spk":"c","sig":"d","extensions":["x","y"]}"#
    );
    let read = read_packet(&text).unwrap();
    assert_eq!(read.msg_type, packet.msg_type);
    assert_eq!((read.pk, read.spk, read.sig), (packet.pk, packet.spk, packet.sig));
    assert_eq!(read.extensions, packet.extensions);

    let listed = read_packet(br#"["handshake","a","b","c",[]]"#).unwrap();
    assert_eq!((listed.pk.as_str(), listed.sig.as_str(), listed.extensions.len()), ("a", "c", 0));
    let more = read_packet(br#"{"type":"t","pk":"","spk":"","sig":"","extensions":["e"],"more":1}"#).unwrap();
    assert_eq!((more.msg_type.as_str(), more.extensions.len()), ("t", 1));
    let spaced = read_packet(b" { \"sig\" :\n\"s\" ,\t\"more\" : [ {} , 1e999, \"\\ud800\" ] , \"type\":\"t\",\"p\\u006b\":\"k\",\"spk\":\"\",\"extensions\" : [ ] } \r\n").unwrap();
    assert_eq!((spaced.sig.as_str(), spaced.pk.as_str()), ("s", "k"));
    let mut deep = br#"{"type":"t","pk":"","spk":"","sig":"","extensions":[],"deep":"#.to_vec();
    deep.extend_from_slice("[".repeat(5000).as_bytes());
    deep.extend_from_slice("]".repeat(5000).as_bytes());
    deep.extend_from_slice(b"}");
    assert!(read_packet(&deep).is_some());
    for wrong in [
        "",
        "{}",
        "null",
        r#"{"type":"t","pk":"","pk":"","spk":"","sig":"","extensions":[]}"#,
        r#"{"type":"t","pk":"","spk":"","sig":"","extensions":[],}"#,
        r#"{"type":"t","pk":"","spk":"","sig":"","extensions":[]} x"#,
        r#"{"type":"t" "pk":"","spk":"","sig":"","extensions":[]}"#,
        r#"{"type":"t","pk":"","spk":"","sig":"\ud800","extensions":[]}"#,
        r#"{"type":"t","pk":"","spk":"","sig":"","extensions":[],"more":}"#,
        r#"{"type":"t","pk":"","spk":"","sig":"","extensions":[],1:2}"#,
        r#"{"type":"t","pk":"","spk":"","sig":"","extensions":[]"#,
        "[1,2,3,4,5]",
        r#"{"type":"t","pk":"","spk":"","sig":"","extensions":["e",1]}"#,
        r#"{"type":"t","pk":"","spk":"","sig":"","extensions":"e"}"#,
        r#"{"type":1,"pk":"","spk":"","sig":"","extensions":[]}"#,
        r#"{"type":"t","pk":"","spk":"","extensions":[]}"#,
        r#"["handshake","a","b","c",[],0]"#,
    ] {
        assert!(read_packet(wrong.as_bytes()).is_none(), "{}", wrong);
    }
}

#[test]
fn every_session_compresses() {
    let (alice, bob) = pair();
    assert_eq!(alice.selected_compression.as_deref(), Some("compression:zstd"));
    assert_eq!(bob.selected_compression.as_deref(), Some("compression:zstd"));
}

#[test]
fn a_failed_handshake_names_nobody() {
    let mut alice = client(1, 3);
    let mut packet = client(2, 4).handshake_packet();
    packet.sig = client(1, 9).handshake_packet().sig;
    assert!(alice.handshake(&packet, true, &no_peers(), None, &words()).is_err());
    assert!(alice.peer_node_id.is_none() && alice.peer_static_pk.is_none() && alice.identity_phrase.is_none());
}

#[test]
fn a_new_client_has_a_fresh_ephemeral_key_and_saves_downloads() {
    let first = PatronusClient::new([1; 32], None, 5);
    let second = PatronusClient::new([1; 32], Some("elsewhere".to_string()), 5);
    assert_ne!(first.handshake_packet().pk, second.handshake_packet().pk);
    assert_eq!(first.save_dir, "downloads");
    assert_eq!(second.save_dir, "elsewhere");
    assert_eq!(first.last_ping, 5);
    assert!(first.send_bye && !first.pending_pong);
    assert!(first.peer_node_id.is_none() && !first.crypto.can_send());
}

#[test]
fn two_nodes_agree_on_a_session() {
    let (alice, bob) = pair();
    assert_eq!(alice.peer_node_id.as_deref(), Some("ajgD1fBZkCocba+8m6RykhL3yqwIY0zDrnaydSnwOCc="));
    assert_eq!(bob.peer_node_id.as_deref(), Some("NHUPmL1Z/PyUbaRaqr6TO+FUpLUJThxKv0KGZQXzyX4="));
    assert_eq!(alice.identity_phrase.as_deref(), Some("Brave31 Crimson176 Stag220"));
    assert_eq!(alice.identity_phrase, bob.identity_phrase);
    assert_eq!(alice.selected_compression.as_deref(), Some("compression:zstd"));
    assert_eq!(bob.selected_compression.as_deref(), Some("compression:zstd"));
    assert_eq!(alice.active_extensions, supported_extensions());
    assert_eq!(alice.peer_static_pk, Some(bob.handshake_packet().spk));
}

#[test]
fn a_handshake_that_is_not_in_order_is_refused() {
    let encoding = |text: &str| Err(ClientError::InvalidEncoding(text.to_string()));
    let good = || client(2, 4).handshake_packet();
    let outcome = |packet: &HandshakePacket| {
        let mut alice = client(1, 3);
        let res = alice.handshake(packet, true, &no_peers(), None, &words());
        assert!(alice.peer_node_id.is_none());
        res
    };
    assert_eq!(outcome(&HandshakePacket { pk: "?".to_string(), ..good() }), encoding("invalid length at 0"));
    assert_eq!(outcome(&HandshakePacket { pk: "AAAA".to_string(), ..good() }), Err(ClientError::InvalidEphemeralKey));
    assert_eq!(outcome(&HandshakePacket { spk: "AAAAAAA?".to_string(), ..good() }), encoding("invalid symbol at 7"));
    assert_eq!(outcome(&HandshakePacket { spk: "AAAA".to_string(), ..good() }), Err(ClientError::InvalidStaticKey));
    let no_point = "AgAAAAAAAAAAAAAAAAAAAAAAAAAAAAAAAAAAAAAAAAA=".to_string();
    assert_eq!(
        outcome(&HandshakePacket { spk: no_point, ..good() }),
        Err(ClientError::InvalidPoint("signature error: Cannot decompress Edwards point".to_string()))
    );
    assert_eq!(outcome(&HandshakePacket { sig: "AB==".to_string(), ..good() }), encoding("non-zero trailing bits at 1"));
    assert_eq!(outcome(&HandshakePacket { sig: "AAAA".to_string(), ..good() }), Err(ClientError::InvalidSignature));
    let other = client(1, 9).handshake_packet().sig;
    assert_eq!(outcome(&HandshakePacket { sig: other, ..good() }), Err(ClientError::SignatureMismatch));
    let none = vec!["ratchet:v1".to_string(), "compression:lzma".to_string()];
    assert_eq!(outcome(&HandshakePacket { extensions: none, ..good() }), Err(ClientError::NoCommonCompression));
}

#[test]
fn a_session_is_opened_once() {
    let mut alice = client(1, 3);
    let packet = client(2, 4).handshake_packet();
    alice.handshake(&packet, true, &no_peers(), None, &words()).unwrap();
    assert_eq!(
        alice.handshake(&packet, true, &no_peers(), None, &words()),
        Err(ClientError::Crypto(CryptoError::HandshakeAlreadyCompleted))
    );
}

#[test]
fn another_node_than_the_expected_one_is_refused() {
    let mut alice = client(1, 3);
    let bob = client(2, 4);
    let id = node_id(&bob.crypto.static_public());
    assert_eq!(id, "ajgD1fBZkCocba+8m6RykhL3yqwIY0zDrnaydSnwOCc=");
    let res = alice.handshake(&bob.handshake_packet(), true, &no_peers(), Some("another"), &words());
    assert_eq!(res, Err(ClientError::UnexpectedNode));
    assert!(!alice.crypto.can_send());
    alice.handshake(&bob.handshake_packet(), true, &no_peers(), Some(&id), &words()).unwrap();
    assert!(alice.crypto.can_send());
}

#[test]
fn a_peer_with_another_key_than_before_is_refused() {
    let packet = client(2, 4).handshake_packet();
    let known = |key: &str| {
        let mut peers = NameMap::new();
        peers.insert(
            "ajgD1fBZkCocba+8m6RykhL3yqwIY0zDrnaydSnwOCc=".to_string(),
            PeerInfo { static_public_key_b64: key.to_string(), custom_name: None, is_verified: true },
        );
        peers
    };
    let mut alice = client(1, 3);
    alice.handshake(&packet, true, &known(&packet.spk), None, &words()).unwrap();
    let mut alice = client(1, 3);
    let changed = client(1, 3).handshake_packet().spk;
    let error = alice.handshake(&packet, true, &known(&changed), None, &words()).unwrap_err();
    assert_eq!(error, ClientError::KeyMismatch);
    assert_eq!(
        texts(&[handshake_failed(error, &packet)]),
        vec![
            "Handshake failed: Security Violation (0x03): TOFU public key mismatch for peer \
             ajgD1fBZkCocba+8m6RykhL3yqwIY0zDrnaydSnwOCc="
        ]
    );
    let mut alice = client(1, 3);
    let error = alice.handshake(&packet, true, &known("not base64"), None, &words()).unwrap_err();
    assert_eq!(error, ClientError::InvalidEncoding("invalid length at 8".to_string()));
    assert_eq!(texts(&[handshake_failed(error, &packet)]), vec!["Handshake failed: invalid length at 8"]);
}

#[test]
fn the_initiators_first_common_algorithm_is_used() {
    let owned = |items: &[&str]| items.iter().map(|s| s.to_string()).collect::<Vec<String>>();
    let initiator = owned(&["ratchet:v1", "compression:a", "compression:b", "compression:c"]);
    let responder = owned(&["compression:c", "compression:b", "ratchet:v1"]);
    assert_eq!(choose_compression(&initiator, &responder).as_deref(), Some("compression:b"));
    assert_eq!(choose_compression(&responder, &initiator).as_deref(), Some("compression:c"));
    assert_eq!(choose_compression(&initiator, &owned(&["ratchet:v1"])), None);
    assert_eq!(choose_extensions(&initiator, &responder), owned(&["ratchet:v1", "compression:b", "compression:c"]));
}

#[test]
fn a_message_is_framed_as_the_next_of_its_ratchet() {
    let (mut alice, _) = pair();
    let frame = alice.encrypt_packed(b"hello", &[5; 12]).unwrap();
    assert_eq!(
        hex(&frame),
        "00000015000000010505050505050505050505057f99a631990db3106e8d205a788e67607213ce76bd"
    );
}

#[test]
fn a_text_arrives_with_its_time_to_live() {
    let (mut alice, mut bob) = pair();
    let turn = alice.handle_outbound_msg(OutboundMessage::Message {
        target: "bob".to_string(),
        text: "Lumos — ü".to_string(),
        ttl: Some(60),
    });
    assert!(matches!(turn.unsent, Unsent::EndsSilently));
    let got = deliver(turn, &mut bob);
    assert!(got.end.is_none() && got.frame.is_none());
    match &got.events[..] {
        [UiEvent::Message { from, text, is_system, ttl, group }] => {
            assert_eq!(from, "NHUPmL1Z/PyUbaRaqr6TO+FUpLUJThxKv0KGZQXzyX4=");
            assert_eq!(text, "Lumos — ü");
            assert!(!is_system);
            assert_eq!(*ttl, Some(60));
            assert_eq!(*group, None);
        }
        other => panic!("{:?}", other),
    }
    let turn = bob.handle_outbound_msg(OutboundMessage::Message {
        target: "__group__".to_string(),
        text: "all".to_string(),
        ttl: None,
    });
    match &deliver(turn, &mut alice).events[..] {
        [UiEvent::Message { text, ttl, group, .. }] => {
            assert_eq!(text, "all");
            assert_eq!(*ttl, None);
            assert_eq!(group.as_deref(), Some("Lobby"));
        }
        other => panic!("{:?}", other),
    }
}

#[test]
fn nothing_is_said_of_times_to_live_where_they_were_not_agreed_on() {
    let mut alice = client(1, 3);
    let mut bob = client(2, 4);
    let from_alice = alice.handshake_packet();
    let mut from_bob = bob.handshake_packet();
    from_bob.extensions.pop();
    alice.handshake(&from_bob, true, &no_peers(), None, &words()).unwrap();
    bob.handshake(&from_alice, false, &no_peers(), None, &words()).unwrap();
    let turn = alice.handle_outbound_msg(OutboundMessage::TTLNotice { target: "bob".to_string(), ttl: Some(9) });
    assert!(turn.frame.is_none() && turn.end.is_none());
    let turn = alice.handle_outbound_msg(OutboundMessage::Message {
        target: "bob".to_string(),
        text: "plain".to_string(),
        ttl: Some(9),
    });
    match &deliver(turn, &mut bob).events[..] {
        [UiEvent::Message { text, ttl, .. }] => {
            assert_eq!(text, "plain");
            assert_eq!(*ttl, None);
        }
        other => panic!("{:?}", other),
    }
}

#[test]
fn a_notice_of_the_time_to_live_is_shown() {
    let (mut alice, mut bob) = pair();
    let turn = alice.handle_outbound_msg(OutboundMessage::TTLNotice { target: "b".to_string(), ttl: Some(5400) });
    assert_eq!(texts(&deliver(turn, &mut bob).events), vec!["Peer messages will disappear after 1h 30m"]);
    let turn = alice.handle_outbound_msg(OutboundMessage::TTLNotice { target: "b".to_string(), ttl: None });
    assert_eq!(texts(&deliver(turn, &mut bob).events), vec!["Peer disabled message TTL"]);
}

#[test]
fn messages_are_compressed() {
    let (mut alice, mut bob) = pair();
    let payload = vec![b'a'; 20000];
    let frame = alice.encrypt_message(0x01, &payload).unwrap();
    assert!(frame.len() < 1000);
    let (msg_type, read, is_ratchet, index) = bob.receive_message(&frame).unwrap();
    assert_eq!((msg_type, is_ratchet, index), (0x01, true, 1));
    assert_eq!(read, payload);
    bob.selected_compression = None;
    alice.selected_compression = None;
    let frame = alice.encrypt_message(0x01, &payload).unwrap();
    assert_eq!(frame.len(), 20 + 1 + 20000 + 16);
    assert_eq!(bob.receive_message(&frame).unwrap().1, payload);
}

#[test]
fn lost_messages_are_skipped_but_not_too_many() {
    let (mut alice, mut bob) = pair();
    for _ in 0..49 {
        alice.encrypt_message(0x01, b"lost").unwrap();
    }
    let fiftieth = alice.encrypt_message(0x07, b"found").unwrap();
    assert_eq!(bob.receive_message(&fiftieth).unwrap().0, 0x07);
    for _ in 0..50 {
        alice.encrypt_message(0x01, b"lost").unwrap();
    }
    let too_far = alice.encrypt_message(0x01, b"far").unwrap();
    assert_eq!(bob.receive_message(&too_far), Err(ClientError::Crypto(CryptoError::RatchetIndexTooFar)));
}

#[test]
fn a_message_is_read_once() {
    let (mut alice, mut bob) = pair();
    let frame = alice.encrypt_message(0x02, &[0x02]).unwrap();
    bob.receive_message(&frame).unwrap();
    let again = bob.handle_incoming(&frame);
    assert_eq!(again.end, Some(ClientError::Crypto(CryptoError::StaleRatchetIndex)));
    assert!(!bob.send_bye);
}

#[test]
fn what_stands_behind_the_length_is_read_once() {
    let (mut alice, mut bob) = pair();
    let long = vec![b'x'; 70_000];
    let frame = alice.encrypt_message(0x01, &long).unwrap();
    assert!(frame.len() < 1000);
    assert_eq!(bob.decrypt_message(&frame[4..]), Ok((0x01, long)));
    assert_eq!(bob.decrypt_message(&frame[4..]), Err(ClientError::Crypto(CryptoError::StaleRatchetIndex)));
    assert_eq!(bob.decrypt_message(&frame[4..35]), Err(ClientError::FrameTooShort));
    let next = alice.encrypt_message(0x02, b"").unwrap();
    assert_eq!(bob.decrypt_message(&next[4..]), Ok((0x02, Vec::new())));
}

#[test]
fn frames_that_are_not_in_order_end_the_session() {
    let (mut alice, mut bob) = pair();
    assert_eq!(bob.handle_incoming_frame(&[0; 19]).end, Some(ClientError::FrameTooShort));
    assert_eq!(bob.handle_incoming_frame(&[1; 20]).end, Some(ClientError::LengthMismatch));
    assert_eq!(bob.handle_incoming_frame(&[0; 20]).end, Some(ClientError::FrameTooShort));
    assert!(bob.send_bye);
    let mut frame = alice.encrypt_message(0x01, b"x").unwrap();
    let last = frame.len() - 1;
    frame[last] ^= 1;
    let turn = bob.handle_incoming_frame(&frame);
    assert_eq!(turn.end, Some(ClientError::Crypto(CryptoError::DecryptionFailed)));
    assert!(bob.send_bye);
    frame[last] ^= 1;
    assert_eq!(bob.receive_message(&frame).unwrap().1, b"x");
}

#[test]
fn a_client_without_a_session_reads_nothing() {
    let (mut alice, _) = pair();
    let frame = alice.encrypt_message(0x01, b"x").unwrap();
    let mut carol = client(7, 8);
    let turn = carol.handle_incoming_frame(&frame);
    assert_eq!(turn.end, Some(ClientError::Crypto(CryptoError::HandshakeNotCompleted)));
    assert_eq!(turn.end.unwrap().message(), "handshake not completed");
}

#[test]
fn what_is_compressed_badly_or_empty_is_refused() {
    let (mut alice, mut bob) = pair();
    let frame = alice.encrypt_packed(b"no zstd frame", &[1; 12]).unwrap();
    let error = bob.handle_incoming_frame(&frame).end.unwrap();
    assert_eq!(error, ClientError::DecompressionFailed("Unknown frame descriptor".to_string()));
    assert_eq!(error.message(), "Unknown frame descriptor");
    alice.selected_compression = None;
    bob.selected_compression = None;
    let frame = alice.encrypt_packed(b"", &[1; 12]).unwrap();
    assert_eq!(bob.handle_incoming_frame(&frame).end, Some(ClientError::EmptyPayload));
}

#[test]
fn unknown_messages_end_the_session_with_a_word() {
    let (mut alice, mut bob) = pair();
    let frame = alice.encrypt_message(0x2a, b"?").unwrap();
    let turn = bob.handle_incoming_frame(&frame);
    assert_eq!(texts(&turn.events), vec!["Unknown message type: 0x2a"]);
    assert_eq!(turn.end, Some(ClientError::UnknownType(0x2a)));
    assert_eq!(turn.end.unwrap().message(), "Unknown message type: 0x2a");
}

#[test]
fn messages_without_a_text_end_the_session_and_nonsense_is_passed_over() {
    let (mut alice, mut bob) = pair();
    let frame = alice.encrypt_message(0x01, b"{\"text\":1}").unwrap();
    assert_eq!(bob.handle_incoming_frame(&frame).end, Some(ClientError::InvalidText));
    let frame = alice.encrypt_message(0x01, b"nonsense").unwrap();
    let turn = bob.handle_incoming_frame(&frame);
    assert!(turn.end.is_none() && turn.events.is_empty());
    let frame = alice.encrypt_message(0x03, b"nonsense").unwrap();
    assert_eq!(bob.handle_incoming_frame(&frame).end, Some(ClientError::InvalidDocument("expected ident at line 1 column 2".to_string())));
    let frame = alice.encrypt_message(0x03, b"{\"file_offer\":{\"size\":-1}}").unwrap();
    let turn = bob.handle_incoming_frame(&frame);
    assert!(turn.end.is_none() && turn.events.is_empty() && bob.pending_recv_offer.is_none());
}

#[test]
fn pings_are_answered_and_silence_ends_the_session() {
    let (mut alice, mut bob) = pair();
    let ping = alice.tick_keep_alive(20_000);
    assert!(alice.pending_pong);
    assert_eq!(alice.last_ping, 20_000);
    let pong = deliver(ping, &mut bob);
    let got = deliver(pong, &mut alice);
    assert!(got.events.is_empty() && got.frame.is_none() && !alice.pending_pong);

    assert!(alice.tick_keep_alive(35_000).frame.is_some());
    let waiting = alice.tick_keep_alive(64_999);
    assert!(waiting.frame.is_none() && waiting.end.is_none());
    let late = alice.tick_keep_alive(65_000);
    assert_eq!(late.end, Some(ClientError::TimedOut));
    assert_eq!(
        texts(&late.events),
        vec!["Connection timed out: ajgD1fBZkCocba+8m6RykhL3yqwIY0zDrnaydSnwOCc="]
    );
    assert!(!alice.send_bye && alice.disconnect().frame.is_none());
}

#[test]
fn a_goodbye_is_not_answered() {
    let (mut alice, mut bob) = pair();
    let bye = alice.disconnect();
    let turn = deliver(bye, &mut bob);
    assert_eq!(turn.end, Some(ClientError::PeerLeft));
    assert!(bob.disconnect().frame.is_none());
    assert!(alice.send_bye);
}

fn offer_of(content: &[u8]) -> FileOffer {
    let mut digest = FileDigest::new();
    let (first, second) = content.split_at(content.len() / 2);
    digest.update(first);
    digest.update(second);
    FileOffer { file_name: "map.txt".to_string(), size: content.len() as u64, merkle_root: digest.finish() }
}

#[test]
fn the_root_of_a_file_is_its_hash() {
    assert_eq!(
        FileDigest::new().finish(),
        "af1349b9f5f9a1a6a0404dea36dcc9499bcb25c9adc112b7cc9a93cae41f3262"
    );
    let mut whole = FileDigest::new();
    whole.update(b"I solemnly swear");
    assert_eq!(whole.finish(), offer_of(b"I solemnly swear").merkle_root);
}

#[test]
fn a_chunk_is_framed_outside_the_ratchet() {
    let (alice, bob) = pair();
    let root = FileDigest::new().finish();
    let key = alice.crypto.derive_file_key(root.as_bytes()).unwrap();
    assert_eq!(hex(&key), "c9a1a17a3aa18c0f354e1ccfacaee0e932aa2ea076e7c80f3d8ce7fad37f9fa8");
    assert_eq!(bob.crypto.derive_file_key(root.as_bytes()).unwrap(), key);
    let frame = alice.send_file_chunk_under(&key, b"chunk", &[5; 12]).unwrap();
    assert_eq!(
        hex(&frame),
        "00000016ffffffff050505050505050505050505c08a8b891f455e04473f7faef844371663f3e0d79dec"
    );
    assert_eq!(bob.decrypt_file_chunk(&key, &frame[8..]).unwrap(), (0x03, b"chunk".to_vec()));
    assert_eq!(
        bob.decrypt_file_chunk(&[0; 32], &frame[8..]),
        Err(ClientError::Crypto(CryptoError::DecryptionFailed))
    );
    assert_eq!(bob.decrypt_file_chunk(&key, &[0; 5]), Err(ClientError::Crypto(CryptoError::CiphertextTooShort)));
    assert!(matches!(
        client(9, 9).crypto.derive_file_key(b"r"),
        Err(CryptoError::HandshakeNotCompleted)
    ));
}

#[test]
fn a_file_is_offered_accepted_and_sent() {
    let (mut alice, mut bob) = pair();
    let content = b"Mischief managed, twice over.".to_vec();

    let turn = say(&mut alice, "/send  /tmp/map.txt ");
    match turn.next {
        Next::FindFile(path) => assert_eq!(path, "/tmp/map.txt"),
        other => panic!("{:?}", other),
    }
    assert_eq!(texts(&alice.file_missing("/tmp/map.txt").events), vec!["File not found: /tmp/map.txt"]);
    let turn = alice.offer_file("/tmp/map.txt".to_string(), offer_of(&content));
    assert!(turn.events.is_empty());
    assert_eq!(
        texts(&turn.later_events),
        vec!["Offered file: map.txt (29 bytes). Waiting for peer to accept/decline..."]
    );
    let got = deliver(turn, &mut bob);
    assert_eq!(
        texts(&got.events),
        vec![
            "Received file offer: map.txt (29 bytes)",
            "To accept, type: '/accept' or '/accept <path>'",
            "To decline, type: '/decline'",
        ]
    );
    assert_eq!(
        texts(&say(&mut alice, "/send other").events),
        vec!["A file offer is already pending. Please wait until the peer accepts or declines."]
    );

    let turn = say(&mut bob, "/accept");
    let (offer, path) = match turn.next {
        Next::PlaceFile(offer, path) => (offer, path),
        other => panic!("{:?}", other),
    };
    assert_eq!(path, "");
    assert!(bob.pending_recv_offer.is_none());
    match bob.accept_target(&offer, &path, false) {
        AcceptTarget::Inside { dir, file_name } => assert_eq!((dir.as_str(), file_name.as_str()), ("downloads", "map.txt")),
        other => panic!("{:?}", other),
    }
    let (resume, told) = bob.resume(&offer, Some(9));
    assert_eq!(resume, Resume::From(9));
    assert_eq!(texts(&told.events), vec!["Found partial download of 9 bytes. Attempting to resume..."]);
    let turn = bob.accept_file(offer, "downloads/map.txt", 9);
    assert_eq!(
        texts(&turn.events),
        vec!["Accepted file offer. Saving to: downloads/map.txt. Waiting for peer to transmit..."]
    );

    let got = deliver(turn, &mut alice);
    assert_eq!(
        texts(&got.events),
        vec!["Peer accepted. Transmitting file: map.txt starting at offset 9..."]
    );
    let task = match got.next {
        Next::OpenFile(task) => task,
        other => panic!("{:?}", other),
    };
    assert_eq!((task.path.as_str(), task.start_offset), ("/tmp/map.txt", 9));
    assert!(alice.start_sending(task, FileOpening::Opened { total_size: 29 }).events.is_empty());

    let mut received = content[..9].to_vec();
    for part in [&content[9..20], &content[20..29]] {
        let turn = alice.send_active_file_chunk(Ok(part.to_vec()));
        assert_eq!(turn.later_events.len(), 1);
        let got = deliver(turn, &mut bob);
        let chunk = match got.next {
            Next::WriteChunk(chunk) => chunk,
            other => panic!("{:?}", other),
        };
        received.extend_from_slice(&chunk.data);
        let told = bob.chunk_written(chunk, Ok(()));
        match &told.events[0] {
            UiEvent::FileProgress { file_name, total_size, bytes_transferred, is_sending, .. } => {
                assert_eq!(file_name, "map.txt");
                assert_eq!(*total_size, 29);
                assert_eq!(*bytes_transferred, received.len() as u64);
                assert!(!is_sending);
            }
            other => panic!("{:?}", other),
        }
        if received.len() == 29 {
            assert_eq!(texts(&told.events[1..]), vec!["File transfer complete: map.txt"]);
        } else {
            assert_eq!(told.events.len(), 1);
        }
    }
    assert_eq!(received, content);
    assert!(bob.receiving_file.is_none() && bob.receiving_key.is_none());
    let done = alice.send_active_file_chunk(Ok(Vec::new()));
    assert_eq!(texts(&done.events), vec!["Finished sending map.txt (29 bytes)"]);
    assert!(alice.active_send_file.is_none());
    assert!(alice.send_active_file_chunk(Ok(vec![1])).frame.is_none());
}

#[test]
fn a_long_file_goes_out_in_chunks_and_arrives() {
    let (mut alice, mut bob) = pair();
    let content: Vec<u8> = (0..CHUNK_LEN * 2 + 77).map(|i| (i % 251) as u8).collect();
    let offer = offer_of(&content);
    let key = alice.crypto.derive_file_key(offer.merkle_root.as_bytes()).unwrap();
    bob.receiving_file = Some((offer.file_name.clone(), offer.size));
    bob.receiving_key = Some(key);
    bob.receiving_bytes_seen = 5;
    alice.active_send_file = Some((key, offer.size, 5, offer.file_name.clone()));
    let mut received: Vec<u8> = Vec::new();
    let mut at = 5;
    let mut calls = 0;
    loop {
        let to = content.len().min(at + CHUNK_LEN);
        let turn = alice.send_active_file_chunk(Ok(content[at..to].to_vec()));
        at = to;
        calls += 1;
        if turn.frame.is_none() {
            assert_eq!(texts(&turn.events), vec![format!("Finished sending map.txt ({} bytes)", content.len())]);
            break;
        }
        assert!(bob.receiving_file.is_some());
        match deliver(turn, &mut bob).next {
            Next::WriteChunk(chunk) => {
                assert!(!chunk.data.is_empty() && chunk.data.len() <= CHUNK_LEN);
                received.extend_from_slice(&chunk.data);
                bob.chunk_written(chunk, Ok(()));
            }
            other => panic!("{:?}", other),
        }
        assert_eq!(alice.active_send_file.as_ref().unwrap().2, at as u64);
    }
    assert_eq!(calls, 4);
    assert_eq!(received, content[5..].to_vec());
    assert!(bob.receiving_file.is_none() && alice.active_send_file.is_none());
    assert_eq!(bob.receiving_bytes_seen, content.len() as u64);
}

#[test]
fn a_file_is_sent_in_one_go() {
    let (alice, bob) = pair();
    let content: Vec<u8> = (0..CHUNK_LEN + 9).map(|i| (i % 241) as u8).collect();
    let new = || Transmission {
        key: [7; 32],
        file_name: "map.txt".to_string(),
        total_size: content.len() as u64,
        start_offset: 4,
        sent_bytes: 0,
    };
    let mut sending = new();
    let mut received = Vec::new();
    let mut at = 4;
    loop {
        let to = content.len().min(at + CHUNK_LEN);
        let turn = alice.transmit_read(&mut sending, Ok(content[at..to].to_vec()));
        at = to;
        let frame = match turn.frame {
            Some(frame) => frame,
            None => {
                assert_eq!(texts(&turn.events), vec![format!("Finished sending map.txt ({} bytes)", content.len())]);
                break;
            }
        };
        received.extend_from_slice(&bob.decrypt_file_chunk(&[7; 32], &frame[8..]).unwrap().1);
        assert_eq!(sending.sent_bytes, received.len() as u64);
    }
    assert_eq!(received, content[4..].to_vec());

    let mut failing = new();
    assert!(alice.transmit_read(&mut failing, Ok(vec![1, 2, 3])).frame.is_some());
    let turn = alice.transmit_read(&mut failing, Err("bad disk".to_string()));
    assert!(turn.frame.is_none());
    assert_eq!(texts(&turn.events), vec!["Finished sending map.txt (7 bytes)"]);
    assert_eq!(failing.sent_bytes, 3);
}

#[test]
fn a_file_is_offered_and_declined() {
    let (mut alice, mut bob) = pair();
    assert_eq!(texts(&say(&mut bob, "/decline").events), vec!["No pending file offer to decline."]);
    assert_eq!(texts(&say(&mut bob, "/accept").events), vec!["No pending file offer to accept."]);
    deliver(alice.offer_file("p".to_string(), offer_of(b"x")), &mut bob);
    let turn = say(&mut bob, "/decline");
    assert_eq!(texts(&turn.events), vec!["Declined file transfer of: map.txt"]);
    assert_eq!(turn.unsent, Unsent::DeclineFails);
    let got = deliver(turn, &mut alice);
    assert_eq!(texts(&got.events), vec!["Peer declined file transfer of: map.txt"]);
    assert!(alice.pending_send_file.is_none() && bob.pending_recv_offer.is_none());
}

#[test]
fn what_cannot_be_framed_is_told() {
    let (mut alice, _) = pair();
    let large = || Err(ClientError::MessageTooLarge);
    let why = "Message too large to frame (max 4294967295 bytes)";
    let turn = alice.offer_sent("/tmp/map.txt".to_string(), offer_of(b"map"), large());
    assert_eq!(texts(&turn.events), vec![format!("Failed to send file offer: {}", why)]);
    assert!(turn.frame.is_none() && alice.pending_send_file.is_none());
    let turn = alice.acceptance_sent("map.txt", large());
    assert_eq!(texts(&turn.events)[1], format!("Failed to send acceptance: {}", why));
    let turn = alice.refusal_sent("map.txt", large());
    assert_eq!(
        texts(&turn.events),
        vec!["Declined file transfer of: map.txt".to_string(), format!("Failed to send decline notice: {}", why)]
    );
    let turn = alice.offer_sent("/tmp/map.txt".to_string(), offer_of(b"map"), Ok(vec![1]));
    assert_eq!((turn.frame, turn.unsent), (Some(vec![1]), Unsent::OfferFails));
    assert_eq!(alice.pending_send_file.as_ref().unwrap().2, "map.txt");
}

#[test]
fn answers_to_no_offer_are_passed_over() {
    let (mut alice, mut bob) = pair();
    let accept = alice.send_file_accept("root", None).unwrap();
    let turn = bob.handle_incoming_frame(&accept);
    assert!(turn.events.is_empty() && matches!(turn.next, Next::Nothing));
    let decline = alice.send_file_decline("root").unwrap();
    assert!(bob.handle_incoming_frame(&decline).events.is_empty());
}

#[test]
fn an_offer_that_cannot_be_placed_stays() {
    let (mut alice, mut bob) = pair();
    deliver(alice.offer_file("p".to_string(), offer_of(b"x")), &mut bob);
    for (step, text) in [
        (PlaceError::Parents, "Failed to create parent directories: no"),
        (PlaceError::Open, "Failed to create destination file: no"),
        (PlaceError::Seek, "Failed to seek destination file: no"),
    ] {
        let offer = match say(&mut bob, "/accept somewhere/").next {
            Next::PlaceFile(offer, path) => {
                assert_eq!(path, "somewhere/");
                offer
            }
            other => panic!("{:?}", other),
        };
        assert_eq!(texts(&bob.accept_failed(offer, step, "no").events), vec![text]);
        assert!(bob.pending_recv_offer.is_some());
    }
}

#[test]
fn an_accepted_file_goes_where_the_user_says() {
    let (_, bob) = pair();
    let offer = offer_of(b"x");
    let at = |path: &str, is_dir: bool| match bob.accept_target(&offer, path, is_dir) {
        AcceptTarget::Inside { dir, file_name } => format!("{}<{}>", dir, file_name),
        AcceptTarget::At(path) => path,
    };
    assert_eq!(at("", false), "downloads<map.txt>");
    assert_eq!(at("there", true), "there<map.txt>");
    assert_eq!(at("there/", false), "there/<map.txt>");
    assert_eq!(at("there\\", false), "there\\<map.txt>");
    assert_eq!(at("there", false), "there");
}

#[test]
fn a_part_of_a_file_is_gone_on_with() {
    let (_, bob) = pair();
    let offer = offer_of(b"12345");
    assert_eq!(bob.resume(&offer, None).0, Resume::From(0));
    assert_eq!(bob.resume(&offer, Some(0)).0, Resume::From(0));
    assert_eq!(bob.resume(&offer, Some(4)).0, Resume::From(4));
    assert_eq!(bob.resume(&offer, Some(6)).0, Resume::From(0));
    let (resume, told) = bob.resume(&offer, Some(5));
    assert_eq!(resume, Resume::Complete);
    assert_eq!(texts(&told.events), vec!["File already completely downloaded."]);
}

#[test]
fn the_save_directory_is_shown_and_set() {
    let (mut alice, _) = pair();
    assert_eq!(texts(&say(&mut alice, "/save_dir").events), vec!["Current save directory: downloads"]);
    assert_eq!(texts(&say(&mut alice, "/save_dir  ").events), vec!["Current save directory: downloads"]);
    let path = match say(&mut alice, "/save_dir  here ").next {
        Next::CreateSaveDir(path) => path,
        other => panic!("{:?}", other),
    };
    assert_eq!(path, "here");
    let told = alice.save_dir_created(path.clone(), Some("denied".to_string()));
    assert_eq!(texts(&told.events), vec!["Failed to create/set save directory: denied"]);
    assert_eq!(alice.save_dir, "downloads");
    assert_eq!(texts(&alice.save_dir_created(path, None).events), vec!["Save directory set to: here"]);
    assert_eq!(alice.save_dir, "here");
}

#[test]
fn a_file_that_cannot_be_opened_or_read_is_not_sent() {
    let (mut alice, mut bob) = pair();
    let task = |alice: &mut PatronusClient, bob: &mut PatronusClient| {
        deliver(alice.offer_file("p".to_string(), offer_of(b"xyz")), bob);
        let offer = bob.pending_recv_offer.take().unwrap();
        match deliver(bob.accept_file(offer, "p", 2), alice).next {
            Next::OpenFile(task) => task,
            other => panic!("{:?}", other),
        }
    };
    let first = task(&mut alice, &mut bob);
    let told = alice.start_sending(first, FileOpening::OpenFailed("gone".to_string()));
    assert_eq!(texts(&told.events), vec!["Failed to open file for sending: gone"]);
    let second = task(&mut alice, &mut bob);
    let told = alice.start_sending(second, FileOpening::SeekFailed("short".to_string()));
    assert_eq!(texts(&told.events), vec!["Failed to seek to offset 2: short"]);
    assert!(alice.active_send_file.is_none());
    let third = task(&mut alice, &mut bob);
    alice.start_sending(third, FileOpening::Opened { total_size: 3 });
    let told = alice.send_active_file_chunk(Err("bad disk".to_string()));
    assert_eq!(texts(&told.events), vec!["Error sending file chunk for map.txt: bad disk"]);
    assert_eq!(told.end, Some(ClientError::ReadFailed("bad disk".to_string())));
    assert!(alice.active_send_file.is_none());
}

#[test]
fn chunks_that_cannot_be_read_or_written_end_the_session() {
    let (mut alice, mut bob) = pair();
    deliver(alice.offer_file("p".to_string(), offer_of(b"xyz")), &mut bob);
    let offer = bob.pending_recv_offer.take().unwrap();
    let root = offer.merkle_root.clone();
    bob.accept_file(offer, "p", 0);
    let wrong = alice.send_file_chunk(&[0; 32], b"xyz").unwrap();
    let turn = bob.handle_incoming_frame(&wrong);
    assert_eq!(texts(&turn.events), vec!["Failed to decrypt file chunk"]);
    assert_eq!(turn.end, Some(ClientError::ChunkUnreadable));

    bob.receiving_file = Some(("map.txt".to_string(), 3));
    let key = alice.crypto.derive_file_key(root.as_bytes()).unwrap();
    let frame = alice.send_file_chunk(&key, b"xyz").unwrap();
    let chunk = match bob.handle_incoming_frame(&frame).next {
        Next::WriteChunk(chunk) => chunk,
        other => panic!("{:?}", other),
    };
    assert_eq!(bob.chunk_written(chunk, Err("full".to_string())).end, Some(ClientError::WriteFailed("full".to_string())));
    let frame = alice.send_file_chunk(&key, b"xyz").unwrap();
    let turn = bob.handle_incoming_frame(&frame);
    assert!(turn.events.is_empty() && turn.end.is_none());
}

#[test]
fn documents_outside_the_ratchet_are_shown() {
    let (_, mut bob) = pair();
    let frame = |body: &[u8]| {
        let mut frame = ((body.len() - 12) as u32).to_be_bytes().to_vec();
        frame.extend_from_slice(&[0xFF; 4]);
        frame.extend_from_slice(body);
        frame
    };
    let turn = bob.handle_incoming_frame(&frame(b"{\"ttl_notice\":90}"));
    assert_eq!(texts(&turn.events), vec!["Peer messages will disappear after 1m 30s"]);
    let turn = bob.handle_incoming_frame(&frame(b"{\"something_else\":[1,2,3]}"));
    assert_eq!(texts(&turn.events), vec!["Got unknown extension packet data: `{\"something_else...`"]);
}

#[test]
fn a_frame_that_cannot_be_written_has_its_consequences() {
    let (mut alice, _) = pair();
    let turn = alice.offer_file("p".to_string(), offer_of(b"x"));
    let failed = alice.write_failed(turn.unsent, "broken pipe");
    assert_eq!(texts(&failed.events), vec!["Failed to send file offer: broken pipe"]);
    assert!(alice.pending_send_file.is_none() && failed.end.is_none());
    assert_eq!(
        texts(&alice.write_failed(Unsent::AcceptFails, "e").events),
        vec!["Failed to send acceptance: e"]
    );
    assert_eq!(
        texts(&alice.write_failed(Unsent::DeclineFails, "e").events),
        vec!["Failed to send decline notice: e"]
    );
    assert_eq!(
        texts(&alice.write_failed(Unsent::TransmissionStops, "e").events),
        vec!["Error sending file chunk: e"]
    );
    assert_eq!(alice.write_failed(Unsent::Ends, "e").end, Some(ClientError::WriteFailed("e".to_string())));
    assert!(alice.send_bye);
    alice.active_send_file = Some(([0; 32], 5, 2, "map.txt".to_string()));
    let failed = alice.write_failed(Unsent::SendingFails, "e");
    assert_eq!(texts(&failed.events), vec!["Error sending file chunk for map.txt: e"]);
    assert!(alice.active_send_file.is_none());
    assert_eq!(alice.write_failed(Unsent::EndsSilently, "e").end, Some(ClientError::WriteFailed("e".to_string())));
    assert!(!alice.send_bye);
}

#[test]
fn a_file_can_be_sent_in_one_go() {
    let (alice, _) = pair();
    let mut transmission = Transmission {
        key: [3; 32],
        file_name: "map.txt".to_string(),
        total_size: 10,
        start_offset: 4,
        sent_bytes: 0,
    };
    let turn = alice.transmit(&mut transmission, b"abc");
    assert!(turn.frame.is_some());
    match &turn.later_events[..] {
        [UiEvent::FileProgress { bytes_transferred, total_size, is_sending, .. }] => {
            assert_eq!((*bytes_transferred, *total_size, *is_sending), (7, 10, true));
        }
        other => panic!("{:?}", other),
    }
    assert_eq!(texts(&[transmission.finished()]), vec!["Finished sending map.txt (7 bytes)"]);
}

#[test]
fn a_file_cannot_be_accepted_without_a_session() {
    let mut carol = client(7, 8);
    let turn = carol.accept_file(offer_of(b"x"), "p", 0);
    assert_eq!(texts(&turn.events), vec!["Key derivation failed: handshake not completed"]);
    assert!(carol.pending_recv_offer.is_some());
}

#[test]
fn errors_say_what_they_are() {
    assert_eq!(CryptoError::HandshakeAlreadyCompleted.message(), "handshake already completed");
    assert_eq!(CryptoError::StaleRatchetIndex.message(), "stale or replayed ratchet index");
    assert_eq!(CryptoError::RatchetIndexTooFar.message(), "ratched index jumped too far ahead");
    assert_eq!(ClientError::Crypto(CryptoError::DecryptionFailed).message(), "decryption failed");
    assert_eq!(ClientError::Crypto(CryptoError::CiphertextTooShort).message(), "ciphertext too short");
    assert_eq!(
        ClientError::NoCommonCompression.message(),
        "Handshake Failed (0x01): No common compression algorithm"
    );
    assert_eq!(ClientError::FrameTooShort.message(), "Frame too short");
    assert_eq!(ClientError::LengthMismatch.message(), "Payload length mismatch");
    assert_eq!(ClientError::EmptyPayload.message(), "Empty payload after decompression");
    assert_eq!(ClientError::InvalidText.message(), "Invalid text field");
    assert_eq!(ClientError::SignatureMismatch.message(), "Handshake signature verification failed");
    assert_eq!(ClientError::PeerLeft.message(), "Peer disconnected gracefully via CTRL_BYE");
    assert_eq!(ClientError::ChunkUnreadable.message(), "Failed to decrypt file chunk");
    assert_eq!(ClientError::TimedOut.message(), "Connection timed out");
}
