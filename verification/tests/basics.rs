use patronus::bytes::{array_at, copy_from, push_be16, push_be32, read_be16, read_be32, same_bytes};
use patronus::crypto::{compute_security_code, CryptoError, CryptoState, WordLists};
use patronus::frame::{body_len, frame_handshake, handshake_len, make_frame, read_frame, FrameError, NO_RATCHET};
use patronus::names::NameMap;
use patronus::order::{bytes_at_most, sort_named, sort_texts, text_at_most};
use patronus::text::{
    capitalize, decimal_text, find_last, hex_byte, join, split, split_whitespace, starts_with, take_chars, trim,
};
use patronus::ttl::{format_ttl, parse_ttl};

fn owned(items: &[&str]) -> Vec<String> {
    items.iter().map(|s| s.to_string()).collect()
}

fn list(stem: &str) -> Vec<String> {
    (0..256).map(|i| format!("{}{}", stem, i)).collect()
}

fn words() -> WordLists {
    WordLists::new(list("a"), list("b"), list("c")).unwrap()
}

/// Two cryptographic states in one session, the first one the initiator's.
fn pair() -> (CryptoState, CryptoState) {
    let mut a = CryptoState::with_ephemeral([1; 32], [3; 32]);
    let mut b = CryptoState::with_ephemeral([2; 32], [4; 32]);
    let (ea, eb) = (a.ephemeral_public(), b.ephemeral_public());
    let (sa, sb) = (a.static_public(), b.static_public());
    let first = a.complete_handshake(&eb, &sb, true, &words()).unwrap();
    let second = b.complete_handshake(&ea, &sa, false, &words()).unwrap();
    assert_eq!(first, second);
    assert_eq!(first, "A31 B176 C220");
    (a, b)
}

#[test]
fn numbers_are_written_with_the_highest_byte_first() {
    let mut out = Vec::new();
    push_be32(&mut out, 0x0102_0304);
    push_be16(&mut out, 0xA0B0);
    assert_eq!(out, vec![1, 2, 3, 4, 0xA0, 0xB0]);
    assert_eq!(read_be32(&out, 0), 0x0102_0304);
    assert_eq!(read_be16(&out, 4), 0xA0B0);
    assert_eq!(copy_from(&out, 4), vec![0xA0, 0xB0]);
    assert_eq!(array_at::<2>(&out, 1), [2, 3]);
    assert!(same_bytes(&[1, 2], &[1, 2]) && !same_bytes(&[1], &[2]) && !same_bytes(&[1], &[1, 1]));
}

#[test]
fn frames_read_back() {
    let data: Vec<u8> = (0..30).collect();
    let frame = make_frame(7, &data).unwrap();
    assert_eq!(frame[..8], [0, 0, 0, 18, 0, 0, 0, 7]);
    assert_eq!(read_frame(&frame).unwrap(), (7, data.clone()));
    let header: [u8; 20] = frame[..20].try_into().unwrap();
    assert_eq!(body_len(&header), 18);
    assert_eq!(make_frame(1, &data[..11]), Err(FrameError::TooShort));
    assert_eq!(read_frame(&frame[..19]), Err(FrameError::TooShort));
    assert_eq!(read_frame(&frame[..37]), Err(FrameError::LengthMismatch));
    assert_eq!(read_frame(&make_frame(NO_RATCHET, &data[..12]).unwrap()).unwrap().0, 0xFFFF_FFFF);
}

#[test]
fn handshake_packets_stand_behind_their_length() {
    assert_eq!(frame_handshake(b"{}").unwrap(), vec![0, 2, b'{', b'}']);
    assert_eq!(handshake_len(&[1, 4]), 260);
    assert!(frame_handshake(&vec![0; 65535]).is_some());
    assert!(frame_handshake(&vec![0; 65536]).is_none());
}

#[test]
fn each_direction_has_a_ratchet_of_its_own() {
    let (mut a, mut b) = pair();
    let (first, one) = a.encrypt(b"from a");
    let (second, also_one) = b.encrypt(b"from b");
    assert_eq!((one, also_one), (1, 1));
    assert_ne!(first[12..], second[12..]);
    assert_eq!(b.decrypt(&first, one).unwrap(), b"from a");
    assert_eq!(a.decrypt(&second, also_one).unwrap(), b"from b");
    assert_eq!(b.decrypt(&first, 1), Err(CryptoError::StaleRatchetIndex));
    assert_eq!(b.decrypt(&first, 0), Err(CryptoError::StaleRatchetIndex));
    assert_eq!(b.decrypt(&first, 52), Err(CryptoError::RatchetIndexTooFar));
    assert_eq!(b.decrypt(&first, 51), Err(CryptoError::DecryptionFailed));
    assert_eq!(b.decrypt(&[0; 27], 2), Err(CryptoError::CiphertextTooShort));
    let (third, two) = a.encrypt(b"again");
    assert_eq!(b.decrypt(&third, two).unwrap(), b"again");
}

#[test]
fn every_message_has_a_nonce_of_its_own() {
    let (mut a, _) = pair();
    let (first, _) = a.encrypt(b"same");
    let (second, _) = a.encrypt(b"same");
    assert_ne!(first[..12], second[..12]);
    let third = a.encrypt_with_key(&[1; 32], b"same");
    let fourth = a.encrypt_with_key(&[1; 32], b"same");
    assert_ne!(third[..12], fourth[..12]);
}

#[test]
fn a_state_without_a_session_neither_sends_nor_reads() {
    let mut a = CryptoState::new([1; 32]);
    assert!(!a.can_send());
    assert_eq!(a.decrypt(&[0; 40], 1), Err(CryptoError::HandshakeNotCompleted));
    assert_eq!(a.decrypt_with_key(&[0; 32], &[0; 40]), Err(CryptoError::HandshakeNotCompleted));
    assert!(matches!(a.derive_file_key(b"root"), Err(CryptoError::HandshakeNotCompleted)));
}

#[test]
fn a_signature_binds_one_ephemeral_key() {
    let a = CryptoState::with_ephemeral([1; 32], [3; 32]);
    let b = CryptoState::with_ephemeral([2; 32], [4; 32]);
    let signature = a.sign_handshake(&a.ephemeral_public());
    assert!(b.verify_handshake(&a.static_public(), &a.ephemeral_public(), &signature));
    assert!(!b.verify_handshake(&a.static_public(), &b.ephemeral_public(), &signature));
    assert!(!b.verify_handshake(&b.static_public(), &a.ephemeral_public(), &signature));
    let mut no_point = [0; 32];
    no_point[0] = 2;
    assert!(!b.verify_handshake(&no_point, &a.ephemeral_public(), &signature));
}

#[test]
fn a_phrase_has_a_word_of_each_list() {
    assert_eq!(compute_security_code(&words(), &[0, 255, 7]), "A0 B255 C7");
    let mut shouting = list("x");
    shouting[3] = "éclair".to_string();
    let lists = WordLists::new(shouting, list("b"), list("c")).unwrap();
    assert_eq!(compute_security_code(&lists, &[3, 0, 0]), "Éclair B0 C0");
}

#[test]
fn word_lists_are_full_and_without_repetition() {
    assert!(WordLists::new(list("a")[..255].to_vec(), list("b"), list("c")).is_none());
    let mut twice = list("b");
    twice[9] = "b8".to_string();
    assert!(WordLists::new(list("a"), twice, list("c")).is_none());
    let quoted = |items: Vec<String>| {
        let inner: Vec<String> = items.iter().map(|w| format!("\"{}\"", w)).collect();
        format!("[{}]", inner.join(","))
    };
    let json = format!(
        "{{\"adjectives\":{},\"colors\":{},\"spirits\":{}}}",
        quoted(list("a")),
        quoted(list("b")),
        quoted(list("c"))
    );
    let lists = WordLists::from_json(json.as_bytes()).unwrap();
    assert_eq!(lists.spirits[255], "c255");
    assert!(WordLists::from_json(b"{}").is_none());
    assert!(WordLists::from_json(b"nonsense").is_none());
    assert!(WordLists::from_json(json.replace("\"b7\"", "7").as_bytes()).is_none());
}

#[test]
fn times_to_live_are_written_in_two_units_at_most() {
    assert_eq!(format_ttl(0), "0s");
    assert_eq!(format_ttl(59), "59s");
    assert_eq!(format_ttl(60), "1m");
    assert_eq!(format_ttl(61), "1m 1s");
    assert_eq!(format_ttl(3600), "1h");
    assert_eq!(format_ttl(3661), "1h 1m");
    assert_eq!(format_ttl(86400), "1d");
    assert_eq!(format_ttl(90061), "1d 1h");
    assert_eq!(format_ttl(u64::MAX), "213503982334601d 7h");
}

#[test]
fn times_to_live_are_read_with_and_without_units() {
    assert_eq!(parse_ttl("30"), Ok(30));
    assert_eq!(parse_ttl("30s"), Ok(30));
    assert_eq!(parse_ttl("5m"), Ok(300));
    assert_eq!(parse_ttl("2h"), Ok(7200));
    assert_eq!(parse_ttl("1d"), Ok(86400));
    assert_eq!(parse_ttl("1h30m5"), Ok(5405));
    assert_eq!(parse_ttl("0"), Ok(0));
    assert_eq!(parse_ttl("2h5m"), Ok(7200 + 300));
    assert_eq!(parse_ttl("5m2h7"), Ok(300 + 7200 + 7));
    assert_eq!(parse_ttl(&format_ttl(90).replace(' ', "")), Ok(90));
    assert_eq!(parse_ttl(&format_ttl(3661).replace(' ', "")), Ok(3660));
    assert_eq!(parse_ttl(&format_ttl(90061).replace(' ', "")), Ok(90000));
    assert_eq!(parse_ttl("18446744073709551615"), Ok(u64::MAX));
    for wrong in ["", "s", "5x", "-1", "1 h", "m5", "5mm", "18446744073709551616", "999999999999999999d", "٣"] {
        assert_eq!(parse_ttl(wrong), Err(()), "{}", wrong);
    }
}

#[test]
fn texts_are_cut_and_joined() {
    assert_eq!(trim("  a b\t\n"), "a b");
    assert_eq!(trim("\u{3000}\u{a0}"), "");
    assert_eq!(split("a|b||", '|'), owned(&["a", "b", "", ""]));
    assert_eq!(split("", '|'), owned(&[""]));
    assert_eq!(split_whitespace(" /ttl \t 5m "), owned(&["/ttl", "5m"]));
    assert_eq!(join(&owned(&["a", "b", "c"]), ", "), "a, b, c");
    assert_eq!(take_chars("äöü", 2), "äö");
    assert_eq!(take_chars("ä", 2), "ä");
    assert_eq!(capitalize("ßx"), "SSx");
    assert_eq!(capitalize("stag"), "Stag");
    assert_eq!(capitalize(""), "");
    assert_eq!(capitalize("bRAVE"), "BRAVE");
    assert_eq!(capitalize(&capitalize("bRAVE")), "BRAVE");
    assert_eq!(capitalize("1st"), "1st");
    assert_eq!(decimal_text(0), "0");
    assert_eq!(decimal_text(u64::MAX), "18446744073709551615");
    assert_eq!(hex_byte(0x0f), "0f");
    assert_eq!(find_last(&"a/b/c".chars().collect(), '/'), Some(3));
    assert!(starts_with("/send x", "/send ") && !starts_with("/sen", "/send "));
}

#[test]
fn texts_are_ordered_by_their_characters() {
    assert!(text_at_most("", "a") && text_at_most("B", "a") && !text_at_most("ab", "a"));
    assert!(bytes_at_most(&[1, 2], &[1, 2]) && bytes_at_most(&[1, 255], &[2]) && !bytes_at_most(&[2], &[1, 9]));
    assert_eq!(sort_texts(&owned(&["b", "ä", "a", "B", "a"])), owned(&["B", "a", "a", "b", "ä"]));
    let pairs = |items: &[(&str, &str)]| {
        items.iter().map(|(n, w)| (n.to_string(), w.to_string())).collect::<Vec<(String, String)>>()
    };
    assert_eq!(
        sort_named(pairs(&[("b", "1"), ("a", "2"), ("b", "3"), ("a", "4")])),
        pairs(&[("a", "2"), ("a", "4"), ("b", "1"), ("b", "3")])
    );
}

#[test]
fn a_map_has_one_value_for_a_name() {
    let mut map: NameMap<String> = NameMap::new();
    assert!(map.get("a").is_none());
    map.insert("a".to_string(), "1".to_string());
    map.insert("b".to_string(), "2".to_string());
    map.insert("a".to_string(), "3".to_string());
    assert_eq!(map.get("a").unwrap(), "3");
    assert_eq!(map.entries().len(), 2);
    assert_eq!(map.remove("b"), Some("2".to_string()));
    assert_eq!(map.remove("b"), None);
    assert!(map.contains_key("a") && !map.contains_key("b"));
}
