use patronus::names::NameMap;
use patronus::storage::{
    decrypt_data, derive_storage_key, encrypt_data, encrypt_data_under, load_history, load_peers, save_history,
    save_peers, PeerInfo, StorageError, StoredMessage,
};

fn hex(bytes: &[u8]) -> String {
    bytes.iter().map(|b| format!("{:02x}", b)).collect()
}

fn peer(key: &str, name: Option<&str>, verified: bool) -> PeerInfo {
    PeerInfo {
        static_public_key_b64: key.to_string(),
        custom_name: name.map(|n| n.to_string()),
        is_verified: verified,
    }
}

#[test]
fn test_encryption_decryption() {
    let key = [0x55u8; 32];
    let data = b"Expecto Patronum! LAN messaging is cool.";
    let encrypted = encrypt_data(&key, data).unwrap();
    let decrypted = decrypt_data(&key, &encrypted).unwrap();
    assert_eq!(data, decrypted.as_slice());
}

#[test]
fn test_peers_save_load() {
    let key = [0xAAu8; 32];
    let mut peers = NameMap::new();
    peers.insert("AliceNode".to_string(), peer("a-public-key", Some("Alie"), true));

    let file = save_peers(&key, &peers).unwrap();
    let loaded = load_peers(&key, Some(&file)).unwrap();
    assert_eq!(loaded.entries().len(), 1);
    assert_eq!(loaded.get("AliceNode").unwrap().custom_name.as_deref(), Some("Alie"));
    assert!(loaded.get("AliceNode").unwrap().is_verified);
}

#[test]
fn test_history_save_load() {
    let key = [0x55u8; 32];
    let history = vec![
        StoredMessage {
            peer_id: "BobNode".to_string(),
            from: "Me".to_string(),
            content: "Hello Bob!".to_string(),
            is_system: false,
            ttl: Some(3600),
            timestamp_secs: 123456789,
        },
        StoredMessage {
            peer_id: "BobNode".to_string(),
            from: "BobNode".to_string(),
            content: "Hi!".to_string(),
            is_system: false,
            ttl: None,
            timestamp_secs: 123456790,
        },
    ];

    let file = save_history(&key, &history).unwrap();
    let loaded = load_history(&key, Some(&file)).unwrap();
    assert_eq!(loaded.len(), 2);
    assert_eq!(loaded[0].peer_id, "BobNode");
    assert_eq!(loaded[0].from, "Me");
    assert_eq!(loaded[0].content, "Hello Bob!");
    assert_eq!(loaded[0].ttl, Some(3600));
    assert_eq!(loaded[1].content, "Hi!");
    assert_eq!(loaded[1].ttl, None);
    assert_eq!(loaded[1].timestamp_secs, 123456790);
    assert!(!loaded[1].is_system);
}

#[test]
fn the_storage_key_is_derived_from_the_private_key() {
    let key = derive_storage_key(&[1u8; 32]);
    assert_eq!(hex(&key), "87891ad97b02d478060bdee8c0270020b4063db1b3d74a0240d9a7f6ff2a0ff9");
}

#[test]
fn data_is_stored_behind_its_nonce() {
    let stored = encrypt_data_under(&[0x55u8; 32], b"data", &[5u8; 12]).unwrap();
    assert_eq!(hex(&stored), "0505050505050505050505055a270f80877600602aab8335b1bb2423fc9089b3");
    assert_eq!(decrypt_data(&[0x55u8; 32], &stored).unwrap(), b"data");
}

#[test]
fn every_file_has_a_nonce_of_its_own() {
    let key = [7u8; 32];
    let first = encrypt_data(&key, b"same").unwrap();
    let second = encrypt_data(&key, b"same").unwrap();
    assert_ne!(first[..12], second[..12]);
}

#[test]
fn data_that_is_cut_short_or_changed_is_refused() {
    let key = [7u8; 32];
    assert_eq!(decrypt_data(&key, &[0u8; 27]), Err(StorageError::TooShort));
    assert_eq!(decrypt_data(&key, &[0u8; 28]), Err(StorageError::DecryptionFailed));
    let mut stored = encrypt_data(&key, b"secret").unwrap();
    assert_eq!(decrypt_data(&[8u8; 32], &stored), Err(StorageError::DecryptionFailed));
    let last = stored.len() - 1;
    stored[last] ^= 1;
    assert_eq!(decrypt_data(&key, &stored), Err(StorageError::DecryptionFailed));
}

#[test]
fn no_file_means_nothing_was_stored() {
    let key = [7u8; 32];
    assert_eq!(load_peers(&key, None).unwrap().entries().len(), 0);
    assert_eq!(load_history(&key, None).unwrap().len(), 0);
}

#[test]
fn content_that_is_no_list_of_peers_is_refused() {
    let key = [7u8; 32];
    for text in ["", "nonsense", "[]", "{\"a\":1}", "{\"a\":{\"custom_name\":null,\"is_verified\":true}}"] {
        let file = encrypt_data(&key, text.as_bytes()).unwrap();
        assert!(matches!(load_peers(&key, Some(&file)), Err(StorageError::InvalidContent)));
    }
    for text in ["{}", "[1]", "[{\"peer_id\":\"a\"}]"] {
        let file = encrypt_data(&key, text.as_bytes()).unwrap();
        assert!(matches!(load_history(&key, Some(&file)), Err(StorageError::InvalidContent)));
    }
}

#[test]
fn peers_are_stored_as_json() {
    let key = [7u8; 32];
    let mut peers = NameMap::new();
    peers.insert("b".to_string(), peer("k2", None, false));
    peers.insert("a".to_string(), peer("k1", Some("A \"quoted\" name — ü"), true));
    let file = save_peers(&key, &peers).unwrap();
    let text = decrypt_data(&key, &file).unwrap();
    let value: serde_json::Value = serde_json::from_slice(&text).unwrap();
    assert_eq!(value["b"]["static_public_key_b64"], "k2");
    assert!(value["b"]["custom_name"].is_null());
    assert_eq!(value["a"]["is_verified"], true);
    let loaded = load_peers(&key, Some(&file)).unwrap();
    assert_eq!(loaded.get("a").unwrap().custom_name.as_deref(), Some("A \"quoted\" name — ü"));
    assert_eq!(loaded.get("b").unwrap().custom_name, None);
    assert_eq!(loaded.entries().len(), 2);
}

#[test]
fn optional_fields_may_be_left_out_and_unknown_ones_are_ignored() {
    let key = [7u8; 32];
    let text = "[{\"peer_id\":\"p\",\"from\":\"Me\",\"content\":\"c\",\"is_system\":false,\"timestamp_secs\":4,\"x\":1}]";
    let file = encrypt_data(&key, text.as_bytes()).unwrap();
    let loaded = load_history(&key, Some(&file)).unwrap();
    assert_eq!(loaded[0].ttl, None);
    assert_eq!(loaded[0].timestamp_secs, 4);
    let listed = "[[\"p\",\"Me\",\"c\",true,9,4]]";
    let file = encrypt_data(&key, listed.as_bytes()).unwrap();
    let loaded = load_history(&key, Some(&file)).unwrap();
    assert_eq!(loaded[0].ttl, Some(9));
    assert!(loaded[0].is_system);
}

#[test]
fn records_are_written_in_the_order_of_their_fields() {
    let key = [7u8; 32];
    let mut peers = NameMap::new();
    peers.insert("id \"1\"".to_string(), peer("k1", None, true));
    let text = decrypt_data(&key, &save_peers(&key, &peers).unwrap()).unwrap();
    assert_eq!(
        String::from_utf8(text).unwrap(),
        r#"{"id \"1\"":{"static_public_key_b64":"k1","custom_name":null,"is_verified":true}}"#
    );
    let message = |ttl| StoredMessage {
        peer_id: "p".to_string(),
        from: "Me".to_string(),
        content: "a\n,}]b".to_string(),
        is_system: false,
        ttl,
        timestamp_secs: 4,
    };
    let file = save_history(&key, &[message(None), message(Some(9))]).unwrap();
    let text = decrypt_data(&key, &file).unwrap();
    let start = r#"{"peer_id":"p","from":"Me","content":"a\n,}]b","is_system":false,"ttl":"#;
    assert_eq!(
        String::from_utf8(text).unwrap(),
        format!("[{start}null,\"timestamp_secs\":4}},{start}9,\"timestamp_secs\":4}}]")
    );
    let loaded = load_history(&key, Some(&file)).unwrap();
    assert_eq!((loaded.len(), loaded[1].ttl, loaded[0].content.as_str()), (2, Some(9), "a\n,}]b"));
    let empty = decrypt_data(&key, &save_history(&key, &[]).unwrap()).unwrap();
    assert_eq!(empty, b"[]");
    let empty = decrypt_data(&key, &save_peers(&key, &NameMap::new()).unwrap()).unwrap();
    assert_eq!(empty, b"{}");
}

#[test]
fn a_field_stands_once_and_of_peers_with_one_id_the_last_counts() {
    let key = [7u8; 32];
    let load = |text: &str| load_peers(&key, Some(&encrypt_data(&key, text.as_bytes()).unwrap()));
    let twice = r#"{"a":{"static_public_key_b64":"k","static_public_key_b64":"k","is_verified":true}}"#;
    assert!(matches!(load(twice), Err(StorageError::InvalidContent)));
    let twice = r#"{"a":{"static_public_key_b64":"k","custom_name":null,"custom_name":"x","is_verified":true}}"#;
    assert!(matches!(load(twice), Err(StorageError::InvalidContent)));
    let same = r#" { "a" : {"static_public_key_b64":"k","is_verified":true,"x":1e999,"x":"\ud800"} ,
        "a": ["l","n",false] } "#;
    let peers = load(same).unwrap();
    assert_eq!(peers.entries().len(), 1);
    assert_eq!(peers.get("a").unwrap().static_public_key_b64, "l");
    assert_eq!(peers.get("a").unwrap().custom_name.as_deref(), Some("n"));
    let broken = r#"{"a":1,"a":["l","n",false]}"#;
    assert!(matches!(load(broken), Err(StorageError::InvalidContent)));
    let long = r#"{"a":["l","n",false,1]}"#;
    assert!(matches!(load(long), Err(StorageError::InvalidContent)));
}
