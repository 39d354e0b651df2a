use patronus::autocomplete::{completion_dir, get_autocomplete_matches, DirEntry};
use patronus::client::UiEvent;
use patronus::discovery::Interface;
use patronus::keys::{Effect, Key, KeyPress};
use patronus::names::NameMap;
use patronus::render::Sender;
use patronus::storage::{load_history, load_peers, save_peers, PeerInfo, StoredMessage};
use patronus::tui::{App, Message};

const NOW: u64 = 1_700_000_000_000;

fn press(key: Key) -> KeyPress {
    KeyPress { key, control: false, shift: false }
}

fn control(c: char) -> KeyPress {
    KeyPress { key: Key::Char(c), control: true, shift: false }
}

fn type_in(app: &mut App, text: &str) {
    for c in text.chars() {
        app.handle_key(press(Key::Char(c)), NOW, true);
    }
}

fn enter(app: &mut App, text: &str) -> Effect {
    type_in(app, text);
    app.handle_key(press(Key::Enter), NOW, true)
}

fn peer(app: &mut App, id: &str, name: &str, addr: &str) {
    app.handle_event(
        UiEvent::PeerUpdate { id: id.to_string(), name: name.to_string(), addr: addr.to_string() },
        NOW,
    );
}

fn contents(app: &App, channel: &str) -> Vec<String> {
    match app.messages.get(channel) {
        Some(messages) => messages.iter().map(|m| m.content.clone()).collect(),
        None => Vec::new(),
    }
}

fn entry(name: &str, is_dir: bool) -> DirEntry {
    DirEntry { file_name: name.to_string(), is_dir }
}

fn message(content: &str, ttl: Option<u64>, received_at: u64) -> Message {
    Message { from: "Me".to_string(), content: content.to_string(), is_system: false, ttl, received_at }
}

#[test]
fn the_interface_starts_empty() {
    let app = App::new();
    assert!(app.peer_ids.is_empty() && app.input.is_empty() && app.broadcasting);
    assert_eq!(app.active_channel(), "System");
    assert_eq!(app.identity(), "Waiting for handshake...");
    assert!(app.chat_rows().is_empty() && app.peer_rows().is_empty());
    assert!(app.current_transfer().is_none());
    assert!(app.save_history().is_none() && app.save_peers(None).is_none());
}

#[test]
fn what_is_typed_is_said_to_the_selected_peer() {
    let mut app = App::new();
    assert!(matches!(enter(&mut app, "hello"), Effect::Nothing));
    assert_eq!(contents(&app, "System"), vec!["No peer selected. Connect to a peer first."]);
    peer(&mut app, "idB", "bob", "1.2.3.4:6001");
    app.current_ttl = Some(60);
    match enter(&mut app, "hello") {
        Effect::Say { target, text, ttl } => {
            assert_eq!((target.as_str(), text.as_str(), ttl), ("idB", "hello", Some(60)));
            assert!(matches!(app.message_sent(target, text, NOW), Effect::SaveHistory));
        }
        other => panic!("{:?}", other),
    }
    let sent = &app.messages.get("idB").unwrap()[0];
    assert_eq!((sent.from.as_str(), sent.content.as_str(), sent.ttl), ("Me", "hello", Some(60)));
    assert!(app.input.is_empty());
    assert!(matches!(enter(&mut app, "/send x"), Effect::Say { .. }));
}

#[test]
fn keys_edit_the_line() {
    let mut app = App::new();
    type_in(&mut app, "abü");
    app.handle_key(press(Key::Backspace), NOW, true);
    assert_eq!(app.input, "ab");
    app.handle_key(press(Key::Other), NOW, true);
    for _ in 0..3 {
        app.handle_key(press(Key::Backspace), NOW, true);
    }
    assert_eq!(app.input, "");
    assert!(matches!(app.handle_key(press(Key::Enter), NOW, true), Effect::Nothing));
    assert!(matches!(app.handle_key(press(Key::Esc), NOW, true), Effect::Quit));
}

#[test]
fn the_time_to_live_is_set_and_shown() {
    let mut app = App::new();
    peer(&mut app, "id", "p", "a");
    assert!(matches!(enter(&mut app, "/ttl"), Effect::SaveHistory));
    match enter(&mut app, "/ttl 2h") {
        Effect::Notify { target, ttl } => assert_eq!((target.as_str(), ttl), ("id", Some(7200))),
        other => panic!("{:?}", other),
    }
    assert_eq!(app.current_ttl, Some(7200));
    assert_eq!(app.ttl_info(), " | TTL: 2h");
    enter(&mut app, "/ttl");
    assert!(matches!(enter(&mut app, "/ttl 25h"), Effect::SaveHistory));
    assert!(matches!(enter(&mut app, "/ttl soon"), Effect::SaveHistory));
    assert!(matches!(enter(&mut app, "/ttl 1 h"), Effect::SaveHistory));
    assert_eq!(app.current_ttl, Some(7200));
    match enter(&mut app, "/ttl 0") {
        Effect::Notify { ttl, .. } => assert_eq!(ttl, None),
        other => panic!("{:?}", other),
    }
    assert_eq!(app.current_ttl, None);
    assert_eq!(app.ttl_info(), "");
    assert_eq!(
        contents(&app, "id"),
        vec![
            "TTL is disabled — messages persist until you close the app. Use /ttl <time> to enable (e.g. /ttl 30m, /ttl 2h, /ttl 1d).",
            "TTL set to 2h — new messages will disappear after that time.",
            "TTL is set to 2h — messages disappear after that time. Use /ttl <time> to change or /ttl 0 to disable.",
            "TTL too large — maximum is 1d (86400s).",
            "Invalid TTL 'soon' — expected a number with an optional unit: 30s, 5m, 2h, 1d.",
            "Usage: /ttl <time>  (e.g. 30s, 5m, 2h, 1d) or /ttl 0 to disable",
            "TTL disabled — new messages will persist.",
        ]
    );
}

#[test]
fn commands_connect_clear_and_show() {
    let mut app = App::new();
    match enter(&mut app, "/connect  10.0.0.1:6001 ") {
        Effect::Connect { addr, node_id } => assert_eq!((addr.as_str(), node_id), ("10.0.0.1:6001", None)),
        other => panic!("{:?}", other),
    }
    assert!(matches!(enter(&mut app, "/connect  "), Effect::Nothing));
    enter(&mut app, "x");
    assert!(app.messages.contains_key("System"));
    assert!(matches!(enter(&mut app, "/clear"), Effect::SaveHistory));
    assert!(!app.messages.contains_key("System"));
    enter(&mut app, "/whoami");
    assert!(app.is_showing_whoami);
    app.handle_key(press(Key::Char('x')), NOW, true);
    assert!(app.is_showing_whoami && app.input.is_empty());
    app.handle_key(press(Key::Char(' ')), NOW, true);
    assert!(!app.is_showing_whoami);
}

#[test]
fn an_empty_line_connects_to_the_selected_peer() {
    let mut app = App::new();
    peer(&mut app, "idA", "ann", "Offline");
    assert!(matches!(app.handle_key(press(Key::Enter), NOW, true), Effect::Nothing));
    peer(&mut app, "idA", "ann", "9.9.9.9:6000");
    match app.handle_key(press(Key::Enter), NOW, true) {
        Effect::Connect { addr, node_id } => {
            assert_eq!((addr.as_str(), node_id.as_deref()), ("9.9.9.9:6000", Some("idA")));
        }
        other => panic!("{:?}", other),
    }
    assert_eq!(
        contents(&app, "idA"),
        vec![
            "Peer is offline. Waiting for discovery broadcast, or connect directly using: /connect <ip>:<port>",
            "Connecting to ann...",
        ]
    );
}

#[test]
fn peers_are_selected_in_turn() {
    let mut app = App::new();
    app.handle_key(press(Key::Up), NOW, true);
    assert_eq!(app.selected, 0);
    for id in ["c", "a", "b"] {
        peer(&mut app, id, "peer", "x");
    }
    assert_eq!(app.peer_ids.len(), 3);
    app.handle_key(press(Key::Up), NOW, true);
    assert_eq!(app.selected, 2);
    app.handle_key(press(Key::Down), NOW, true);
    assert_eq!(app.selected, 0);
    app.handle_key(press(Key::Down), NOW, true);
    assert_eq!(app.selected, 1);
}

#[test]
fn a_renamed_peer_is_sorted_by_its_new_name_and_stays_selected() {
    let mut app = App::new();
    app.handle_key(control('r'), NOW, true);
    assert!(!app.is_renaming);
    peer(&mut app, "id1", "id1", "x");
    peer(&mut app, "id2", "id2", "x");
    peer(&mut app, "id3", "id3", "x");
    assert_eq!(app.peer_ids, vec!["id1", "id2", "id3"]);
    app.handle_key(control('r'), NOW, true);
    assert_eq!(app.rename_input, "id1");
    for _ in 0..3 {
        app.handle_key(press(Key::Backspace), NOW, true);
    }
    assert!(matches!(app.handle_key(press(Key::Enter), NOW, true), Effect::Nothing));
    app.handle_key(control('r'), NOW, true);
    app.handle_key(press(Key::Esc), NOW, true);
    assert!(!app.is_renaming && app.rename_input.is_empty());
    app.handle_key(control('r'), NOW, true);
    for _ in 0..3 {
        app.handle_key(press(Key::Backspace), NOW, true);
    }
    type_in(&mut app, "zoe");
    assert!(matches!(app.handle_key(press(Key::Enter), NOW, true), Effect::SavePeers));
    assert_eq!(app.peer_ids, vec!["id2", "id3", "id1"]);
    assert_eq!(app.selected, 2);
    assert_eq!(app.get_display_name("id1"), "zoe");
    let rows = app.peer_rows();
    assert_eq!((rows[2].name.as_str(), rows[2].is_selected), ("zoe", true));
    assert_eq!(rows[0].status, " [Connected]");
}

#[test]
fn nodes_are_called_by_the_best_name_there_is() {
    let mut app = App::new();
    assert_eq!(app.get_display_name("System"), "System");
    assert_eq!(app.get_display_name("abcdefghij"), "abcdefgh");
    assert_eq!(app.get_display_name("äöüäöüäöü"), "äöüäöüäö");
    assert_eq!(app.get_display_name("short"), "short");
    peer(&mut app, "abcdefghij", "Ann", "Offline");
    assert_eq!(app.get_display_name("abcdefghij"), "Ann");
    assert_eq!(app.peer_rows()[0].status, " [Offline]");
}

#[test]
fn windows_open_and_close() {
    let mut app = App::new();
    app.handle_key(control('h'), NOW, true);
    assert!(app.is_showing_help);
    app.handle_key(press(Key::Char('h')), NOW, true);
    assert!(app.is_showing_help);
    app.handle_key(control('h'), NOW, true);
    assert!(!app.is_showing_help);
    match app.handle_key(control('b'), NOW, true) {
        Effect::SetBroadcasting(enabled) => assert!(!enabled),
        other => panic!("{:?}", other),
    }
    assert!(!app.broadcasting);
    app.handle_key(control('x'), NOW, true);
    assert_eq!(app.input, "x");
}

#[test]
fn commands_are_suggested() {
    assert_eq!(get_autocomplete_matches("/s", &Vec::new()), vec!["/send ", "/save_dir "]);
    assert_eq!(get_autocomplete_matches("/", &Vec::new()).len(), 8);
    assert!(get_autocomplete_matches("/x", &Vec::new()).is_empty());
    assert!(get_autocomplete_matches("hello", &Vec::new()).is_empty());
    assert!(get_autocomplete_matches("", &Vec::new()).is_empty());
    assert!(get_autocomplete_matches("/connect ", &Vec::new()).is_empty());
    assert_eq!(completion_dir("/s", None), None);
    assert_eq!(completion_dir("/ttl x", None), None);
}

#[test]
fn paths_are_suggested() {
    let entries =
        vec![entry("map.txt", false), entry("marauders", true), entry(".hidden", false), entry("Mab", false)];
    assert_eq!(
        get_autocomplete_matches("/send docs/ma", &entries),
        vec!["/send docs/map.txt", "/send docs/marauders/"]
    );
    assert_eq!(get_autocomplete_matches("/save_dir ", &entries), vec!["/save_dir marauders/"]);
    assert_eq!(
        get_autocomplete_matches("/accept ", &entries),
        vec!["/accept Mab", "/accept map.txt", "/accept marauders/"]
    );
    assert_eq!(get_autocomplete_matches("/send .", &entries), vec!["/send ./", "/send .hidden"]);
    assert_eq!(get_autocomplete_matches("/send a/..", &entries), vec!["/send a/../"]);
    assert_eq!(get_autocomplete_matches("/send d\\Ma", &entries), vec!["/send d\\Mab"]);
    assert_eq!(completion_dir("/send docs/ma", None).as_deref(), Some("docs/"));
    assert_eq!(completion_dir("/send ma", None).as_deref(), Some("."));
    assert_eq!(completion_dir("/send ~/a/b", Some("/home/u".to_string())).as_deref(), Some("/home/u/a/"));
    assert_eq!(completion_dir("/send ~/a/b", None).as_deref(), Some("~/a/"));
    assert_eq!(completion_dir("/send ~", Some("/home/u".to_string())).as_deref(), Some("."));
}

#[test]
fn suggestions_are_gone_through_in_both_directions() {
    let mut app = App::new();
    type_in(&mut app, "/s");
    let backwards = match app.handle_key(press(Key::Tab), NOW, true) {
        Effect::Complete { backwards } => backwards,
        other => panic!("{:?}", other),
    };
    assert!(!backwards);
    app.complete(&Vec::new(), backwards);
    assert_eq!(app.input, "/send ");
    assert_eq!(app.suggestion_rows(), vec!["[ send  ]", "save_dir "]);
    app.handle_key(press(Key::Tab), NOW, true);
    assert_eq!(app.input, "/save_dir ");
    app.handle_key(press(Key::Tab), NOW, true);
    assert_eq!(app.input, "/send ");
    app.handle_key(press(Key::BackTab), NOW, true);
    assert_eq!(app.input, "/save_dir ");
    app.handle_key(KeyPress { key: Key::Tab, control: false, shift: true }, NOW, true);
    assert_eq!(app.input, "/send ");
    type_in(&mut app, "x");
    assert!(app.autocomplete.is_none() && app.suggestion_rows().is_empty());
    app.complete(&vec![entry("xylo", true), entry("xy", false)], true);
    assert_eq!(app.input, "/send xylo/");
    assert_eq!(app.suggestion_rows(), vec!["send xy", "[ /send xylo/ ]"]);
}

#[test]
fn messages_go_to_their_channels() {
    let mut app = App::new();
    peer(&mut app, "idA", "ann", "x");
    let tell = |app: &mut App, from: &str, text: &str, is_system: bool, group: Option<&str>| {
        let effect = app.handle_event(
            UiEvent::Message {
                from: from.to_string(),
                text: text.to_string(),
                is_system,
                ttl: None,
                group: group.map(|g| g.to_string()),
            },
            NOW,
        );
        assert!(matches!(effect, Effect::SaveHistory));
    };
    tell(&mut app, "idB", "from b", false, None);
    tell(&mut app, "idB", "to all", false, Some("Lobby"));
    tell(&mut app, "System", "Connected to idA", true, None);
    tell(&mut app, "System", "Connection lost with idA: broken: pipe", true, None);
    tell(&mut app, "System", "Connection lost with idA", true, None);
    assert_eq!(contents(&app, "idB"), vec!["from b", "to all"]);
    assert_eq!(
        contents(&app, "idA"),
        vec!["Connected to ann", "Connection lost with ann: broken: pipe", "Connection lost with idA"]
    );
    let rows = app.chat_rows();
    assert_eq!(rows[0].content, "Connection lost with idA");
    assert_eq!(rows[2].label, "System: ");
    assert_eq!(rows[2].sender, Sender::System);
    tell(&mut app, "idA", "hi", false, None);
    app.message_sent("idA".to_string(), "yo".to_string(), NOW);
    let rows = app.chat_rows();
    assert_eq!((rows[0].label.as_str(), rows[0].sender), ("Me: ", Sender::Me));
    assert_eq!((rows[1].label.as_str(), rows[1].sender), ("ann: ", Sender::Peer));
}

#[test]
fn the_last_phrase_is_shown() {
    let mut app = App::new();
    app.handle_event(UiEvent::HandshakeComplete("Brave Crimson Stag".to_string()), NOW);
    assert_eq!(app.identity(), "Brave Crimson Stag");
}

#[test]
fn the_progress_of_files_is_remembered_for_a_moment() {
    let mut app = App::new();
    let progress = |app: &mut App, bytes: u64, now: u64| {
        app.handle_event(
            UiEvent::FileProgress {
                peer_id: "p".to_string(),
                file_name: "f".to_string(),
                total_size: 100,
                bytes_transferred: bytes,
                is_sending: true,
            },
            now,
        );
    };
    progress(&mut app, 10, 5000);
    progress(&mut app, 20, 6000);
    progress(&mut app, 30, 7000);
    progress(&mut app, 40, 7001);
    let transfer = app.current_transfer().unwrap();
    assert_eq!(transfer.start_time, 5000);
    assert_eq!(transfer.bytes_transferred, 40);
    assert_eq!(transfer.progress_history, vec![(6000, 20), (7000, 30), (7001, 40)]);
    progress(&mut app, 100, 8000);
    assert!(app.current_transfer().is_none());
}

#[test]
fn messages_vanish_when_their_time_is_over() {
    let mut app = App::new();
    app.messages.insert(
        "c".to_string(),
        vec![message("stays", None, 0), message("short", Some(1), 1000), message("long", Some(10), 1000)],
    );
    assert!(!app.cleanup_expired_messages(1999));
    assert_eq!(contents(&app, "c").len(), 3);
    assert!(app.cleanup_expired_messages(2000));
    assert_eq!(contents(&app, "c"), vec!["stays", "long"]);
    assert!(!app.cleanup_expired_messages(10_999));
    assert!(app.cleanup_expired_messages(11_000));
    assert_eq!(contents(&app, "c"), vec!["stays"]);
    app.messages.insert("d".to_string(), vec![message("none", Some(0), 5000), message("later", Some(1), 5000)]);
    assert!(app.cleanup_expired_messages(4000));
    assert_eq!(contents(&app, "d"), vec!["later"]);
}

#[test]
fn the_history_comes_back_after_a_restart() {
    let key = [9; 32];
    let mut app = App::new();
    app.storage_key = Some(key);
    app.config_dir = Some("somewhere".to_string());
    app.messages.insert(
        "a".to_string(),
        vec![message("one", None, 1_500), message("two", Some(60), 2_999), message("three", Some(1), 1_000)],
    );
    app.messages.insert("b".to_string(), vec![message("other", None, 7)]);
    let file = app.save_history().unwrap().unwrap();
    let history = load_history(&key, Some(&file)).unwrap();
    assert_eq!(history.len(), 4);
    let mut again = App::new();
    again.load_history(&history, 10_000);
    assert_eq!(contents(&again, "a"), vec!["one", "two"]);
    assert_eq!(contents(&again, "b"), vec!["other"]);
    assert_eq!(again.messages.get("a").unwrap()[1].received_at, 2_000);
    let far = vec![StoredMessage {
        peer_id: "z".to_string(),
        from: "Me".to_string(),
        content: "far".to_string(),
        is_system: false,
        ttl: None,
        timestamp_secs: u64::MAX,
    }];
    again.load_history(&far, 10_000);
    assert_eq!(again.messages.get("z").unwrap()[0].received_at, u64::MAX);
}

#[test]
fn names_come_back_after_a_restart() {
    let key = [9; 32];
    let info = |name: Option<&str>| PeerInfo {
        static_public_key_b64: "k".to_string(),
        custom_name: name.map(|n| n.to_string()),
        is_verified: false,
    };
    let mut known = NameMap::new();
    known.insert("idB".to_string(), info(Some("bob")));
    known.insert("idA23456789".to_string(), info(None));
    let file = save_peers(&key, &known).unwrap();

    let mut app = App::new();
    app.load_peers(&known);
    assert_eq!(app.peer_ids, vec!["idA23456789", "idB"]);
    assert_eq!(app.peers.get("idA23456789").unwrap(), &("idA23456".to_string(), "Offline".to_string()));
    assert_eq!(app.peers.get("idB").unwrap().0, "bob");
    assert_eq!(app.custom_names.get("idB").unwrap(), "bob");
    assert!(!app.custom_names.contains_key("idA23456789"));

    app.storage_key = Some(key);
    app.config_dir = Some("somewhere".to_string());
    app.custom_names.insert("idA23456789".to_string(), "ann".to_string());
    app.custom_names.insert("unknown".to_string(), "nobody".to_string());
    let saved = app.save_peers(Some(&file)).unwrap().unwrap();
    let loaded = load_peers(&key, Some(&saved)).unwrap();
    assert_eq!(loaded.get("idA23456789").unwrap().custom_name.as_deref(), Some("ann"));
    assert_eq!(loaded.get("idB").unwrap().custom_name.as_deref(), Some("bob"));
    assert_eq!(loaded.entries().len(), 2);
    assert!(app.save_peers(Some(&[1, 2, 3])).is_none());
}

#[test]
fn the_interface_of_the_node_is_shown() {
    let interfaces = vec![
        Interface {
            name: "lo".to_string(),
            ip: "127.0.0.1".to_string(),
            is_loopback: true,
            is_ipv4: true,
            broadcast: None,
        },
        Interface {
            name: "eth0".to_string(),
            ip: "10.0.0.2".to_string(),
            is_loopback: false,
            is_ipv4: true,
            broadcast: Some("10.0.0.255".to_string()),
        },
        Interface {
            name: "eth0".to_string(),
            ip: "fe80::1".to_string(),
            is_loopback: false,
            is_ipv4: false,
            broadcast: None,
        },
    ];
    let mut app = App::new();
    app.app_port = 6042;
    assert_eq!(app.interface_info(), " | Interface: All (0.0.0.0)");
    assert_eq!(app.bound_interface(), "All interfaces (0.0.0.0)");
    assert_eq!(app.connection_addresses(&Vec::new()), vec!["  - 127.0.0.1 (Loopback only)"]);
    assert_eq!(app.connection_addresses(&interfaces), vec!["  - 10.0.0.2:6042 (eth0)"]);
    app.default_interface = Some(("eth0".to_string(), "10.0.0.2".to_string()));
    assert_eq!(app.interface_info(), " | Interface: All (0.0.0.0) [default: eth0 (10.0.0.2)]");
    assert_eq!(app.connection_addresses(&Vec::new()), vec!["  - 10.0.0.2:6042"]);
    app.selected_interface = Some(("wlan0".to_string(), "10.0.1.7".to_string()));
    assert_eq!(app.interface_info(), " | Interface: wlan0 (10.0.1.7)");
    assert_eq!(app.bound_interface(), "wlan0 (10.0.1.7)");
    assert_eq!(app.connection_addresses(&interfaces), vec!["  - 10.0.1.7:6042"]);
}
