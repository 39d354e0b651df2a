use patronus::client::{sys_msg, OutboundMessage, PatronusClient, UiEvent};
use patronus::discovery::{
    get_broadcast_addresses, Beat, DiscoveryService, Interface, DISCOVERY_PORT, ROUND_BEATS,
};
use patronus::names::NameMap;
use patronus::network::{
    app_port, config_dir_name, connect_failed, expand_tilde, get_default_interface, remember_peer,
    resolve_interface, route, session_closed, session_opened, Route,
};
use patronus::crypto::CryptoState;
use patronus::storage::PeerInfo;

fn interface(name: &str, ip: &str, is_loopback: bool, broadcast: Option<&str>) -> Interface {
    Interface {
        name: name.to_string(),
        ip: ip.to_string(),
        is_loopback,
        is_ipv4: !ip.contains(':'),
        broadcast: broadcast.map(|b| b.to_string()),
    }
}

fn interfaces() -> Vec<Interface> {
    vec![
        interface("lo", "127.0.0.1", true, Some("127.255.255.255")),
        interface("eth0", "fe80::1", false, None),
        interface("eth0", "10.0.0.2", false, Some("10.0.0.255")),
        interface("tun0", "10.8.0.2", false, None),
        interface("wlan0", "10.0.1.7", false, Some("10.0.1.255")),
    ]
}

fn text_of(event: &UiEvent) -> String {
    match event {
        UiEvent::Message { from, text, is_system, ttl, group } => {
            assert_eq!(from, "System");
            assert!(*is_system && ttl.is_none() && group.is_none());
            text.clone()
        }
        other => panic!("{:?}", other),
    }
}

#[test]
fn the_system_speaks() {
    assert_eq!(text_of(&sys_msg("Lumos".to_string())), "Lumos");
}

#[test]
fn a_service_broadcasts_once_in_a_round() {
    let mut service = DiscoveryService::new(6001, "a".to_string(), "::".to_string());
    assert_eq!(service.beat(0), Beat::Stop);
    service.start();
    let sent: Vec<u64> = (0..100).filter(|beat| service.beat(*beat) == Beat::Broadcast).collect();
    assert_eq!(sent, vec![0, 30, 60, 90]);
    assert_eq!(service.beat(ROUND_BEATS - 1), Beat::Wait);
    service.set_broadcasting(false);
    assert_eq!(service.beat(30), Beat::Wait);
    service.set_broadcasting(true);
    service.stop();
    assert_eq!(service.beat(30), Beat::Stop);
}

#[test]
fn nodes_find_each_other() {
    let alice = DiscoveryService::new(6001, "alice+/=".to_string(), "0.0.0.0".to_string());
    let bob = DiscoveryService::new(6002, "bob".to_string(), "0.0.0.0".to_string());
    let payload = alice.payload("1.0.0");
    assert_eq!(payload, "PATRONUSv1.0.0|6001|alice+/=");
    match bob.packet_received("1.0.0", payload.as_bytes(), "10.0.0.2").unwrap() {
        UiEvent::PeerUpdate { id, name, addr } => {
            assert_eq!((id.as_str(), name.as_str(), addr.as_str()), ("alice+/=", "alice+/=", "10.0.0.2:6001"));
        }
        other => panic!("{:?}", other),
    }
    assert!(alice.packet_received("1.0.0", payload.as_bytes(), "10.0.0.2").is_none());
    assert!(bob.packet_received("1.0.1", payload.as_bytes(), "10.0.0.2").is_none());
    assert!(bob.packet_received("1.0.0", b"PATRONUSv1.0.0|1", "i").is_none());
    assert!(bob.packet_received("1.0.0", b"PATRONUSv1.0.0|1|x|y", "i").is_none());
    match bob.packet_received("1.0.0", b"PATRONUSv1.0.0|1|abcdefghijk\xff", "i").unwrap() {
        UiEvent::PeerUpdate { id, name, .. } => {
            assert_eq!((id.as_str(), name.as_str()), ("abcdefghijk\u{fffd}", "abcdefgh"));
        }
        other => panic!("{:?}", other),
    }
    assert_eq!(DISCOVERY_PORT, 8888);
}

#[test]
fn discovery_is_switched_on_and_off() {
    let mut service = DiscoveryService::new(6001, "a".to_string(), "0.0.0.0".to_string());
    assert!(service.is_broadcasting() && !service.is_running);
    service.start();
    assert!(service.is_running);
    service.set_broadcasting(false);
    assert!(!service.is_broadcasting());
    service.stop();
    assert!(!service.is_running && !service.is_broadcasting());
}

#[test]
fn broadcasts_go_to_the_right_addresses() {
    assert_eq!(get_broadcast_addresses("0.0.0.0", &interfaces()), vec!["10.0.0.255", "10.0.1.255"]);
    assert_eq!(get_broadcast_addresses("::", &interfaces()), vec!["10.0.0.255", "10.0.1.255"]);
    assert_eq!(get_broadcast_addresses("10.0.1.7", &interfaces()), vec!["10.0.1.255"]);
    assert_eq!(get_broadcast_addresses("10.8.0.2", &interfaces()), vec!["255.255.255.255"]);
    assert_eq!(get_broadcast_addresses("fe80::1", &interfaces()), vec!["255.255.255.255"]);
    assert_eq!(get_broadcast_addresses("1.1.1.1", &interfaces()), vec!["255.255.255.255"]);
    assert_eq!(get_broadcast_addresses("0.0.0.0", &Vec::new()), vec!["255.255.255.255"]);
}

#[test]
fn an_interface_is_found_by_name_or_address() {
    let found = |what: &str| resolve_interface(what, &interfaces());
    assert_eq!(found("eth0"), Ok(("eth0".to_string(), "fe80::1".to_string())));
    assert_eq!(found("10.0.1.7"), Ok(("wlan0".to_string(), "10.0.1.7".to_string())));
    let two = vec![interface("a", "1.1.1.1", false, None), interface("b", "2.2.2.2", false, None)];
    assert_eq!(
        resolve_interface("nope", &two),
        Err("Interface or IP 'nope' not found.\n\nAvailable interfaces:\n  - a (1.1.1.1)\n  - b (2.2.2.2)\n"
            .to_string())
    );
    assert_eq!(get_default_interface(&interfaces()), Some(("eth0".to_string(), "10.0.0.2".to_string())));
    assert_eq!(get_default_interface(&Vec::new()), None);
}

#[test]
fn a_node_has_a_directory_and_a_port() {
    let key = CryptoState::with_ephemeral([1; 32], [3; 32]).static_public();
    assert_eq!(config_dir_name(&key), "34750f98bd59fcfc");
    assert_eq!(app_port(0), 6000);
    assert_eq!(app_port(254), 6254);
    assert_eq!(app_port(255), 6000);
    assert_eq!(app_port(65535), 6000);
}

#[test]
fn a_tilde_stands_for_the_home_directory() {
    let home = || Some("/home/u".to_string());
    assert_eq!(expand_tilde("~/keys/~/k", home()), "/home/u/keys/~/k");
    assert_eq!(expand_tilde("~", home()), "/home/u");
    assert_eq!(expand_tilde("~x", home()), "~x");
    assert_eq!(expand_tilde("/k", home()), "/k");
    assert_eq!(expand_tilde("~/k", None), "~/k");
}

#[test]
fn messages_go_to_connected_peers() {
    let say = || OutboundMessage::Message { target: "id".to_string(), text: "x".to_string(), ttl: None };
    let notice = || OutboundMessage::TTLNotice { target: "id".to_string(), ttl: None };
    assert!(matches!(route(say(), true), Route::Forward(OutboundMessage::Message { .. })));
    assert!(matches!(route(notice(), true), Route::Forward(OutboundMessage::TTLNotice { .. })));
    assert!(matches!(route(notice(), false), Route::Drop));
    match route(say(), false) {
        Route::Tell(event) => assert_eq!(text_of(&event), "Peer id is not connected."),
        other => panic!("{:?}", other),
    }
    assert_eq!(text_of(&connect_failed("1.2.3.4:5", "refused")), "Connection to 1.2.3.4:5 failed: refused");
}

#[test]
fn a_peer_is_remembered_the_first_time() {
    let mut client = PatronusClient::new([1; 32], None, 0);
    client.peer_node_id = Some("id".to_string());
    client.peer_static_pk = Some("key".to_string());
    let mut peers: NameMap<PeerInfo> = NameMap::new();
    assert!(remember_peer(&mut peers, &client));
    let known = peers.get("id").unwrap();
    assert_eq!(known.static_public_key_b64, "key");
    assert!(known.custom_name.is_none() && !known.is_verified);
    client.peer_static_pk = Some("another".to_string());
    assert!(!remember_peer(&mut peers, &client));
    assert_eq!(peers.get("id").unwrap().static_public_key_b64, "key");
}

#[test]
fn the_user_is_told_of_sessions() {
    let mut client = PatronusClient::new([1; 32], None, 0);
    client.peer_node_id = Some("abcdefghij".to_string());
    client.identity_phrase = Some("Brave Crimson Stag".to_string());
    client.peer_extensions = vec!["x".to_string(), "y".to_string()];
    let events = session_opened(&client, "1.2.3.4:5".to_string());
    assert_eq!(events.len(), 4);
    assert!(matches!(&events[0], UiEvent::HandshakeComplete(p) if p == "Brave Crimson Stag"));
    match &events[1] {
        UiEvent::PeerUpdate { id, name, addr } => {
            assert_eq!((id.as_str(), name.as_str(), addr.as_str()), ("abcdefghij", "abcdefgh", "1.2.3.4:5"));
        }
        other => panic!("{:?}", other),
    }
    assert_eq!(
        text_of(&events[2]),
        "Connection established! Our extensions: [compression:zstd, ratchet:v1, owl-post:v1, vanishing_ink:v1]. \
         Peer extensions: [x, y]"
    );
    assert_eq!(text_of(&events[3]), "Connected to abcdefghij");
    let events = session_closed("abcdefghij".to_string());
    assert_eq!(text_of(&events[0]), "abcdefghij disconnected.");
    assert!(matches!(&events[1], UiEvent::PeerUpdate { addr, .. } if addr == "Offline"));
}
