//! How a node starts up, and what becomes of its connections.
use crate::client::{
    ErrorView, sys_msg, system_event, ClientView, EventView, OutboundMessage, PatronusClient, UiEvent,
};
use crate::discovery::{Interface, InterfaceView};
use crate::handshake::{decoded, node_id_of, supported, supported_extensions, trusts};
use crate::names::NameMap;
use crate::primitives::{base64_text, hex_encode, hex_text, sha256, sha256_digest};
use crate::storage::{PeerInfo, PeerInfoView};
use crate::text::{
    first_chars, join, joined, same_text, starts_with, take_chars, text2, text3, text5,
};
use crate::turn::{add_event, no_events};
use vstd::prelude::*;
use vstd::string::*;

verus! {

/// A path with the home directory in place of a tilde that it starts with, where the home
/// directory is known.
pub open spec fn tilde_expanded(path: Seq<char>, home: Option<Seq<char>>) -> Seq<char> {
    match home {
        Some(dir) => if "~/"@.is_prefix_of(path) {
            dir + "/"@ + path.skip(2)
        } else if path == "~"@ {
            dir
        } else {
            path
        },
        None => path,
    }
}

/// Puts the home directory in place of a tilde.
pub fn expand_tilde(path: &str, home: Option<String>) -> (res: String)
    ensures
        res@ == tilde_expanded(path@, home.deep_view()),
{
    let dir = match home {
        Some(dir) => dir,
        None => return path.to_owned(),
    };
    proof {
        reveal_strlit("~/");
    }
    if starts_with(path, "~/") {
        let len: usize = path.unicode_len();
        let rest = path.substring_char(2, len);
        assert(rest@ =~= path@.skip(2));
        return text3(dir.as_str(), "/", rest);
    }
    if same_text(path, "~") {
        return dir;
    }
    path.to_owned()
}

/// The name of the directory of the node with a public key.
pub open spec fn config_name(public: Seq<u8>) -> Seq<char> {
    first_chars(hex_text(sha256_digest(public)), 16)
}

/// Names the directory of the node with a public key.
pub fn config_dir_name(public: &[u8; 32]) -> (res: String)
    ensures
        res@ == config_name(public@),
{
    let digest = sha256(public.as_slice());
    let hash = hex_encode(digest.as_slice());
    take_chars(hash.as_str(), 16)
}

/// The port of a node, for a random number.
pub fn app_port(random: u16) -> (res: u16)
    ensures
        res == random % 255 + 6000,
        6000 <= res <= 6254,
        (res - 6000 - random) % 255 == 0,
{
    random % 255 + 6000
}

/// Whether an interface has a name or an address.
pub open spec fn answers_to(interface: InterfaceView, name_or_ip: Seq<char>) -> bool {
    interface.name == name_or_ip || interface.ip == name_or_ip
}

/// The first interface with a name or an address.
pub open spec fn interface_named(interfaces: Seq<InterfaceView>, name_or_ip: Seq<char>) -> Option<InterfaceView>
    decreases interfaces.len(),
{
    if interfaces.len() == 0 {
        None
    } else if answers_to(interfaces[0], name_or_ip) {
        Some(interfaces[0])
    } else {
        interface_named(interfaces.drop_first(), name_or_ip)
    }
}

/// The lines that list interfaces.
pub open spec fn interface_lines(interfaces: Seq<InterfaceView>) -> Seq<char>
    decreases interfaces.len(),
{
    if interfaces.len() == 0 {
        seq![]
    } else {
        interface_lines(interfaces.drop_last()) + ("  - "@ + interfaces.last().name + " ("@ + interfaces.last().ip
            + ")\n"@)
    }
}

/// What the user is told of a name or an address that no interface has.
pub open spec fn no_interface_text(interfaces: Seq<InterfaceView>, name_or_ip: Seq<char>) -> Seq<char> {
    "Interface or IP '"@ + name_or_ip + "' not found.\n\nAvailable interfaces:\n"@ + interface_lines(interfaces)
}

/// Finds the interface with a name or an address: its name and its address.
pub fn resolve_interface(name_or_ip: &str, interfaces: &Vec<Interface>) -> (res: Result<(String, String), String>)
    ensures
        match (interface_named(interfaces.deep_view(), name_or_ip@), res) {
            (Some(interface), Ok((name, ip))) => name@ == interface.name && ip@ == interface.ip,
            (None, Err(text)) => text@ == no_interface_text(interfaces.deep_view(), name_or_ip@),
            _ => false,
        },
{
    let ghost all = interfaces.deep_view();
    let mut i: usize = 0;
    assert(all.skip(0) =~= all);
    while i < interfaces.len()
        invariant
            i <= interfaces@.len(),
            all == interfaces.deep_view(),
            interface_named(all, name_or_ip@) == interface_named(all.skip(i as int), name_or_ip@),
        decreases interfaces@.len() - i,
    {
        assert(all.skip(i as int)[0] == interfaces@[i as int].deep_view());
        assert(all.skip(i as int).drop_first() =~= all.skip(i + 1));
        if same_text(interfaces[i].name.as_str(), name_or_ip) || same_text(interfaces[i].ip.as_str(), name_or_ip) {
            return Ok((interfaces[i].name.clone(), interfaces[i].ip.clone()));
        }
        i = i + 1;
    }
    let mut text = text3("Interface or IP '", name_or_ip, "' not found.\n\nAvailable interfaces:\n");
    let ghost start = text@;
    let mut k: usize = 0;
    assert(interface_lines(all.take(0)) =~= seq![]);
    assert(text@ =~= start + interface_lines(all.take(0)));
    while k < interfaces.len()
        invariant
            k <= interfaces@.len(),
            all == interfaces.deep_view(),
            text@ == start + interface_lines(all.take(k as int)),
        decreases interfaces@.len() - k,
    {
        let line = text5("  - ", interfaces[k].name.as_str(), " (", interfaces[k].ip.as_str(), ")\n");
        let ghost before = text@;
        text.append(line.as_str());
        proof {
            assert(all.take(k + 1).drop_last() =~= all.take(k as int));
            assert(all.take(k + 1).last() == interfaces@[k as int].deep_view());
            assert(text@ =~= start + interface_lines(all.take(k + 1)));
        }
        k = k + 1;
    }
    assert(all.take(k as int) =~= all);
    Err(text)
}

/// The first IPv4 interface that is no loopback.
pub open spec fn default_interface(interfaces: Seq<InterfaceView>) -> Option<InterfaceView>
    decreases interfaces.len(),
{
    if interfaces.len() == 0 {
        None
    } else if !interfaces[0].is_loopback && interfaces[0].is_ipv4 {
        Some(interfaces[0])
    } else {
        default_interface(interfaces.drop_first())
    }
}

/// Finds the interface that is used unless the user names one: its name and its address.
pub fn get_default_interface(interfaces: &Vec<Interface>) -> (res: Option<(String, String)>)
    ensures
        match (default_interface(interfaces.deep_view()), res) {
            (Some(interface), Some((name, ip))) => name@ == interface.name && ip@ == interface.ip,
            (None, None) => true,
            _ => false,
        },
{
    let ghost all = interfaces.deep_view();
    let mut i: usize = 0;
    assert(all.skip(0) =~= all);
    while i < interfaces.len()
        invariant
            i <= interfaces@.len(),
            all == interfaces.deep_view(),
            default_interface(all) == default_interface(all.skip(i as int)),
        decreases interfaces@.len() - i,
    {
        assert(all.skip(i as int)[0] == interfaces@[i as int].deep_view());
        assert(all.skip(i as int).drop_first() =~= all.skip(i + 1));
        if !interfaces[i].is_loopback && interfaces[i].is_ipv4 {
            return Some((interfaces[i].name.clone(), interfaces[i].ip.clone()));
        }
        i = i + 1;
    }
    None
}

/// What is done with a message that the user wants sent.
#[derive(Debug)]
pub enum Route {
    /// It is handed to the connection with its target.
    Forward(OutboundMessage),
    /// The user is told that there is no such connection.
    Tell(UiEvent),
    /// Nothing.
    Drop,
}

/// Decides what is done with a message, by whether there is a connection with its target.
pub fn route(msg: OutboundMessage, is_connected: bool) -> (res: Route)
    ensures
        match res {
            Route::Forward(forwarded) => is_connected && forwarded == msg,
            Route::Tell(event) => !is_connected && (msg matches OutboundMessage::Message { target, text, ttl }
                && event.deep_view() == system_event("Peer "@ + target@ + " is not connected."@)),
            Route::Drop => !is_connected && msg is TTLNotice,
        },
        is_connected <==> res is Forward,
        !is_connected && msg is Message <==> res is Tell,
        res matches Route::Tell(event) ==> (msg matches OutboundMessage::Message { target, text, ttl }
            && event.deep_view() == system_event(unconnected_text(target@))),
{
    if is_connected {
        return Route::Forward(msg);
    }
    match msg {
        OutboundMessage::Message { target, text: _, ttl: _ } => Route::Tell(
            sys_msg(text3("Peer ", target.as_str(), " is not connected.")),
        ),
        OutboundMessage::TTLNotice { target: _, ttl: _ } => Route::Drop,
    }
}

/// Tells the user that a peer could not be reached.
pub fn connect_failed(addr: &str, error: &str) -> (res: UiEvent)
    ensures
        res.deep_view() == system_event("Connection to "@ + addr@ + " failed: "@ + error@),
        res.deep_view() == system_event(unreached_text(addr@, error@)),
{
    let mut text = text3("Connection to ", addr, " failed: ");
    text.append(error);
    sys_msg(text)
}

/// What is remembered of the peer of a session.
pub open spec fn peer_record(client: ClientView) -> PeerInfoView {
    PeerInfoView {
        static_public_key_b64: match client.peer_static_pk {
            Some(key) => key,
            None => seq![],
        },
        custom_name: None,
        is_verified: false,
    }
}

/// The known peers once a session with another was opened. One that is known stays as it is.
pub open spec fn with_peer(
    peers: Map<Seq<char>, PeerInfoView>,
    client: ClientView,
) -> Map<Seq<char>, PeerInfoView> {
    if peers.contains_key(client.peer_name()) {
        peers
    } else {
        peers.insert(client.peer_name(), peer_record(client))
    }
}

/// Remembers the peer of a session. Returns whether it was not known before.
pub fn remember_peer(peers: &mut NameMap<PeerInfo>, client: &PatronusClient) -> (res: bool)
    ensures
        final(peers).deep_view() == with_peer(old(peers).deep_view(), client@),
        res == !old(peers).deep_view().contains_key(client@.peer_name()),
{
    let id = client.peer_name();
    if peers.contains_key(id.as_str()) {
        return false;
    }
    let static_public_key_b64 = match &client.peer_static_pk {
        Some(key) => key.clone(),
        None => String::new(),
    };
    peers.insert(id, PeerInfo { static_public_key_b64, custom_name: None, is_verified: false });
    true
}

/// What a peer is called until the user names it.
pub open spec fn short_name(id: Seq<char>) -> Seq<char> {
    first_chars(id, 8)
}

/// What the user is told of a session that was opened.
pub open spec fn opened_events(client: ClientView, addr: Seq<char>) -> Seq<EventView> {
    let id = client.peer_name();
    let phrase = match client.identity_phrase {
        Some(phrase) => seq![EventView::HandshakeComplete(phrase)],
        None => seq![],
    };
    phrase.push(EventView::PeerUpdate { id, name: short_name(id), addr }).push(
        system_event(
            "Connection established! Our extensions: ["@ + joined(supported(), ", "@) + "]. Peer extensions: ["@
                + joined(client.peer_extensions, ", "@) + "]"@,
        ),
    ).push(system_event("Connected to "@ + id))
}

/// Tells the user of a session that was opened.
pub fn session_opened(client: &PatronusClient, addr: String) -> (res: Vec<UiEvent>)
    ensures
        res.deep_view() == opened_events(client@, addr@),
{
    let id = client.peer_name();
    let mut events = no_events();
    if let Some(phrase) = &client.identity_phrase {
        add_event(&mut events, UiEvent::HandshakeComplete(phrase.clone()));
        assert(events.deep_view() =~= seq![EventView::HandshakeComplete(phrase@)]);
    }
    add_event(&mut events, UiEvent::PeerUpdate { id: id.clone(), name: take_chars(id.as_str(), 8), addr });
    let own = join(&supported_extensions(), ", ");
    let peer = join(&client.peer_extensions, ", ");
    add_event(
        &mut events,
        sys_msg(
            text5(
                "Connection established! Our extensions: [",
                own.as_str(),
                "]. Peer extensions: [",
                peer.as_str(),
                "]",
            ),
        ),
    );
    add_event(&mut events, sys_msg(text2("Connected to ", id.as_str())));
    events
}

/// What the user is told of a session that was closed.
pub open spec fn closed_events(id: Seq<char>) -> Seq<EventView> {
    seq![
        system_event(id + " disconnected."@),
        EventView::PeerUpdate { id, name: short_name(id), addr: "Offline"@ },
    ]
}

/// Tells the user of a session that was closed.
pub fn session_closed(id: String) -> (res: Vec<UiEvent>)
    ensures
        res.deep_view() == closed_events(id@),
{
    let mut events = no_events();
    add_event(&mut events, sys_msg(text2(id.as_str(), " disconnected.")));
    let name = take_chars(id.as_str(), 8);
    let ghost view = id@;
    add_event(&mut events, UiEvent::PeerUpdate { id, name, addr: "Offline".to_owned() });
    assert(events.deep_view() =~= closed_events(view));
    events
}

/// Once a peer is known, its key stays the one that it had first.
pub proof fn first_key_stays(peers: Map<Seq<char>, PeerInfoView>, client: ClientView, id: Seq<char>)
    requires
        peers.contains_key(id),
    ensures
        with_peer(peers, client).contains_key(id),
        with_peer(peers, client)[id] == peers[id],
{
}

/// A peer that was trusted on first use is trusted with the same key from then on.
pub proof fn remembered_peer_is_trusted(peers: Map<Seq<char>, PeerInfoView>, client: ClientView, key: Seq<u8>)
    requires
        client.peer_node_id == Some(node_id_of(key)),
        client.peer_static_pk == Some(base64_text(key)),
        decoded(base64_text(key)) == Ok::<Seq<u8>, ErrorView>(key),
        trusts(peers, key),
    ensures
        with_peer(peers, client).contains_key(node_id_of(key)),
        trusts(with_peer(peers, client), key),
{
}

/// The home directory, where it is known, stands in for a tilde alone and for one with a slash
/// behind it at the start of a path; every other path stays as it is.
pub proof fn only_own_tilde_is_expanded(path: Seq<char>, rest: Seq<char>, home: Seq<char>)
    ensures
        tilde_expanded("~/"@ + rest, Some(home)) == home + "/"@ + rest,
        tilde_expanded("~"@, Some(home)) == home,
        path != "~"@ && !"~/"@.is_prefix_of(path) ==> tilde_expanded(path, Some(home)) == path,
        tilde_expanded(path, None) == path,
{
    reveal_strlit("~");
    reveal_strlit("~/");
    let text = "~/"@ + rest;
    assert("~/"@ =~= text.subrange(0, 2));
    assert(text.skip(2) =~= rest);
}

/// The directory of a node is named by the first sixteen hexadecimal digits of the digest of its
/// key.
pub proof fn directory_is_named_by_key(public: Seq<u8>)
    ensures
        config_name(public).is_prefix_of(hex_text(sha256_digest(public))),
        config_name(public).len() == if hex_text(sha256_digest(public)).len() < 16 {
            hex_text(sha256_digest(public)).len()
        } else {
            16
        },
{
}

/// A name or an address stands for the first interface that has it as its name or its address,
/// and for none where none has it.
pub proof fn first_interface_answers(interfaces: Seq<InterfaceView>, k: int, name_or_ip: Seq<char>)
    ensures
        0 <= k < interfaces.len() && (interfaces[k].name == name_or_ip || interfaces[k].ip == name_or_ip) && (forall|
            j: int,
        |
            0 <= j < k ==> (#[trigger] interfaces[j]).name != name_or_ip && interfaces[j].ip != name_or_ip)
            ==> interface_named(interfaces, name_or_ip) == Some(interfaces[k]),
        (forall|j: int|
            0 <= j < interfaces.len() ==> (#[trigger] interfaces[j]).name != name_or_ip && interfaces[j].ip
                != name_or_ip) ==> interface_named(interfaces, name_or_ip) is None,
    decreases interfaces.len(),
{
    if interfaces.len() > 0 {
        let rest = interfaces.drop_first();
        first_interface_answers(rest, k - 1, name_or_ip);
        assert(forall|j: int| 0 <= j < rest.len() ==> #[trigger] rest[j] == interfaces[j + 1]);
        if 0 < k < interfaces.len() {
            assert(rest[k - 1] == interfaces[k]);
        }
    }
}

/// The interface that is used unless the user names one is the first IPv4 interface that is no
/// loopback; there is none where there is no such interface.
pub proof fn first_outside_interface_is_default(interfaces: Seq<InterfaceView>, k: int)
    ensures
        0 <= k < interfaces.len() && !interfaces[k].is_loopback && interfaces[k].is_ipv4 && (forall|j: int|
            0 <= j < k ==> (#[trigger] interfaces[j]).is_loopback || !interfaces[j].is_ipv4) ==> default_interface(
            interfaces,
        ) == Some(interfaces[k]),
        (forall|j: int| 0 <= j < interfaces.len() ==> (#[trigger] interfaces[j]).is_loopback || !interfaces[j].is_ipv4)
            ==> default_interface(interfaces) is None,
    decreases interfaces.len(),
{
    if interfaces.len() > 0 {
        let rest = interfaces.drop_first();
        first_outside_interface_is_default(rest, k - 1);
        assert(forall|j: int| 0 <= j < rest.len() ==> #[trigger] rest[j] == interfaces[j + 1]);
        if 0 < k < interfaces.len() {
            assert(rest[k - 1] == interfaces[k]);
        }
    }
}

/// Each interface has its line in what the user is told, in their order, with its name and its
/// address, behind the name or the address that was not found.
pub proof fn interfaces_are_listed(interfaces: Seq<InterfaceView>, more: InterfaceView, asked: Seq<char>)
    ensures
        no_interface_text(seq![], asked) == "Interface or IP '"@ + asked + "' not found.\n\nAvailable interfaces:\n"@,
        no_interface_text(interfaces.push(more), asked) == no_interface_text(interfaces, asked) + ("  - "@ + more.name
            + " ("@ + more.ip + ")\n"@),
{
    assert(interfaces.push(more).drop_last() =~= interfaces);
    let start = "Interface or IP '"@ + asked + "' not found.\n\nAvailable interfaces:\n"@;
    let line = "  - "@ + more.name + " ("@ + more.ip + ")\n"@;
    assert(start + Seq::<char>::empty() =~= start);
    assert(start + (interface_lines(interfaces) + line) =~= start + interface_lines(interfaces) + line);
}

/// A peer that is met for the first time is remembered with the key that it showed, without a
/// name and unverified. Those that are known stay as they are, and nobody else is remembered.
pub proof fn new_peer_is_remembered(
    peers: Map<Seq<char>, PeerInfoView>,
    client: ClientView,
    id: Seq<char>,
    key: Seq<char>,
)
    requires
        client.peer_node_id == Some(id),
        client.peer_static_pk == Some(key),
    ensures
        with_peer(peers, client).dom() == peers.dom().insert(id),
        with_peer(peers, client).remove(id) == peers.remove(id),
        !peers.contains_key(id) ==> with_peer(peers, client)[id].static_public_key_b64 == key && with_peer(
            peers,
            client,
        )[id].custom_name is None && !with_peer(peers, client)[id].is_verified,
        peers.contains_key(id) ==> with_peer(peers, client) == peers,
{
    assert(with_peer(peers, client).dom() =~= peers.dom().insert(id));
    assert(with_peer(peers, client).remove(id) =~= peers.remove(id));
}

/// Of a session that was opened the user is told the phrase, where there is one, then the peer
/// with its id, how that starts and where it is, then what both nodes can do, and that the peer
/// is connected.
pub proof fn opened_session_is_told(client: ClientView, addr: Seq<char>, id: Seq<char>)
    requires
        client.peer_node_id == Some(id),
    ensures
        ({
            let events = opened_events(client, addr);
            let n = if client.identity_phrase is Some {
                1int
            } else {
                0
            };
            &&& events.len() == n + 3
            &&& client.identity_phrase matches Some(phrase) ==> events[0] == EventView::HandshakeComplete(phrase)
            &&& events[n] matches EventView::PeerUpdate { id: told, name, addr: place } && told == id && place == addr
                && name.is_prefix_of(id) && name.len() == (if id.len() < 8 {
                id.len()
            } else {
                8
            })
            &&& events[n + 1] == system_event(
                "Connection established! Our extensions: ["@ + joined(supported(), ", "@) + "]. Peer extensions: ["@
                    + joined(client.peer_extensions, ", "@) + "]"@,
            )
            &&& events[n + 2] == system_event("Connected to "@ + id)
        }),
{
}

/// Of a session that was closed the user is told who is gone, and the peer is offline from then
/// on, under how its id starts.
pub proof fn closed_session_is_told(id: Seq<char>)
    ensures
        closed_events(id).len() == 2,
        closed_events(id)[0] == system_event(id + " disconnected."@),
        closed_events(id)[1] matches EventView::PeerUpdate { id: told, name, addr } && told == id && addr == "Offline"@
            && name.is_prefix_of(id) && name.len() == (if id.len() < 8 {
            id.len()
        } else {
            8
        }),
{
}

/// What the user is told of a peer that could not be reached.
pub open spec fn unreached_text(addr: Seq<char>, error: Seq<char>) -> Seq<char> {
    "Connection to "@ + addr + " failed: "@ + error
}

/// The user is told the whole address of a peer that could not be reached, and the whole reason.
pub proof fn unreached_peer_is_told(addr: Seq<char>, error: Seq<char>)
    ensures
        ({
            let text = unreached_text(addr, error);
            let n = addr.len() as int;
            &&& text.take(14) == "Connection to "@
            &&& text.subrange(14, 14 + n) == addr
            &&& text.subrange(14 + n, 23 + n) == " failed: "@
            &&& text.skip(23 + n) == error
        }),
{
    reveal_strlit("Connection to ");
    reveal_strlit(" failed: ");
    let text = unreached_text(addr, error);
    let n = addr.len() as int;
    assert(text.take(14) =~= "Connection to "@);
    assert(text.subrange(14, 14 + n) =~= addr);
    assert(text.subrange(14 + n, 23 + n) =~= " failed: "@);
    assert(text.skip(23 + n) =~= error);
}

/// What the user is told of a message for a peer that there is no connection with.
pub open spec fn unconnected_text(target: Seq<char>) -> Seq<char> {
    "Peer "@ + target + " is not connected."@
}

/// The user is told the whole id of the peer that there is no connection with.
pub proof fn unconnected_peer_is_told(target: Seq<char>)
    ensures
        ({
            let text = unconnected_text(target);
            let n = target.len() as int;
            &&& text.take(5) == "Peer "@
            &&& text.subrange(5, 5 + n) == target
            &&& text.skip(5 + n) == " is not connected."@
        }),
{
    reveal_strlit("Peer ");
    let text = unconnected_text(target);
    let n = target.len() as int;
    assert(text.take(5) =~= "Peer "@);
    assert(text.subrange(5, 5 + n) =~= target);
    assert(text.skip(5 + n) =~= " is not connected."@);
}

}
