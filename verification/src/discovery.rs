//! How nodes find each other: what they broadcast, what they make of what they hear, and
//! which addresses they broadcast to.
use crate::client::{EventView, UiEvent};
use crate::primitives::{text_from_utf8, utf8_lossy};
use crate::text::{
    decimal, decimal_text, first_chars, joined, joining_undoes_split, same_text, split, split_parts, take_chars, text2,
    text3, text5,
};
use vstd::prelude::*;
use vstd::string::*;

verus! {

/// The port that nodes broadcast on.
pub const DISCOVERY_PORT: u16 = 8888;

/// How a broadcast starts: with the version of the program.
pub open spec fn magic_header(version: Seq<char>) -> Seq<char> {
    "PATRONUSv"@ + version
}

/// What a node broadcasts: the version, its port and its id.
pub open spec fn announcement(version: Seq<char>, port: u16, id: Seq<char>) -> Seq<char> {
    magic_header(version) + "|"@ + decimal(port as nat) + "|"@ + id
}

/// What a node makes of a broadcast that it hears from an address: a peer of the same version
/// that is not itself.
pub open spec fn heard(own_id: Seq<char>, version: Seq<char>, text: Seq<char>, ip: Seq<char>) -> Option<EventView> {
    let parts = split_parts(text, '|');
    if parts.len() == 3 && parts[0] == magic_header(version) && parts[2] != own_id {
        Some(
            EventView::PeerUpdate { id: parts[2], name: first_chars(parts[2], 8), addr: ip + ":"@ + parts[1] },
        )
    } else {
        None
    }
}

/// A network interface of the machine.
#[derive(Debug, Clone)]
pub struct Interface {
    pub name: String,
    /// The address, as text.
    pub ip: String,
    pub is_loopback: bool,
    pub is_ipv4: bool,
    /// The broadcast address, where the address is an IPv4 address and has one.
    pub broadcast: Option<String>,
}

/// A network interface, as a value.
pub ghost struct InterfaceView {
    pub name: Seq<char>,
    pub ip: Seq<char>,
    pub is_loopback: bool,
    pub is_ipv4: bool,
    pub broadcast: Option<Seq<char>>,
}

impl DeepView for Interface {
    type V = InterfaceView;

    open spec fn deep_view(&self) -> InterfaceView {
        InterfaceView {
            name: self.name@,
            ip: self.ip@,
            is_loopback: self.is_loopback,
            is_ipv4: self.is_ipv4,
            broadcast: self.broadcast.deep_view(),
        }
    }
}

/// Whether an address stands for all addresses of the machine.
pub open spec fn is_unspecified(ip: Seq<char>) -> bool {
    ip == "0.0.0.0"@ || ip == "::"@
}

/// The broadcast address of an IPv4 interface.
pub open spec fn broadcast_of(interface: InterfaceView) -> Seq<Seq<char>> {
    match interface.broadcast {
        Some(address) => if interface.is_ipv4 {
            seq![address]
        } else {
            seq![]
        },
        None => seq![],
    }
}

/// The broadcast addresses of all interfaces but the loopback ones.
pub open spec fn all_broadcasts(interfaces: Seq<InterfaceView>) -> Seq<Seq<char>>
    decreases interfaces.len(),
{
    if interfaces.len() == 0 {
        seq![]
    } else {
        let before = all_broadcasts(interfaces.drop_last());
        if interfaces.last().is_loopback {
            before
        } else {
            before + broadcast_of(interfaces.last())
        }
    }
}

/// The first interface with an address.
pub open spec fn interface_at(interfaces: Seq<InterfaceView>, ip: Seq<char>) -> Option<InterfaceView>
    decreases interfaces.len(),
{
    if interfaces.len() == 0 {
        None
    } else if interfaces[0].ip == ip {
        Some(interfaces[0])
    } else {
        interface_at(interfaces.drop_first(), ip)
    }
}

/// The addresses that a node bound to `ip` broadcasts to: those of its interfaces, or everybody's
/// where there is none.
pub open spec fn broadcast_addresses(ip: Seq<char>, interfaces: Seq<InterfaceView>) -> Seq<Seq<char>> {
    let found = if is_unspecified(ip) {
        all_broadcasts(interfaces)
    } else {
        match interface_at(interfaces, ip) {
            Some(interface) => broadcast_of(interface),
            None => seq![],
        }
    };
    if found.len() == 0 {
        seq!["255.255.255.255"@]
    } else {
        found
    }
}

/// What the discovery of peers goes by.
#[derive(Debug)]
pub struct DiscoveryService {
    pub app_port: u16,
    pub node_id: String,
    pub bind_ip: String,
    pub is_running: bool,
    pub broadcasting: bool,
}

/// What the discovery of peers goes by, as a value.
pub ghost struct DiscoveryView {
    pub app_port: u16,
    pub node_id: Seq<char>,
    pub bind_ip: Seq<char>,
    pub is_running: bool,
    pub broadcasting: bool,
}

impl View for DiscoveryService {
    type V = DiscoveryView;

    open spec fn view(&self) -> DiscoveryView {
        DiscoveryView {
            app_port: self.app_port,
            node_id: self.node_id@,
            bind_ip: self.bind_ip@,
            is_running: self.is_running,
            broadcasting: self.broadcasting,
        }
    }
}

/// How often the service looks what to do, in milliseconds.
pub const BEAT_MILLIS: u64 = 100;

/// How many beats a round has. The service broadcasts once in a round.
pub const ROUND_BEATS: u64 = 30;

/// What the service does at a beat.
#[derive(Clone, Copy, Debug, PartialEq, Eq, Structural)]
pub enum Beat {
    Broadcast,
    Wait,
    Stop,
}

/// What the service does at the given beat, the first being 0: it broadcasts at the start of
/// each round, where it is to.
pub open spec fn beat_at(service: DiscoveryView, beat: nat) -> Beat {
    if !service.is_running {
        Beat::Stop
    } else if beat % (ROUND_BEATS as nat) == 0 && service.broadcasting {
        Beat::Broadcast
    } else {
        Beat::Wait
    }
}

/// A service that broadcasts does so exactly once in as many beats as a round has, wherever
/// they start.
pub proof fn one_broadcast_in_a_round(service: DiscoveryView, from: nat) -> (at: nat)
    requires
        service.is_running,
        service.broadcasting,
    ensures
        from <= at < from + ROUND_BEATS,
        beat_at(service, at) == Beat::Broadcast,
        forall|beat: nat|
            from <= beat < from + ROUND_BEATS && beat != at ==> #[trigger] beat_at(service, beat) == Beat::Wait,
{
    ((from + 29) / 30 * 30) as nat
}

impl DiscoveryService {
    /// Tells what to do at the given beat.
    pub fn beat(&self, beat: u64) -> (res: Beat)
        ensures
            res == beat_at(self@, beat as nat),
    {
        if !self.is_running {
            Beat::Stop
        } else if beat % ROUND_BEATS == 0 && self.broadcasting {
            Beat::Broadcast
        } else {
            Beat::Wait
        }
    }

    /// A service that is not running yet, and broadcasts once it is.
    pub fn new(app_port: u16, node_id: String, bind_ip: String) -> (res: DiscoveryService)
        ensures
            res@ == (DiscoveryView {
                app_port,
                node_id: node_id@,
                bind_ip: bind_ip@,
                is_running: false,
                broadcasting: true,
            }),
    {
        DiscoveryService { app_port, node_id, bind_ip, is_running: false, broadcasting: true }
    }

    /// Starts the service.
    pub fn start(&mut self)
        ensures
            final(self)@ == (DiscoveryView { is_running: true, ..old(self)@ }),
            final(self)@.broadcasting == old(self)@.broadcasting,
            beat_at(final(self)@, 0) != Beat::Stop,
    {
        self.is_running = true;
    }

    /// Stops the service.
    pub fn stop(&mut self)
        ensures
            final(self)@ == (DiscoveryView { is_running: false, ..old(self)@ }),
            final(self)@.broadcasting == old(self)@.broadcasting,
            beat_at(final(self)@, 0) == Beat::Stop,
    {
        self.is_running = false;
    }

    /// Lets the service broadcast, or not.
    pub fn set_broadcasting(&mut self, enabled: bool)
        ensures
            final(self)@ == (DiscoveryView { broadcasting: enabled, ..old(self)@ }),
            final(self)@.is_running == old(self)@.is_running,
            old(self)@.is_running ==> (beat_at(final(self)@, 0) == Beat::Broadcast <==> enabled),
    {
        self.broadcasting = enabled;
    }

    /// Whether the service broadcasts.
    pub fn is_broadcasting(&self) -> (res: bool)
        ensures
            res == self@.broadcasting,
    {
        self.broadcasting
    }

    /// What the service broadcasts.
    pub fn payload(&self, version: &str) -> (res: String)
        ensures
            res@ == announcement(version@, self@.app_port, self@.node_id),
    {
        let header = text2("PATRONUSv", version);
        let port = decimal_text(self.app_port as u64);
        text5(header.as_str(), "|", port.as_str(), "|", self.node_id.as_str())
    }

    /// Takes a broadcast from an address.
    pub fn packet_received(&self, version: &str, data: &[u8], ip: &str) -> (res: Option<UiEvent>)
        ensures
            res.deep_view() == heard(self@.node_id, version@, utf8_lossy(data@), ip@),
    {
        let text = text_from_utf8(data);
        self.text_received(version, text.as_str(), ip)
    }

    /// Takes the text of a broadcast from an address.
    pub fn text_received(&self, version: &str, text: &str, ip: &str) -> (res: Option<UiEvent>)
        ensures
            res.deep_view() == heard(self@.node_id, version@, text@, ip@),
    {
        let parts = split(text, '|');
        let ghost views = parts.deep_view();
        if parts.len() != 3 {
            return None;
        }
        assert(views[0] == parts@[0]@ && views[1] == parts@[1]@ && views[2] == parts@[2]@);
        let header = text2("PATRONUSv", version);
        if !same_text(parts[0].as_str(), header.as_str()) {
            return None;
        }
        if same_text(parts[2].as_str(), self.node_id.as_str()) {
            return None;
        }
        Some(
            UiEvent::PeerUpdate {
                id: parts[2].clone(),
                name: take_chars(parts[2].as_str(), 8),
                addr: text3(ip, ":", parts[1].as_str()),
            },
        )
    }
}

fn push_broadcast(out: &mut Vec<String>, interface: &Interface)
    ensures
        final(out).deep_view() == old(out).deep_view() + broadcast_of(interface.deep_view()),
{
    let ghost before = out.deep_view();
    if interface.is_ipv4 {
        if let Some(address) = &interface.broadcast {
            out.push(address.clone());
            assert(out.deep_view() =~= before + seq![address@]);
        }
    }
    assert(before + Seq::<Seq<char>>::empty() =~= before);
}

/// Lists the addresses that a node bound to `bind_ip` broadcasts to.
pub fn get_broadcast_addresses(bind_ip: &str, interfaces: &Vec<Interface>) -> (res: Vec<String>)
    ensures
        res.deep_view() == broadcast_addresses(bind_ip@, interfaces.deep_view()),
{
    let ghost all = interfaces.deep_view();
    let mut out: Vec<String> = Vec::new();
    assert(out.deep_view() =~= seq![]);
    let mut i: usize = 0;
    if same_text(bind_ip, "0.0.0.0") || same_text(bind_ip, "::") {
        while i < interfaces.len()
            invariant
                i <= interfaces@.len(),
                all == interfaces.deep_view(),
                out.deep_view() == all_broadcasts(all.take(i as int)),
            decreases interfaces@.len() - i,
        {
            assert(all.take(i + 1).drop_last() =~= all.take(i as int));
            assert(all.take(i + 1).last() == interfaces@[i as int].deep_view());
            if !interfaces[i].is_loopback {
                push_broadcast(&mut out, &interfaces[i]);
            }
            i = i + 1;
        }
        assert(all.take(i as int) =~= all);
    } else {
        let mut found = false;
        assert(all.skip(0) =~= all);
        while i < interfaces.len() && !found
            invariant
                i <= interfaces@.len(),
                all == interfaces.deep_view(),
                !found ==> out.deep_view() == Seq::<Seq<char>>::empty() && interface_at(all, bind_ip@)
                    == interface_at(all.skip(i as int), bind_ip@),
                found ==> interface_at(all, bind_ip@) is Some && out.deep_view() == broadcast_of(
                    interface_at(all, bind_ip@)->0,
                ),
            decreases interfaces@.len() - i,
        {
            assert(all.skip(i as int)[0] == interfaces@[i as int].deep_view());
            assert(all.skip(i as int).drop_first() =~= all.skip(i + 1));
            if same_text(interfaces[i].ip.as_str(), bind_ip) {
                push_broadcast(&mut out, &interfaces[i]);
                assert(out.deep_view() =~= broadcast_of(interfaces@[i as int].deep_view()));
                found = true;
            }
            i = i + 1;
        }
    }
    if out.len() == 0 {
        out.push("255.255.255.255".to_owned());
        assert(out.deep_view() =~= seq!["255.255.255.255"@]);
    }
    out
}

proof fn lemma_split_plain(s: Seq<char>, separator: char)
    requires
        !s.contains(separator),
    ensures
        split_parts(s, separator) == seq![s],
    decreases s.len(),
{
    if s.len() > 0 {
        let rest = s.drop_last();
        assert(s.contains(s.last()));
        assert(!rest.contains(separator)) by {
            if rest.contains(separator) {
                let i = choose|i: int| 0 <= i < rest.len() && rest[i] == separator;
                assert(s[i] == separator);
            }
        }
        lemma_split_plain(rest, separator);
        assert(rest.push(s.last()) =~= s);
        assert(split_parts(s, separator) =~= seq![s]);
    } else {
        assert(s =~= seq![]);
    }
}

proof fn lemma_split_joined(a: Seq<char>, b: Seq<char>, separator: char)
    ensures
        split_parts(a + seq![separator] + b, separator) == split_parts(a, separator) + split_parts(b, separator),
    decreases b.len(),
{
    let text = a + seq![separator] + b;
    if b.len() == 0 {
        assert(text.drop_last() =~= a);
        assert(split_parts(text, separator) =~= split_parts(a, separator) + split_parts(b, separator));
    } else {
        lemma_split_joined(a, b.drop_last(), separator);
        lemma_split_some(b.drop_last(), separator);
        assert(text.drop_last() =~= a + seq![separator] + b.drop_last());
        assert(split_parts(text, separator) =~= split_parts(a, separator) + split_parts(b, separator));
    }
}

proof fn lemma_split_some(s: Seq<char>, separator: char)
    ensures
        split_parts(s, separator).len() > 0,
    decreases s.len(),
{
    if s.len() > 0 {
        lemma_split_some(s.drop_last(), separator);
    }
}

proof fn lemma_decimal_plain(n: nat)
    ensures
        !decimal(n).contains('|'),
    decreases n,
{
    if n >= 10 {
        lemma_decimal_plain(n / 10);
        assert forall|i: int| 0 <= i < decimal(n).len() implies decimal(n)[i] != '|' by {
            if i < decimal(n / 10).len() {
                assert(decimal(n / 10)[i] == decimal(n)[i]);
            }
        }
    }
}

/// A node that hears what another of the same version broadcasts learns its id, and reaches it
/// at its port. It takes no notice of its own broadcast.
pub proof fn announcement_is_heard(
    own_id: Seq<char>,
    version: Seq<char>,
    port: u16,
    id: Seq<char>,
    ip: Seq<char>,
)
    requires
        !version.contains('|'),
        !id.contains('|'),
    ensures
        heard(own_id, version, announcement(version, port, id), ip) == if id == own_id {
            None
        } else {
            Some(
                EventView::PeerUpdate {
                    id,
                    name: first_chars(id, 8),
                    addr: ip + ":"@ + decimal(port as nat),
                },
            )
        },
{
    let header = magic_header(version);
    let number = decimal(port as nat);
    let text = announcement(version, port, id);
    reveal_strlit("|");
    reveal_strlit("PATRONUSv");
    assert("|"@ =~= seq!['|']);
    assert(!header.contains('|')) by {
        if header.contains('|') {
            let i = choose|i: int| 0 <= i < header.len() && header[i] == '|';
            if i >= 9 {
                assert(version[i - 9] == '|');
            }
        }
    }
    lemma_decimal_plain(port as nat);
    lemma_split_plain(header, '|');
    lemma_split_plain(number, '|');
    lemma_split_plain(id, '|');
    lemma_split_joined(header, number, '|');
    lemma_split_joined(header + "|"@ + number, id, '|');
    assert(split_parts(text, '|') =~= seq![header, number, id]);
}

/// A node broadcasts its version behind a fixed word, its port in decimal and its id, with bars
/// between them.
pub proof fn announcement_names_all(version: Seq<char>, port: u16, id: Seq<char>)
    ensures
        announcement(version, port, id) == "PATRONUSv"@ + version + "|"@ + decimal(port as nat) + "|"@ + id,
{
}

/// Whatever a node takes notice of is a broadcast in that form, by a node of the same version that
/// is not itself; and what it makes of it is that the node has the id and the port that stand
/// there, at the address that the broadcast came from, and is called by how the id starts.
pub proof fn only_announcements_are_heard(own_id: Seq<char>, version: Seq<char>, text: Seq<char>, ip: Seq<char>)
    ensures
        heard(own_id, version, text, ip) matches Some(event) ==> (event matches EventView::PeerUpdate { id, name, addr }
            && id != own_id && name.is_prefix_of(id) && name.len() == (if id.len() < 8 {
            id.len()
        } else {
            8
        }) && exists|port: Seq<char>|
            #![trigger ip + ":"@ + port]
            addr == ip + ":"@ + port && text == "PATRONUSv"@ + version + "|"@ + port + "|"@ + id),
{
    if heard(own_id, version, text, ip) is Some {
        joining_undoes_split(text, '|');
        reveal_strlit("|");
        assert("|"@ =~= seq!['|']);
        let parts = split_parts(text, '|');
        assert(parts.drop_last().drop_last() =~= seq![parts[0]]);
        assert(parts.drop_last().last() == parts[1]);
        assert(parts.last() == parts[2]);
        assert(joined(parts.drop_last().drop_last(), "|"@) == parts[0]);
        assert(joined(parts.drop_last(), "|"@) == parts[0] + "|"@ + parts[1]);
        assert(joined(parts, "|"@) == parts[0] + "|"@ + parts[1] + "|"@ + parts[2]);
        let addr = ip + ":"@ + parts[1];
        assert(text == "PATRONUSv"@ + version + "|"@ + parts[1] + "|"@ + parts[2]);
    }
}

/// A service that runs and is to broadcast does so at every thirtieth beat, and at no other; one
/// that does not run stops.
pub proof fn every_thirtieth_beat_is_heard(service: DiscoveryView, round: nat, rest: nat)
    requires
        rest < 30,
    ensures
        !service.is_running ==> beat_at(service, 30 * round + rest) == Beat::Stop,
        service.is_running && service.broadcasting && rest == 0 ==> beat_at(service, 30 * round + rest)
            == Beat::Broadcast,
        service.is_running && !(service.broadcasting && rest == 0) ==> beat_at(service, 30 * round + rest)
            == Beat::Wait,
{
    assert((30 * round + rest) % 30 == rest);
}

/// Where a node is bound to all addresses, each interface but the loopback ones adds its IPv4
/// broadcast address behind the others, if it has one; without any, everybody's is taken.
pub proof fn all_interfaces_broadcast(interfaces: Seq<InterfaceView>, more: InterfaceView, ip: Seq<char>)
    requires
        ip == "0.0.0.0"@ || ip == "::"@,
    ensures
        all_broadcasts(seq![]) == Seq::<Seq<char>>::empty(),
        all_broadcasts(interfaces.push(more)) == all_broadcasts(interfaces) + (match more.broadcast {
            Some(address) => if !more.is_loopback && more.is_ipv4 {
                seq![address]
            } else {
                seq![]
            },
            None => seq![],
        }),
        all_broadcasts(interfaces).len() > 0 ==> broadcast_addresses(ip, interfaces) == all_broadcasts(interfaces),
        all_broadcasts(interfaces).len() == 0 ==> broadcast_addresses(ip, interfaces) == seq!["255.255.255.255"@],
{
    assert(interfaces.push(more).drop_last() =~= interfaces);
    let before = all_broadcasts(interfaces);
    assert(before + Seq::<Seq<char>>::empty() =~= before);
}

/// Where a node is bound to one address, it broadcasts to the IPv4 broadcast address of the first
/// interface that has the address, if there is one, else to everybody's.
pub proof fn one_interface_broadcasts(interfaces: Seq<InterfaceView>, k: int, ip: Seq<char>)
    requires
        ip != "0.0.0.0"@ && ip != "::"@,
    ensures
        0 <= k < interfaces.len() && interfaces[k].ip == ip && (forall|j: int|
            0 <= j < k ==> (#[trigger] interfaces[j]).ip != ip) ==> broadcast_addresses(ip, interfaces) == (match interfaces[k].broadcast {
            Some(address) => if interfaces[k].is_ipv4 {
                seq![address]
            } else {
                seq!["255.255.255.255"@]
            },
            None => seq!["255.255.255.255"@],
        }),
        (forall|j: int| 0 <= j < interfaces.len() ==> (#[trigger] interfaces[j]).ip != ip) ==> broadcast_addresses(
            ip,
            interfaces,
        ) == seq!["255.255.255.255"@],
{
    lemma_interface_at(interfaces, k, ip);
}

proof fn lemma_interface_at(interfaces: Seq<InterfaceView>, k: int, ip: Seq<char>)
    ensures
        0 <= k < interfaces.len() && interfaces[k].ip == ip && (forall|j: int|
            0 <= j < k ==> (#[trigger] interfaces[j]).ip != ip) ==> interface_at(interfaces, ip) == Some(interfaces[k]),
        (forall|j: int| 0 <= j < interfaces.len() ==> (#[trigger] interfaces[j]).ip != ip) ==> interface_at(
            interfaces,
            ip,
        ) is None,
    decreases interfaces.len(),
{
    if interfaces.len() > 0 {
        let rest = interfaces.drop_first();
        lemma_interface_at(rest, k - 1, ip);
        assert(forall|j: int| 0 <= j < rest.len() ==> #[trigger] rest[j] == interfaces[j + 1]);
        if 0 < k < interfaces.len() {
            assert(rest[k - 1] == interfaces[k]);
        }
    }
}

}
