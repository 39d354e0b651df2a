//! What the user interface shows, as text.
use crate::autocomplete::{cut_at_directory, dir_len, directory_ends_at_last_slash};
use crate::discovery::{Interface, InterfaceView};
use crate::names::{map_holds_entries, map_of};
use crate::text::{
    chars_of, decimal, decimal_text, find_last, same_text, string_of, text2, text3, text5,
};
use crate::ttl::{format_ttl, ttl_text};
use crate::tui::{App, AppView, FileTransfer, MessageView, TransferView};
use vstd::prelude::*;
use vstd::string::*;

verus! {

/// A peer as it is listed.
#[derive(Debug)]
pub struct PeerRow {
    pub name: String,
    pub status: String,
    pub id: String,
    pub is_selected: bool,
}

/// A peer as it is listed, as a value.
pub ghost struct PeerRowView {
    pub name: Seq<char>,
    pub status: Seq<char>,
    pub id: Seq<char>,
    pub is_selected: bool,
}

impl DeepView for PeerRow {
    type V = PeerRowView;

    open spec fn deep_view(&self) -> PeerRowView {
        PeerRowView { name: self.name@, status: self.status@, id: self.id@, is_selected: self.is_selected }
    }
}

/// Whose message it is.
#[derive(Clone, Copy, Debug, PartialEq, Eq, Structural)]
pub enum Sender {
    System,
    Me,
    Peer,
}

/// A message as it is shown.
#[derive(Debug)]
pub struct ChatRow {
    pub label: String,
    pub content: String,
    pub sender: Sender,
}

/// A message as it is shown, as a value.
pub ghost struct ChatRowView {
    pub label: Seq<char>,
    pub content: Seq<char>,
    pub sender: Sender,
}

impl DeepView for ChatRow {
    type V = ChatRowView;

    open spec fn deep_view(&self) -> ChatRowView {
        ChatRowView { label: self.label@, content: self.content@, sender: self.sender }
    }
}

/// Whether a peer is connected, as text.
pub open spec fn status_text(app: AppView, id: Seq<char>) -> Seq<char> {
    if app.peers.contains_key(id) && app.peers[id].1 != "Offline"@ {
        " [Connected]"@
    } else {
        " [Offline]"@
    }
}

/// The peers as they are listed.
pub open spec fn peer_row_views(app: AppView) -> Seq<PeerRowView> {
    Seq::new(
        app.peer_ids.len(),
        |i: int|
            PeerRowView {
                name: app.display_name(app.peer_ids[i]),
                status: status_text(app, app.peer_ids[i]),
                id: app.peer_ids[i],
                is_selected: i == app.selected,
            },
    )
}

/// A message as it is shown.
pub open spec fn chat_row_view(app: AppView, message: MessageView) -> ChatRowView {
    let sender = if message.is_system {
        Sender::System
    } else if message.from == "Me"@ {
        Sender::Me
    } else {
        Sender::Peer
    };
    let name = if sender == Sender::Peer {
        app.display_name(message.from)
    } else {
        message.from
    };
    ChatRowView { label: name + ": "@, content: message.content, sender }
}

/// The messages of the channel that is shown, the latest first.
pub open spec fn chat_row_views(app: AppView) -> Seq<ChatRowView> {
    let messages = app.channel(app.active_channel());
    Seq::new(messages.len(), |i: int| chat_row_view(app, messages[messages.len() - 1 - i]))
}

/// The phrase of the last handshake.
pub open spec fn identity_text(app: AppView) -> Seq<char> {
    match app.identity_phrase {
        Some(phrase) => phrase,
        None => "Waiting for handshake..."@,
    }
}

/// How long messages are kept, as it is shown.
pub open spec fn ttl_info_text(app: AppView) -> Seq<char> {
    match app.current_ttl {
        Some(secs) => " | TTL: "@ + ttl_text(secs as nat),
        None => seq![],
    }
}

/// The interface, as it is shown.
pub open spec fn interface_info_text(app: AppView) -> Seq<char> {
    match app.selected_interface {
        Some((name, ip)) => " | Interface: "@ + name + " ("@ + ip + ")"@,
        None => match app.default_interface {
            Some((name, ip)) => " | Interface: All (0.0.0.0) [default: "@ + name + " ("@ + ip + ")]"@,
            None => " | Interface: All (0.0.0.0)"@,
        },
    }
}

/// A suggestion as it is shown: without its directory, where there is something else.
pub open spec fn suggestion_text(suggestion: Seq<char>) -> Seq<char> {
    let name = suggestion.skip(dir_len(suggestion));
    if name.len() == 0 {
        suggestion
    } else {
        name
    }
}

/// The suggestions as they are shown; the current one is marked.
pub open spec fn suggestion_texts(matches: Seq<Seq<char>>, index: int) -> Seq<Seq<char>> {
    Seq::new(
        matches.len(),
        |i: int|
            if i == index {
                "[ "@ + suggestion_text(matches[i]) + " ]"@
            } else {
                suggestion_text(matches[i])
            },
    )
}

/// The interface that the node is bound to.
pub open spec fn bound_text(app: AppView) -> Seq<char> {
    match app.selected_interface {
        Some((name, ip)) => name + " ("@ + ip + ")"@,
        None => "All interfaces (0.0.0.0)"@,
    }
}

/// An address with the port of the node.
pub open spec fn address_line(ip: Seq<char>, port: u16) -> Seq<char> {
    "  - "@ + ip + ":"@ + decimal(port as nat)
}

/// The addresses of the IPv4 interfaces that are no loopback.
pub open spec fn interface_addresses(interfaces: Seq<InterfaceView>, port: u16) -> Seq<Seq<char>>
    decreases interfaces.len(),
{
    if interfaces.len() == 0 {
        seq![]
    } else {
        let before = interface_addresses(interfaces.drop_last(), port);
        let last = interfaces.last();
        if !last.is_loopback && last.is_ipv4 {
            before.push(address_line(last.ip, port) + " ("@ + last.name + ")"@)
        } else {
            before
        }
    }
}

/// The addresses that others can connect to.
pub open spec fn addresses(app: AppView, interfaces: Seq<InterfaceView>) -> Seq<Seq<char>> {
    match app.selected_interface {
        Some((_, ip)) => seq![address_line(ip, app.app_port)],
        None => {
            let found = interface_addresses(interfaces, app.app_port);
            if found.len() > 0 {
                found
            } else {
                match app.default_interface {
                    Some((_, ip)) => seq![address_line(ip, app.app_port)],
                    None => seq!["  - 127.0.0.1 (Loopback only)"@],
                }
            }
        },
    }
}

fn address(ip: &str, port: u16) -> (res: String)
    ensures
        res@ == address_line(ip@, port),
{
    let mut out = text3("  - ", ip, ":");
    out.append(decimal_text(port as u64).as_str());
    out
}

fn shown_suggestion(suggestion: &str) -> (res: String)
    ensures
        res@ == suggestion_text(suggestion@),
{
    let chars = chars_of(suggestion);
    let total: usize = chars.len();
    let len: usize = match find_last(&chars, '/') {
        Some(i) => i + 1,
        None => match find_last(&chars, '\\') {
            Some(i) => i + 1,
            None => 0,
        },
    };
    assert(len == dir_len(suggestion@));
    if len == total {
        assert(suggestion@.skip(len as int).len() == 0);
        return suggestion.to_owned();
    }
    let out = string_of(&chars, len, total);
    assert(out@ =~= suggestion@.skip(len as int));
    out
}

impl App {
    /// Lists the peers.
    pub fn peer_rows(&self) -> (res: Vec<PeerRow>)
        ensures
            res.deep_view() == peer_row_views(self@),
    {
        let mut out: Vec<PeerRow> = Vec::new();
        let mut i: usize = 0;
        while i < self.peer_ids.len()
            invariant
                i <= self.peer_ids@.len(),
                out@.len() == i,
                forall|j: int| 0 <= j < i ==> (#[trigger] out@[j]).deep_view() == peer_row_views(self@)[j],
            decreases self.peer_ids@.len() - i,
        {
            let id = self.peer_ids[i].clone();
            let is_offline = match self.peers.get(id.as_str()) {
                Some(peer) => same_text(peer.1.as_str(), "Offline"),
                None => true,
            };
            let status = if is_offline { " [Offline]".to_owned() } else { " [Connected]".to_owned() };
            out.push(
                PeerRow { name: self.get_display_name(id.as_str()), status, id, is_selected: i == self.selected },
            );
            i = i + 1;
        }
        assert(out.deep_view() =~= peer_row_views(self@));
        out
    }

    /// Lists the messages of the channel that is shown, the latest first.
    pub fn chat_rows(&self) -> (res: Vec<ChatRow>)
        requires
            self@.wf(),
        ensures
            res.deep_view() == chat_row_views(self@),
    {
        let channel = self.active_channel();
        let mut out: Vec<ChatRow> = Vec::new();
        let messages = match self.messages.get(channel.as_str()) {
            Some(messages) => messages,
            None => {
                assert(out.deep_view() =~= chat_row_views(self@));
                return out;
            },
        };
        let ghost all = self@.channel(self@.active_channel());
        assert(all == messages.deep_view());
        let len: usize = messages.len();
        let mut i: usize = 0;
        while i < len
            invariant
                i <= len == messages@.len(),
                all == messages.deep_view(),
                all == self@.channel(self@.active_channel()),
                out@.len() == i,
                forall|j: int| 0 <= j < i ==> (#[trigger] out@[j]).deep_view() == chat_row_views(self@)[j],
            decreases len - i,
        {
            let message = &messages[len - 1 - i];
            assert(all[len - 1 - i] == message.deep_view());
            let sender = if message.is_system {
                Sender::System
            } else if same_text(message.from.as_str(), "Me") {
                Sender::Me
            } else {
                Sender::Peer
            };
            let name = match sender {
                Sender::Peer => self.get_display_name(message.from.as_str()),
                _ => message.from.clone(),
            };
            out.push(ChatRow { label: text2(name.as_str(), ": "), content: message.content.clone(), sender });
            i = i + 1;
        }
        assert(out.deep_view() =~= chat_row_views(self@));
        out
    }

    /// Shows the phrase of the last handshake.
    pub fn identity(&self) -> (res: String)
        ensures
            res@ == identity_text(self@),
    {
        match &self.identity_phrase {
            Some(phrase) => phrase.clone(),
            None => "Waiting for handshake...".to_owned(),
        }
    }

    /// Shows how long messages are kept.
    pub fn ttl_info(&self) -> (res: String)
        ensures
            res@ == ttl_info_text(self@),
    {
        match self.current_ttl {
            Some(secs) => text2(" | TTL: ", format_ttl(secs).as_str()),
            None => {
                let none = String::new();
                assert(none@ =~= seq![]);
                none
            },
        }
    }

    /// Shows the interface.
    pub fn interface_info(&self) -> (res: String)
        ensures
            res@ == interface_info_text(self@),
    {
        if let Some((name, ip)) = &self.selected_interface {
            return text5(" | Interface: ", name.as_str(), " (", ip.as_str(), ")");
        }
        if let Some((name, ip)) = &self.default_interface {
            return text5(" | Interface: All (0.0.0.0) [default: ", name.as_str(), " (", ip.as_str(), ")]");
        }
        " | Interface: All (0.0.0.0)".to_owned()
    }

    /// Shows the suggestions.
    pub fn suggestion_rows(&self) -> (res: Vec<String>)
        ensures
            res.deep_view() == match self@.autocomplete {
                Some(state) => suggestion_texts(state.matches, state.index),
                None => seq![],
            },
    {
        let mut out: Vec<String> = Vec::new();
        let state = match &self.autocomplete {
            Some(state) => state,
            None => {
                assert(out.deep_view() =~= seq![]);
                return out;
            },
        };
        let ghost all = state.matches.deep_view();
        let ghost shown = suggestion_texts(all, state.index as int);
        let mut i: usize = 0;
        while i < state.matches.len()
            invariant
                i <= state.matches@.len(),
                all == state.matches.deep_view(),
                shown == suggestion_texts(all, state.index as int),
                out@.len() == i,
                forall|j: int| 0 <= j < i ==> (#[trigger] out@[j])@ == shown[j],
            decreases state.matches@.len() - i,
        {
            let text = shown_suggestion(state.matches[i].as_str());
            assert(all[i as int] == state.matches@[i as int]@);
            if i == state.index {
                out.push(text3("[ ", text.as_str(), " ]"));
            } else {
                out.push(text);
            }
            i = i + 1;
        }
        assert(out.deep_view() =~= shown);
        out
    }

    /// Picks a file that is being transferred, if there is one.
    pub fn current_transfer(&self) -> (res: Option<&FileTransfer>)
        ensures
            match res {
                Some(transfer) => exists|name: Seq<char>|
                    self@.active_file_transfers.contains_key(name) && #[trigger] self@.active_file_transfers[name]
                        == transfer.deep_view(),
                None => self@.active_file_transfers =~= Map::<Seq<char>, TransferView>::empty(),
            },
    {
        let entries = self.active_file_transfers.entries();
        let ghost all = entries.deep_view();
        proof {
            map_holds_entries(all);
        }
        if entries.len() == 0 {
            assert(map_of(all) =~= Map::<Seq<char>, TransferView>::empty());
            return None;
        }
        assert(all[0] == (entries@[0].0@, entries@[0].1.deep_view()));
        assert(self@.active_file_transfers[all[0].0] == entries@[0].1.deep_view());
        Some(&entries[0].1)
    }

    /// Shows the interface that the node is bound to.
    pub fn bound_interface(&self) -> (res: String)
        ensures
            res@ == bound_text(self@),
    {
        match &self.selected_interface {
            Some((name, ip)) => {
                let mut out = text3(name.as_str(), " (", ip.as_str());
                out.append(")");
                out
            },
            None => "All interfaces (0.0.0.0)".to_owned(),
        }
    }

    /// Lists the addresses that others can connect to.
    pub fn connection_addresses(&self, interfaces: &Vec<Interface>) -> (res: Vec<String>)
        ensures
            res.deep_view() == addresses(self@, interfaces.deep_view()),
    {
        let mut out: Vec<String> = Vec::new();
        if let Some((_, ip)) = &self.selected_interface {
            out.push(address(ip.as_str(), self.app_port));
            assert(out.deep_view() =~= addresses(self@, interfaces.deep_view()));
            return out;
        }
        let ghost all = interfaces.deep_view();
        let mut i: usize = 0;
        assert(out.deep_view() =~= interface_addresses(all.take(0), self@.app_port));
        while i < interfaces.len()
            invariant
                i <= interfaces@.len(),
                all == interfaces.deep_view(),
                out.deep_view() == interface_addresses(all.take(i as int), self@.app_port),
            decreases interfaces@.len() - i,
        {
            let ghost before = out.deep_view();
            proof {
                assert(all.take(i + 1).drop_last() =~= all.take(i as int));
                assert(all.take(i + 1).last() == interfaces@[i as int].deep_view());
            }
            if !interfaces[i].is_loopback && interfaces[i].is_ipv4 {
                let mut line = address(interfaces[i].ip.as_str(), self.app_port);
                line.append(" (");
                line.append(interfaces[i].name.as_str());
                line.append(")");
                let ghost view = line@;
                out.push(line);
                assert(out.deep_view() =~= before.push(view));
            }
            i = i + 1;
        }
        assert(all.take(i as int) =~= all);
        if out.len() == 0 {
            let line = match &self.default_interface {
                Some((_, ip)) => address(ip.as_str(), self.app_port),
                None => "  - 127.0.0.1 (Loopback only)".to_owned(),
            };
            let ghost view = line@;
            out.push(line);
            assert(out.deep_view() =~= seq![view]);
        }
        out
    }
}

/// Each peer that is listed has its row, in the same order: with the name that it is called by,
/// with its id, and with whether it is connected, which is whether its address is known. Only the
/// row of the selected peer is marked.
pub proof fn peers_have_their_rows(app: AppView, i: int)
    requires
        0 <= i < app.peer_ids.len(),
    ensures
        ({
            let row = peer_row_views(app)[i];
            let id = app.peer_ids[i];
            &&& peer_row_views(app).len() == app.peer_ids.len()
            &&& row.id == id
            &&& row.name == app.display_name(id)
            &&& row.is_selected <==> i == app.selected
            &&& app.peers.contains_key(id) && app.peers[id].1 != "Offline"@ ==> row.status == " [Connected]"@
            &&& app.peers.contains_key(id) && app.peers[id].1 == "Offline"@ ==> row.status == " [Offline]"@
            &&& !app.peers.contains_key(id) ==> row.status == " [Offline]"@
        }),
{
}

/// The channel is shown from its latest message back to its first, each with its text: what the
/// system says in its name, what the user says in theirs, and what a peer says under the name
/// that the peer is called by.
pub proof fn messages_have_their_rows(app: AppView, messages: Seq<MessageView>, i: int)
    requires
        app.messages.contains_key(app.active_channel()),
        messages == app.messages[app.active_channel()],
        0 <= i < messages.len(),
    ensures
        ({
            let row = chat_row_views(app)[messages.len() - 1 - i];
            &&& chat_row_views(app).len() == messages.len()
            &&& row.content == messages[i].content
            &&& row.sender == Sender::System <==> messages[i].is_system
            &&& row.sender == Sender::Me <==> !messages[i].is_system && messages[i].from == "Me"@
            &&& messages[i].is_system ==> row.label == messages[i].from + ": "@
            &&& !messages[i].is_system && messages[i].from == "Me"@ ==> row.label == "Me"@ + ": "@
            &&& !messages[i].is_system && messages[i].from != "Me"@ ==> row.label == app.display_name(messages[i].from)
                + ": "@
        }),
{
}

/// A channel without messages has no rows.
pub proof fn empty_channel_has_no_rows(app: AppView)
    requires
        !app.messages.contains_key(app.active_channel()),
    ensures
        chat_row_views(app).len() == 0,
{
}

/// The lines about the node say what is set: the phrase of the last handshake, how long messages
/// are kept, and the interface, each as it is and none that is not.
pub proof fn lines_say_what_is_set(app: AppView, phrase: Seq<char>, secs: u64, name: Seq<char>, ip: Seq<char>)
    ensures
        identity_text(AppView { identity_phrase: Some(phrase), ..app }) == phrase,
        identity_text(AppView { identity_phrase: None, ..app }) == "Waiting for handshake..."@,
        ttl_info_text(AppView { current_ttl: Some(secs), ..app }) == " | TTL: "@ + ttl_text(secs as nat),
        ttl_info_text(AppView { current_ttl: None, ..app }).len() == 0,
        interface_info_text(AppView { selected_interface: Some((name, ip)), ..app }) == " | Interface: "@ + name + " ("@
            + ip + ")"@,
        interface_info_text(AppView { selected_interface: None, default_interface: Some((name, ip)), ..app })
            == " | Interface: All (0.0.0.0) [default: "@ + name + " ("@ + ip + ")]"@,
        interface_info_text(AppView { selected_interface: None, default_interface: None, ..app })
            == " | Interface: All (0.0.0.0)"@,
        bound_text(AppView { selected_interface: Some((name, ip)), ..app }) == name + " ("@ + ip + ")"@,
        bound_text(AppView { selected_interface: None, ..app }) == "All interfaces (0.0.0.0)"@,
{
}

/// A suggestion is shown without the directory before its name, and as it is where there is no
/// name behind the directory. The current one, and no other, stands in brackets.
pub proof fn suggestions_are_shown_by_name(
    dir: Seq<char>,
    name: Seq<char>,
    matches: Seq<Seq<char>>,
    index: int,
    i: int,
)
    requires
        cut_at_directory(dir, name),
        0 <= i < matches.len(),
        matches[i] == dir + name,
    ensures
        ({
            let shown = if name.len() > 0 {
                name
            } else {
                dir
            };
            &&& suggestion_texts(matches, index).len() == matches.len()
            &&& i == index ==> suggestion_texts(matches, index)[i] == "[ "@ + shown + " ]"@
            &&& i != index ==> suggestion_texts(matches, index)[i] == shown
        }),
{
    directory_ends_at_last_slash(dir, name);
    assert((dir + name).skip(dir.len() as int) =~= name);
    assert(name.len() == 0 ==> dir + name =~= dir);
}

/// Others can connect to the address of the interface that the user named; else to those of all
/// IPv4 interfaces that are no loopback, in their order; else to that of the default one. Each
/// stands with the port of the node.
pub proof fn addresses_are_those_of_interfaces(
    app: AppView,
    interfaces: Seq<InterfaceView>,
    more: InterfaceView,
    name: Seq<char>,
    ip: Seq<char>,
)
    ensures
        addresses(AppView { selected_interface: Some((name, ip)), ..app }, interfaces) == seq![
            "  - "@ + ip + ":"@ + decimal(app.app_port as nat),
        ],
        app.selected_interface is None && !more.is_loopback && more.is_ipv4 ==> addresses(app, interfaces.push(more))
            == interface_addresses(interfaces, app.app_port).push(
            "  - "@ + more.ip + ":"@ + decimal(app.app_port as nat) + " ("@ + more.name + ")"@,
        ),
        more.is_loopback || !more.is_ipv4 ==> addresses(app, interfaces.push(more)) == addresses(app, interfaces),
        app.selected_interface is None && interface_addresses(interfaces, app.app_port).len() > 0 ==> addresses(
            app,
            interfaces,
        ) == interface_addresses(interfaces, app.app_port),
        addresses(AppView { selected_interface: None, default_interface: Some((name, ip)), ..app }, seq![]) == seq![
            "  - "@ + ip + ":"@ + decimal(app.app_port as nat),
        ],
        addresses(AppView { selected_interface: None, default_interface: None, ..app }, seq![]) == seq![
            "  - 127.0.0.1 (Loopback only)"@,
        ],
{
    assert(interfaces.push(more).drop_last() =~= interfaces);
}

}
