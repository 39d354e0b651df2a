//! What the user sees and types: the state of the user interface.
use crate::autocomplete::AutocompleteState;
use crate::names::{distinct_names, map_entries, map_holds_entries, map_of, map_of_mapped, NameMap};
use crate::order::{lemma_sorting_keeps, sort_named, sorted_by_name, sorting_is_stable, text_le, Named};
use crate::outbound::elapsed;
use crate::text::{first_chars, same_text, take_chars};
use vstd::prelude::*;
use vstd::string::*;

verus! {

/// A message of a channel.
#[derive(Clone, Debug)]
pub struct Message {
    pub from: String,
    pub content: String,
    pub is_system: bool,
    pub ttl: Option<u64>,
    /// When the message arrived, in milliseconds since the Unix epoch.
    pub received_at: u64,
}

/// A message of a channel, as a value.
pub ghost struct MessageView {
    pub from: Seq<char>,
    pub content: Seq<char>,
    pub is_system: bool,
    pub ttl: Option<u64>,
    pub received_at: u64,
}

impl DeepView for Message {
    type V = MessageView;

    open spec fn deep_view(&self) -> MessageView {
        MessageView {
            from: self.from@,
            content: self.content@,
            is_system: self.is_system,
            ttl: self.ttl,
            received_at: self.received_at,
        }
    }
}

/// A file that is being sent or received. Times are in milliseconds.
#[derive(Debug)]
pub struct FileTransfer {
    pub file_name: String,
    pub total_size: u64,
    pub bytes_transferred: u64,
    pub is_sending: bool,
    pub start_time: u64,
    /// When how many bytes were transferred, over the last moments.
    pub progress_history: Vec<(u64, u64)>,
}

/// A file that is being sent or received, as a value.
pub ghost struct TransferView {
    pub file_name: Seq<char>,
    pub total_size: u64,
    pub bytes_transferred: u64,
    pub is_sending: bool,
    pub start_time: u64,
    pub progress_history: Seq<(u64, u64)>,
}

impl DeepView for FileTransfer {
    type V = TransferView;

    open spec fn deep_view(&self) -> TransferView {
        TransferView {
            file_name: self.file_name@,
            total_size: self.total_size,
            bytes_transferred: self.bytes_transferred,
            is_sending: self.is_sending,
            start_time: self.start_time,
            progress_history: self.progress_history@,
        }
    }
}

/// The state of the user interface.
pub struct App {
    /// The messages of each channel.
    pub messages: NameMap<Vec<Message>>,
    /// The name and the address of each peer.
    pub peers: NameMap<(String, String)>,
    /// The peers, in the order in which they are shown.
    pub peer_ids: Vec<String>,
    pub custom_names: NameMap<String>,
    /// Which of the peers is selected.
    pub selected: usize,
    pub identity_phrase: Option<String>,
    pub input: String,
    pub rename_input: String,
    pub is_renaming: bool,
    pub is_showing_help: bool,
    pub is_showing_whoami: bool,
    pub app_port: u16,
    pub broadcasting: bool,
    pub autocomplete: Option<AutocompleteState>,
    pub current_ttl: Option<u64>,
    /// The name and the address of the interface that the user named.
    pub selected_interface: Option<(String, String)>,
    /// The name and the address of the interface that is used otherwise.
    pub default_interface: Option<(String, String)>,
    pub storage_key: Option<[u8; 32]>,
    pub config_dir: Option<String>,
    pub active_file_transfers: NameMap<FileTransfer>,
}

/// The suggestions that the user goes through, as a value.
pub ghost struct AutocompleteView {
    pub matches: Seq<Seq<char>>,
    pub index: int,
}

/// The state of the user interface, as a value.
pub ghost struct AppView {
    pub messages: Map<Seq<char>, Seq<MessageView>>,
    pub peers: Map<Seq<char>, (Seq<char>, Seq<char>)>,
    pub peer_ids: Seq<Seq<char>>,
    pub custom_names: Map<Seq<char>, Seq<char>>,
    pub selected: int,
    pub identity_phrase: Option<Seq<char>>,
    pub input: Seq<char>,
    pub rename_input: Seq<char>,
    pub is_renaming: bool,
    pub is_showing_help: bool,
    pub is_showing_whoami: bool,
    pub app_port: u16,
    pub broadcasting: bool,
    pub autocomplete: Option<AutocompleteView>,
    pub current_ttl: Option<u64>,
    pub selected_interface: Option<(Seq<char>, Seq<char>)>,
    pub default_interface: Option<(Seq<char>, Seq<char>)>,
    pub storage_key: Option<Seq<u8>>,
    pub config_dir: Option<Seq<char>>,
    pub active_file_transfers: Map<Seq<char>, TransferView>,
}

/// The suggestions as a value.
pub open spec fn autocomplete_view(state: Option<AutocompleteState>) -> Option<AutocompleteView> {
    match state {
        Some(state) => Some(AutocompleteView { matches: state.matches.deep_view(), index: state.index as int }),
        None => None,
    }
}

impl View for App {
    type V = AppView;

    open spec fn view(&self) -> AppView {
        AppView {
            messages: self.messages.deep_view(),
            peers: self.peers.deep_view(),
            peer_ids: self.peer_ids.deep_view(),
            custom_names: self.custom_names.deep_view(),
            selected: self.selected as int,
            identity_phrase: self.identity_phrase.deep_view(),
            input: self.input@,
            rename_input: self.rename_input@,
            is_renaming: self.is_renaming,
            is_showing_help: self.is_showing_help,
            is_showing_whoami: self.is_showing_whoami,
            app_port: self.app_port,
            broadcasting: self.broadcasting,
            autocomplete: autocomplete_view(self.autocomplete),
            current_ttl: self.current_ttl,
            selected_interface: self.selected_interface.deep_view(),
            default_interface: self.default_interface.deep_view(),
            storage_key: match self.storage_key {
                Some(key) => Some(key@),
                None => None,
            },
            config_dir: self.config_dir.deep_view(),
            active_file_transfers: self.active_file_transfers.deep_view(),
        }
    }
}

/// The channel of the system.
pub open spec fn system_name() -> Seq<char> {
    "System"@
}

/// A message of the system.
pub open spec fn system_message(text: Seq<char>, now: u64) -> MessageView {
    MessageView { from: system_name(), content: text, is_system: true, ttl: None, received_at: now }
}

impl AppView {
    /// What holds of every state: a peer is selected, where there are any; every peer that is
    /// shown has a name and an address; only a peer is renamed; a suggestion is the current one.
    pub open spec fn wf(self) -> bool {
        &&& self.peer_ids.len() > 0 ==> 0 <= self.selected < self.peer_ids.len()
        &&& self.peer_ids.len() == 0 ==> self.selected == 0
        &&& forall|i: int| 0 <= i < self.peer_ids.len() ==> self.peers.contains_key(#[trigger] self.peer_ids[i])
        &&& self.is_renaming ==> self.peer_ids.len() > 0
        &&& self.autocomplete matches Some(state) ==> 0 <= state.index < state.matches.len()
    }

    /// The messages of a channel.
    pub open spec fn channel(self, name: Seq<char>) -> Seq<MessageView> {
        if self.messages.contains_key(name) {
            self.messages[name]
        } else {
            seq![]
        }
    }

    /// The state with one more message in a channel.
    pub open spec fn with_message(self, channel: Seq<char>, message: MessageView) -> AppView {
        AppView { messages: self.messages.insert(channel, self.channel(channel).push(message)), ..self }
    }

    /// The state after the system said something in a channel.
    pub open spec fn told(self, channel: Seq<char>, text: Seq<char>, now: u64) -> AppView {
        self.with_message(channel, system_message(text, now))
    }

    /// The channel that is shown: that of the selected peer, or that of the system.
    pub open spec fn active_channel(self) -> Seq<char> {
        if self.peer_ids.len() > 0 {
            self.peer_ids[self.selected]
        } else {
            system_name()
        }
    }

    /// What a node is called: by the user, by itself, or by the start of its id.
    pub open spec fn display_name(self, id: Seq<char>) -> Seq<char> {
        if id == system_name() {
            system_name()
        } else if self.custom_names.contains_key(id) {
            self.custom_names[id]
        } else if self.peers.contains_key(id) {
            self.peers[id].0
        } else {
            first_chars(id, 8)
        }
    }

    /// The name that a peer is sorted by.
    pub open spec fn sort_name(self, id: Seq<char>) -> Seq<char> {
        if self.custom_names.contains_key(id) {
            self.custom_names[id]
        } else if self.peers.contains_key(id) {
            self.peers[id].0
        } else {
            id
        }
    }

    /// The peers with the names that they are sorted by.
    pub open spec fn named_peers(self) -> Seq<Named> {
        Seq::new(self.peer_ids.len(), |i: int| (self.sort_name(self.peer_ids[i]), self.peer_ids[i]))
    }

    /// The peers, sorted by name.
    pub open spec fn sorted_peers(self) -> Seq<Seq<char>> {
        let sorted = sorted_by_name(self.named_peers());
        Seq::new(sorted.len(), |i: int| sorted[i].1)
    }
}

/// Whether a message is still to be kept.
pub open spec fn is_kept(message: MessageView, now: u64) -> bool {
    match message.ttl {
        Some(secs) => elapsed(now, message.received_at) < secs * 1000,
        None => true,
    }
}

/// The messages that are still to be kept.
pub open spec fn kept(messages: Seq<MessageView>, now: u64) -> Seq<MessageView> {
    messages.filter(|message: MessageView| is_kept(message, now))
}

/// The messages of all channels that are still to be kept.
pub open spec fn all_kept(
    messages: Map<Seq<char>, Seq<MessageView>>,
    now: u64,
) -> Map<Seq<char>, Seq<MessageView>> {
    messages.map_values(|channel: Seq<MessageView>| kept(channel, now))
}

pub(crate) fn keeps(message: &Message, now: u64) -> (res: bool)
    ensures
        res == is_kept(message.deep_view(), now),
{
    match message.ttl {
        Some(secs) => {
            let waited: u64 = if now >= message.received_at { now - message.received_at } else { 0 };
            (waited as u128) < secs as u128 * 1000
        },
        None => true,
    }
}

/// The messages that are still to be kept, and whether others went.
fn sift(messages: Vec<Message>, now: u64) -> (res: (Vec<Message>, bool))
    ensures
        res.0.deep_view() == kept(messages.deep_view(), now),
        res.1 == (kept(messages.deep_view(), now).len() < messages@.len()),
{
    let ghost all = messages.deep_view();
    let ghost keep = |message: MessageView| is_kept(message, now);
    let mut out: Vec<Message> = Vec::new();
    let mut i: usize = 0;
    proof {
        reveal(Seq::filter);
        assert(out.deep_view() =~= all.take(0).filter(keep));
    }
    while i < messages.len()
        invariant
            i <= messages@.len(),
            all == messages.deep_view(),
            keep == (|message: MessageView| is_kept(message, now)),
            out.deep_view() == all.take(i as int).filter(keep),
        decreases messages@.len() - i,
    {
        let ghost before = out.deep_view();
        proof {
            reveal(Seq::filter);
            assert(all.take(i + 1).drop_last() =~= all.take(i as int));
            assert(all.take(i + 1).last() == messages@[i as int].deep_view());
        }
        if keeps(&messages[i], now) {
            let message = copy_message(&messages[i]);
            let ghost view = message.deep_view();
            out.push(message);
            assert(out.deep_view() =~= before.push(view));
        }
        i = i + 1;
    }
    assert(all.take(i as int) =~= all);
    let went = out.len() < messages.len();
    (out, went)
}

fn copy_message(message: &Message) -> (res: Message)
    ensures
        res.deep_view() == message.deep_view(),
{
    Message {
        from: message.from.clone(),
        content: message.content.clone(),
        is_system: message.is_system,
        ttl: message.ttl,
        received_at: message.received_at,
    }
}

impl App {
    /// The state of the user interface when it starts.
    pub fn new() -> (res: App)
        ensures
            res@.wf(),
            res@ == empty_app(),
    {
        let res = App {
            messages: NameMap::new(),
            peers: NameMap::new(),
            peer_ids: Vec::new(),
            custom_names: NameMap::new(),
            selected: 0,
            identity_phrase: None,
            input: String::new(),
            rename_input: String::new(),
            is_renaming: false,
            is_showing_help: false,
            is_showing_whoami: false,
            app_port: 0,
            broadcasting: true,
            autocomplete: None,
            current_ttl: None,
            selected_interface: None,
            default_interface: None,
            storage_key: None,
            config_dir: None,
            active_file_transfers: NameMap::new(),
        };
        assert(res@.peer_ids =~= seq![]);
        assert(res@.input =~= seq![]);
        assert(res@.rename_input =~= seq![]);
        res
    }

    /// Tells what a node is called.
    pub fn get_display_name(&self, id: &str) -> (res: String)
        ensures
            res@ == self@.display_name(id@),
    {
        if same_text(id, "System") {
            return "System".to_owned();
        }
        if let Some(name) = self.custom_names.get(id) {
            return name.clone();
        }
        if let Some(peer) = self.peers.get(id) {
            return peer.0.clone();
        }
        take_chars(id, 8)
    }

    /// Drops the messages whose time is over. Returns whether there were any.
    pub fn cleanup_expired_messages(&mut self, now: u64) -> (res: bool)
        ensures
            final(self)@ == (AppView { messages: all_kept(old(self)@.messages, now), ..old(self)@ }),
            res == exists|channel: Seq<char>|
                old(self)@.messages.contains_key(channel) && #[trigger] kept(
                    old(self)@.messages[channel],
                    now,
                ).len() < old(self)@.messages[channel].len(),
            res <==> final(self)@.messages != old(self)@.messages,
    {
        let ghost start = self@.messages;
        let mut taken: NameMap<Vec<Message>> = NameMap::new();
        core::mem::swap(&mut self.messages, &mut taken);
        let entries = taken.into_entries();
        let ghost all = entries.deep_view();
        let ghost f = |channel: Seq<MessageView>| kept(channel, now);
        proof {
            map_holds_entries(all);
        }
        let mut out: Vec<(String, Vec<Message>)> = Vec::new();
        let mut went = false;
        let mut rest = entries;
        assert(map_entries(all.take(0), f) =~= out.deep_view());
        while rest.len() > 0
            invariant
                distinct_names(all),
                f == (|channel: Seq<MessageView>| kept(channel, now)),
                out@.len() + rest@.len() == all.len(),
                rest.deep_view() == all.skip(out@.len() as int),
                out.deep_view() == map_entries(all.take(out@.len() as int), f),
                went == exists|i: int|
                    0 <= i < out@.len() && #[trigger] kept(all[i].1, now).len() < all[i].1.len(),
            decreases rest@.len(),
        {
            let ghost k = out@.len() as int;
            let ghost before = out.deep_view();
            let ghost rest_before = rest.deep_view();
            assert(rest_before[0] == all[k]);
            let (channel, messages) = rest.remove(0);
            assert(rest.deep_view() =~= rest_before.skip(1));
            assert(rest_before.skip(1) =~= all.skip(k + 1));
            let ghost count = messages@.len();
            let (left, some_went) = sift(messages, now);
            let ghost entry = (channel@, left.deep_view());
            out.push((channel, left));
            proof {
                assert(out.deep_view() =~= before.push(entry));
                assert(out.deep_view() =~= map_entries(all.take(k + 1), f));
                assert(some_went == (kept(all[k].1, now).len() < all[k].1.len()));
            }
            went = went || some_went;
        }
        proof {
            let n = out@.len() as int;
            assert(all.take(n) =~= all);
            map_of_mapped(all, f);
            map_holds_entries(all);
            assert forall|i: int, j: int| 0 <= i < j < out@.len() implies #[trigger] out.deep_view()[i].0
                != #[trigger] out.deep_view()[j].0 by {
                assert(all[i].0 != all[j].0);
            }
            if went {
                let i = choose|i: int|
                    0 <= i < out@.len() && #[trigger] kept(all[i].1, now).len() < all[i].1.len();
                assert(map_of(all).contains_key(all[i].0));
            }
            assert forall|channel: Seq<char>|
                map_of(all).contains_key(channel) && #[trigger] kept(map_of(all)[channel], now).len() < map_of(
                    all,
                )[channel].len() implies went by {
                let i = choose|i: int| 0 <= i < all.len() && #[trigger] all[i].0 == channel;
                assert(kept(all[i].1, now).len() < all[i].1.len());
            }
        }
        self.messages = NameMap::from_entries(out);
        proof {
            lemma_cleanup_changes(start, now);
        }
        went
    }
}

impl App {
    /// The channel that is shown.
    pub fn active_channel(&self) -> (res: String)
        requires
            self@.wf(),
        ensures
            res@ == self@.active_channel(),
    {
        if self.peer_ids.len() > 0 {
            self.peer_ids[self.selected].clone()
        } else {
            "System".to_owned()
        }
    }

    /// Puts a message into a channel.
    pub(crate) fn push_message(&mut self, channel: String, message: Message)
        ensures
            final(self)@ == old(self)@.with_message(channel@, message.deep_view()),
    {
        let mut messages = match self.messages.remove(channel.as_str()) {
            Some(messages) => messages,
            None => Vec::new(),
        };
        let ghost before = messages.deep_view();
        let ghost last = message.deep_view();
        assert(before =~= old(self)@.channel(channel@));
        messages.push(message);
        assert(messages.deep_view() =~= before.push(last));
        let ghost name = channel@;
        self.messages.insert(channel, messages);
        assert(self@.messages =~= old(self)@.messages.insert(name, before.push(last)));
    }

    /// Lets the system say something in a channel.
    pub(crate) fn tell(&mut self, channel: String, text: String, now: u64)
        ensures
            final(self)@ == old(self)@.told(channel@, text@, now),
    {
        self.push_message(
            channel,
            Message { from: "System".to_owned(), content: text, is_system: true, ttl: None, received_at: now },
        );
    }

    fn sort_name(&self, id: &str) -> (res: String)
        ensures
            res@ == self@.sort_name(id@),
    {
        if let Some(name) = self.custom_names.get(id) {
            return name.clone();
        }
        if let Some(peer) = self.peers.get(id) {
            return peer.0.clone();
        }
        id.to_owned()
    }

    /// Sorts the peers by name.
    pub(crate) fn sort_peers(&mut self)
        ensures
            final(self)@ == (AppView { peer_ids: old(self)@.sorted_peers(), ..old(self)@ }),
    {
        let mut named: Vec<(String, String)> = Vec::new();
        let mut i: usize = 0;
        while i < self.peer_ids.len()
            invariant
                i <= self.peer_ids@.len(),
                self@ == old(self)@,
                named.deep_view() == self@.named_peers().take(i as int),
            decreases self.peer_ids@.len() - i,
        {
            let ghost before = named.deep_view();
            let name = self.sort_name(self.peer_ids[i].as_str());
            let ghost entry = (name@, self.peer_ids@[i as int]@);
            named.push((name, self.peer_ids[i].clone()));
            assert(named.deep_view() =~= before.push(entry));
            i = i + 1;
            assert(named.deep_view() =~= self@.named_peers().take(i as int));
        }
        assert(self@.named_peers().take(i as int) =~= self@.named_peers());
        let sorted = sort_named(named);
        let mut ids: Vec<String> = Vec::new();
        let mut k: usize = 0;
        while k < sorted.len()
            invariant
                k <= sorted@.len(),
                ids@.len() == k,
                forall|j: int| 0 <= j < k ==> #[trigger] ids@[j]@ == sorted.deep_view()[j].1,
            decreases sorted@.len() - k,
        {
            ids.push(sorted[k].1.clone());
            k = k + 1;
        }
        assert(ids.deep_view() =~= old(self)@.sorted_peers());
        self.peer_ids = ids;
    }
}

/// Sorting keeps all peers and no others, each as often as it is listed, in ascending order of
/// their names.
pub proof fn sorting_keeps_peers(app: AppView)
    ensures
        app.sorted_peers().len() == app.peer_ids.len(),
        app.sorted_peers().to_multiset() == app.peer_ids.to_multiset(),
        forall|id: Seq<char>| #[trigger] app.sorted_peers().contains(id) <==> app.peer_ids.contains(id),
        forall|i: int, j: int|
            0 <= i <= j < app.peer_ids.len() ==> text_le(
                app.sort_name(#[trigger] app.sorted_peers()[i]),
                app.sort_name(#[trigger] app.sorted_peers()[j]),
            ),
{
    let named = app.named_peers();
    let sorted = sorted_by_name(named);
    sorting_is_stable(named, seq![]);
    let id_of = |item: Named| item.1;
    lemma_sorting_keeps(named, id_of);
    assert(sorted.map_values(id_of) =~= app.sorted_peers());
    assert(named.map_values(id_of) =~= app.peer_ids);
    named.to_multiset_ensures();
    sorted.to_multiset_ensures();
    assert forall|k: int| 0 <= k < sorted.len() implies (#[trigger] sorted[k]).0 == app.sort_name(sorted[k].1)
        && app.peer_ids.contains(sorted[k].1) by {
        assert(sorted.contains(sorted[k]));
        assert(named.to_multiset().count(sorted[k]) > 0);
        assert(named.contains(sorted[k]));
        let n = choose|n: int| 0 <= n < named.len() && named[n] == sorted[k];
        assert(app.peer_ids[n] == sorted[k].1);
    }
    assert forall|id: Seq<char>| #[trigger] app.sorted_peers().contains(id) <==> app.peer_ids.contains(id) by {
        if app.sorted_peers().contains(id) {
            let k = choose|k: int| 0 <= k < sorted.len() && app.sorted_peers()[k] == id;
            assert(sorted[k].1 == id);
        }
        if app.peer_ids.contains(id) {
            let n = choose|n: int| 0 <= n < app.peer_ids.len() && app.peer_ids[n] == id;
            assert(named.contains(named[n]));
            assert(sorted.to_multiset().count(named[n]) > 0);
            assert(sorted.contains(named[n]));
            let k = choose|k: int| 0 <= k < sorted.len() && sorted[k] == named[n];
            assert(app.sorted_peers()[k] == id);
        }
    }
    assert forall|i: int, j: int| 0 <= i <= j < app.peer_ids.len() implies text_le(
        app.sort_name(#[trigger] app.sorted_peers()[i]),
        app.sort_name(#[trigger] app.sorted_peers()[j]),
    ) by {
        assert(sorted[i].0 == app.sort_name(sorted[i].1));
        assert(sorted[j].0 == app.sort_name(sorted[j].1));
        assert(text_le(sorted[i].0, sorted[j].0));
    }
}

/// The state of the user interface when it starts.
pub open spec fn empty_app() -> AppView {
    AppView {
        messages: Map::empty(),
        peers: Map::empty(),
        peer_ids: seq![],
        custom_names: Map::empty(),
        selected: 0,
        identity_phrase: None,
        input: seq![],
        rename_input: seq![],
        is_renaming: false,
        is_showing_help: false,
        is_showing_whoami: false,
        app_port: 0,
        broadcasting: true,
        autocomplete: None,
        current_ttl: None,
        selected_interface: None,
        default_interface: None,
        storage_key: None,
        config_dir: None,
        active_file_transfers: Map::empty(),
    }
}

/// After the messages whose time is over are dropped, there are none of them left, and no
/// other was dropped.
pub proof fn only_expired_go(messages: Seq<MessageView>, now: u64, message: MessageView)
    ensures
        kept(messages, now).contains(message) <==> messages.contains(message) && is_kept(message, now),
{
    broadcast use vstd::seq_lib::group_filter_ensures;

    let keep = |m: MessageView| is_kept(m, now);
    let left = messages.filter(keep);
    if left.contains(message) {
        messages.lemma_filter_contains_rev(keep, message);
        let i = choose|i: int| 0 <= i < left.len() && left[i] == message;
        assert(keep(left[i]));
    }
    if messages.contains(message) && is_kept(message, now) {
        let i = choose|i: int| 0 <= i < messages.len() && messages[i] == message;
        messages.lemma_filter_contains(keep, i);
    }
}

/// A message that is gone stays gone: its time does not come back.
pub proof fn time_only_runs_out(message: MessageView, now: u64, later: u64)
    requires
        now <= later,
        !is_kept(message, now),
    ensures
        !is_kept(message, later),
{
}

/// A message that lives for some seconds is there until exactly so many thousand milliseconds
/// after it arrived; one without such a limit is there for good. While the clock is behind the
/// arrival, no time has passed.
pub proof fn message_lives_its_seconds(message: MessageView, now: u64)
    ensures
        message.ttl is None ==> is_kept(message, now),
        message.ttl matches Some(secs) ==> now >= message.received_at ==> (is_kept(message, now) <==> now
            < message.received_at + 1000 * secs),
        message.ttl matches Some(secs) ==> now < message.received_at ==> (is_kept(message, now) <==> secs > 0),
{
}

/// A cleanup goes through a channel message by message: what was said earlier is sifted alike
/// with and without the last message, and the last one stays behind it just where it has no
/// limit or its seconds are not over.
pub proof fn cleanup_sifts_each_message(
    messages: Map<Seq<char>, Seq<MessageView>>,
    channel: Seq<char>,
    earlier: Seq<MessageView>,
    last: MessageView,
    now: u64,
)
    requires
        messages.contains_key(channel),
        messages[channel] == earlier.push(last),
        last.received_at <= now,
    ensures
        all_kept(messages, now)[channel] == all_kept(messages.insert(channel, earlier), now)[channel] + (match last.ttl {
            Some(secs) => if now < last.received_at + 1000 * secs {
                seq![last]
            } else {
                seq![]
            },
            None => seq![last],
        }),
{
    let keep = |m: MessageView| is_kept(m, now);
    assert(earlier.push(last) =~= earlier + seq![last]);
    Seq::filter_distributes_over_add(earlier, seq![last], keep);
    let one = seq![last];
    assert(one.drop_last() =~= Seq::<MessageView>::empty());
    reveal_with_fuel(Seq::filter, 2);
    assert(one.filter(keep) =~= if keep(last) {
        one
    } else {
        seq![]
    });
    message_lives_its_seconds(last, now);
}

/// A cleanup makes and takes away no channel. A channel without messages stays so, and one
/// channel is sifted whatever the others hold.
pub proof fn cleanup_keeps_channels_apart(
    messages: Map<Seq<char>, Seq<MessageView>>,
    others: Map<Seq<char>, Seq<MessageView>>,
    channel: Seq<char>,
    now: u64,
)
    requires
        messages.contains_key(channel),
        others.contains_key(channel),
        messages[channel] == others[channel],
    ensures
        all_kept(messages, now).dom() == messages.dom(),
        all_kept(messages, now)[channel] == all_kept(others, now)[channel],
        messages[channel].len() == 0 ==> all_kept(messages, now)[channel].len() == 0,
{
    reveal(Seq::filter);
    assert(all_kept(messages, now).dom() =~= messages.dom());
}

/// After a cleanup a message is in a channel if and only if it was there before and has no limit
/// or is still within its seconds.
pub proof fn cleanup_drops_what_is_over(
    messages: Map<Seq<char>, Seq<MessageView>>,
    channel: Seq<char>,
    message: MessageView,
    now: u64,
)
    requires
        messages.contains_key(channel),
        message.received_at <= now,
    ensures
        all_kept(messages, now)[channel].contains(message) <==> messages[channel].contains(message) && (message.ttl
            matches Some(secs) ==> now < message.received_at + 1000 * secs),
{
    only_expired_go(messages[channel], now, message);
}

/// A message that is put into a channel comes behind those that are there. The other channels
/// keep what they hold, and nothing but the messages changes.
pub proof fn message_comes_last(app: AppView, channel: Seq<char>, message: MessageView, other: Seq<char>)
    ensures
        ({
            let after = app.with_message(channel, message);
            &&& after.messages.dom() == app.messages.dom().insert(channel)
            &&& app.messages.contains_key(channel) ==> after.messages[channel] == app.messages[channel].push(message)
            &&& !app.messages.contains_key(channel) ==> after.messages[channel] == seq![message]
            &&& other != channel && app.messages.contains_key(other) ==> after.messages[other] == app.messages[other]
            &&& after == (AppView { messages: after.messages, ..app })
        }),
{
    assert(Seq::<MessageView>::empty().push(message) =~= seq![message]);
    assert(app.with_message(channel, message).messages.dom() =~= app.messages.dom().insert(channel));
}

/// What the system says is a message in the name of the system that stays, with the text and
/// the time as they are.
pub proof fn system_speaks_for_good(app: AppView, channel: Seq<char>, text: Seq<char>, now: u64, later: u64)
    ensures
        ({
            let said = app.told(channel, text, now).messages[channel].last();
            &&& said.from == "System"@
            &&& said.content == text
            &&& said.is_system
            &&& said.ttl is None
            &&& said.received_at == now
            &&& is_kept(said, later)
        }),
        app.told(channel, text, now).messages[channel].drop_last() == (if app.messages.contains_key(channel) {
            app.messages[channel]
        } else {
            seq![]
        }),
{
    let before = app.channel(channel);
    assert(before.push(system_message(text, now)).drop_last() =~= before);
}

/// The name that the user gives to a node goes before the one that it has itself, and that
/// before the start of its id, which is its first eight characters or all of a shorter one.
/// The system is always called the same.
pub proof fn given_name_goes_first(
    app: AppView,
    id: Seq<char>,
    given: Seq<char>,
    own: Seq<char>,
    addr: Seq<char>,
)
    requires
        id != "System"@,
    ensures
        app.display_name("System"@) == "System"@,
        (AppView { custom_names: app.custom_names.insert(id, given), ..app }).display_name(id) == given,
        (AppView {
            custom_names: app.custom_names.remove(id),
            peers: app.peers.insert(id, (own, addr)),
            ..app
        }).display_name(id) == own,
        ({
            let nameless = AppView {
                custom_names: app.custom_names.remove(id),
                peers: app.peers.remove(id),
                ..app
            };
            &&& nameless.display_name(id).is_prefix_of(id)
            &&& nameless.display_name(id).len() == if id.len() < 8 {
                id.len()
            } else {
                8
            }
            &&& nameless.sort_name(id) == id
        }),
        (AppView { custom_names: app.custom_names.insert(id, given), ..app }).sort_name(id) == given,
        (AppView {
            custom_names: app.custom_names.remove(id),
            peers: app.peers.insert(id, (own, addr)),
            ..app
        }).sort_name(id) == own,
{
}

/// What a node is called does not depend on the names of other nodes.
pub proof fn names_are_apart(
    app: AppView,
    id: Seq<char>,
    other: Seq<char>,
    given: Seq<char>,
    entry: (Seq<char>, Seq<char>),
)
    requires
        id != other,
    ensures
        ({
            let after = AppView {
                custom_names: app.custom_names.insert(other, given),
                peers: app.peers.insert(other, entry),
                ..app
            };
            after.display_name(id) == app.display_name(id) && after.sort_name(id) == app.sort_name(id)
        }),
{
}

/// The channel that is shown is that of the peer that is selected.
pub proof fn selected_peer_is_shown(app: AppView, before: Seq<Seq<char>>, id: Seq<char>, behind: Seq<Seq<char>>)
    requires
        app.peer_ids == before + seq![id] + behind,
        app.selected == before.len(),
    ensures
        app.active_channel() == id,
        (AppView { peer_ids: seq![], ..app }).active_channel() == "System"@,
{
}

/// A user interface that starts is well formed, shows nothing and knows nobody, and broadcasts.
pub proof fn empty_app_shows_nothing()
    ensures
        empty_app().wf(),
        empty_app().messages.dom() == Set::<Seq<char>>::empty(),
        empty_app().peers.dom() == Set::<Seq<char>>::empty(),
        empty_app().peer_ids.len() == 0,
        empty_app().input.len() == 0,
        empty_app().current_ttl is None,
        empty_app().broadcasting,
        empty_app().active_channel() == "System"@,
{
}

proof fn lemma_all_stay(messages: Seq<MessageView>, now: u64)
    ensures
        kept(messages, now).len() <= messages.len(),
        kept(messages, now).len() == messages.len() ==> kept(messages, now) == messages,
    decreases messages.len(),
{
    reveal(Seq::filter);
    if messages.len() > 0 {
        let rest = messages.drop_last();
        lemma_all_stay(rest, now);
        assert(rest.push(messages.last()) =~= messages);
    }
}

proof fn lemma_cleanup_changes(messages: Map<Seq<char>, Seq<MessageView>>, now: u64)
    ensures
        all_kept(messages, now) != messages <==> exists|channel: Seq<char>|
            messages.contains_key(channel) && #[trigger] kept(messages[channel], now).len() < messages[channel].len(),
{
    let after = all_kept(messages, now);
    if forall|channel: Seq<char>|
        messages.contains_key(channel) ==> #[trigger] kept(messages[channel], now).len() >= messages[channel].len() {
        assert forall|channel: Seq<char>| messages.contains_key(channel) implies after[channel] == messages[channel] by {
            lemma_all_stay(messages[channel], now);
            assert(kept(messages[channel], now).len() >= messages[channel].len());
        }
        assert(after =~= messages);
    } else {
        let channel = choose|channel: Seq<char>|
            messages.contains_key(channel) && #[trigger] kept(messages[channel], now).len() < messages[channel].len();
        assert(after[channel] == kept(messages[channel], now));
    }
}

}
