//! What the user interface keeps from one run to the next.
use crate::names::{distinct_names, map_holds_entries, map_of, NameMap};
use crate::order::{sort_texts, sorting_keeps_unique, sorting_orders_texts, text_le};
use crate::primitives::{bytes_of, MAX_SEALED};
use crate::storage::{
    file_view, history_text, load_peers, loaded_history, loaded_peers, save_history, save_peers, saves_peers, PeerInfo,
    PeerInfoView, StorageError, StoredMessage, StoredMessageView,
};
use crate::text::{first_chars, take_chars};
use crate::tui::{is_kept, keeps, message_lives_its_seconds, App, AppView, Message, MessageView};
use vstd::prelude::*;
use vstd::string::*;

verus! {

/// A message as it is kept: with the second of its arrival.
pub open spec fn stored_message(channel: Seq<char>, message: MessageView) -> StoredMessageView {
    StoredMessageView {
        peer_id: channel,
        from: message.from,
        content: message.content,
        is_system: message.is_system,
        ttl: message.ttl,
        timestamp_secs: message.received_at / 1000,
    }
}

/// The messages of a channel as they are kept.
pub open spec fn stored_channel(channel: Seq<char>, messages: Seq<MessageView>) -> Seq<StoredMessageView> {
    Seq::new(messages.len(), |i: int| stored_message(channel, messages[i]))
}

/// The kept messages of a channel.
pub open spec fn of_channel(history: Seq<StoredMessageView>, channel: Seq<char>) -> Seq<StoredMessageView> {
    history.filter(|message: StoredMessageView| message.peer_id == channel)
}

/// Whether a history keeps all messages: those of each channel, in their order. In which order
/// the channels stand is left open.
pub open spec fn keeps_all(history: Seq<StoredMessageView>, messages: Map<Seq<char>, Seq<MessageView>>) -> bool {
    forall|channel: Seq<char>| #[trigger]
        of_channel(history, channel) == if messages.contains_key(channel) {
            stored_channel(channel, messages[channel])
        } else {
            seq![]
        }
}

/// A message that was kept.
pub open spec fn restored_message(message: StoredMessageView) -> MessageView {
    MessageView {
        from: message.from,
        content: message.content,
        is_system: message.is_system,
        ttl: message.ttl,
        received_at: if message.timestamp_secs * 1000 <= u64::MAX {
            (message.timestamp_secs * 1000) as u64
        } else {
            u64::MAX
        },
    }
}

/// The state with the kept messages in their channels, but for those whose time is over.
pub open spec fn with_history(app: AppView, history: Seq<StoredMessageView>, now: u64) -> AppView
    decreases history.len(),
{
    if history.len() == 0 {
        app
    } else {
        let before = with_history(app, history.drop_last(), now);
        let message = restored_message(history.last());
        if is_kept(message, now) {
            before.with_message(history.last().peer_id, message)
        } else {
            before
        }
    }
}

/// The known peers with the names that the user gave them.
pub open spec fn with_custom_names(
    peers: Map<Seq<char>, PeerInfoView>,
    names: Map<Seq<char>, Seq<char>>,
) -> Map<Seq<char>, PeerInfoView> {
    Map::new(
        |id: Seq<char>| peers.contains_key(id),
        |id: Seq<char>|
            if names.contains_key(id) {
                PeerInfoView { custom_name: Some(names[id]), ..peers[id] }
            } else {
                peers[id]
            },
    )
}

/// What a known peer is called when the program starts.
pub open spec fn loaded_name(id: Seq<char>, peer: PeerInfoView) -> Seq<char> {
    match peer.custom_name {
        Some(name) => name,
        None => first_chars(id, 8),
    }
}

/// The names that the user gave to peers.
pub open spec fn names_given(peers: Map<Seq<char>, PeerInfoView>) -> Map<Seq<char>, Seq<char>> {
    Map::new(
        |id: Seq<char>| peers.contains_key(id) && peers[id].custom_name is Some,
        |id: Seq<char>| peers[id].custom_name->0,
    )
}

/// The peers, none of which is connected.
pub open spec fn offline_peers(peers: Map<Seq<char>, PeerInfoView>) -> Map<Seq<char>, (Seq<char>, Seq<char>)> {
    Map::new(
        |id: Seq<char>| peers.contains_key(id),
        |id: Seq<char>| (loaded_name(id, peers[id]), "Offline"@),
    )
}

/// Whether `ids` lists the names of a map, in ascending order.
pub open spec fn lists_keys<V>(ids: Seq<Seq<char>>, map: Map<Seq<char>, V>) -> bool {
    &&& forall|i: int, j: int| 0 <= i <= j < ids.len() ==> text_le(#[trigger] ids[i], #[trigger] ids[j])
    &&& ids.no_duplicates()
    &&& forall|id: Seq<char>| #[trigger] ids.contains(id) <==> map.contains_key(id)
}

proof fn lemma_filter_all(history: Seq<StoredMessageView>, channel: Seq<char>)
    requires
        forall|i: int| 0 <= i < history.len() ==> (#[trigger] history[i]).peer_id == channel,
    ensures
        of_channel(history, channel) == history,
    decreases history.len(),
{
    reveal(Seq::filter);
    if history.len() > 0 {
        let rest = history.drop_last();
        assert forall|i: int| 0 <= i < rest.len() implies (#[trigger] rest[i]).peer_id == channel by {
            assert(rest[i] == history[i]);
        }
        lemma_filter_all(rest, channel);
        assert(rest.push(history.last()) =~= history);
    }
}

proof fn lemma_filter_none(history: Seq<StoredMessageView>, channel: Seq<char>)
    requires
        forall|i: int| 0 <= i < history.len() ==> (#[trigger] history[i]).peer_id != channel,
    ensures
        of_channel(history, channel) == Seq::<StoredMessageView>::empty(),
    decreases history.len(),
{
    reveal(Seq::filter);
    if history.len() > 0 {
        let rest = history.drop_last();
        assert forall|i: int| 0 <= i < rest.len() implies (#[trigger] rest[i]).peer_id != channel by {
            assert(rest[i] == history[i]);
        }
        lemma_filter_none(rest, channel);
    }
}

fn store_channel(out: &mut Vec<StoredMessage>, channel: &str, messages: &Vec<Message>)
    ensures
        final(out).deep_view() == old(out).deep_view() + stored_channel(channel@, messages.deep_view()),
{
    let ghost start = out.deep_view();
    let ghost all = stored_channel(channel@, messages.deep_view());
    let mut i: usize = 0;
    assert(start + all.take(0) =~= start);
    while i < messages.len()
        invariant
            i <= messages@.len(),
            all == stored_channel(channel@, messages.deep_view()),
            out.deep_view() == start + all.take(i as int),
        decreases messages@.len() - i,
    {
        let ghost before = out.deep_view();
        let stored = StoredMessage {
            peer_id: channel.to_owned(),
            from: messages[i].from.clone(),
            content: messages[i].content.clone(),
            is_system: messages[i].is_system,
            ttl: messages[i].ttl,
            timestamp_secs: messages[i].received_at / 1000,
        };
        let ghost view = stored.deep_view();
        assert(view == all[i as int]);
        out.push(stored);
        assert(out.deep_view() =~= before.push(view));
        i = i + 1;
        assert(out.deep_view() =~= start + all.take(i as int));
    }
    assert(all.take(i as int) =~= all);
}

/// The messages of the first channels, as they are kept.
spec fn stored_entries(entries: Seq<(Seq<char>, Seq<MessageView>)>) -> Seq<StoredMessageView>
    decreases entries.len(),
{
    if entries.len() == 0 {
        seq![]
    } else {
        stored_entries(entries.drop_last()) + stored_channel(entries.last().0, entries.last().1)
    }
}

proof fn lemma_stored_entries(entries: Seq<(Seq<char>, Seq<MessageView>)>, channel: Seq<char>)
    requires
        distinct_names(entries),
    ensures
        of_channel(stored_entries(entries), channel) == if map_of(entries).contains_key(channel) {
            stored_channel(channel, map_of(entries)[channel])
        } else {
            seq![]
        },
    decreases entries.len(),
{
    let pred = |message: StoredMessageView| message.peer_id == channel;
    if entries.len() == 0 {
        reveal(Seq::filter);
    } else {
        let rest = entries.drop_last();
        let (name, messages) = entries.last();
        assert forall|i: int, j: int| 0 <= i < j < rest.len() implies #[trigger] rest[i].0 != #[trigger] rest[j].0 by {
            assert(rest[i] == entries[i] && rest[j] == entries[j]);
        }
        lemma_stored_entries(rest, channel);
        let last = stored_channel(name, messages);
        Seq::filter_distributes_over_add(stored_entries(rest), last, pred);
        if name == channel {
            lemma_filter_all(last, channel);
            map_holds_entries(rest);
            if map_of(rest).contains_key(channel) {
                let i = choose|i: int| 0 <= i < rest.len() && #[trigger] rest[i].0 == channel;
                assert(entries[i].0 != entries[entries.len() - 1].0);
            }
            assert(of_channel(stored_entries(entries), channel) =~= last);
        } else {
            lemma_filter_none(last, channel);
            assert(of_channel(stored_entries(entries), channel) =~= of_channel(stored_entries(rest), channel));
        }
    }
}

impl App {
    /// The messages as they are kept.
    pub fn stored_messages(&self) -> (res: Vec<StoredMessage>)
        ensures
            keeps_all(res.deep_view(), self@.messages),
    {
        let entries = self.messages.entries();
        let ghost all = entries.deep_view();
        let mut out: Vec<StoredMessage> = Vec::new();
        let mut i: usize = 0;
        assert(out.deep_view() =~= stored_entries(all.take(0)));
        while i < entries.len()
            invariant
                i <= entries@.len(),
                all == entries.deep_view(),
                out.deep_view() == stored_entries(all.take(i as int)),
            decreases entries@.len() - i,
        {
            proof {
                assert(all.take(i + 1).drop_last() =~= all.take(i as int));
                assert(all.take(i + 1).last() == (entries@[i as int].0@, entries@[i as int].1.deep_view()));
            }
            store_channel(&mut out, entries[i].0.as_str(), &entries[i].1);
            i = i + 1;
        }
        proof {
            assert(all.take(i as int) =~= all);
            assert forall|channel: Seq<char>| #[trigger]
                of_channel(out.deep_view(), channel) == if self@.messages.contains_key(channel) {
                    stored_channel(channel, self@.messages[channel])
                } else {
                    seq![]
                } by {
                lemma_stored_entries(all, channel);
            }
        }
        out
    }

    /// Makes the file of the messages, where there is a place to keep it. It loads as the
    /// messages that are kept.
    pub fn save_history(&self) -> (res: Option<Result<Vec<u8>, StorageError>>)
        ensures
            match (self@.config_dir, self@.storage_key) {
                (Some(_), Some(key)) => match res {
                    Some(Ok(file)) => exists|history: Seq<StoredMessageView>| #[trigger]
                        keeps_all(history, self@.messages) && loaded_history(key, Some(file@)) == Ok::<
                            Seq<StoredMessageView>,
                            StorageError,
                        >(history),
                    Some(Err(e)) => e == StorageError::EncryptionFailed && exists|history: Seq<StoredMessageView>|
                        #[trigger]
                        keeps_all(history, self@.messages) && history_text(history).len() > MAX_SEALED,
                    None => false,
                },
                _ => res is None,
            },
    {
        if self.config_dir.is_none() {
            return None;
        }
        match &self.storage_key {
            Some(key) => {
                let history = self.stored_messages();
                let list = history.as_slice();
                assert(list.deep_view() =~= history.deep_view());
                Some(save_history(key, list))
            },
            None => None,
        }
    }

    /// Makes the file of the known peers, with the names that the user gave them, from the one
    /// that there is. Where that cannot be read, there is none.
    pub fn save_peers(&self, file: Option<&[u8]>) -> (res: Option<Result<Vec<u8>, StorageError>>)
        ensures
            match (self@.config_dir, self@.storage_key) {
                (Some(_), Some(key)) => match loaded_peers(key, bytes_of(file)) {
                    Ok(peers) => match res {
                        Some(saved) => saves_peers(
                            key,
                            with_custom_names(peers, self@.custom_names),
                            file_view(saved),
                        ),
                        None => false,
                    },
                    Err(_) => res is None,
                },
                _ => res is None,
            },
    {
        if self.config_dir.is_none() {
            return None;
        }
        let key = match &self.storage_key {
            Some(key) => key,
            None => return None,
        };
        let peers = match load_peers(key, file) {
            Ok(peers) => peers,
            Err(_) => return None,
        };
        let named = self.name_peers(peers);
        Some(save_peers(key, &named))
    }

    fn name_peers(&self, peers: NameMap<PeerInfo>) -> (res: NameMap<PeerInfo>)
        ensures
            res.deep_view() == with_custom_names(peers.deep_view(), self@.custom_names),
    {
        let ghost start = peers.deep_view();
        let mut rest = peers.into_entries();
        let ghost all = rest.deep_view();
        let mut out: NameMap<PeerInfo> = NameMap::new();
        let ghost names = self@.custom_names;
        assert(out.deep_view() =~= with_custom_names(map_of(all.take(0)), names));
        assert(all.skip(0) =~= all);
        let ghost mut done: int = 0;
        while rest.len() > 0
            invariant
                names == self@.custom_names,
                0 <= done <= all.len(),
                rest@.len() == all.len() - done,
                rest.deep_view() == all.skip(done),
                out.deep_view() == with_custom_names(map_of(all.take(done)), names),
            decreases rest@.len(),
        {
            let ghost rest_before = rest.deep_view();
            let ghost out_before = out.deep_view();
            assert(rest_before[0] == all[done]);
            let (id, peer) = rest.remove(0);
            assert(rest.deep_view() =~= rest_before.skip(1));
            assert(rest_before.skip(1) =~= all.skip(done + 1));
            let custom_name = match self.custom_names.get(id.as_str()) {
                Some(name) => Some(name.clone()),
                None => peer.custom_name,
            };
            let ghost key = id@;
            let named = PeerInfo {
                static_public_key_b64: peer.static_public_key_b64,
                custom_name,
                is_verified: peer.is_verified,
            };
            let ghost value = named.deep_view();
            out.insert(id, named);
            proof {
                assert(all.take(done + 1).drop_last() =~= all.take(done));
                assert(all.take(done + 1).last() == all[done]);
                assert(out.deep_view() =~= with_custom_names(map_of(all.take(done + 1)), names));
                done = done + 1;
            }
        }
        assert(all.take(done) =~= all);
        out
    }

    /// Takes the peers that are known from before. None of them is connected.
    pub fn load_peers(&mut self, peers: &NameMap<PeerInfo>)
        requires
            old(self)@.wf(),
            old(self)@.peer_ids.len() == 0,
            old(self)@.peers == Map::<Seq<char>, (Seq<char>, Seq<char>)>::empty(),
            old(self)@.custom_names == Map::<Seq<char>, Seq<char>>::empty(),
        ensures
            final(self)@.wf(),
            lists_keys(final(self)@.peer_ids, peers.deep_view()),
            final(self)@ == (AppView {
                peer_ids: final(self)@.peer_ids,
                peers: offline_peers(peers.deep_view()),
                custom_names: names_given(peers.deep_view()),
                ..old(self)@
            }),
    {
        let entries = peers.entries();
        let ghost all = entries.deep_view();
        proof {
            map_holds_entries(all);
        }
        let mut ids: Vec<String> = Vec::new();
        let mut i: usize = 0;
        assert(self@.peers =~= offline_peers(map_of(all.take(0))));
        assert(self@.custom_names =~= names_given(map_of(all.take(0))));
        let ghost start = self@;
        while i < entries.len()
            invariant
                i <= entries@.len(),
                all == entries.deep_view(),
                ids@.len() == i,
                forall|j: int| 0 <= j < i ==> #[trigger] ids@[j]@ == all[j].0,
                self@ == (AppView {
                    peers: offline_peers(map_of(all.take(i as int))),
                    custom_names: names_given(map_of(all.take(i as int))),
                    ..start
                }),
                distinct_names(all),
            decreases entries@.len() - i,
        {
            let id = entries[i].0.clone();
            let peer = &entries[i].1;
            let ghost shorter = map_of(all.take(i as int));
            proof {
                assert(all.take(i + 1).drop_last() =~= all.take(i as int));
                assert(all.take(i + 1).last() == (id@, peer.deep_view()));
                lemma_new_name(all, i as int);
            }
            let ghost longer = map_of(all.take(i + 1));
            let name = match &peer.custom_name {
                Some(custom) => {
                    self.custom_names.insert(id.clone(), custom.clone());
                    custom.clone()
                },
                None => take_chars(id.as_str(), 8),
            };
            assert(name@ == loaded_name(id@, peer.deep_view()));
            self.peers.insert(id.clone(), (name, "Offline".to_owned()));
            proof {
                assert(self@.custom_names =~= names_given(longer));
                assert(self@.peers =~= offline_peers(longer));
            }
            ids.push(id);
            i = i + 1;
        }
        assert(all.take(i as int) =~= all);
        self.peer_ids = sort_texts(&ids);
        proof {
            let listed = ids.deep_view();
            sorting_orders_texts(listed);
            assert forall|a: int, b: int| 0 <= a < listed.len() && 0 <= b < listed.len() && a != b implies listed[a]
                != listed[b] by {
                assert(ids@[a]@ == all[a].0 && ids@[b]@ == all[b].0);
            }
            assert(listed.no_duplicates());
            sorting_keeps_unique(listed);
            assert forall|id: Seq<char>| #[trigger] self@.peer_ids.contains(id) <==> peers.deep_view().contains_key(
                id,
            ) by {
                map_holds_entries(all);
                if listed.contains(id) {
                    let a = choose|a: int| 0 <= a < listed.len() && listed[a] == id;
                    assert(ids@[a]@ == all[a].0);
                }
                if map_of(all).contains_key(id) {
                    let a = choose|a: int| 0 <= a < all.len() && #[trigger] all[a].0 == id;
                    assert(ids@[a]@ == id);
                    assert(listed[a] == id);
                }
            }
            assert forall|k: int| 0 <= k < self@.peer_ids.len() implies self@.peers.contains_key(
                #[trigger] self@.peer_ids[k],
            ) by {
                assert(self@.peer_ids.contains(self@.peer_ids[k]));
            }
        }
    }

    /// Takes the messages that are kept from before, but for those whose time is over.
    pub fn load_history(&mut self, history: &Vec<StoredMessage>, now: u64)
        requires
            old(self)@.wf(),
        ensures
            final(self)@.wf(),
            final(self)@ == with_history(old(self)@, history.deep_view(), now),
    {
        let ghost all = history.deep_view();
        let ghost start = self@;
        let mut i: usize = 0;
        assert(with_history(start, all.take(0), now) == start);
        while i < history.len()
            invariant
                i <= history@.len(),
                all == history.deep_view(),
                self@.wf(),
                self@ == with_history(start, all.take(i as int), now),
            decreases history@.len() - i,
        {
            proof {
                assert(all.take(i + 1).drop_last() =~= all.take(i as int));
                assert(all.take(i + 1).last() == history@[i as int].deep_view());
            }
            let stored = &history[i];
            let received_at: u64 = match stored.timestamp_secs.checked_mul(1000) {
                Some(millis) => millis,
                None => u64::MAX,
            };
            let message = Message {
                from: stored.from.clone(),
                content: stored.content.clone(),
                is_system: stored.is_system,
                ttl: stored.ttl,
                received_at,
            };
            if keeps(&message, now) {
                self.push_message(stored.peer_id.clone(), message);
            }
            i = i + 1;
        }
        assert(all.take(i as int) =~= all);
    }
}

proof fn lemma_new_name<V>(entries: Seq<(Seq<char>, V)>, n: int)
    requires
        distinct_names(entries),
        0 <= n < entries.len(),
    ensures
        !map_of(entries.take(n)).contains_key(entries[n].0),
{
    let part = entries.take(n);
    assert forall|i: int, j: int| 0 <= i < j < part.len() implies #[trigger] part[i].0 != #[trigger] part[j].0 by {
        assert(entries[i].0 != entries[j].0);
    }
    map_holds_entries(part);
    if map_of(part).contains_key(entries[n].0) {
        let i = choose|i: int| 0 <= i < part.len() && #[trigger] part[i].0 == entries[n].0;
        assert(entries[i].0 != entries[n].0);
    }
}

/// The messages that come back from what was kept of a channel.
pub open spec fn coming_back(history: Seq<StoredMessageView>, now: u64) -> Seq<MessageView>
    decreases history.len(),
{
    if history.len() == 0 {
        seq![]
    } else {
        let before = coming_back(history.drop_last(), now);
        let message = restored_message(history.last());
        if is_kept(message, now) {
            before.push(message)
        } else {
            before
        }
    }
}

proof fn lemma_history_channel(app: AppView, history: Seq<StoredMessageView>, now: u64, channel: Seq<char>)
    ensures
        with_history(app, history, now).channel(channel) == app.channel(channel) + coming_back(
            of_channel(history, channel),
            now,
        ),
    decreases history.len(),
{
    reveal(Seq::filter);
    if history.len() == 0 {
        assert(app.channel(channel) + Seq::<MessageView>::empty() =~= app.channel(channel));
    } else {
        let rest = history.drop_last();
        lemma_history_channel(app, rest, now, channel);
        let before = of_channel(rest, channel);
        if history.last().peer_id == channel {
            assert(of_channel(history, channel) =~= before.push(history.last()));
            assert(before.push(history.last()).drop_last() =~= before);
        }
        assert(with_history(app, history, now).channel(channel) =~= app.channel(channel) + coming_back(
            of_channel(history, channel),
            now,
        ));
    }
}

/// After a restart every channel has the messages that it had, in their order, but for those
/// whose time is over; each counts from the second of its arrival.
pub proof fn history_comes_back(
    fresh: AppView,
    history: Seq<StoredMessageView>,
    messages: Map<Seq<char>, Seq<MessageView>>,
    channel: Seq<char>,
    now: u64,
)
    requires
        fresh.messages == Map::<Seq<char>, Seq<MessageView>>::empty(),
        keeps_all(history, messages),
    ensures
        with_history(fresh, history, now).channel(channel) == if messages.contains_key(channel) {
            coming_back(stored_channel(channel, messages[channel]), now)
        } else {
            seq![]
        },
{
    lemma_history_channel(fresh, history, now, channel);
    assert(fresh.channel(channel) =~= seq![]);
    assert(of_channel(history, channel) == if messages.contains_key(channel) {
        stored_channel(channel, messages[channel])
    } else {
        seq![]
    });
    assert(seq![] + coming_back(of_channel(history, channel), now) =~= coming_back(
        of_channel(history, channel),
        now,
    ));
}

/// A message whose time is over does not come back.
pub proof fn expired_stays_away(history: Seq<StoredMessageView>, now: u64, i: int)
    requires
        0 <= i < coming_back(history, now).len(),
    ensures
        is_kept(coming_back(history, now)[i], now),
    decreases history.len(),
{
    if history.len() > 0 {
        let before = coming_back(history.drop_last(), now);
        if i < before.len() {
            expired_stays_away(history.drop_last(), now, i);
        }
    }
}

/// A name that the user gave to a known peer is there after a restart.
pub proof fn names_come_back(
    peers: Map<Seq<char>, PeerInfoView>,
    names: Map<Seq<char>, Seq<char>>,
    id: Seq<char>,
)
    requires
        peers.contains_key(id),
        names.contains_key(id),
    ensures
        names_given(with_custom_names(peers, names)).contains_key(id),
        names_given(with_custom_names(peers, names))[id] == names[id],
{
}

/// A message that was kept comes back with the sender, the text, the mark of the system and the
/// time to live that it had. Its arrival is cut to the second.
pub proof fn message_comes_back(channel: Seq<char>, message: MessageView)
    ensures
        ({
            let kept = stored_message(channel, message);
            let back = restored_message(kept);
            &&& kept.peer_id == channel
            &&& back.from == message.from
            &&& back.content == message.content
            &&& back.is_system == message.is_system
            &&& back.ttl == message.ttl
            &&& back.received_at <= message.received_at < back.received_at + 1000
            &&& back.received_at as int % 1000 == 0
        }),
{
}

proof fn lemma_coming_back(channel: Seq<char>, messages: Seq<MessageView>, now: u64)
    ensures
        coming_back(stored_channel(channel, messages), now) == messages.map_values(
            |m: MessageView|
                MessageView {
                    from: m.from,
                    content: m.content,
                    is_system: m.is_system,
                    ttl: m.ttl,
                    received_at: (m.received_at - m.received_at as int % 1000) as u64,
                },
        ).filter(|m: MessageView| m.ttl matches Some(secs) ==> secs > 0 && now < m.received_at + 1000 * secs),
    decreases messages.len(),
{
    let cut = |m: MessageView|
        MessageView {
            from: m.from,
            content: m.content,
            is_system: m.is_system,
            ttl: m.ttl,
            received_at: (m.received_at - m.received_at as int % 1000) as u64,
        };
    let lives = |m: MessageView| m.ttl matches Some(secs) ==> secs > 0 && now < m.received_at + 1000 * secs;
    reveal(Seq::filter);
    let stored = stored_channel(channel, messages);
    let restored = messages.map_values(cut);
    if messages.len() == 0 {
        assert(restored =~= Seq::<MessageView>::empty());
    } else {
        let rest = messages.drop_last();
        lemma_coming_back(channel, rest, now);
        assert(stored.drop_last() =~= stored_channel(channel, rest));
        assert(restored.drop_last() =~= rest.map_values(cut));
        message_comes_back(channel, messages.last());
        assert(restored.last() == restored_message(stored.last()));
        message_lives_its_seconds(restored.last(), now);
    }
}

/// After a restart every channel has the messages that it had, one by one with the same sender,
/// text, mark of the system and time to live, and the arrival cut to the second, but for those
/// whose seconds are over by then.
pub proof fn restart_gives_messages_back(
    fresh: AppView,
    history: Seq<StoredMessageView>,
    messages: Map<Seq<char>, Seq<MessageView>>,
    channel: Seq<char>,
    now: u64,
)
    requires
        fresh.messages == Map::<Seq<char>, Seq<MessageView>>::empty(),
        keeps_all(history, messages),
        messages.contains_key(channel),
    ensures
        ({
            let after = with_history(fresh, history, now).messages;
            let expected = messages[channel].map_values(
                |m: MessageView|
                    MessageView {
                        from: m.from,
                        content: m.content,
                        is_system: m.is_system,
                        ttl: m.ttl,
                        received_at: (m.received_at - m.received_at as int % 1000) as u64,
                    },
            ).filter(|m: MessageView| m.ttl matches Some(secs) ==> secs > 0 && now < m.received_at + 1000 * secs);
            if after.contains_key(channel) {
                after[channel] == expected
            } else {
                expected.len() == 0
            }
        }),
{
    history_comes_back(fresh, history, messages, channel, now);
    lemma_coming_back(channel, messages[channel], now);
}

/// A channel that had no messages has none after a restart.
pub proof fn restart_makes_no_messages_up(
    fresh: AppView,
    history: Seq<StoredMessageView>,
    messages: Map<Seq<char>, Seq<MessageView>>,
    channel: Seq<char>,
    now: u64,
)
    requires
        fresh.messages == Map::<Seq<char>, Seq<MessageView>>::empty(),
        keeps_all(history, messages),
        !messages.contains_key(channel),
    ensures
        with_history(fresh, history, now).messages.contains_key(channel) ==> with_history(
            fresh,
            history,
            now,
        ).messages[channel].len() == 0,
{
    history_comes_back(fresh, history, messages, channel, now);
}

/// One more message of a history comes behind the others into its own channel, with the sender,
/// the text, the mark and the limit that it was kept with, where its seconds are not over; else
/// nothing changes. Nothing but messages comes from a history.
pub proof fn history_is_taken_in_order(
    app: AppView,
    history: Seq<StoredMessageView>,
    last: StoredMessageView,
    now: u64,
)
    requires
        last.timestamp_secs * 1000 <= now,
    ensures
        ({
            let before = with_history(app, history, now);
            let after = with_history(app, history.push(last), now);
            if last.ttl matches Some(secs) && last.timestamp_secs * 1000 + 1000 * secs <= now {
                after == before
            } else {
                let message = MessageView {
                    from: last.from,
                    content: last.content,
                    is_system: last.is_system,
                    ttl: last.ttl,
                    received_at: (last.timestamp_secs * 1000) as u64,
                };
                &&& after.messages == before.messages.insert(
                    last.peer_id,
                    if before.messages.contains_key(last.peer_id) {
                        before.messages[last.peer_id].push(message)
                    } else {
                        seq![message]
                    },
                )
                &&& after == (AppView { messages: after.messages, ..before })
            }
        }),
        with_history(app, seq![], now) == app,
{
    assert(history.push(last).drop_last() =~= history);
    message_lives_its_seconds(restored_message(last), now);
    assert(Seq::<MessageView>::empty().push(restored_message(last)) =~= seq![restored_message(last)]);
}

/// Of the known peers those with a name that the user gave come back under it, and the others
/// under the first eight characters of their id. All of them come back, and none is connected.
pub proof fn peers_come_back(peers: Map<Seq<char>, PeerInfoView>, names: Map<Seq<char>, Seq<char>>, id: Seq<char>)
    ensures
        ({
            let saved = with_custom_names(peers, names);
            &&& saved.dom() == peers.dom()
            &&& offline_peers(saved).dom() == peers.dom()
            &&& peers.contains_key(id) ==> {
                &&& saved[id].static_public_key_b64 == peers[id].static_public_key_b64
                &&& saved[id].is_verified == peers[id].is_verified
                &&& !names.contains_key(id) ==> saved[id].custom_name == peers[id].custom_name
                &&& names.contains_key(id) ==> saved[id].custom_name == Some(names[id])
                &&& offline_peers(saved)[id].1 == "Offline"@
                &&& saved[id].custom_name matches Some(name) ==> offline_peers(saved)[id].0 == name
                    && names_given(saved).contains_key(id) && names_given(saved)[id] == name
                &&& saved[id].custom_name is None ==> !names_given(saved).contains_key(id)
                    && offline_peers(saved)[id].0.is_prefix_of(id) && offline_peers(saved)[id].0.len() == if id.len()
                    < 8 {
                    id.len()
                } else {
                    8
                }
            }
        }),
{
    assert(with_custom_names(peers, names).dom() =~= peers.dom());
    assert(offline_peers(with_custom_names(peers, names)).dom() =~= peers.dom());
}

/// The peers that are known are listed each once, in ascending order, and no others are.
pub proof fn known_peers_are_listed_once<V>(ids: Seq<Seq<char>>, peers: Map<Seq<char>, V>)
    requires
        lists_keys(ids, peers),
    ensures
        ids.to_set() == peers.dom(),
        forall|i: int, j: int|
            0 <= i < j < ids.len() ==> text_le(#[trigger] ids[i], #[trigger] ids[j]) && ids[i] != ids[j],
{
    assert forall|id: Seq<char>| ids.to_set().contains(id) <==> peers.dom().contains(id) by {
        assert(ids.contains(id) <==> peers.contains_key(id));
    }
    assert(ids.to_set() =~= peers.dom());
}

/// A second that is too late to count in milliseconds is taken for the last one that can be.
pub proof fn late_arrival_is_capped(message: StoredMessageView)
    ensures
        message.timestamp_secs * 1000 <= u64::MAX ==> restored_message(message).received_at == message.timestamp_secs
            * 1000,
        message.timestamp_secs * 1000 > u64::MAX ==> restored_message(message).received_at == u64::MAX,
{
}

}
