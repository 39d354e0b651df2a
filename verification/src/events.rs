//! What the user interface does with what it is told.
use crate::client::{EventView, UiEvent};
use crate::keys::{Effect, EffectView, AppOutcome};
use crate::order::text_le;
use crate::text::{chars_of, starts_with, string_of, text2};
use crate::tui::{
    all_kept, cleanup_drops_what_is_over, cleanup_keeps_channels_apart, cleanup_sifts_each_message, sorting_keeps_peers, App, AppView, FileTransfer,
    Message, MessageView, TransferView,
};
use vstd::prelude::*;
use vstd::string::*;

verus! {

/// For how long the progress of a file is remembered, in milliseconds.
pub const PROGRESS_WINDOW: u64 = 2000;

/// Where a colon and a space stand first in a text.
pub open spec fn first_colon(s: Seq<char>) -> Option<int>
    decreases s.len(),
{
    if s.len() < 2 {
        None
    } else if s[0] == ':' && s[1] == ' ' {
        Some(0)
    } else {
        match first_colon(s.drop_first()) {
            Some(i) => Some(i + 1),
            None => None,
        }
    }
}

/// What the system said, with the name of a node in place of its id.
pub open spec fn with_names(app: AppView, text: Seq<char>) -> Seq<char> {
    if "Connected to "@.is_prefix_of(text) {
        "Connected to "@ + app.display_name(text.skip(13))
    } else if "Connection lost with "@.is_prefix_of(text) {
        let rest = text.skip(21);
        match first_colon(rest) {
            Some(i) => "Connection lost with "@ + app.display_name(rest.take(i)) + ": "@ + rest.skip(i + 2),
            None => text,
        }
    } else {
        text
    }
}

/// What becomes of a message: it goes to the channel of its sender, or to the one that is
/// shown, where it is from the system and for no group.
pub open spec fn message_outcome(
    app: AppView,
    from: Seq<char>,
    text: Seq<char>,
    is_system: bool,
    ttl: Option<u64>,
    group: Option<Seq<char>>,
    now: u64,
) -> AppOutcome {
    let channel = if group is None && is_system {
        app.active_channel()
    } else {
        from
    };
    let content = if is_system {
        with_names(app, text)
    } else {
        text
    };
    AppOutcome {
        app: app.with_message(channel, MessageView { from, content, is_system, ttl, received_at: now }),
        effect: EffectView::SaveHistory,
    }
}

/// The state after a peer was heard of. A new one is sorted in by its id.
pub open spec fn peer_updated(app: AppView, id: Seq<char>, name: Seq<char>, addr: Seq<char>) -> AppView {
    let listed = if app.peers.contains_key(id) {
        app
    } else {
        let added = AppView { peer_ids: app.peer_ids.push(id), ..app };
        AppView { peer_ids: added.sorted_peers(), ..added }
    };
    AppView { peers: listed.peers.insert(id, (name, addr)), ..listed }
}

/// The progress that is still remembered.
pub open spec fn recent(history: Seq<(u64, u64)>, now: u64) -> Seq<(u64, u64)> {
    history.filter(|entry: (u64, u64)| entry.0 + PROGRESS_WINDOW >= now)
}

/// The state after a file got further. One that is complete is no longer shown.
pub open spec fn file_progressed(
    app: AppView,
    file_name: Seq<char>,
    total_size: u64,
    bytes_transferred: u64,
    is_sending: bool,
    now: u64,
) -> AppView {
    let transfers = app.active_file_transfers;
    if bytes_transferred >= total_size {
        AppView { active_file_transfers: transfers.remove(file_name), ..app }
    } else {
        let transfer = if transfers.contains_key(file_name) {
            TransferView {
                bytes_transferred,
                progress_history: recent(
                    transfers[file_name].progress_history.push((now, bytes_transferred)),
                    now,
                ),
                ..transfers[file_name]
            }
        } else {
            TransferView {
                file_name,
                total_size,
                bytes_transferred,
                is_sending,
                start_time: now,
                progress_history: seq![(now, bytes_transferred)],
            }
        };
        AppView { active_file_transfers: transfers.insert(file_name, transfer), ..app }
    }
}

/// What an event does.
pub open spec fn event_outcome(app: AppView, event: EventView, now: u64) -> AppOutcome {
    match event {
        EventView::Message { from, text, is_system, ttl, group } => message_outcome(
            app,
            from,
            text,
            is_system,
            ttl,
            group,
            now,
        ),
        EventView::HandshakeComplete(phrase) => AppOutcome {
            app: AppView { identity_phrase: Some(phrase), ..app },
            effect: EffectView::Nothing,
        },
        EventView::PeerUpdate { id, name, addr } => AppOutcome {
            app: peer_updated(app, id, name, addr),
            effect: EffectView::Nothing,
        },
        EventView::FileProgress { peer_id, file_name, total_size, bytes_transferred, is_sending } => AppOutcome {
            app: file_progressed(app, file_name, total_size, bytes_transferred, is_sending, now),
            effect: EffectView::Nothing,
        },
    }
}

proof fn lemma_first_colon(s: Seq<char>, n: int)
    requires
        0 <= n <= s.len(),
        forall|j: int| 0 <= j < n && j + 1 < s.len() ==> !(#[trigger] s[j] == ':' && s[j + 1] == ' '),
    ensures
        first_colon(s) == match first_colon(s.skip(n)) {
            Some(i) => Some(i + n),
            None => None::<int>,
        },
    decreases n,
{
    if n == 0 {
        assert(s.skip(0) =~= s);
    } else if s.len() >= 2 {
        assert(!(s[0] == ':' && s[1] == ' '));
        let rest = s.drop_first();
        assert forall|j: int| 0 <= j < n - 1 && j + 1 < rest.len() implies !(#[trigger] rest[j] == ':' && rest[j + 1]
            == ' ') by {
            assert(rest[j] == s[j + 1]);
            assert(rest[j + 1] == s[j + 2]);
        }
        lemma_first_colon(rest, n - 1);
        assert(rest.skip(n - 1) =~= s.skip(n));
    }
}

fn find_colon(chars: &Vec<char>) -> (res: Option<usize>)
    ensures
        match res {
            Some(i) => first_colon(chars@) == Some(i as int) && i + 2 <= chars@.len(),
            None => first_colon(chars@) is None,
        },
{
    let len: usize = chars.len();
    let mut i: usize = 0;
    while i < len && len - i >= 2
        invariant
            i <= len == chars@.len(),
            forall|j: int| 0 <= j < i && j + 1 < len ==> !(#[trigger] chars@[j] == ':' && chars@[j + 1] == ' '),
        decreases len - i,
    {
        if chars[i] == ':' && chars[i + 1] == ' ' {
            proof {
                lemma_first_colon(chars@, i as int);
                assert(chars@.skip(i as int)[0] == ':' && chars@.skip(i as int)[1] == ' ');
            }
            return Some(i);
        }
        i = i + 1;
    }
    proof {
        lemma_first_colon(chars@, i as int);
    }
    None
}

fn sift_recent(history: &Vec<(u64, u64)>, now: u64) -> (res: Vec<(u64, u64)>)
    ensures
        res@ == recent(history@, now),
{
    let ghost keep = |entry: (u64, u64)| entry.0 + PROGRESS_WINDOW >= now;
    let mut out: Vec<(u64, u64)> = Vec::new();
    let mut i: usize = 0;
    proof {
        reveal(Seq::filter);
        assert(out@ =~= history@.take(0).filter(keep));
    }
    while i < history.len()
        invariant
            i <= history@.len(),
            keep == (|entry: (u64, u64)| entry.0 + PROGRESS_WINDOW >= now),
            out@ == history@.take(i as int).filter(keep),
        decreases history@.len() - i,
    {
        proof {
            reveal(Seq::filter);
            assert(history@.take(i + 1).drop_last() =~= history@.take(i as int));
            assert(history@.take(i + 1).last() == history@[i as int]);
        }
        if now <= PROGRESS_WINDOW || history[i].0 >= now - PROGRESS_WINDOW {
            out.push(history[i]);
        }
        i = i + 1;
    }
    assert(history@.take(i as int) =~= history@);
    out
}

impl App {
    fn name_nodes(&self, text: String) -> (res: String)
        ensures
            res@ == with_names(self@, text@),
    {
        proof {
            reveal_strlit("Connected to ");
            reveal_strlit("Connection lost with ");
        }
        if starts_with(text.as_str(), "Connected to ") {
            let len: usize = text.as_str().unicode_len();
            let id = text.as_str().substring_char(13, len);
            assert(id@ =~= text@.skip(13));
            return text2("Connected to ", self.get_display_name(id).as_str());
        }
        if starts_with(text.as_str(), "Connection lost with ") {
            let len: usize = text.as_str().unicode_len();
            let rest = chars_of(text.as_str().substring_char(21, len));
            assert(rest@ =~= text@.skip(21));
            if let Some(i) = find_colon(&rest) {
                let id = string_of(&rest, 0, i);
                let error = string_of(&rest, i + 2, rest.len());
                assert(id@ =~= rest@.take(i as int));
                assert(error@ =~= rest@.skip(i + 2));
                let name = self.get_display_name(id.as_str());
                let mut out = text2("Connection lost with ", name.as_str());
                out.append(": ");
                out.append(error.as_str());
                return out;
            }
        }
        text
    }

    fn update_peer(&mut self, id: String, name: String, addr: String)
        requires
            old(self)@.wf(),
        ensures
            final(self)@.wf(),
            final(self)@ == peer_updated(old(self)@, id@, name@, addr@),
    {
        let ghost before = self@;
        if !self.peers.contains_key(id.as_str()) {
            let ghost ids = self.peer_ids.deep_view();
            self.peer_ids.push(id.clone());
            assert(self.peer_ids.deep_view() =~= ids.push(id@));
            let ghost added = self@;
            self.sort_peers();
            proof {
                sorting_keeps_peers(added);
                assert forall|i: int| 0 <= i < self@.peer_ids.len() implies #[trigger] self@.peer_ids[i] == id@
                    || before.peers.contains_key(self@.peer_ids[i]) by {
                    assert(added.sorted_peers().contains(self@.peer_ids[i]));
                    let k = choose|k: int| 0 <= k < added.peer_ids.len() && added.peer_ids[k] == self@.peer_ids[i];
                    if k < before.peer_ids.len() {
                        assert(before.peers.contains_key(before.peer_ids[k]));
                    }
                }
            }
        }
        let ghost listed = self@;
        let ghost entry = (name@, addr@);
        let ghost key = id@;
        self.peers.insert(id, (name, addr));
        proof {
            assert(self@ == (AppView { peers: listed.peers.insert(key, entry), ..listed }));
            assert forall|i: int| 0 <= i < self@.peer_ids.len() implies self@.peers.contains_key(
                #[trigger] self@.peer_ids[i],
            ) by {
                assert(listed.peer_ids[i] == key || before.peers.contains_key(listed.peer_ids[i]));
            }
        }
    }

    fn progress_file(
        &mut self,
        file_name: String,
        total_size: u64,
        bytes_transferred: u64,
        is_sending: bool,
        now: u64,
    )
        requires
            old(self)@.wf(),
        ensures
            final(self)@.wf(),
            final(self)@ == file_progressed(
                old(self)@,
                file_name@,
                total_size,
                bytes_transferred,
                is_sending,
                now,
            ),
    {
        let ghost transfers = self@.active_file_transfers;
        let known = self.active_file_transfers.remove(file_name.as_str());
        if bytes_transferred >= total_size {
            return;
        }
        let transfer = match known {
            Some(earlier) => {
                let mut history = earlier.progress_history;
                history.push((now, bytes_transferred));
                FileTransfer {
                    file_name: earlier.file_name,
                    total_size: earlier.total_size,
                    bytes_transferred,
                    is_sending: earlier.is_sending,
                    start_time: earlier.start_time,
                    progress_history: sift_recent(&history, now),
                }
            },
            None => {
                let mut history: Vec<(u64, u64)> = Vec::new();
                history.push((now, bytes_transferred));
                assert(history@ =~= seq![(now, bytes_transferred)]);
                FileTransfer {
                    file_name: file_name.clone(),
                    total_size,
                    bytes_transferred,
                    is_sending,
                    start_time: now,
                    progress_history: history,
                }
            },
        };
        let ghost name = file_name@;
        let ghost entry = transfer.deep_view();
        self.active_file_transfers.insert(file_name, transfer);
        assert(self@.active_file_transfers =~= transfers.insert(name, entry));
    }

    /// Does what an event asks for.
    pub fn handle_event(&mut self, event: UiEvent, now: u64) -> (res: Effect)
        requires
            old(self)@.wf(),
        ensures
            final(self)@.wf(),
            (AppOutcome { app: final(self)@, effect: res.deep_view() }) == event_outcome(
                old(self)@,
                event.deep_view(),
                now,
            ),
    {
        match event {
            UiEvent::Message { from, text, is_system, ttl, group } => {
                let channel = if group.is_none() && is_system { self.active_channel() } else { from.clone() };
                let content = if is_system { self.name_nodes(text) } else { text };
                self.push_message(channel, Message { from, content, is_system, ttl, received_at: now });
                Effect::SaveHistory
            },
            UiEvent::HandshakeComplete(phrase) => {
                self.identity_phrase = Some(phrase);
                Effect::Nothing
            },
            UiEvent::PeerUpdate { id, name, addr } => {
                self.update_peer(id, name, addr);
                Effect::Nothing
            },
            UiEvent::FileProgress { peer_id: _, file_name, total_size, bytes_transferred, is_sending } => {
                self.progress_file(file_name, total_size, bytes_transferred, is_sending, now);
                Effect::Nothing
            },
        }
    }
}

/// A peer that was heard of is shown exactly once more often than before if it is new, and as
/// often as before if it is not; and it has the name and the address that were heard.
pub proof fn peer_is_listed_once(app: AppView, id: Seq<char>, name: Seq<char>, addr: Seq<char>)
    requires
        app.wf(),
    ensures
        ({
            let after = peer_updated(app, id, name, addr);
            &&& after.peers[id] == (name, addr)
            &&& after.peer_ids.len() == app.peer_ids.len() + if app.peers.contains_key(id) {
                0int
            } else {
                1
            }
            &&& !app.peers.contains_key(id) ==> after.peer_ids.contains(id)
        }),
{
    let added = AppView { peer_ids: app.peer_ids.push(id), ..app };
    sorting_keeps_peers(added);
    assert(added.peer_ids.last() == id);
}

/// A file that is complete is no longer among those that are being transferred.
pub proof fn complete_file_is_gone(
    app: AppView,
    file_name: Seq<char>,
    total_size: u64,
    bytes_transferred: u64,
    is_sending: bool,
    now: u64,
)
    ensures
        file_progressed(app, file_name, total_size, bytes_transferred, is_sending, now)
            .active_file_transfers.contains_key(file_name) <==> bytes_transferred < total_size,
{
}

/// What a peer says goes behind what its channel holds, with the sender, the text and the time
/// to live that it came with, and with the time of its arrival. No other channel changes, and
/// nothing but the messages does; the history is saved.
pub proof fn peer_message_is_shown(
    app: AppView,
    from: Seq<char>,
    text: Seq<char>,
    ttl: Option<u64>,
    group: Option<Seq<char>>,
    now: u64,
)
    ensures
        ({
            let outcome = event_outcome(app, EventView::Message { from, text, is_system: false, ttl, group }, now);
            let shown = MessageView { from, content: text, is_system: false, ttl, received_at: now };
            &&& outcome.app.messages == app.messages.insert(
                from,
                if app.messages.contains_key(from) {
                    app.messages[from].push(shown)
                } else {
                    seq![shown]
                },
            )
            &&& outcome.app == (AppView { messages: outcome.app.messages, ..app })
            &&& outcome.effect == EffectView::SaveHistory
        }),
{
    let shown = MessageView { from, content: text, is_system: false, ttl, received_at: now };
    assert(Seq::<MessageView>::empty().push(shown) =~= seq![shown]);
}

/// A message that came with some seconds to live is there until so many thousand milliseconds
/// after it came, and from then on a cleanup leaves in its channel just what it would have left
/// had the message never come.
pub proof fn peer_message_vanishes(
    app: AppView,
    from: Seq<char>,
    text: Seq<char>,
    secs: u64,
    group: Option<Seq<char>>,
    now: u64,
    later: u64,
)
    requires
        now <= later,
    ensures
        ({
            let event = EventView::Message { from, text, is_system: false, ttl: Some(secs), group };
            let after = all_kept(event_outcome(app, event, now).app.messages, later);
            let without = all_kept(app.messages, later);
            let earlier = if without.contains_key(from) {
                without[from]
            } else {
                seq![]
            };
            &&& now + 1000 * secs <= later ==> after[from] == earlier
            &&& later < now + 1000 * secs ==> after[from] == earlier.push(
                MessageView { from, content: text, is_system: false, ttl: Some(secs), received_at: now },
            )
            &&& forall|other: Seq<char>|
                other != from && #[trigger] without.contains_key(other) ==> after.contains_key(other) && after[other]
                    == without[other]
        }),
{
    let shown = MessageView { from, content: text, is_system: false, ttl: Some(secs), received_at: now };
    let event = EventView::Message { from, text, is_system: false, ttl: Some(secs), group };
    let messages = event_outcome(app, event, now).app.messages;
    let earlier = if app.messages.contains_key(from) {
        app.messages[from]
    } else {
        seq![]
    };
    peer_message_is_shown(app, from, text, Some(secs), group, now);
    assert(messages[from] =~= earlier.push(shown));
    cleanup_sifts_each_message(messages, from, earlier, shown, later);
    let rest = messages.insert(from, earlier);
    if app.messages.contains_key(from) {
        cleanup_keeps_channels_apart(rest, app.messages, from, later);
    } else {
        cleanup_keeps_channels_apart(rest, rest, from, later);
        assert(all_kept(rest, later)[from] =~= seq![]);
    }
    let left = all_kept(rest, later)[from];
    assert(left + seq![] =~= left);
    assert(left + seq![shown] =~= left.push(shown));
}

/// No event takes a message away or changes one that is there: each channel goes on from what
/// it held.
pub proof fn events_only_append(app: AppView, event: EventView, now: u64, channel: Seq<char>)
    requires
        app.messages.contains_key(channel),
    ensures
        event_outcome(app, event, now).app.messages.contains_key(channel),
        app.messages[channel].is_prefix_of(event_outcome(app, event, now).app.messages[channel]),
        event !is Message ==> event_outcome(app, event, now).app.messages == app.messages,
{
}

/// What the system says goes to the channel that is shown, or, for a group, to that of its
/// sender, in the order in which it comes and for as long as it came with.
pub proof fn system_message_is_shown(
    app: AppView,
    from: Seq<char>,
    text: Seq<char>,
    ttl: Option<u64>,
    group: Option<Seq<char>>,
    now: u64,
)
    ensures
        ({
            let outcome = event_outcome(app, EventView::Message { from, text, is_system: true, ttl, group }, now);
            let channel = if group is Some {
                from
            } else if app.peer_ids.len() == 0 {
                "System"@
            } else {
                app.peer_ids[app.selected]
            };
            let shown = outcome.app.messages[channel].last();
            &&& outcome.app.messages == app.messages.insert(
                channel,
                if app.messages.contains_key(channel) {
                    app.messages[channel].push(shown)
                } else {
                    seq![shown]
                },
            )
            &&& shown.from == from
            &&& shown.is_system
            &&& shown.ttl == ttl
            &&& shown.received_at == now
            &&& shown.content == with_names(app, text)
            &&& outcome.app == (AppView { messages: outcome.app.messages, ..app })
            &&& outcome.effect == EffectView::SaveHistory
        }),
{
    let outcome = event_outcome(app, EventView::Message { from, text, is_system: true, ttl, group }, now);
    let channel = if group is Some {
        from
    } else {
        app.active_channel()
    };
    let shown = outcome.app.messages[channel].last();
    assert(Seq::<MessageView>::empty().push(shown) =~= seq![shown]);
}

/// What the system says of a connection names the node as the user knows it: behind the words
/// that tell of a connection the id of the node is replaced, whatever it is, and before the
/// reason of a lost one too, while the reason stays.
pub proof fn nodes_are_named(app: AppView, id: Seq<char>, reason: Seq<char>)
    ensures
        with_names(app, "Connected to "@ + id) == "Connected to "@ + app.display_name(id),
        (forall|i: int| 0 <= i < id.len() ==> #[trigger] id[i] != ':') ==> with_names(
            app,
            "Connection lost with "@ + id + ": "@ + reason,
        ) == "Connection lost with "@ + app.display_name(id) + ": "@ + reason,
{
    reveal_strlit("Connected to ");
    reveal_strlit("Connection lost with ");
    reveal_strlit(": ");
    let there = "Connected to "@ + id;
    assert("Connected to "@ =~= there.subrange(0, 13));
    assert(there.skip(13) =~= id);
    let lost = "Connection lost with "@ + id + ": "@ + reason;
    assert("Connection lost with "@ =~= lost.subrange(0, 21));
    assert(lost[8] != "Connected to "@[8]);
    let rest = lost.skip(21);
    assert(rest =~= id + ": "@ + reason);
    if forall|i: int| 0 <= i < id.len() ==> #[trigger] id[i] != ':' {
        assert forall|j: int| 0 <= j < id.len() && j + 1 < rest.len() implies !(#[trigger] rest[j] == ':' && rest[j
            + 1] == ' ') by {
            assert(rest[j] == id[j]);
        }
        lemma_first_colon(rest, id.len() as int);
        let behind = rest.skip(id.len() as int);
        assert(behind[0] == ':' && behind[1] == ' ');
        assert(first_colon(behind) == Some(0int));
        assert(rest.take(id.len() as int) =~= id);
        assert(rest.skip(id.len() as int + 2) =~= reason);
    }
}

/// A text that tells neither of a connection nor of a lost one is shown as it is, and so is one
/// that gives no reason for a lost one.
pub proof fn other_texts_stay(app: AppView, text: Seq<char>)
    ensures
        !"Connected to "@.is_prefix_of(text) && !"Connection lost with "@.is_prefix_of(text) ==> with_names(app, text)
            == text,
        (forall|i: int| 0 <= i < text.len() ==> #[trigger] text[i] != ':') ==> with_names(
            app,
            "Connection lost with "@ + text,
        ) == "Connection lost with "@ + text,
{
    reveal_strlit("Connected to ");
    reveal_strlit("Connection lost with ");
    let lost = "Connection lost with "@ + text;
    assert("Connection lost with "@ =~= lost.subrange(0, 21));
    assert(lost[8] != "Connected to "@[8]);
    assert(lost.skip(21) =~= text);
    if forall|i: int| 0 <= i < text.len() ==> #[trigger] text[i] != ':' {
        lemma_first_colon(text, text.len() as int);
    }
}

/// A peer that is heard of is known by the name and at the address that were heard. The other
/// peers stay as they are known, a new one comes among those that are listed, in the order of the
/// names so far, and one that was listed changes no order. Nothing else changes.
pub proof fn peer_is_known_as_heard(app: AppView, id: Seq<char>, name: Seq<char>, addr: Seq<char>, now: u64)
    ensures
        ({
            let outcome = event_outcome(app, EventView::PeerUpdate { id, name, addr }, now);
            let after = outcome.app;
            &&& after.peers == app.peers.insert(id, (name, addr))
            &&& app.peers.contains_key(id) ==> after.peer_ids == app.peer_ids
            &&& !app.peers.contains_key(id) ==> after.peer_ids.to_multiset() == app.peer_ids.to_multiset().insert(id)
            &&& !app.peers.contains_key(id) ==> forall|i: int, j: int|
                0 <= i <= j < after.peer_ids.len() ==> text_le(
                    app.sort_name(#[trigger] after.peer_ids[i]),
                    app.sort_name(#[trigger] after.peer_ids[j]),
                )
            &&& after == (AppView { peers: after.peers, peer_ids: after.peer_ids, ..app })
            &&& outcome.effect == EffectView::Nothing
        }),
{
    let added = AppView { peer_ids: app.peer_ids.push(id), ..app };
    sorting_keeps_peers(added);
    app.peer_ids.to_multiset_ensures();
    assert(added.peer_ids.to_multiset() =~= app.peer_ids.to_multiset().insert(id));
    assert forall|i: int, j: int| 0 <= i <= j < added.peer_ids.len() implies text_le(
        app.sort_name(#[trigger] added.sorted_peers()[i]),
        app.sort_name(#[trigger] added.sorted_peers()[j]),
    ) by {
        assert(app.sort_name(added.sorted_peers()[i]) == added.sort_name(added.sorted_peers()[i]));
        assert(app.sort_name(added.sorted_peers()[j]) == added.sort_name(added.sorted_peers()[j]));
    }
}

/// The phrase of a handshake is the one that is shown from then on, and nothing else changes.
pub proof fn phrase_is_shown(app: AppView, phrase: Seq<char>, now: u64)
    ensures
        ({
            let outcome = event_outcome(app, EventView::HandshakeComplete(phrase), now);
            &&& outcome.app.identity_phrase == Some(phrase)
            &&& outcome.app == (AppView { identity_phrase: outcome.app.identity_phrase, ..app })
            &&& outcome.effect == EffectView::Nothing
        }),
{
}

/// The progress of a file that is not complete is shown: how far it is, when it started, and of
/// its history what is at most two seconds old, the latest last. Other files are not touched.
pub proof fn progress_is_shown(
    app: AppView,
    peer_id: Seq<char>,
    file_name: Seq<char>,
    total_size: u64,
    bytes_transferred: u64,
    is_sending: bool,
    now: u64,
)
    ensures
        ({
            let event = EventView::FileProgress { peer_id, file_name, total_size, bytes_transferred, is_sending };
            let outcome = event_outcome(app, event, now);
            let before = app.active_file_transfers;
            let after = outcome.app.active_file_transfers;
            &&& after.remove(file_name) == before.remove(file_name)
            &&& after.contains_key(file_name) <==> bytes_transferred < total_size
            &&& outcome.app == (AppView { active_file_transfers: after, ..app })
            &&& outcome.effect == EffectView::Nothing
            &&& bytes_transferred < total_size ==> {
                let shown = after[file_name];
                &&& shown.bytes_transferred == bytes_transferred
                &&& shown.progress_history.last() == (now, bytes_transferred)
                &&& !before.contains_key(file_name) ==> shown.file_name == file_name && shown.total_size == total_size
                    && shown.is_sending == is_sending && shown.start_time == now && shown.progress_history.len() == 1
                &&& before.contains_key(file_name) ==> shown.file_name == before[file_name].file_name
                    && shown.total_size == before[file_name].total_size && shown.is_sending
                    == before[file_name].is_sending && shown.start_time == before[file_name].start_time
                    && shown.progress_history.drop_last() == before[file_name].progress_history.filter(
                    |entry: (u64, u64)| now <= entry.0 + 2000,
                )
            }
        }),
{
    let before = app.active_file_transfers;
    let event = EventView::FileProgress { peer_id, file_name, total_size, bytes_transferred, is_sending };
    let after = event_outcome(app, event, now).app.active_file_transfers;
    assert(after.remove(file_name) =~= before.remove(file_name));
    if before.contains_key(file_name) {
        let keep = |entry: (u64, u64)| entry.0 + PROGRESS_WINDOW >= now;
        let near = |entry: (u64, u64)| now <= entry.0 + 2000;
        assert(keep =~= near);
        reveal(Seq::filter);
        let history = before[file_name].progress_history;
        let longer = history.push((now, bytes_transferred));
        assert(longer.drop_last() =~= history);
        let sifted = recent(longer, now);
        assert(sifted == history.filter(keep).push((now, bytes_transferred)));
        assert(sifted.drop_last() =~= history.filter(near));
    }
}

/// A message that came with some seconds to live is in no channel any more after a cleanup that
/// many thousand milliseconds after it came, or later.
pub proof fn vanished_message_is_nowhere(
    app: AppView,
    from: Seq<char>,
    text: Seq<char>,
    secs: u64,
    group: Option<Seq<char>>,
    now: u64,
    later: u64,
    channel: Seq<char>,
)
    requires
        now + 1000 * secs <= later,
    ensures
        ({
            let event = EventView::Message { from, text, is_system: false, ttl: Some(secs), group };
            let shown = MessageView { from, content: text, is_system: false, ttl: Some(secs), received_at: now };
            let before = event_outcome(app, event, now).app.messages;
            let after = all_kept(before, later);
            &&& before[from].last() == shown
            &&& after.contains_key(channel) ==> !after[channel].contains(shown)
        }),
{
    let event = EventView::Message { from, text, is_system: false, ttl: Some(secs), group };
    let shown = MessageView { from, content: text, is_system: false, ttl: Some(secs), received_at: now };
    let before = event_outcome(app, event, now).app.messages;
    peer_message_is_shown(app, from, text, Some(secs), group, now);
    if before.contains_key(channel) {
        cleanup_drops_what_is_over(before, channel, shown, later);
    }
}

}
