//! What the user types, and what it leads to.
use crate::autocomplete::{
    get_autocomplete_matches, suggestions, suggestions_continue_input, AutocompleteState, DirEntry, EntryView,
};
use crate::order::text_le;
use crate::text::{
    decimal, decimal_text, padding_is_taken_away, same_text, split_whitespace, starts_with, take_chars, text3, text5,
    trim, trimmed, whitespace, word_comes_behind, words_of,
};
use crate::ttl::{format_ttl, parse_ttl, ttl_secs, ttl_text, units_have_their_seconds, MAX_TTL};
use crate::tui::{
    all_kept, cleanup_drops_what_is_over, sorting_keeps_peers, system_name, App, AppView, AutocompleteView, Message,
    MessageView,
};
use vstd::prelude::*;
use vstd::string::*;

verus! {

/// A key.
#[derive(Clone, Copy, Debug, PartialEq, Eq)]
pub enum Key {
    Enter,
    Esc,
    Backspace,
    Tab,
    BackTab,
    Up,
    Down,
    Char(char),
    Other,
}

/// A key that was pressed, with others held down.
#[derive(Clone, Copy, Debug, PartialEq, Eq)]
pub struct KeyPress {
    pub key: Key,
    pub control: bool,
    pub shift: bool,
}

/// What a key or an event leads to, outside the state of the user interface.
#[derive(Debug)]
pub enum Effect {
    Nothing,
    SavePeers,
    SaveHistory,
    /// The peer is told how long messages are kept; then the history is saved.
    Notify { target: String, ttl: Option<u64> },
    /// A connection to an address is made; where it is known, to which node.
    Connect { addr: String, node_id: Option<String> },
    /// A text is handed on for a peer.
    Say { target: String, text: String, ttl: Option<u64> },
    /// The directory for suggestions is read.
    Complete { backwards: bool },
    SetBroadcasting(bool),
    Quit,
}

/// What a key or an event leads to, as a value.
pub ghost enum EffectView {
    Nothing,
    SavePeers,
    SaveHistory,
    Notify { target: Seq<char>, ttl: Option<u64> },
    Connect { addr: Seq<char>, node_id: Option<Seq<char>> },
    Say { target: Seq<char>, text: Seq<char>, ttl: Option<u64> },
    Complete { backwards: bool },
    SetBroadcasting(bool),
    Quit,
}

impl DeepView for Effect {
    type V = EffectView;

    open spec fn deep_view(&self) -> EffectView {
        match self {
            Effect::Nothing => EffectView::Nothing,
            Effect::SavePeers => EffectView::SavePeers,
            Effect::SaveHistory => EffectView::SaveHistory,
            Effect::Notify { target, ttl } => EffectView::Notify { target: target@, ttl: *ttl },
            Effect::Connect { addr, node_id } => EffectView::Connect { addr: addr@, node_id: node_id.deep_view() },
            Effect::Say { target, text, ttl } => EffectView::Say { target: target@, text: text@, ttl: *ttl },
            Effect::Complete { backwards } => EffectView::Complete { backwards: *backwards },
            Effect::SetBroadcasting(enabled) => EffectView::SetBroadcasting(*enabled),
            Effect::Quit => EffectView::Quit,
        }
    }
}

/// The state of the user interface after a key or an event, and what else that leads to.
pub ghost struct AppOutcome {
    pub app: AppView,
    pub effect: EffectView,
}

/// `app` with nothing else to do.
pub open spec fn only(app: AppView) -> AppOutcome {
    AppOutcome { app, effect: EffectView::Nothing }
}

/// `text` without its last character.
pub open spec fn shortened(text: Seq<char>) -> Seq<char> {
    if text.len() > 0 {
        text.drop_last()
    } else {
        text
    }
}

/// Where a text stands first among others, or the start where it does not.
pub open spec fn first_index(items: Seq<Seq<char>>, item: Seq<char>) -> int
    decreases items.len(),
{
    if items.len() == 0 {
        0
    } else {
        let before = first_index(items.drop_last(), item);
        if items.drop_last().contains(item) {
            before
        } else if items.last() == item {
            items.len() - 1
        } else {
            0
        }
    }
}

/// What a key does while a peer is renamed.
pub open spec fn rename_outcome(app: AppView, key: Key) -> AppOutcome {
    match key {
        Key::Enter => if app.rename_input.len() > 0 {
            let id = app.peer_ids[app.selected];
            let named = AppView {
                custom_names: app.custom_names.insert(id, app.rename_input),
                rename_input: seq![],
                is_renaming: false,
                ..app
            };
            let ids = named.sorted_peers();
            AppOutcome {
                app: AppView { peer_ids: ids, selected: first_index(ids, id), ..named },
                effect: EffectView::SavePeers,
            }
        } else {
            only(AppView { is_renaming: false, ..app })
        },
        Key::Esc => only(AppView { is_renaming: false, rename_input: seq![], ..app }),
        Key::Char(c) => only(AppView { rename_input: app.rename_input.push(c), ..app }),
        Key::Backspace => only(AppView { rename_input: shortened(app.rename_input), ..app }),
        _ => only(app),
    }
}

/// Whether a key closes a window that covers the others.
pub open spec fn closes(key: Key) -> bool {
    key == Key::Esc || key == Key::Enter || key == Key::Char(' ')
}

/// What the user is told of how long messages are kept.
pub open spec fn ttl_status(ttl: Option<u64>) -> Seq<char> {
    match ttl {
        Some(secs) => "TTL is set to "@ + ttl_text(secs as nat)
            + " — messages disappear after that time. Use /ttl <time> to change or /ttl 0 to disable."@,
        None =>
            "TTL is disabled — messages persist until you close the app. Use /ttl <time> to enable (e.g. /ttl 30m, /ttl 2h, /ttl 1d)."@,
    }
}

/// The time to live that a text stands for, where it can be counted.
pub open spec fn countable_ttl(text: Seq<char>) -> Option<u64> {
    match ttl_secs(text) {
        Some(secs) => if secs <= u64::MAX {
            Some(secs as u64)
        } else {
            None
        },
        None => None,
    }
}

/// What the command for the time to live does.
pub open spec fn ttl_outcome(app: AppView, input: Seq<char>, now: u64) -> AppOutcome {
    let words = words_of(input);
    let channel = app.active_channel();
    if words.len() != 2 {
        AppOutcome {
            app: app.told(channel, "Usage: /ttl <time>  (e.g. 30s, 5m, 2h, 1d) or /ttl 0 to disable"@, now),
            effect: EffectView::SaveHistory,
        }
    } else {
        match countable_ttl(words[1]) {
            Some(secs) => if secs == 0 {
                AppOutcome {
                    app: (AppView { current_ttl: None, ..app }).told(
                        channel,
                        "TTL disabled — new messages will persist."@,
                        now,
                    ),
                    effect: EffectView::Notify { target: channel, ttl: None },
                }
            } else if secs <= MAX_TTL {
                AppOutcome {
                    app: (AppView { current_ttl: Some(secs), ..app }).told(
                        channel,
                        "TTL set to "@ + ttl_text(secs as nat)
                            + " — new messages will disappear after that time."@,
                        now,
                    ),
                    effect: EffectView::Notify { target: channel, ttl: Some(secs) },
                }
            } else {
                AppOutcome {
                    app: app.told(
                        channel,
                        "TTL too large — maximum is "@ + ttl_text(MAX_TTL as nat) + " ("@ + decimal(MAX_TTL as nat)
                            + "s)."@,
                        now,
                    ),
                    effect: EffectView::SaveHistory,
                }
            },
            None => AppOutcome {
                app: app.told(
                    channel,
                    "Invalid TTL '"@ + words[1]
                        + "' — expected a number with an optional unit: 30s, 5m, 2h, 1d."@,
                    now,
                ),
                effect: EffectView::SaveHistory,
            },
        }
    }
}

/// What a line that the user entered does.
pub open spec fn line_outcome(app: AppView, input: Seq<char>, now: u64) -> AppOutcome {
    if input == "/ttl"@ {
        AppOutcome {
            app: app.told(app.active_channel(), ttl_status(app.current_ttl), now),
            effect: EffectView::SaveHistory,
        }
    } else if "/ttl "@.is_prefix_of(input) {
        ttl_outcome(app, input, now)
    } else if "/connect "@.is_prefix_of(input) {
        let addr = trimmed(input.skip(9));
        if addr.len() == 0 {
            only(app)
        } else {
            AppOutcome { app, effect: EffectView::Connect { addr, node_id: None } }
        }
    } else if input == "/clear"@ {
        AppOutcome {
            app: AppView { messages: app.messages.remove(app.active_channel()), ..app },
            effect: EffectView::SaveHistory,
        }
    } else if input == "/whoami"@ {
        only(AppView { is_showing_whoami: true, ..app })
    } else if app.peer_ids.len() > 0 {
        AppOutcome {
            app,
            effect: EffectView::Say { target: app.peer_ids[app.selected], text: input, ttl: app.current_ttl },
        }
    } else {
        only(app.told(system_name(), "No peer selected. Connect to a peer first."@, now))
    }
}

/// What entering an empty line does: the selected peer is connected to.
pub open spec fn connect_outcome(app: AppView, now: u64) -> AppOutcome {
    if app.peer_ids.len() == 0 {
        only(app)
    } else {
        let id = app.peer_ids[app.selected];
        let (name, addr) = app.peers[id];
        if addr == "Offline"@ {
            only(
                app.told(
                    id,
                    "Peer is offline. Waiting for discovery broadcast, or connect directly using: /connect <ip>:<port>"@,
                    now,
                ),
            )
        } else {
            let shown = if app.custom_names.contains_key(id) {
                app.custom_names[id]
            } else {
                name
            };
            AppOutcome {
                app: app.told(id, "Connecting to "@ + shown + "..."@, now),
                effect: EffectView::Connect { addr, node_id: Some(id) },
            }
        }
    }
}

/// The state in which the suggestion `index` is typed.
pub open spec fn with_suggestion(app: AppView, matches: Seq<Seq<char>>, index: int) -> AppView {
    AppView { input: matches[index], autocomplete: Some(AutocompleteView { matches, index }), ..app }
}

/// What asking for a suggestion does: the next one is typed, or the one before; where there are
/// none yet, they are looked for.
pub open spec fn tab_outcome(app: AppView, backwards: bool) -> AppOutcome {
    match app.autocomplete {
        Some(state) => {
            let count = state.matches.len();
            let index = if backwards {
                if state.index > 0 {
                    state.index - 1
                } else {
                    count - 1
                }
            } else if state.index + 1 < count {
                state.index + 1
            } else {
                0
            };
            only(with_suggestion(app, state.matches, index))
        },
        None => AppOutcome { app, effect: EffectView::Complete { backwards } },
    }
}

/// What a key does while nothing covers the channel.
pub open spec fn chat_outcome(app: AppView, press: KeyPress, now: u64, broadcasting: bool) -> AppOutcome {
    match press.key {
        Key::Enter => if app.input.len() > 0 {
            line_outcome(AppView { input: seq![], autocomplete: None, ..app }, app.input, now)
        } else {
            connect_outcome(app, now)
        },
        Key::Tab => tab_outcome(app, press.shift),
        Key::BackTab => tab_outcome(app, true),
        Key::Up => if app.peer_ids.len() == 0 {
            only(app)
        } else if app.selected > 0 {
            only(AppView { selected: app.selected - 1, ..app })
        } else {
            only(AppView { selected: app.peer_ids.len() - 1, ..app })
        },
        Key::Down => if app.peer_ids.len() == 0 {
            only(app)
        } else if app.selected + 1 < app.peer_ids.len() {
            only(AppView { selected: app.selected + 1, ..app })
        } else {
            only(AppView { selected: 0, ..app })
        },
        Key::Char(c) => if press.control && c == 'b' {
            AppOutcome {
                app: AppView { broadcasting: !broadcasting, ..app },
                effect: EffectView::SetBroadcasting(!broadcasting),
            }
        } else if press.control && c == 'r' {
            if app.peer_ids.len() == 0 {
                only(app)
            } else {
                let id = app.peer_ids[app.selected];
                only(
                    AppView {
                        is_renaming: true,
                        rename_input: if app.custom_names.contains_key(id) {
                            app.custom_names[id]
                        } else {
                            app.peers[id].0
                        },
                        ..app
                    },
                )
            }
        } else if press.control && c == 'h' {
            only(AppView { is_showing_help: true, ..app })
        } else {
            only(AppView { input: app.input.push(c), autocomplete: None, ..app })
        },
        Key::Backspace => only(AppView { input: shortened(app.input), autocomplete: None, ..app }),
        Key::Esc => AppOutcome { app, effect: EffectView::Quit },
        Key::Other => only(app),
    }
}

/// What a key does.
pub open spec fn key_outcome(app: AppView, press: KeyPress, now: u64, broadcasting: bool) -> AppOutcome {
    if app.is_renaming {
        rename_outcome(app, press.key)
    } else if app.is_showing_help {
        if closes(press.key) || press.key == Key::Char('h') && press.control {
            only(AppView { is_showing_help: false, ..app })
        } else {
            only(app)
        }
    } else if app.is_showing_whoami {
        if closes(press.key) {
            only(AppView { is_showing_whoami: false, ..app })
        } else {
            only(app)
        }
    } else {
        chat_outcome(app, press, now, broadcasting)
    }
}

proof fn lemma_first_index(items: Seq<Seq<char>>, item: Seq<char>)
    ensures
        items.len() > 0 ==> 0 <= first_index(items, item) < items.len(),
        items.len() == 0 ==> first_index(items, item) == 0,
        items.contains(item) ==> items[first_index(items, item)] == item,
    decreases items.len(),
{
    if items.len() > 0 {
        let rest = items.drop_last();
        lemma_first_index(rest, item);
        if items.contains(item) && !rest.contains(item) {
            let i = choose|i: int| 0 <= i < items.len() && items[i] == item;
            if i < rest.len() {
                assert(rest[i] == item);
            }
        }
    }
}

fn position(items: &Vec<String>, item: &str) -> (res: usize)
    ensures
        res == first_index(items.deep_view(), item@),
        items@.len() > 0 ==> res < items@.len(),
        items@.len() == 0 ==> res == 0,
{
    let ghost all = items.deep_view();
    let mut i: usize = 0;
    proof {
        lemma_first_index(all, item@);
    }
    while i < items.len()
        invariant
            i <= items@.len(),
            all == items.deep_view(),
            !all.take(i as int).contains(item@),
            first_index(all.take(i as int), item@) == 0,
            items@.len() > 0 ==> 0 <= first_index(all, item@) < items@.len(),
        decreases items@.len() - i,
    {
        assert(all.take(i + 1).drop_last() =~= all.take(i as int));
        assert(all.take(i + 1).last() == items@[i as int]@);
        if same_text(items[i].as_str(), item) {
            assert(first_index(all.take(i + 1), item@) == i);
            assert(all.take(i + 1)[i as int] == item@);
            proof {
                lemma_first_index_stays(all, item@, i + 1);
            }
            return i;
        }
        proof {
            let longer = all.take(i + 1);
            if longer.contains(item@) {
                let k = choose|k: int| 0 <= k < longer.len() && longer[k] == item@;
                assert(all.take(i as int)[k] == item@);
            }
        }
        i = i + 1;
    }
    assert(all.take(i as int) =~= all);
    0
}

proof fn lemma_first_index_stays(items: Seq<Seq<char>>, item: Seq<char>, n: int)
    requires
        0 <= n <= items.len(),
        items.take(n).contains(item),
    ensures
        first_index(items, item) == first_index(items.take(n), item),
    decreases items.len(),
{
    if n < items.len() {
        let rest = items.drop_last();
        assert(rest.take(n) =~= items.take(n));
        lemma_first_index_stays(rest, item, n);
        let part = items.take(n);
        let k = choose|k: int| 0 <= k < part.len() && part[k] == item;
        assert(rest[k] == item);
    } else {
        assert(items.take(n) =~= items);
    }
}

fn without_last(text: &str) -> (res: String)
    ensures
        res@ == shortened(text@),
{
    let len: usize = text.unicode_len();
    if len == 0 {
        return text.to_owned();
    }
    let out = take_chars(text, len - 1);
    assert(out@ =~= text@.drop_last());
    out
}

impl App {
    fn rename_key(&mut self, key: Key) -> (res: Effect)
        requires
            old(self)@.wf(),
            old(self)@.is_renaming,
        ensures
            final(self)@.wf(),
            (AppOutcome { app: final(self)@, effect: res.deep_view() }) == rename_outcome(old(self)@, key),
    {
        match key {
            Key::Enter => {
                self.is_renaming = false;
                if self.rename_input.as_str().is_empty() {
                    return Effect::Nothing;
                }
                let id = self.peer_ids[self.selected].clone();
                let mut name = String::new();
                core::mem::swap(&mut name, &mut self.rename_input);
                self.custom_names.insert(id.clone(), name);
                assert(self@.rename_input =~= seq![]);
                let ghost named = self@;
                self.sort_peers();
                self.selected = position(&self.peer_ids, id.as_str());
                proof {
                    sorting_keeps_peers(named);
                    assert forall|i: int| 0 <= i < self@.peer_ids.len() implies self@.peers.contains_key(
                        #[trigger] self@.peer_ids[i],
                    ) by {
                        assert(named.sorted_peers().contains(self@.peer_ids[i]));
                        let k = choose|k: int|
                            0 <= k < named.peer_ids.len() && named.peer_ids[k] == self@.peer_ids[i];
                        assert(old(self)@.peers.contains_key(old(self)@.peer_ids[k]));
                    }
                }
                Effect::SavePeers
            },
            Key::Esc => {
                self.is_renaming = false;
                self.rename_input = String::new();
                assert(self@.rename_input =~= seq![]);
                Effect::Nothing
            },
            Key::Char(c) => {
                self.rename_input.push(c);
                Effect::Nothing
            },
            Key::Backspace => {
                self.rename_input = without_last(self.rename_input.as_str());
                Effect::Nothing
            },
            _ => Effect::Nothing,
        }
    }

    fn set_ttl(&mut self, input: &str, now: u64) -> (res: Effect)
        requires
            old(self)@.wf(),
        ensures
            final(self)@.wf(),
            (AppOutcome { app: final(self)@, effect: res.deep_view() }) == ttl_outcome(old(self)@, input@, now),
    {
        let words = split_whitespace(input);
        let channel = self.active_channel();
        if words.len() != 2 {
            self.tell(
                channel,
                "Usage: /ttl <time>  (e.g. 30s, 5m, 2h, 1d) or /ttl 0 to disable".to_owned(),
                now,
            );
            return Effect::SaveHistory;
        }
        assert(words.deep_view()[1] == words@[1]@);
        match parse_ttl(words[1].as_str()) {
            Ok(secs) => if secs == 0 {
                self.current_ttl = None;
                self.tell(channel.clone(), "TTL disabled — new messages will persist.".to_owned(), now);
                Effect::Notify { target: channel, ttl: None }
            } else if secs <= MAX_TTL {
                self.current_ttl = Some(secs);
                let shown = format_ttl(secs);
                self.tell(
                    channel.clone(),
                    text3("TTL set to ", shown.as_str(), " — new messages will disappear after that time."),
                    now,
                );
                Effect::Notify { target: channel, ttl: Some(secs) }
            } else {
                let longest = format_ttl(MAX_TTL);
                let count = decimal_text(MAX_TTL);
                self.tell(
                    channel,
                    text5("TTL too large — maximum is ", longest.as_str(), " (", count.as_str(), "s)."),
                    now,
                );
                Effect::SaveHistory
            },
            Err(_) => {
                self.tell(
                    channel,
                    text3(
                        "Invalid TTL '",
                        words[1].as_str(),
                        "' — expected a number with an optional unit: 30s, 5m, 2h, 1d.",
                    ),
                    now,
                );
                Effect::SaveHistory
            },
        }
    }

    fn enter_line(&mut self, input: String, now: u64) -> (res: Effect)
        requires
            old(self)@.wf(),
        ensures
            final(self)@.wf(),
            (AppOutcome { app: final(self)@, effect: res.deep_view() }) == line_outcome(old(self)@, input@, now),
    {
        if same_text(input.as_str(), "/ttl") {
            let status = match self.current_ttl {
                Some(secs) => text3(
                    "TTL is set to ",
                    format_ttl(secs).as_str(),
                    " — messages disappear after that time. Use /ttl <time> to change or /ttl 0 to disable.",
                ),
                None =>
                    "TTL is disabled — messages persist until you close the app. Use /ttl <time> to enable (e.g. /ttl 30m, /ttl 2h, /ttl 1d).".to_owned(),
            };
            let channel = self.active_channel();
            self.tell(channel, status, now);
            return Effect::SaveHistory;
        }
        if starts_with(input.as_str(), "/ttl ") {
            return self.set_ttl(input.as_str(), now);
        }
        if starts_with(input.as_str(), "/connect ") {
            proof {
                reveal_strlit("/connect ");
            }
            let len: usize = input.as_str().unicode_len();
            let rest = input.as_str().substring_char(9, len);
            assert(rest@ =~= input@.skip(9));
            let addr = trim(rest);
            if addr.as_str().is_empty() {
                return Effect::Nothing;
            }
            return Effect::Connect { addr, node_id: None };
        }
        if same_text(input.as_str(), "/clear") {
            let channel = self.active_channel();
            let _ = self.messages.remove(channel.as_str());
            return Effect::SaveHistory;
        }
        if same_text(input.as_str(), "/whoami") {
            self.is_showing_whoami = true;
            return Effect::Nothing;
        }
        if self.peer_ids.len() > 0 {
            return Effect::Say {
                target: self.peer_ids[self.selected].clone(),
                text: input,
                ttl: self.current_ttl,
            };
        }
        self.tell("System".to_owned(), "No peer selected. Connect to a peer first.".to_owned(), now);
        Effect::Nothing
    }

    fn connect_selected(&mut self, now: u64) -> (res: Effect)
        requires
            old(self)@.wf(),
        ensures
            final(self)@.wf(),
            (AppOutcome { app: final(self)@, effect: res.deep_view() }) == connect_outcome(old(self)@, now),
    {
        if self.peer_ids.len() == 0 {
            return Effect::Nothing;
        }
        let id = self.peer_ids[self.selected].clone();
        assert(self@.peers.contains_key(self@.peer_ids[self@.selected]));
        let (name, addr) = match self.peers.get(id.as_str()) {
            Some(peer) => (peer.0.clone(), peer.1.clone()),
            None => return Effect::Nothing,
        };
        if same_text(addr.as_str(), "Offline") {
            self.tell(
                id,
                "Peer is offline. Waiting for discovery broadcast, or connect directly using: /connect <ip>:<port>".to_owned(),
                now,
            );
            return Effect::Nothing;
        }
        let shown = match self.custom_names.get(id.as_str()) {
            Some(custom) => custom.clone(),
            None => name,
        };
        self.tell(id.clone(), text3("Connecting to ", shown.as_str(), "..."), now);
        Effect::Connect { addr, node_id: Some(id) }
    }

    fn tab(&mut self, backwards: bool) -> (res: Effect)
        requires
            old(self)@.wf(),
        ensures
            final(self)@.wf(),
            (AppOutcome { app: final(self)@, effect: res.deep_view() }) == tab_outcome(old(self)@, backwards),
    {
        let mut state = match self.autocomplete.take() {
            Some(state) => state,
            None => return Effect::Complete { backwards },
        };
        let count: usize = state.matches.len();
        let index: usize = if backwards {
            if state.index > 0 {
                state.index - 1
            } else {
                count - 1
            }
        } else if state.index + 1 < count {
            state.index + 1
        } else {
            0
        };
        self.input = state.matches[index].clone();
        assert(state.matches.deep_view()[index as int] == state.matches@[index as int]@);
        state.index = index;
        self.autocomplete = Some(state);
        Effect::Nothing
    }

    /// Offers suggestions, where the directory for them holds the given entries.
    pub fn complete(&mut self, entries: &Vec<DirEntry>, backwards: bool)
        requires
            old(self)@.wf(),
        ensures
            final(self)@.wf(),
            ({
                let found = suggestions(old(self)@.input, entries.deep_view());
                final(self)@ == if found.len() == 0 {
                    old(self)@
                } else if backwards {
                    with_suggestion(old(self)@, found, found.len() - 1)
                } else {
                    with_suggestion(old(self)@, found, 0)
                }
            }),
            final(self)@ == completed(old(self)@, entries.deep_view(), backwards),
    {
        let matches = get_autocomplete_matches(self.input.as_str(), entries);
        if matches.len() == 0 {
            return;
        }
        let index: usize = if backwards { matches.len() - 1 } else { 0 };
        assert(matches.deep_view()[index as int] == matches@[index as int]@);
        self.input = matches[index].clone();
        self.autocomplete = Some(AutocompleteState { matches, index });
    }

    /// Shows a text that was handed on for a peer.
    pub fn message_sent(&mut self, target: String, text: String, now: u64) -> (res: Effect)
        requires
            old(self)@.wf(),
        ensures
            final(self)@.wf(),
            final(self)@ == old(self)@.with_message(
                target@,
                MessageView {
                    from: "Me"@,
                    content: text@,
                    is_system: false,
                    ttl: old(self)@.current_ttl,
                    received_at: now,
                },
            ),
            res.deep_view() == EffectView::SaveHistory,
            (AppOutcome { app: final(self)@, effect: res.deep_view() }) == own_message_outcome(
                old(self)@,
                target@,
                text@,
                now,
            ),
    {
        let ttl = self.current_ttl;
        self.push_message(
            target,
            Message { from: "Me".to_owned(), content: text, is_system: false, ttl, received_at: now },
        );
        Effect::SaveHistory
    }

    fn control_key(&mut self, c: char, broadcasting: bool) -> (res: Option<Effect>)
        requires
            old(self)@.wf(),
            !old(self)@.is_renaming,
        ensures
            final(self)@.wf(),
            match res {
                Some(effect) => (c == 'b' || c == 'r' || c == 'h') && (AppOutcome {
                    app: final(self)@,
                    effect: effect.deep_view(),
                }) == chat_outcome(
                    old(self)@,
                    KeyPress { key: Key::Char(c), control: true, shift: false },
                    0,
                    broadcasting,
                ),
                None => c != 'b' && c != 'r' && c != 'h' && final(self)@ == old(self)@,
            },
    {
        if c == 'b' {
            self.broadcasting = !broadcasting;
            return Some(Effect::SetBroadcasting(!broadcasting));
        }
        if c == 'r' {
            if self.peer_ids.len() == 0 {
                return Some(Effect::Nothing);
            }
            let id = self.peer_ids[self.selected].clone();
            assert(self@.peers.contains_key(self@.peer_ids[self@.selected]));
            let name = match self.custom_names.get(id.as_str()) {
                Some(custom) => custom.clone(),
                None => match self.peers.get(id.as_str()) {
                    Some(peer) => peer.0.clone(),
                    None => return None,
                },
            };
            self.is_renaming = true;
            self.rename_input = name;
            return Some(Effect::Nothing);
        }
        if c == 'h' {
            self.is_showing_help = true;
            return Some(Effect::Nothing);
        }
        None
    }

    fn chat_key(&mut self, press: KeyPress, now: u64, broadcasting: bool) -> (res: Effect)
        requires
            old(self)@.wf(),
            !old(self)@.is_renaming,
        ensures
            final(self)@.wf(),
            (AppOutcome { app: final(self)@, effect: res.deep_view() }) == chat_outcome(
                old(self)@,
                press,
                now,
                broadcasting,
            ),
    {
        match press.key {
            Key::Enter => {
                if self.input.as_str().is_empty() {
                    return self.connect_selected(now);
                }
                let mut input = String::new();
                core::mem::swap(&mut input, &mut self.input);
                self.autocomplete = None;
                assert(self@.input =~= seq![]);
                self.enter_line(input, now)
            },
            Key::Tab => self.tab(press.shift),
            Key::BackTab => self.tab(true),
            Key::Up => {
                let count: usize = self.peer_ids.len();
                if count > 0 {
                    self.selected = if self.selected > 0 { self.selected - 1 } else { count - 1 };
                }
                Effect::Nothing
            },
            Key::Down => {
                let count: usize = self.peer_ids.len();
                if count > 0 {
                    self.selected = if self.selected + 1 < count { self.selected + 1 } else { 0 };
                }
                Effect::Nothing
            },
            Key::Char(c) => {
                if press.control {
                    if let Some(effect) = self.control_key(c, broadcasting) {
                        return effect;
                    }
                }
                self.input.push(c);
                self.autocomplete = None;
                Effect::Nothing
            },
            Key::Backspace => {
                self.input = without_last(self.input.as_str());
                self.autocomplete = None;
                Effect::Nothing
            },
            Key::Esc => Effect::Quit,
            Key::Other => Effect::Nothing,
        }
    }

    /// Takes a key. Whether the node broadcasts is the caller's to say.
    pub fn handle_key(&mut self, press: KeyPress, now: u64, broadcasting: bool) -> (res: Effect)
        requires
            old(self)@.wf(),
        ensures
            final(self)@.wf(),
            (AppOutcome { app: final(self)@, effect: res.deep_view() }) == key_outcome(
                old(self)@,
                press,
                now,
                broadcasting,
            ),
    {
        if self.is_renaming {
            return self.rename_key(press.key);
        }
        if self.is_showing_help || self.is_showing_whoami {
            let help = self.is_showing_help;
            let close = match press.key {
                Key::Esc | Key::Enter => true,
                Key::Char(c) => c == ' ' || help && c == 'h' && press.control,
                _ => false,
            };
            if close && help {
                self.is_showing_help = false;
            } else if close {
                self.is_showing_whoami = false;
            }
            return Effect::Nothing;
        }
        self.chat_key(press, now, broadcasting)
    }
}

/// A line that is no command goes to the selected peer as it was typed, with the time that
/// messages are kept.
pub proof fn plain_line_is_said(app: AppView, input: Seq<char>, now: u64)
    requires
        app.peer_ids.len() > 0,
        input.len() > 0,
        input[0] != '/',
    ensures
        line_outcome(app, input, now) == (AppOutcome {
            app,
            effect: EffectView::Say { target: app.peer_ids[app.selected], text: input, ttl: app.current_ttl },
        }),
{
    reveal_strlit("/ttl");
    reveal_strlit("/ttl ");
    reveal_strlit("/connect ");
    reveal_strlit("/clear");
    reveal_strlit("/whoami");
    assert("/ttl "@.len() == 5 && "/connect "@.len() == 9);
    if "/ttl "@.is_prefix_of(input) {
        assert("/ttl "@[0] == input[0]);
    }
    if "/connect "@.is_prefix_of(input) {
        assert("/connect "@[0] == input[0]);
    }
    assert("/ttl"@[0] == '/' && "/clear"@[0] == '/' && "/whoami"@[0] == '/');
}

/// The time that messages are kept is never set to none at all, nor to more than the longest.
pub proof fn ttl_stays_in_bounds(app: AppView, press: KeyPress, now: u64, broadcasting: bool)
    requires
        app.current_ttl matches Some(secs) ==> 0 < secs <= MAX_TTL,
    ensures
        key_outcome(app, press, now, broadcasting).app.current_ttl matches Some(secs) ==> 0 < secs <= MAX_TTL,
{
}

/// Going up and then down, or down and then up, comes back to the same peer.
pub proof fn up_and_down_cancel(app: AppView, now: u64, broadcasting: bool)
    requires
        app.wf(),
        !app.is_renaming,
        !app.is_showing_help,
        !app.is_showing_whoami,
    ensures
        ({
            let up = KeyPress { key: Key::Up, control: false, shift: false };
            let down = KeyPress { key: Key::Down, control: false, shift: false };
            let above = key_outcome(app, up, now, broadcasting).app;
            let below = key_outcome(app, down, now, broadcasting).app;
            &&& key_outcome(above, down, now, broadcasting).app == app
            &&& key_outcome(below, up, now, broadcasting).app == app
        }),
{
}

/// Going through the suggestions forwards and then backwards, or the other way round, comes
/// back to the same one.
pub proof fn suggestions_cancel(app: AppView, backwards: bool)
    requires
        app.wf(),
        app.autocomplete is Some,
    ensures
        ({
            let there = tab_outcome(app, backwards).app;
            let back = tab_outcome(there, !backwards).app;
            &&& back.autocomplete == app.autocomplete
            &&& back.input == app.autocomplete->0.matches[app.autocomplete->0.index]
        }),
{
}

/// A peer that is renamed stays the selected one, under its new name.
pub proof fn renamed_peer_stays_selected(app: AppView)
    requires
        app.wf(),
        app.is_renaming,
        app.rename_input.len() > 0,
    ensures
        ({
            let after = rename_outcome(app, Key::Enter).app;
            let id = app.peer_ids[app.selected];
            &&& after.peer_ids[after.selected] == id
            &&& after.custom_names[id] == app.rename_input
            &&& id != system_name() ==> after.display_name(id) == app.rename_input
        }),
{
    let id = app.peer_ids[app.selected];
    let named = AppView {
        custom_names: app.custom_names.insert(id, app.rename_input),
        rename_input: seq![],
        is_renaming: false,
        ..app
    };
    sorting_keeps_peers(named);
    assert(named.peer_ids.contains(id));
    lemma_first_index(named.sorted_peers(), id);
}

/// Whether keys go to the line that is typed: nothing covers the channel.
pub open spec fn takes_line(app: AppView) -> bool {
    !app.is_renaming && !app.is_showing_help && !app.is_showing_whoami
}

/// A character that is typed stands behind the line, and nothing else comes of it but that the
/// suggestions go.
pub proof fn typing_goes_behind(app: AppView, c: char, control: bool, shift: bool, now: u64, broadcasting: bool)
    requires
        takes_line(app),
        control ==> c != 'b' && c != 'r' && c != 'h',
    ensures
        ({
            let outcome = key_outcome(app, KeyPress { key: Key::Char(c), control, shift }, now, broadcasting);
            &&& outcome.app == (AppView { input: app.input + seq![c], autocomplete: None, ..app })
            &&& outcome.effect == EffectView::Nothing
        }),
{
    assert(app.input.push(c) =~= app.input + seq![c]);
}

/// The key that deletes takes the last character of the line, whatever it is, and takes nothing
/// from an empty line. The suggestions go, and nothing else changes.
pub proof fn deleting_takes_last_character(
    app: AppView,
    line: Seq<char>,
    c: char,
    press: KeyPress,
    now: u64,
    broadcasting: bool,
)
    requires
        takes_line(app),
        press.key == Key::Backspace,
    ensures
        app.input == line + seq![c] ==> key_outcome(app, press, now, broadcasting) == (AppOutcome {
            app: AppView { input: line, autocomplete: None, ..app },
            effect: EffectView::Nothing,
        }),
        app.input.len() == 0 ==> key_outcome(app, press, now, broadcasting) == (AppOutcome {
            app: AppView { autocomplete: None, ..app },
            effect: EffectView::Nothing,
        }),
{
    assert((line + seq![c]).drop_last() =~= line);
}

/// A line that is entered is gone from where it was typed, with its suggestions, whatever it was.
pub proof fn entered_line_is_gone(app: AppView, press: KeyPress, now: u64, broadcasting: bool)
    requires
        takes_line(app),
        press.key == Key::Enter,
        app.input.len() > 0,
    ensures
        key_outcome(app, press, now, broadcasting).app.input.len() == 0,
        key_outcome(app, press, now, broadcasting).app.autocomplete is None,
{
}

/// A line that is none of the commands of the user interface is handed on for the selected peer,
/// letter by letter, with the time that messages are kept; nothing is shown of it yet.
pub proof fn entered_line_is_said(app: AppView, press: KeyPress, now: u64, broadcasting: bool)
    requires
        takes_line(app),
        press.key == Key::Enter,
        app.input.len() > 0,
        app.input != "/ttl"@ && app.input != "/clear"@ && app.input != "/whoami"@,
        !"/ttl "@.is_prefix_of(app.input) && !"/connect "@.is_prefix_of(app.input),
        app.peer_ids.len() > 0,
    ensures
        ({
            let outcome = key_outcome(app, press, now, broadcasting);
            &&& outcome.app == (AppView { input: seq![], autocomplete: None, ..app })
            &&& outcome.effect == (EffectView::Say {
                target: app.peer_ids[app.selected],
                text: app.input,
                ttl: app.current_ttl,
            })
        }),
{
}

/// Where there is no peer, the system says so in its own channel, and nothing is handed on.
pub proof fn nobody_to_say_it_to(app: AppView, press: KeyPress, now: u64, broadcasting: bool)
    requires
        takes_line(app),
        press.key == Key::Enter,
        app.input.len() > 0,
        app.input[0] != '/',
        app.peer_ids.len() == 0,
    ensures
        ({
            let outcome = key_outcome(app, press, now, broadcasting);
            &&& outcome.effect == EffectView::Nothing
            &&& outcome.app.messages["System"@].last().content == "No peer selected. Connect to a peer first."@
            &&& outcome.app.messages.remove("System"@) == app.messages.remove("System"@)
            &&& outcome.app == (AppView { messages: outcome.app.messages, input: seq![], autocomplete: None, ..app })
        }),
{
    reveal_strlit("/ttl");
    reveal_strlit("/ttl ");
    reveal_strlit("/connect ");
    reveal_strlit("/clear");
    reveal_strlit("/whoami");
    if "/ttl "@.is_prefix_of(app.input) {
        assert("/ttl "@[0] == app.input[0]);
    }
    if "/connect "@.is_prefix_of(app.input) {
        assert("/connect "@[0] == app.input[0]);
    }
    let outcome = key_outcome(app, press, now, broadcasting);
    assert(outcome.app.messages.remove("System"@) =~= app.messages.remove("System"@));
}

/// The command for the time to live sets it to the seconds that the word behind it stands for,
/// up to a day, or ends it where they are none, and lets the peer know just that. A longer time,
/// or a word that stands for none, leaves it as it was, and the peer is not told.
pub proof fn ttl_command_sets_seconds(
    app: AppView,
    press: KeyPress,
    now: u64,
    broadcasting: bool,
    gap: Seq<char>,
    word: Seq<char>,
    tail: Seq<char>,
)
    requires
        takes_line(app),
        press.key == Key::Enter,
        app.input == "/ttl "@ + gap + word + tail,
        forall|i: int| 0 <= i < gap.len() ==> whitespace(#[trigger] gap[i]),
        forall|i: int| 0 <= i < tail.len() ==> whitespace(#[trigger] tail[i]),
        forall|i: int| 0 <= i < word.len() ==> !whitespace(#[trigger] word[i]),
        word.len() > 0,
    ensures
        ({
            let outcome = key_outcome(app, press, now, broadcasting);
            let channel = if app.peer_ids.len() > 0 {
                app.peer_ids[app.selected]
            } else {
                "System"@
            };
            let said = outcome.app.messages[channel].last().content;
            &&& match ttl_secs(word) {
                Some(secs) => if secs == 0 {
                    outcome.app.current_ttl is None && outcome.effect == (EffectView::Notify {
                        target: channel,
                        ttl: None,
                    }) && said == "TTL disabled — new messages will persist."@
                } else if secs <= 86400 {
                    outcome.app.current_ttl == Some(secs as u64) && outcome.effect == (EffectView::Notify {
                        target: channel,
                        ttl: Some(secs as u64),
                    }) && said == "TTL set to "@ + ttl_text(secs) + " — new messages will disappear after that time."@
                } else {
                    outcome.app.current_ttl == app.current_ttl && outcome.effect == EffectView::SaveHistory && (secs
                        <= u64::MAX ==> said == "TTL too large — maximum is "@ + ttl_text(86400) + " ("@ + decimal(86400)
                        + "s)."@)
                },
                None => outcome.app.current_ttl == app.current_ttl && outcome.effect == EffectView::SaveHistory && said
                    == "Invalid TTL '"@ + word + "' — expected a number with an optional unit: 30s, 5m, 2h, 1d."@,
            }
            &&& outcome.app.messages.contains_key(channel)
            &&& outcome.app.messages.remove(channel) == app.messages.remove(channel)
            &&& outcome.app.messages[channel].drop_last() == (if app.messages.contains_key(channel) {
                app.messages[channel]
            } else {
                seq![]
            })
            &&& outcome.app == (AppView {
                messages: outcome.app.messages,
                current_ttl: outcome.app.current_ttl,
                input: seq![],
                autocomplete: None,
                ..app
            })
        }),
{
    reveal_strlit("/ttl");
    reveal_strlit("/ttl ");
    let command = "/ttl"@;
    let space = seq![' '];
    assert forall|i: int| 0 <= i < command.len() implies !whitespace(#[trigger] command[i]) by {
    }
    let wide = space + gap;
    assert forall|i: int| 0 <= i < wide.len() implies whitespace(#[trigger] wide[i]) by {
        if i > 0 {
            assert(wide[i] == gap[i - 1]);
        }
    }
    word_comes_behind(seq![], seq![], command);
    assert(Seq::<char>::empty() + Seq::<char>::empty() + command =~= command);
    word_comes_behind(command, wide, word);
    word_comes_behind(command + wide + word, tail, seq![]);
    assert("/ttl "@ =~= command + space);
    assert(app.input =~= command + wide + word + tail);
    assert(words_of(app.input) =~= seq![command, word]);
    assert("/ttl "@ =~= app.input.subrange(0, 5));
    assert(app.input.len() > 5);
    let outcome = key_outcome(app, press, now, broadcasting);
    let channel = app.active_channel();
    assert(outcome.app.messages.remove(channel) =~= app.messages.remove(channel));
    assert(outcome.app.messages[channel].drop_last() =~= app.channel(channel));
}

/// A number of days, hours, minutes or seconds behind the command is the time to live from then
/// on, if it is more than none and at most a day.
pub proof fn ttl_command_counts_units(app: AppView, press: KeyPress, now: u64, broadcasting: bool, n: nat, unit: char)
    requires
        takes_line(app),
        press.key == Key::Enter,
        unit == 'd' || unit == 'h' || unit == 'm' || unit == 's',
        app.input == "/ttl "@ + decimal(n).push(unit),
    ensures
        ({
            let secs: nat = n * (if unit == 'd' {
                86400nat
            } else if unit == 'h' {
                3600nat
            } else if unit == 'm' {
                60nat
            } else {
                1nat
            });
            key_outcome(app, press, now, broadcasting).app.current_ttl == (if secs == 0 {
                None
            } else if secs <= 86400 {
                Some(secs as u64)
            } else {
                app.current_ttl
            })
        }),
{
    let word = decimal(n).push(unit);
    lemma_decimal_is_a_word(n);
    assert forall|i: int| 0 <= i < word.len() implies !whitespace(#[trigger] word[i]) by {
        if i < decimal(n).len() {
            assert(word[i] == decimal(n)[i]);
        }
    }
    assert("/ttl "@ + Seq::<char>::empty() + word + Seq::<char>::empty() =~= "/ttl "@ + word);
    ttl_command_sets_seconds(app, press, now, broadcasting, seq![], word, seq![]);
    units_have_their_seconds(n);
    assert(n * 86400 == 86400 * n && n * 3600 == 3600 * n && n * 60 == 60 * n && n * 1 == n) by (nonlinear_arith);
}

proof fn lemma_decimal_is_a_word(n: nat)
    ensures
        forall|i: int| 0 <= i < decimal(n).len() ==> !whitespace(#[trigger] decimal(n)[i]),
    decreases n,
{
    if n >= 10 {
        lemma_decimal_is_a_word(n / 10);
        assert forall|i: int| 0 <= i < decimal(n).len() implies !whitespace(#[trigger] decimal(n)[i]) by {
            if i < decimal(n / 10).len() {
                assert(decimal(n)[i] == decimal(n / 10)[i]);
            }
        }
    }
}

/// The command to connect names the whole address behind it, without the whitespace around it.
/// Without an address nothing comes of it.
pub proof fn connect_command_names_address(
    app: AppView,
    press: KeyPress,
    now: u64,
    broadcasting: bool,
    gap: Seq<char>,
    addr: Seq<char>,
    tail: Seq<char>,
)
    requires
        takes_line(app),
        press.key == Key::Enter,
        app.input == "/connect "@ + gap + addr + tail,
        forall|i: int| 0 <= i < gap.len() ==> whitespace(#[trigger] gap[i]),
        forall|i: int| 0 <= i < tail.len() ==> whitespace(#[trigger] tail[i]),
        addr.len() > 0 ==> !whitespace(addr[0]) && !whitespace(addr.last()),
    ensures
        ({
            let outcome = key_outcome(app, press, now, broadcasting);
            &&& outcome.app == (AppView { input: seq![], autocomplete: None, ..app })
            &&& outcome.effect == (if addr.len() > 0 {
                EffectView::Connect { addr, node_id: None }
            } else {
                EffectView::Nothing
            })
        }),
{
    reveal_strlit("/connect ");
    reveal_strlit("/ttl");
    reveal_strlit("/ttl ");
    assert("/connect "@ =~= app.input.subrange(0, 9));
    assert(app.input.skip(9) =~= gap + addr + tail);
    padding_is_taken_away(gap, addr, tail);
    assert(app.input[1] == 'c');
    if "/ttl "@.is_prefix_of(app.input) {
        assert("/ttl "@[1] == app.input[1]);
    }
}

/// The command to clear takes the messages of the channel that is shown, all of them, and no
/// others; and the history is saved without them.
pub proof fn clearing_takes_one_channel(app: AppView, press: KeyPress, now: u64, broadcasting: bool)
    requires
        takes_line(app),
        press.key == Key::Enter,
        app.input == "/clear"@,
    ensures
        ({
            let outcome = key_outcome(app, press, now, broadcasting);
            let channel = if app.peer_ids.len() > 0 {
                app.peer_ids[app.selected]
            } else {
                "System"@
            };
            &&& !outcome.app.messages.contains_key(channel)
            &&& outcome.app.messages == app.messages.remove(channel)
            &&& outcome.effect == EffectView::SaveHistory
            &&& outcome.app == (AppView { messages: outcome.app.messages, input: seq![], autocomplete: None, ..app })
        }),
{
    reveal_strlit("/connect ");
    reveal_strlit("/ttl");
    reveal_strlit("/ttl ");
    reveal_strlit("/clear");
    assert(app.input[1] == 'c' && app.input[2] == 'l');
    if "/ttl "@.is_prefix_of(app.input) {
        assert("/ttl "@[1] == app.input[1]);
    }
    if "/connect "@.is_prefix_of(app.input) {
        assert("/connect "@[2] == app.input[2]);
    }
}

/// The windows with the help and with the own addresses open and close again without a trace.
pub proof fn windows_open_and_close(
    app: AppView,
    ask: KeyPress,
    enter: KeyPress,
    press: KeyPress,
    now: u64,
    broadcasting: bool,
)
    requires
        takes_line(app),
        ask.key == Key::Char('h') && ask.control,
        enter.key == Key::Enter,
        press.key == Key::Esc || press.key == Key::Enter || press.key == Key::Char(' '),
    ensures
        ({
            let help = key_outcome(app, ask, now, broadcasting);
            &&& help.app == (AppView { is_showing_help: true, ..app })
            &&& help.effect == EffectView::Nothing
            &&& key_outcome(help.app, press, now, broadcasting) == only(app)
            &&& key_outcome(help.app, ask, now, broadcasting) == only(app)
        }),
        app.input == "/whoami"@ ==> ({
            let whoami = key_outcome(app, enter, now, broadcasting);
            let before = AppView { input: seq![], autocomplete: None, ..app };
            &&& whoami.app == (AppView { is_showing_whoami: true, ..before })
            &&& whoami.effect == EffectView::Nothing
            &&& key_outcome(whoami.app, press, now, broadcasting) == only(before)
        }),
{
    reveal_strlit("/connect ");
    reveal_strlit("/ttl");
    reveal_strlit("/ttl ");
    reveal_strlit("/clear");
    reveal_strlit("/whoami");
    if app.input == "/whoami"@ {
        assert(app.input[1] == 'w');
        if "/ttl "@.is_prefix_of(app.input) {
            assert("/ttl "@[1] == app.input[1]);
        }
        if "/connect "@.is_prefix_of(app.input) {
            assert("/connect "@[1] == app.input[1]);
        }
        assert("/clear"@[1] == 'c');
    }
}

/// While a window covers the channel, no other key does anything.
pub proof fn windows_hold_other_keys(app: AppView, press: KeyPress, now: u64, broadcasting: bool)
    requires
        !app.is_renaming,
        app.is_showing_help || app.is_showing_whoami,
        press.key != Key::Esc && press.key != Key::Enter && press.key != Key::Char(' '),
        app.is_showing_help && press.key == Key::Char('h') ==> !press.control,
    ensures
        key_outcome(app, press, now, broadcasting) == only(app),
{
}

/// The key that leaves leaves, and changes nothing.
pub proof fn leaving_changes_nothing(app: AppView, press: KeyPress, now: u64, broadcasting: bool)
    requires
        takes_line(app),
        press.key == Key::Esc,
    ensures
        key_outcome(app, press, now, broadcasting).app == app,
        key_outcome(app, press, now, broadcasting).effect == EffectView::Quit,
{
}

/// The key for broadcasting turns it over, and twice brings it back.
pub proof fn broadcasting_is_turned_over(app: AppView, press: KeyPress, now: u64, broadcasting: bool)
    requires
        takes_line(app),
        press.key == Key::Char('b') && press.control,
    ensures
        ({
            let once = key_outcome(app, press, now, broadcasting);
            let twice = key_outcome(once.app, press, now, !broadcasting);
            &&& once.effect == EffectView::SetBroadcasting(!broadcasting)
            &&& once.app == (AppView { broadcasting: !broadcasting, ..app })
            &&& twice.effect == EffectView::SetBroadcasting(broadcasting)
            &&& twice.app == (AppView { broadcasting, ..app })
        }),
{
}

/// Going down selects the next peer and going up the one before, round and round; nothing else
/// changes.
pub proof fn selection_goes_round(app: AppView, press: KeyPress, now: u64, broadcasting: bool)
    requires
        app.wf(),
        takes_line(app),
        press.key == Key::Up || press.key == Key::Down,
    ensures
        ({
            let outcome = key_outcome(app, press, now, broadcasting);
            let count = app.peer_ids.len() as int;
            &&& outcome.effect == EffectView::Nothing
            &&& outcome.app == (AppView { selected: outcome.app.selected, ..app })
            &&& count > 0 && press.key == Key::Down ==> outcome.app.selected == (app.selected + 1) % count
            &&& count > 0 && press.key == Key::Up ==> outcome.app.selected == (app.selected + count - 1) % count
            &&& count == 0 ==> outcome.app == app
        }),
{
    let count = app.peer_ids.len() as int;
    if count > 0 {
        if app.selected + 1 < count {
            vstd::arithmetic::div_mod::lemma_small_mod((app.selected + 1) as nat, count as nat);
        } else {
            vstd::arithmetic::div_mod::lemma_mod_self_0(count);
        }
        if app.selected > 0 {
            vstd::arithmetic::div_mod::lemma_mod_add_multiples_vanish(app.selected - 1, count);
            vstd::arithmetic::div_mod::lemma_small_mod((app.selected - 1) as nat, count as nat);
            assert(app.selected + count - 1 == count + (app.selected - 1));
        } else {
            vstd::arithmetic::div_mod::lemma_small_mod((count - 1) as nat, count as nat);
        }
    }
}

/// Each press of the key for suggestions types the next of them, or the one before where the
/// shift key is held or the key goes backwards, round and round; the suggestions stay.
pub proof fn suggestions_go_round(app: AppView, press: KeyPress, now: u64, broadcasting: bool)
    requires
        app.wf(),
        takes_line(app),
        press.key == Key::Tab || press.key == Key::BackTab,
    ensures
        ({
            let outcome = key_outcome(app, press, now, broadcasting);
            let backwards = press.shift || press.key == Key::BackTab;
            &&& app.autocomplete is None ==> outcome.app == app && outcome.effect == (EffectView::Complete {
                backwards,
            })
            &&& app.autocomplete matches Some(state) ==> {
                let count = state.matches.len() as int;
                let next = outcome.app.autocomplete->0.index;
                &&& outcome.app.autocomplete is Some
                &&& outcome.app.autocomplete->0.matches == state.matches
                &&& next == (if backwards {
                    (state.index + count - 1) % count
                } else {
                    (state.index + 1) % count
                })
                &&& outcome.app.input == state.matches[next]
                &&& outcome.effect == EffectView::Nothing
                &&& outcome.app == (AppView {
                    input: outcome.app.input,
                    autocomplete: outcome.app.autocomplete,
                    ..app
                })
            }
        }),
{
    if let Some(state) = app.autocomplete {
        let count = state.matches.len() as int;
        if state.index + 1 < count {
            vstd::arithmetic::div_mod::lemma_small_mod((state.index + 1) as nat, count as nat);
        } else {
            vstd::arithmetic::div_mod::lemma_mod_self_0(count);
        }
        if state.index > 0 {
            vstd::arithmetic::div_mod::lemma_mod_add_multiples_vanish(state.index - 1, count);
            vstd::arithmetic::div_mod::lemma_small_mod((state.index - 1) as nat, count as nat);
            assert(state.index + count - 1 == count + (state.index - 1));
        } else {
            vstd::arithmetic::div_mod::lemma_small_mod((count - 1) as nat, count as nat);
        }
    }
}

/// Renaming starts with the name that the selected peer has, and leaving it changes no name.
pub proof fn renaming_can_be_left(app: AppView, ask: KeyPress, leave: KeyPress, now: u64, broadcasting: bool)
    requires
        app.wf(),
        takes_line(app),
        ask.key == Key::Char('r') && ask.control,
        leave.key == Key::Esc,
    ensures
        ({
            let started = key_outcome(app, ask, now, broadcasting);
            let id = app.peer_ids[app.selected];
            &&& started.effect == EffectView::Nothing
            &&& app.peer_ids.len() == 0 ==> started.app == app
            &&& app.peer_ids.len() > 0 ==> {
                &&& started.app == (AppView { is_renaming: true, rename_input: started.app.rename_input, ..app })
                &&& app.custom_names.contains_key(id) ==> started.app.rename_input == app.custom_names[id]
                &&& !app.custom_names.contains_key(id) ==> started.app.rename_input == app.peers[id].0
                &&& key_outcome(started.app, leave, now, broadcasting) == only(
                    AppView { rename_input: seq![], ..app },
                )
            }
        }),
{
}

/// While a peer is renamed, a character that is typed stands behind its new name, and the key
/// that deletes takes it back.
pub proof fn name_is_typed(app: AppView, c: char, press: KeyPress, delete: KeyPress, now: u64, broadcasting: bool)
    requires
        app.is_renaming,
        delete.key == Key::Backspace,
        press.key == Key::Char(c),
    ensures
        ({
            let typed = key_outcome(app, press, now, broadcasting);
            &&& typed == only(AppView { rename_input: app.rename_input + seq![c], ..app })
            &&& key_outcome(typed.app, delete, now, broadcasting) == only(app)
            &&& app.rename_input.len() == 0 ==> key_outcome(app, delete, now, broadcasting) == only(app)
        }),
{
    assert(app.rename_input.push(c) =~= app.rename_input + seq![c]);
    assert(app.rename_input.push(c).drop_last() =~= app.rename_input);
}

/// A peer that is renamed has the name that was typed, and no other peer's name changes. The same
/// peers are listed, in the order of their names, and nothing else changes. An empty name changes
/// no name at all.
pub proof fn renaming_gives_one_name(app: AppView, press: KeyPress, now: u64, broadcasting: bool)
    requires
        app.wf(),
        app.is_renaming,
        press.key == Key::Enter,
    ensures
        ({
            let outcome = key_outcome(app, press, now, broadcasting);
            let after = outcome.app;
            let id = app.peer_ids[app.selected];
            if app.rename_input.len() == 0 {
                outcome == only(AppView { is_renaming: false, ..app })
            } else {
                &&& after.custom_names == app.custom_names.insert(id, app.rename_input)
                &&& after.peer_ids.to_multiset() == app.peer_ids.to_multiset()
                &&& after.peer_ids[after.selected] == id
                &&& forall|i: int, j: int|
                    0 <= i <= j < after.peer_ids.len() ==> text_le(
                        after.sort_name(#[trigger] after.peer_ids[i]),
                        after.sort_name(#[trigger] after.peer_ids[j]),
                    )
                &&& outcome.effect == EffectView::SavePeers
                &&& after == (AppView {
                    custom_names: after.custom_names,
                    peer_ids: after.peer_ids,
                    selected: after.selected,
                    is_renaming: false,
                    rename_input: seq![],
                    ..app
                })
            }
        }),
{
    if app.rename_input.len() > 0 {
        let id = app.peer_ids[app.selected];
        let named = AppView {
            custom_names: app.custom_names.insert(id, app.rename_input),
            rename_input: seq![],
            is_renaming: false,
            ..app
        };
        sorting_keeps_peers(named);
        renamed_peer_stays_selected(app);
        let after = key_outcome(app, press, now, broadcasting).app;
        assert forall|i: int, j: int| 0 <= i <= j < after.peer_ids.len() implies text_le(
            after.sort_name(#[trigger] after.peer_ids[i]),
            after.sort_name(#[trigger] after.peer_ids[j]),
        ) by {
            assert(after.sort_name(after.peer_ids[i]) == named.sort_name(named.sorted_peers()[i]));
            assert(after.sort_name(after.peer_ids[j]) == named.sort_name(named.sorted_peers()[j]));
        }
    }
}

/// An empty line connects to the selected peer: at the address that it is known at, as the node
/// that it is; one that is offline is not connected to. Either way the user is told in its
/// channel, and nothing else changes.
pub proof fn empty_line_connects(app: AppView, press: KeyPress, now: u64, broadcasting: bool)
    requires
        app.wf(),
        takes_line(app),
        press.key == Key::Enter,
        app.input.len() == 0,
    ensures
        ({
            let outcome = key_outcome(app, press, now, broadcasting);
            let id = app.peer_ids[app.selected];
            &&& app.peer_ids.len() == 0 ==> outcome == only(app)
            &&& app.peer_ids.len() > 0 ==> {
                let told = outcome.app.messages[id].last();
                &&& outcome.effect == (if app.peers[id].1 == "Offline"@ {
                    EffectView::Nothing
                } else {
                    EffectView::Connect { addr: app.peers[id].1, node_id: Some(id) }
                })
                &&& app.peers[id].1 != "Offline"@ && app.custom_names.contains_key(id) ==> told.content
                    == "Connecting to "@ + app.custom_names[id] + "..."@
                &&& app.peers[id].1 != "Offline"@ && !app.custom_names.contains_key(id) ==> told.content
                    == "Connecting to "@ + app.peers[id].0 + "..."@
                &&& app.peers[id].1 == "Offline"@ ==> told.content
                    == "Peer is offline. Waiting for discovery broadcast, or connect directly using: /connect <ip>:<port>"@
                &&& told.is_system && told.received_at == now && told.ttl is None
                &&& outcome.app.messages.remove(id) == app.messages.remove(id)
                &&& outcome.app == (AppView { messages: outcome.app.messages, ..app })
            }
        }),
{
    if app.peer_ids.len() > 0 {
        let id = app.peer_ids[app.selected];
        let outcome = key_outcome(app, press, now, broadcasting);
        assert(outcome.app.messages.remove(id) =~= app.messages.remove(id));
    }
}

/// Whether a channel goes on in `after` from what it held in `before`.
pub open spec fn goes_on(before: AppView, after: AppView, channel: Seq<char>) -> bool {
    before.messages.contains_key(channel) ==> after.messages.contains_key(channel)
        && before.messages[channel].is_prefix_of(after.messages[channel])
}

proof fn lemma_telling_goes_on(app: AppView, now: u64, channel: Seq<char>)
    ensures
        goes_on(app, app, channel),
        forall|base: AppView, at: Seq<char>, text: Seq<char>|
            base.messages == app.messages ==> goes_on(app, #[trigger] base.told(at, text, now), channel),
{
}

proof fn lemma_line_goes_on(app: AppView, input: Seq<char>, now: u64, channel: Seq<char>)
    requires
        input != "/clear"@,
    ensures
        goes_on(app, line_outcome(app, input, now).app, channel),
{
    lemma_telling_goes_on(app, now, channel);
    if "/ttl "@.is_prefix_of(input) && input != "/ttl"@ {
        lemma_ttl_goes_on(app, input, now, channel);
    }
}

proof fn lemma_ttl_goes_on(app: AppView, input: Seq<char>, now: u64, channel: Seq<char>)
    ensures
        goes_on(app, ttl_outcome(app, input, now).app, channel),
{
    lemma_telling_goes_on(app, now, channel);
}

/// But for the command to clear, no key takes a message away or changes one that is there: each
/// channel goes on from what it held.
pub proof fn keys_forget_nothing(app: AppView, press: KeyPress, now: u64, broadcasting: bool, channel: Seq<char>)
    requires
        app.input != "/clear"@,
    ensures
        goes_on(app, key_outcome(app, press, now, broadcasting).app, channel),
{
    lemma_telling_goes_on(app, now, channel);
    if takes_line(app) && press.key == Key::Enter {
        if app.input.len() > 0 {
            let before = AppView { input: seq![], autocomplete: None, ..app };
            lemma_line_goes_on(before, app.input, now, channel);
            assert(key_outcome(app, press, now, broadcasting) == line_outcome(before, app.input, now));
        } else {
            assert(key_outcome(app, press, now, broadcasting) == connect_outcome(app, now));
        }
    } else {
        assert(key_outcome(app, press, now, broadcasting).app.messages == app.messages);
    }
}

/// No key changes what is known of the peers, the files that are being transferred, or where and
/// under which key things are kept.
pub proof fn keys_leave_the_rest(app: AppView, press: KeyPress, now: u64, broadcasting: bool)
    ensures
        ({
            let after = key_outcome(app, press, now, broadcasting).app;
            &&& after.peers == app.peers
            &&& after.active_file_transfers == app.active_file_transfers
            &&& after.storage_key == app.storage_key
            &&& after.config_dir == app.config_dir
            &&& after.identity_phrase == app.identity_phrase
            &&& after.app_port == app.app_port
            &&& after.selected_interface == app.selected_interface
            &&& after.default_interface == app.default_interface
        }),
{
}

/// What a text that was handed on for a peer comes to.
pub open spec fn own_message_outcome(app: AppView, target: Seq<char>, text: Seq<char>, now: u64) -> AppOutcome {
    AppOutcome {
        app: app.with_message(
            target,
            MessageView { from: "Me"@, content: text, is_system: false, ttl: app.current_ttl, received_at: now },
        ),
        effect: EffectView::SaveHistory,
    }
}

/// What the user said stands last in the channel of the peer, as it was typed and in the user's
/// own name, and vanishes there after just the seconds that are set when it is sent. The other
/// channels do not change, and neither does anything else.
pub proof fn own_message_is_shown(app: AppView, target: Seq<char>, text: Seq<char>, now: u64, later: u64)
    requires
        now <= later,
    ensures
        ({
            let outcome = own_message_outcome(app, target, text, now);
            let shown = outcome.app.messages[target].last();
            &&& shown.from == "Me"@
            &&& shown.content == text
            &&& !shown.is_system
            &&& shown.ttl == app.current_ttl
            &&& shown.received_at == now
            &&& outcome.app.messages[target].drop_last() == (if app.messages.contains_key(target) {
                app.messages[target]
            } else {
                seq![]
            })
            &&& outcome.app.messages.remove(target) == app.messages.remove(target)
            &&& outcome.app == (AppView { messages: outcome.app.messages, ..app })
            &&& outcome.effect == EffectView::SaveHistory
            &&& all_kept(outcome.app.messages, later)[target].contains(shown) <==> (app.current_ttl matches Some(secs)
                ==> later < now + 1000 * secs)
        }),
{
    let outcome = own_message_outcome(app, target, text, now);
    let shown = outcome.app.messages[target].last();
    assert(outcome.app.messages[target].drop_last() =~= app.channel(target));
    assert(outcome.app.messages.remove(target) =~= app.messages.remove(target));
    cleanup_drops_what_is_over(outcome.app.messages, target, shown, later);
}

/// What asking for suggestions comes to, where the directory for them holds the given entries.
pub open spec fn completed(app: AppView, entries: Seq<EntryView>, backwards: bool) -> AppView {
    let found = suggestions(app.input, entries);
    if found.len() == 0 {
        app
    } else if backwards {
        with_suggestion(app, found, found.len() - 1)
    } else {
        with_suggestion(app, found, 0)
    }
}

/// Suggestions start with the first of them, or with the last where the user goes backwards, and
/// it is typed in place of the line; it goes on from what the line was. Without any, the line
/// stays as it is.
pub proof fn completing_starts_at_an_end(app: AppView, entries: Seq<EntryView>, backwards: bool)
    ensures
        ({
            let found = suggestions(app.input, entries);
            let after = completed(app, entries, backwards);
            &&& found.len() == 0 ==> after == app
            &&& found.len() > 0 ==> {
                &&& after.input == (if backwards {
                    found.last()
                } else {
                    found.first()
                })
                &&& app.input.is_prefix_of(after.input)
                &&& after.autocomplete is Some
                &&& after.autocomplete->0.matches == found
                &&& found[after.autocomplete->0.index] == after.input
                &&& after == (AppView { input: after.input, autocomplete: after.autocomplete, ..app })
            }
        }),
{
    let found = suggestions(app.input, entries);
    if found.len() > 0 {
        let text = completed(app, entries, backwards).input;
        assert(found.contains(text)) by {
            if backwards {
                assert(found[found.len() - 1] == text);
            } else {
                assert(found[0] == text);
            }
        }
        suggestions_continue_input(app.input, entries, text);
    }
}

/// The command for the time to live tells on its own how long messages are kept, and with more or
/// less than one word behind it how it is used; either way the time stays what it was.
pub proof fn ttl_command_tells(app: AppView, press: KeyPress, now: u64, broadcasting: bool)
    requires
        takes_line(app),
        press.key == Key::Enter,
        app.input == "/ttl"@ || "/ttl "@.is_prefix_of(app.input) && words_of(app.input).len() != 2,
    ensures
        ({
            let outcome = key_outcome(app, press, now, broadcasting);
            let channel = if app.peer_ids.len() > 0 {
                app.peer_ids[app.selected]
            } else {
                "System"@
            };
            let said = outcome.app.messages[channel].last().content;
            &&& outcome.app.current_ttl == app.current_ttl
            &&& outcome.effect == EffectView::SaveHistory
            &&& app.input != "/ttl"@ ==> said
                == "Usage: /ttl <time>  (e.g. 30s, 5m, 2h, 1d) or /ttl 0 to disable"@
            &&& app.input == "/ttl"@ ==> (app.current_ttl matches Some(secs) ==> said == "TTL is set to "@ + ttl_text(
                secs as nat,
            ) + " — messages disappear after that time. Use /ttl <time> to change or /ttl 0 to disable."@)
            &&& app.input == "/ttl"@ && app.current_ttl is None ==> said
                == "TTL is disabled — messages persist until you close the app. Use /ttl <time> to enable (e.g. /ttl 30m, /ttl 2h, /ttl 1d)."@
            &&& outcome.app.messages.remove(channel) == app.messages.remove(channel)
            &&& outcome.app == (AppView { messages: outcome.app.messages, input: seq![], autocomplete: None, ..app })
        }),
{
    reveal_strlit("/ttl");
    reveal_strlit("/ttl ");
    assert(app.input.len() >= 4);
    let outcome = key_outcome(app, press, now, broadcasting);
    let channel = app.active_channel();
    assert(outcome.app.messages.remove(channel) =~= app.messages.remove(channel));
}

/// While a peer is renamed, and while a line is typed, the keys that mean nothing there do
/// nothing.
pub proof fn other_keys_do_nothing(app: AppView, press: KeyPress, now: u64, broadcasting: bool)
    ensures
        app.is_renaming && (press.key == Key::Tab || press.key == Key::BackTab || press.key == Key::Up || press.key
            == Key::Down || press.key == Key::Other) ==> key_outcome(app, press, now, broadcasting) == only(app),
        takes_line(app) && press.key == Key::Other ==> key_outcome(app, press, now, broadcasting) == only(app),
        only(app).app == app && only(app).effect == EffectView::Nothing,
{
}

}
