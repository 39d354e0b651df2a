//! What a client does with what the user wants sent, and with its clock.
use crate::client::{
    client_error_text, frame_view, sent, sys_msg, system_event, ClientError, ClientView, ErrorView, Fault, FileOffer, OutboundMessage,
    PatronusClient, APP_MESSAGE, CONTROL_FRAME, CTRL_BYE, CTRL_PING, EXTENSION_DATA, KEEP_ALIVE_TIMEOUT,
};
use crate::documents::{
    file_accept_doc, file_decline_doc, file_offer_doc, message_doc, reads_back, ttl_notice_doc, write_file_accept,
    write_file_decline, write_file_offer, write_message, write_ttl_notice,
};
use crate::json::{json_bytes, JsonTree};
use crate::text::{
    contains_text, padding_is_taken_away, same_text, starts_with, text2, trim, trimmed, whitespace,
};
use crate::turn::{
    add_event, asks, encrypted_in, ends, frame_of, make_asks, make_ends, make_quiet, make_sends, make_tells, no_events, one_event,
    quiet_turn, sends, sends_or_ends, tells, Next, NextView, Turn, TurnView, Unsent,
};
use vstd::prelude::*;
use vstd::string::*;

verus! {

/// The target that stands for everybody.
pub open spec fn group_target() -> Seq<char> {
    "__group__"@
}

/// The document for a message to a target. It says how long the message is kept only where
/// both nodes let messages vanish.
pub open spec fn message_document(
    client: ClientView,
    target: Seq<char>,
    text: Seq<char>,
    ttl: Option<u64>,
) -> JsonTree {
    message_doc(
        text,
        target == group_target(),
        if client.messages_vanish() {
            ttl
        } else {
            None
        },
    )
}

/// What sending a message of the application comes to. A notice of how long messages are
/// kept is sent only where both nodes let messages vanish.
pub open spec fn app_message_sent(
    before: ClientView,
    after: ClientView,
    msg: OutboundMessage,
    res: Result<Option<Seq<u8>>, ErrorView>,
) -> bool {
    match msg {
        OutboundMessage::Message { target, text, ttl } => {
            let doc = message_document(before, target@, text@, ttl);
            &&& reads_back(doc)
            &&& match res {
                Ok(Some(frame)) => sent(before, after, APP_MESSAGE, json_bytes(doc), Ok(frame)),
                Ok(None) => false,
                Err(e) => sent(before, after, APP_MESSAGE, json_bytes(doc), Err(e)),
            }
        },
        OutboundMessage::TTLNotice { target, ttl } => if before.messages_vanish() {
            let doc = ttl_notice_doc(ttl);
            &&& reads_back(doc)
            &&& match res {
                Ok(Some(frame)) => sent(before, after, EXTENSION_DATA, json_bytes(doc), Ok(frame)),
                Ok(None) => false,
                Err(e) => sent(before, after, EXTENSION_DATA, json_bytes(doc), Err(e)),
            }
        } else {
            res == Ok::<Option<Seq<u8>>, ErrorView>(None) && after == before
        },
    }
}

/// An optional frame or an error, as a value.
pub open spec fn optional_frame_view(res: Result<Option<Vec<u8>>, ClientError>) -> Result<
    Option<Seq<u8>>,
    ErrorView,
> {
    match res {
        Ok(Some(frame)) => Ok(Some(frame@)),
        Ok(None) => Ok(None),
        Err(e) => Err(e.deep_view()),
    }
}

/// What comes of a message of the application that the user wants sent. Where it cannot be
/// sent, the session ends without a goodbye.
pub open spec fn app_message_handled(
    before: ClientView,
    after: ClientView,
    msg: OutboundMessage,
    turn: TurnView,
) -> bool {
    match turn.end {
        Some(e) => {
            &&& app_message_sent(before, ClientView { send_bye: before.send_bye, ..after }, msg, Err(e))
            &&& !after.send_bye
            &&& turn == ends(e)
        },
        None => {
            &&& app_message_sent(before, after, msg, Ok(turn.frame))
            &&& turn == match turn.frame {
                Some(frame) => sends(frame, Unsent::EndsSilently),
                None => tells(seq![]),
            }
        },
    }
}

/// What the user is told of where files are saved.
pub open spec fn save_dir_text(save_dir: Seq<char>) -> Seq<char> {
    "Current save directory: "@ + save_dir
}

/// The commands of a session.
pub ghost enum Command {
    Send(Seq<char>),
    SaveDir(Seq<char>),
    Accept(Seq<char>),
    Decline,
    /// No command but a message.
    Say,
}

/// The command that a text is, with what follows it.
pub open spec fn command_in(text: Seq<char>) -> Command {
    if "/send "@.is_prefix_of(text) {
        Command::Send(trimmed(text.skip(6)))
    } else if "/save_dir "@.is_prefix_of(text) {
        Command::SaveDir(trimmed(text.skip(10)))
    } else if text == "/save_dir"@ {
        Command::SaveDir(seq![])
    } else if "/accept"@.is_prefix_of(text) {
        Command::Accept(trimmed(text.skip(7)))
    } else if text == "/decline"@ {
        Command::Decline
    } else {
        Command::Say
    }
}

/// What the client wants done about the refusal of a file, once it was encrypted or could not be.
pub open spec fn refusal_turn(file_name: Seq<char>, res: Result<Seq<u8>, ErrorView>) -> TurnView {
    let declined = system_event("Declined file transfer of: "@ + file_name);
    match res {
        Ok(frame) => TurnView {
            events: seq![declined],
            frame: Some(frame),
            later_events: seq![],
            unsent: Unsent::DeclineFails,
            next: NextView::Nothing,
            end: None,
        },
        Err(e) => tells(seq![declined, system_event("Failed to send decline notice: "@ + client_error_text(e))]),
    }
}

/// What comes of the command to refuse a file.
pub open spec fn decline_handled(before: ClientView, after: ClientView, turn: TurnView) -> bool {
    match before.pending_recv_offer {
        None => after == before && turn == tells(seq![system_event("No pending file offer to decline."@)]),
        Some(offer) => {
            let rest = ClientView { pending_recv_offer: None, ..before };
            let doc = file_decline_doc(offer.merkle_root);
            &&& reads_back(doc)
            &&& sent(rest, after, EXTENSION_DATA, json_bytes(doc), encrypted_in(turn))
            &&& turn == refusal_turn(offer.file_name, encrypted_in(turn))
        },
    }
}

/// What comes of a text that the user typed for the peer.
pub open spec fn command_handled(
    before: ClientView,
    after: ClientView,
    target: String,
    text: String,
    ttl: Option<u64>,
    turn: TurnView,
) -> bool {
    match command_in(text@) {
        Command::Send(path) => {
            &&& after == before
            &&& turn == if before.pending_send_file is Some {
                tells(
                    seq![
                        system_event(
                            "A file offer is already pending. Please wait until the peer accepts or declines."@,
                        ),
                    ],
                )
            } else {
                asks(NextView::FindFile(path))
            }
        },
        Command::SaveDir(path) => {
            &&& after == before
            &&& turn == if path.len() == 0 {
                tells(seq![system_event(save_dir_text(before.save_dir))])
            } else {
                asks(NextView::CreateSaveDir(path))
            }
        },
        Command::Accept(path) => match before.pending_recv_offer {
            None => after == before && turn == tells(seq![system_event("No pending file offer to accept."@)]),
            Some(offer) => {
                &&& after == ClientView { pending_recv_offer: None, ..before }
                &&& turn == asks(NextView::PlaceFile(offer, path))
            },
        },
        Command::Decline => decline_handled(before, after, turn),
        Command::Say => app_message_handled(before, after, OutboundMessage::Message { target, text, ttl }, turn),
    }
}

/// Whether a text leads to a message at once.
pub open spec fn command_sends(client: ClientView, text: Seq<char>) -> bool {
    match command_in(text) {
        Command::Decline => client.pending_recv_offer is Some,
        Command::Say => true,
        _ => false,
    }
}

/// How long ago something was.
pub open spec fn elapsed(now: u64, then: u64) -> int {
    if now >= then {
        now - then
    } else {
        0
    }
}

/// What comes of a tick of the clock: a ping is sent, unless one is waiting for its answer; a
/// session without an answer for too long ends.
pub open spec fn tick_handled(before: ClientView, after: ClientView, now: u64, turn: TurnView) -> bool {
    if before.pending_pong {
        if elapsed(now, before.last_ping) >= KEEP_ALIVE_TIMEOUT {
            &&& after == ClientView { send_bye: false, ..before }
            &&& turn == quiet_turn(
                seq![system_event("Connection timed out: "@ + before.peer_name())],
                NextView::Nothing,
                Some(Fault::TimedOut),
            )
        } else {
            after == before && turn == tells(seq![])
        }
    } else {
        let asked = ClientView { pending_pong: true, last_ping: now, ..before };
        &&& sent(asked, after, CONTROL_FRAME, seq![CTRL_PING], frame_of(turn))
        &&& turn == sends_or_ends(frame_of(turn), Unsent::Ends)
    }
}

/// What comes of leaving: a goodbye is sent, unless the peer is gone.
pub open spec fn leaving_handled(before: ClientView, after: ClientView, turn: TurnView) -> bool {
    if before.send_bye {
        &&& sent(before, after, CONTROL_FRAME, seq![CTRL_BYE], frame_of(turn))
        &&& turn == sends_or_ends(frame_of(turn), Unsent::Ends)
    } else {
        after == before && turn == tells(seq![])
    }
}

fn after_prefix(text: &str, prefix: &str) -> (res: String)
    requires
        prefix@.is_prefix_of(text@),
    ensures
        res@ == trimmed(text@.skip(prefix@.len() as int)),
{
    let from: usize = prefix.unicode_len();
    let to: usize = text.unicode_len();
    let rest = text.substring_char(from, to);
    assert(rest@ =~= text@.skip(from as int));
    trim(rest)
}

impl PatronusClient {
    /// Sends a message of the application, or a notice of how long messages are kept.
    pub fn send_app_message(&mut self, msg: OutboundMessage) -> (res: Result<Option<Vec<u8>>, ClientError>)
        requires
            msg is Message || old(self)@.messages_vanish() ==> old(self)@.crypto.can_send(),
        ensures
            app_message_sent(old(self)@, final(self)@, msg, optional_frame_view(res)),
    {
        let vanish = contains_text(&self.active_extensions, "vanishing_ink:v1");
        let (msg_type, payload): (u8, Vec<u8>) = match &msg {
            OutboundMessage::Message { target, text, ttl } => {
                let to_group = same_text(target.as_str(), "__group__");
                let kept: Option<u64> = if vanish { *ttl } else { None };
                (APP_MESSAGE, write_message(text.as_str(), to_group, kept))
            },
            OutboundMessage::TTLNotice { target: _, ttl } => {
                if !vanish {
                    return Ok(None);
                }
                (EXTENSION_DATA, write_ttl_notice(*ttl))
            },
        };
        match self.encrypt_message(msg_type, payload.as_slice()) {
            Ok(frame) => Ok(Some(frame)),
            Err(e) => Err(e),
        }
    }

    /// Sends an offer of a file.
    pub fn send_file_offer(&mut self, offer: &FileOffer) -> (res: Result<Vec<u8>, ClientError>)
        requires
            old(self)@.crypto.can_send(),
        ensures
            reads_back(file_offer_doc(offer.deep_view())),
            sent(
                old(self)@,
                final(self)@,
                EXTENSION_DATA,
                json_bytes(file_offer_doc(offer.deep_view())),
                frame_view(res),
            ),
    {
        let payload = write_file_offer(offer);
        self.encrypt_message(EXTENSION_DATA, payload.as_slice())
    }

    /// Sends the acceptance of a file.
    pub fn send_file_accept(&mut self, merkle_root: &str, start_offset: Option<u64>) -> (res: Result<
        Vec<u8>,
        ClientError,
    >)
        requires
            old(self)@.crypto.can_send(),
        ensures
            reads_back(file_accept_doc(merkle_root@, start_offset)),
            sent(
                old(self)@,
                final(self)@,
                EXTENSION_DATA,
                json_bytes(file_accept_doc(merkle_root@, start_offset)),
                frame_view(res),
            ),
    {
        let payload = write_file_accept(merkle_root, start_offset);
        self.encrypt_message(EXTENSION_DATA, payload.as_slice())
    }

    /// Sends the refusal of a file.
    pub fn send_file_decline(&mut self, merkle_root: &str) -> (res: Result<Vec<u8>, ClientError>)
        requires
            old(self)@.crypto.can_send(),
        ensures
            reads_back(file_decline_doc(merkle_root@)),
            sent(
                old(self)@,
                final(self)@,
                EXTENSION_DATA,
                json_bytes(file_decline_doc(merkle_root@)),
                frame_view(res),
            ),
    {
        let payload = write_file_decline(merkle_root);
        self.encrypt_message(EXTENSION_DATA, payload.as_slice())
    }

    fn say(&mut self, msg: OutboundMessage) -> (res: Turn)
        requires
            msg is Message || old(self)@.messages_vanish() ==> old(self)@.crypto.can_send(),
        ensures
            app_message_handled(old(self)@, final(self)@, msg, res.deep_view()),
    {
        match self.send_app_message(msg) {
            Ok(Some(frame)) => make_sends(frame, Unsent::EndsSilently),
            Ok(None) => make_tells(no_events()),
            Err(e) => {
                let ghost after = self@;
                self.send_bye = false;
                assert((ClientView { send_bye: old(self)@.send_bye, ..self@ }) == after);
                make_ends(e)
            },
        }
    }

    /// Sends what the user wants sent.
    pub fn handle_outbound_msg(&mut self, msg: OutboundMessage) -> (res: Turn)
        requires
            match msg {
                OutboundMessage::Message { target, text, ttl } => command_sends(old(self)@, text@)
                    ==> old(self)@.crypto.can_send(),
                OutboundMessage::TTLNotice { target, ttl } => old(self)@.messages_vanish()
                    ==> old(self)@.crypto.can_send(),
            },
        ensures
            match msg {
                OutboundMessage::Message { target, text, ttl } => command_handled(
                    old(self)@,
                    final(self)@,
                    target,
                    text,
                    ttl,
                    res.deep_view(),
                ),
                OutboundMessage::TTLNotice { .. } => app_message_handled(
                    old(self)@,
                    final(self)@,
                    msg,
                    res.deep_view(),
                ),
            },
    {
        match msg {
            OutboundMessage::Message { target, text, ttl } => self.handle_outbound_command(target, text, ttl),
            OutboundMessage::TTLNotice { target, ttl } => self.say(OutboundMessage::TTLNotice { target, ttl }),
        }
    }

    fn decline(&mut self) -> (res: Turn)
        requires
            old(self)@.pending_recv_offer is Some ==> old(self)@.crypto.can_send(),
        ensures
            decline_handled(old(self)@, final(self)@, res.deep_view()),
    {
        let offer = match self.pending_recv_offer.take() {
            Some(offer) => offer,
            None => return make_tells(one_event(sys_msg("No pending file offer to decline.".to_owned()))),
        };
        let res = self.send_file_decline(offer.merkle_root.as_str());
        self.refusal_sent(offer.file_name.as_str(), res)
    }

    /// Tells the user of a refusal that was encrypted, or could not be.
    pub fn refusal_sent(&self, file_name: &str, res: Result<Vec<u8>, ClientError>) -> (turn: Turn)
        ensures
            turn.deep_view() == refusal_turn(file_name@, frame_view(res)),
    {
        let declined = sys_msg(text2("Declined file transfer of: ", file_name));
        let ghost first = declined.deep_view();
        let mut events = one_event(declined);
        match res {
            Ok(frame) => Turn {
                events,
                frame: Some(frame),
                later_events: no_events(),
                unsent: Unsent::DeclineFails,
                next: Next::Nothing,
                end: None,
            },
            Err(e) => {
                let failed = sys_msg(text2("Failed to send decline notice: ", e.message().as_str()));
                add_event(&mut events, failed);
                assert(events.deep_view() =~= seq![first, failed.deep_view()]);
                make_tells(events)
            },
        }
    }

    /// Does what the user typed for the peer: a command, or a message to be sent.
    pub fn handle_outbound_command(&mut self, target: String, text: String, ttl: Option<u64>) -> (res: Turn)
        requires
            command_sends(old(self)@, text@) ==> old(self)@.crypto.can_send(),
        ensures
            command_handled(old(self)@, final(self)@, target, text, ttl, res.deep_view()),
    {
        proof {
            reveal_strlit("/send ");
            reveal_strlit("/save_dir ");
            reveal_strlit("/accept");
        }
        if starts_with(text.as_str(), "/send ") {
            if self.pending_send_file.is_some() {
                return make_tells(
                    one_event(
                        sys_msg(
                            "A file offer is already pending. Please wait until the peer accepts or declines.".to_owned(),
                        ),
                    ),
                );
            }
            return make_asks(Next::FindFile(after_prefix(text.as_str(), "/send ")));
        }
        if starts_with(text.as_str(), "/save_dir ") {
            let path = after_prefix(text.as_str(), "/save_dir ");
            if path.as_str().is_empty() {
                return make_tells(one_event(sys_msg(text2("Current save directory: ", self.save_dir.as_str()))));
            }
            return make_asks(Next::CreateSaveDir(path));
        }
        if same_text(text.as_str(), "/save_dir") {
            return make_tells(one_event(sys_msg(text2("Current save directory: ", self.save_dir.as_str()))));
        }
        if starts_with(text.as_str(), "/accept") {
            return match self.pending_recv_offer.take() {
                Some(offer) => make_asks(Next::PlaceFile(offer, after_prefix(text.as_str(), "/accept"))),
                None => make_tells(one_event(sys_msg("No pending file offer to accept.".to_owned()))),
            };
        }
        if same_text(text.as_str(), "/decline") {
            return self.decline();
        }
        self.say(OutboundMessage::Message { target, text, ttl })
    }

    /// Asks for a sign of life, or ends the session where there was none for too long.
    pub fn tick_keep_alive(&mut self, now: u64) -> (res: Turn)
        requires
            !old(self)@.pending_pong ==> old(self)@.crypto.can_send(),
        ensures
            tick_handled(old(self)@, final(self)@, now, res.deep_view()),
    {
        if self.pending_pong {
            let waited: u64 = if now >= self.last_ping { now - self.last_ping } else { 0 };
            if waited >= KEEP_ALIVE_TIMEOUT {
                let peer = self.peer_name();
                self.send_bye = false;
                return make_quiet(
                    one_event(sys_msg(text2("Connection timed out: ", peer.as_str()))),
                    Next::Nothing,
                    Some(Fault::TimedOut),
                );
            }
            return make_tells(no_events());
        }
        self.pending_pong = true;
        self.last_ping = now;
        match self.send_control_frame(CTRL_PING) {
            Ok(frame) => make_sends(frame, Unsent::Ends),
            Err(e) => make_ends(e),
        }
    }

    /// Says goodbye to the peer, unless it is gone.
    pub fn disconnect(&mut self) -> (res: Turn)
        requires
            old(self)@.send_bye ==> old(self)@.crypto.can_send(),
        ensures
            leaving_handled(old(self)@, final(self)@, res.deep_view()),
    {
        if !self.send_bye {
            return make_tells(no_events());
        }
        match self.send_control_frame(CTRL_BYE) {
            Ok(frame) => make_sends(frame, Unsent::Ends),
            Err(e) => make_ends(e),
        }
    }
}

/// Whether a path may be typed as it is behind a command: it neither starts nor ends with
/// whitespace. There may be whitespace inside it.
pub open spec fn is_bare(path: Seq<char>) -> bool {
    path.len() > 0 ==> !whitespace(path[0]) && !whitespace(path.last())
}

/// Whether a text is nothing but whitespace.
pub open spec fn is_padding(text: Seq<char>) -> bool {
    forall|i: int| 0 <= i < text.len() ==> whitespace(#[trigger] text[i])
}

/// The command to send a file names the whole path, with the spaces inside it and without those
/// around it. Nothing is sent and nothing changes before the file is found. While an offer is
/// pending, the user is told so instead.
pub proof fn path_is_sent_whole(
    before: ClientView,
    after: ClientView,
    target: String,
    text: String,
    ttl: Option<u64>,
    turn: TurnView,
    gap: Seq<char>,
    path: Seq<char>,
    tail: Seq<char>,
)
    requires
        text@ == "/send "@ + gap + path + tail,
        is_padding(gap),
        is_padding(tail),
        is_bare(path),
        command_handled(before, after, target, text, ttl, turn),
    ensures
        after == before,
        turn.frame is None && turn.end is None,
        before.pending_send_file is None ==> turn.next == NextView::FindFile(path) && turn.events.len() == 0,
        before.pending_send_file is Some ==> turn.next == NextView::Nothing && turn.events.len() == 1,
{
    reveal_strlit("/send ");
    assert("/send "@ =~= text@.subrange(0, 6));
    assert(text@.skip(6) =~= gap + path + tail);
    padding_is_taken_away(gap, path, tail);
}

/// The command to choose the directory for files names the whole path, with the spaces inside it
/// and without those around it; without a path it only tells which directory it is.
pub proof fn save_dir_is_named_whole(
    before: ClientView,
    after: ClientView,
    target: String,
    text: String,
    ttl: Option<u64>,
    turn: TurnView,
    gap: Seq<char>,
    path: Seq<char>,
    tail: Seq<char>,
)
    requires
        text@ == "/save_dir "@ + gap + path + tail || text@ == "/save_dir"@ && path.len() == 0,
        is_padding(gap),
        is_padding(tail),
        is_bare(path),
        command_handled(before, after, target, text, ttl, turn),
    ensures
        after == before,
        turn.frame is None && turn.end is None,
        path.len() > 0 ==> turn.next == NextView::CreateSaveDir(path) && turn.events.len() == 0,
        path.len() == 0 ==> turn.next == NextView::Nothing && turn.events == seq![
            system_event("Current save directory: "@ + before.save_dir),
        ],
{
    reveal_strlit("/save_dir ");
    reveal_strlit("/save_dir");
    reveal_strlit("/send ");
    assert(text@[2] == 'a');
    assert("/send "@.is_prefix_of(text@) ==> text@.subrange(0, 6)[2] == text@[2]);
    if text@ == "/save_dir "@ + gap + path + tail {
        assert("/save_dir "@ =~= text@.subrange(0, 10));
        assert(text@.skip(10) =~= gap + path + tail);
        padding_is_taken_away(gap, path, tail);
    }
}

/// The command to accept a file takes the offer that waits and names the whole path for it, with
/// the spaces inside it and without those around it. Without an offer nothing changes.
pub proof fn acceptance_names_whole_path(
    before: ClientView,
    after: ClientView,
    target: String,
    text: String,
    ttl: Option<u64>,
    turn: TurnView,
    gap: Seq<char>,
    path: Seq<char>,
    tail: Seq<char>,
)
    requires
        text@ == "/accept"@ + gap + path + tail,
        is_padding(gap),
        is_padding(tail),
        is_bare(path),
        command_handled(before, after, target, text, ttl, turn),
    ensures
        turn.frame is None && turn.end is None,
        before.pending_recv_offer matches Some(offer) ==> turn.next == NextView::PlaceFile(offer, path)
            && turn.events.len() == 0 && after == (ClientView { pending_recv_offer: None, ..before }),
        before.pending_recv_offer is None ==> after == before && turn.next == NextView::Nothing && turn.events.len()
            == 1,
{
    reveal_strlit("/accept");
    reveal_strlit("/send ");
    reveal_strlit("/save_dir");
    reveal_strlit("/save_dir ");
    assert(text@[1] == 'a');
    assert("/send "@.is_prefix_of(text@) ==> text@.subrange(0, 6)[1] == text@[1]);
    assert("/save_dir "@.is_prefix_of(text@) ==> text@.subrange(0, 10)[1] == text@[1]);
    assert("/accept"@ =~= text@.subrange(0, 7));
    assert(text@.skip(7) =~= gap + path + tail);
    padding_is_taken_away(gap, path, tail);
}

/// A text that is none of the commands goes to the peer as it is, or the session ends; nothing
/// else is asked for.
pub proof fn other_text_is_said(
    before: ClientView,
    after: ClientView,
    target: String,
    text: String,
    ttl: Option<u64>,
    turn: TurnView,
)
    requires
        !"/send "@.is_prefix_of(text@),
        !"/save_dir "@.is_prefix_of(text@),
        text@ != "/save_dir"@,
        !"/accept"@.is_prefix_of(text@),
        text@ != "/decline"@,
        command_handled(before, after, target, text, ttl, turn),
    ensures
        turn.next == NextView::Nothing,
        turn.events.len() == 0,
        match (turn.frame, turn.end) {
            (Some(frame), None) => turn.unsent == Unsent::EndsSilently && app_message_sent(
                before,
                after,
                OutboundMessage::Message { target, text, ttl },
                Ok(Some(frame)),
            ),
            (None, Some(e)) => !after.send_bye && e == ErrorView::MessageTooLarge,
            _ => false,
        },
{
}

/// A text that does not start with a slash is no command, whatever it holds.
pub proof fn plain_text_is_said(
    before: ClientView,
    after: ClientView,
    target: String,
    text: String,
    ttl: Option<u64>,
    turn: TurnView,
)
    requires
        text@.len() == 0 || text@[0] != '/',
        command_handled(before, after, target, text, ttl, turn),
    ensures
        turn.next == NextView::Nothing,
        turn.events.len() == 0,
        turn.frame matches Some(frame) ==> app_message_sent(
            before,
            after,
            OutboundMessage::Message { target, text, ttl },
            Ok(Some(frame)),
        ),
        turn.frame is None ==> turn.end is Some,
{
    reveal_strlit("/accept");
    reveal_strlit("/send ");
    reveal_strlit("/save_dir");
    reveal_strlit("/save_dir ");
    reveal_strlit("/decline");
    if text@.len() > 0 {
        assert("/send "@.is_prefix_of(text@) ==> text@.subrange(0, 6)[0] == text@[0]);
        assert("/save_dir "@.is_prefix_of(text@) ==> text@.subrange(0, 10)[0] == text@[0]);
        assert("/accept"@.is_prefix_of(text@) ==> text@.subrange(0, 7)[0] == text@[0]);
    }
    other_text_is_said(before, after, target, text, ttl, turn);
}

/// The command to refuse a file drops the offer that waits, whether or not the refusal can be
/// sent, and the user is told which file it was.
pub proof fn refused_offer_is_dropped(
    before: ClientView,
    after: ClientView,
    target: String,
    text: String,
    ttl: Option<u64>,
    turn: TurnView,
)
    requires
        text@ == "/decline"@,
        command_handled(before, after, target, text, ttl, turn),
    ensures
        after.pending_recv_offer is None,
        turn.end is None && turn.next == NextView::Nothing,
        before.pending_recv_offer is None ==> after == before && turn.frame is None,
        before.pending_recv_offer matches Some(offer) ==> turn.events[0] == system_event(
            "Declined file transfer of: "@ + offer.file_name,
        ),
        turn.frame is Some ==> turn.unsent == Unsent::DeclineFails && turn.events.len() == 1,
        before.pending_recv_offer matches Some(offer) ==> (turn.frame matches Some(frame) ==> sent(
            ClientView { pending_recv_offer: None, ..before },
            after,
            3,
            json_bytes(
                JsonTree::Object(
                    map![
                        "file_decline"@ => JsonTree::Object(map!["merkle_root"@ => JsonTree::Text(offer.merkle_root)]),
                    ],
                ),
            ),
            Ok(frame),
        )),
{
    reveal_strlit("/accept");
    reveal_strlit("/send ");
    reveal_strlit("/save_dir");
    reveal_strlit("/save_dir ");
    reveal_strlit("/decline");
    assert(text@[1] == 'd');
    assert("/send "@.is_prefix_of(text@) ==> text@.subrange(0, 6)[1] == text@[1]);
    assert("/save_dir "@.is_prefix_of(text@) ==> text@.subrange(0, 10)[1] == text@[1]);
    assert("/accept"@.is_prefix_of(text@) ==> text@.subrange(0, 7)[1] == text@[1]);
}

/// While a ping waits for its answer, nothing is sent; the session ends at the tick that is
/// thirty seconds or more after the ping, and at no earlier one.
pub proof fn silence_lasts_thirty_seconds(before: ClientView, after: ClientView, now: u64, turn: TurnView)
    requires
        before.pending_pong,
        tick_handled(before, after, now, turn),
    ensures
        turn.frame is None,
        turn.end is Some <==> now >= before.last_ping + 30000,
        turn.end is Some ==> turn.end == Some(ErrorView::TimedOut) && turn.events == seq![
            system_event("Connection timed out: "@ + before.peer_name()),
        ] && after == (ClientView { send_bye: false, ..before }),
        turn.end is None ==> after == before && turn.events.len() == 0,
{
}

/// While no ping waits, a tick sends one and notes when, so that a second tick before thirty
/// seconds are over does nothing.
pub proof fn tick_asks_once(
    before: ClientView,
    after: ClientView,
    now: u64,
    turn: TurnView,
    later: u64,
    last: ClientView,
    second: TurnView,
)
    requires
        !before.pending_pong,
        tick_handled(before, after, now, turn),
        now <= later < now + 30000,
        tick_handled(after, last, later, second),
    ensures
        turn.end is None ==> turn.frame is Some && turn.unsent == Unsent::Ends && turn.events.len() == 0,
        after.pending_pong,
        after.last_ping == now,
        last == after,
        second.frame is None && second.end is None && second.events.len() == 0,
{
}

/// The peer is told how long messages are kept exactly where both nodes let messages vanish.
/// Otherwise nothing is sent, and nothing changes.
pub proof fn notice_needs_both_nodes(
    before: ClientView,
    after: ClientView,
    target: String,
    ttl: Option<u64>,
    turn: TurnView,
)
    requires
        app_message_handled(before, after, OutboundMessage::TTLNotice { target, ttl }, turn),
    ensures
        !before.active_extensions.contains("vanishing_ink:v1"@) ==> after == before && turn.frame is None && turn.end
            is None && turn.events.len() == 0 && turn.next == NextView::Nothing,
        before.active_extensions.contains("vanishing_ink:v1"@) ==> (turn.frame is Some <==> turn.end is None)
            && turn.events.len() == 0,
        turn.end is Some ==> !after.send_bye,
{
}

}
