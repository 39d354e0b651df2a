//! What a client does with what a peer sends.
use crate::client::{
    chunk_parts, decompressed, frame_view, received, sent, sys_msg, system_event,
    unknown_type_text, ClientError, ClientView, ErrorView, Fault, EventView, FileOffer, OfferView, PatronusClient, Received, UiEvent,
    APP_MESSAGE, CONTROL_FRAME, CTRL_BYE, CTRL_PING, CTRL_PONG, EXTENSION_DATA,
};
use crate::documents::{offer_in, read_offer};
use crate::json::{
    json_display, json_get, json_parse, json_parsed, json_show, json_tree, member_of, number_in, parse_view,
    number_member, text_in, text_member, JsonTree,
};
use crate::text::{decimal, decimal_text, first_chars, hex_pair, take_chars, text2, text3, text5};
use crate::ttl::{format_ttl, ttl_text};
use crate::turn::{
    add_event, asks, ends, frame_of, make_asks, make_ends, make_quiet, make_sends, make_tells, no_events, one_event,
    quiet_turn, sends_or_ends, tells, Next, NextView, ReceivedChunk, SendTask, Turn, TurnView, Unsent,
};
use vstd::prelude::*;
use vstd::string::*;

verus! {

/// The document that a value holds, where there is one.
pub open spec fn tree_of(document: Option<&serde_json::Value>) -> Option<JsonTree> {
    match document {
        Some(value) => Some(json_tree(*value)),
        None => None,
    }
}

/// The document that a text is, where it is one.
pub open spec fn document_in(parsed: Result<JsonTree, Seq<char>>) -> Option<JsonTree> {
    match parsed {
        Ok(tree) => Some(tree),
        Err(_) => None,
    }
}

/// What the user is told of a notice of how long the peer's messages are kept.
pub open spec fn ttl_notice_text(ttl: Option<u64>) -> Seq<char> {
    match ttl {
        Some(secs) => "Peer messages will disappear after "@ + ttl_text(secs as nat),
        None => "Peer disabled message TTL"@,
    }
}

/// What the client wants done about a message of the application. What is no document is
/// passed over.
pub open spec fn app_turn(client: ClientView, tree: Option<JsonTree>) -> TurnView {
    match tree {
        Some(doc) => match text_in(member_of(doc, "text"@)) {
            Some(text) => tells(
                seq![
                    EventView::Message {
                        from: client.peer_name(),
                        text,
                        is_system: false,
                        ttl: number_in(member_of(doc, "ttl"@)),
                        group: text_in(member_of(doc, "group"@)),
                    },
                ],
            ),
            None => ends(Fault::InvalidText),
        },
        None => tells(seq![]),
    }
}

/// What the user is told of an offered file.
pub open spec fn offer_events(offer: OfferView) -> Seq<EventView> {
    seq![
        system_event(
            "Received file offer: "@ + offer.file_name + " ("@ + decimal(offer.size as nat) + " bytes)"@,
        ),
        system_event("To accept, type: '/accept' or '/accept <path>'"@),
        system_event("To decline, type: '/decline'"@),
    ]
}

/// What the user is told when the peer accepts a file.
pub open spec fn accepted_text(file_name: Seq<char>, start_offset: u64) -> Seq<char> {
    "Peer accepted. Transmitting file: "@ + file_name + " starting at offset "@ + decimal(start_offset as nat)
        + "..."@
}

/// A client, and what it wants done.
pub ghost struct Outcome {
    pub client: ClientView,
    pub turn: TurnView,
}

/// What comes of an extension document: a notice, an offer, an acceptance or a refusal. What
/// is none of them is passed over, and so is an answer to an offer that was not made.
pub open spec fn extension_outcome(client: ClientView, tree: Result<JsonTree, Seq<char>>) -> Outcome {
    match tree {
        Err(text) => Outcome { client, turn: ends(Fault::InvalidDocument(text)) },
        Ok(doc) => if member_of(doc, "ttl_notice"@) is Some {
            Outcome {
                client,
                turn: tells(seq![system_event(ttl_notice_text(number_in(member_of(doc, "ttl_notice"@))))]),
            }
        } else if member_of(doc, "file_offer"@) is Some {
            match offer_in(member_of(doc, "file_offer"@)->0) {
                Some(offer) => Outcome {
                    client: ClientView { pending_recv_offer: Some(offer), ..client },
                    turn: tells(offer_events(offer)),
                },
                None => Outcome { client, turn: tells(seq![]) },
            }
        } else if member_of(doc, "file_accept"@) is Some {
            let accept = member_of(doc, "file_accept"@)->0;
            match (text_in(member_of(accept, "merkle_root"@)), client.pending_send_file) {
                (Some(_), Some((path, key, file_name))) => {
                    let start_offset = match number_in(member_of(accept, "start_offset"@)) {
                        Some(offset) => offset,
                        None => 0,
                    };
                    Outcome {
                        client: ClientView { pending_send_file: None, ..client },
                        turn: quiet_turn(
                            seq![system_event(accepted_text(file_name, start_offset))],
                            NextView::OpenFile { path, key, file_name, start_offset },
                            None,
                        ),
                    }
                },
                _ => Outcome { client, turn: tells(seq![]) },
            }
        } else if member_of(doc, "file_decline"@) is Some {
            let decline = member_of(doc, "file_decline"@)->0;
            match (text_in(member_of(decline, "merkle_root"@)), client.pending_send_file) {
                (Some(_), Some((_, _, file_name))) => Outcome {
                    client: ClientView { pending_send_file: None, ..client },
                    turn: tells(seq![system_event("Peer declined file transfer of: "@ + file_name)]),
                },
                _ => Outcome { client, turn: tells(seq![]) },
            }
        } else {
            Outcome { client, turn: tells(seq![]) }
        },
    }
}

/// What comes of a control frame: a ping is answered, a pong noted, and a goodbye ends the
/// session without another. Others are passed over.
pub open spec fn control_handled(before: ClientView, after: ClientView, payload: Seq<u8>, turn: TurnView) -> bool {
    if payload.len() > 0 && payload[0] == CTRL_PING {
        &&& sent(before, after, CONTROL_FRAME, seq![CTRL_PONG], frame_of(turn))
        &&& turn == sends_or_ends(frame_of(turn), Unsent::Ends)
    } else if payload.len() > 0 && payload[0] == CTRL_PONG {
        after == (ClientView { pending_pong: false, ..before }) && turn == tells(seq![])
    } else if payload.len() > 0 && payload[0] == CTRL_BYE {
        after == (ClientView { send_bye: false, ..before }) && turn == ends(Fault::PeerLeft)
    } else {
        after == before && turn == tells(seq![])
    }
}

/// What comes of what was sent outside the ratchet: a document is shown; anything else is a
/// chunk of the file that is being received, if one is.
pub open spec fn chunk_outcome(client: ClientView, data: Seq<u8>, tree: Option<JsonTree>) -> Outcome {
    match tree {
        Some(doc) => if member_of(doc, "ttl_notice"@) is Some {
            Outcome {
                client,
                turn: tells(seq![system_event(ttl_notice_text(number_in(member_of(doc, "ttl_notice"@))))]),
            }
        } else {
            Outcome {
                client,
                turn: tells(
                    seq![
                        system_event(
                            "Got unknown extension packet data: `"@ + first_chars(json_display(doc), 16) + "...`"@,
                        ),
                    ],
                ),
            }
        },
        None => {
            let rest = ClientView { receiving_file: None, ..client };
            match (client.receiving_file, client.receiving_key) {
                (Some((file_name, size)), Some(key)) => match chunk_parts(client, key, data) {
                    Ok((msg_type, chunk)) => if msg_type == EXTENSION_DATA {
                        Outcome { client: rest, turn: asks(NextView::WriteChunk { data: chunk, file_name, size }) }
                    } else {
                        unreadable_chunk(rest)
                    },
                    Err(_) => unreadable_chunk(rest),
                },
                _ => Outcome { client: rest, turn: tells(seq![]) },
            }
        },
    }
}

/// What comes of a chunk that cannot be decrypted.
pub open spec fn unreadable_chunk(client: ClientView) -> Outcome {
    Outcome {
        client,
        turn: quiet_turn(
            seq![system_event("Failed to decrypt file chunk"@)],
            NextView::Nothing,
            Some(Fault::ChunkUnreadable),
        ),
    }
}

/// What comes of a chunk that was written: the user is told how far the file is, and when it
/// is complete.
pub open spec fn written_outcome(client: ClientView, len: nat, file_name: Seq<char>, size: u64) -> Outcome {
    let seen = (client.receiving_bytes_seen + len) as u64;
    let progress = EventView::FileProgress {
        peer_id: client.peer_name(),
        file_name,
        total_size: size,
        bytes_transferred: seen,
        is_sending: false,
    };
    if seen >= size {
        Outcome {
            client: ClientView {
                receiving_bytes_seen: seen,
                receiving_file: None,
                receiving_key: None,
                ..client
            },
            turn: tells(seq![progress, system_event("File transfer complete: "@ + file_name)]),
        }
    } else {
        Outcome {
            client: ClientView {
                receiving_bytes_seen: seen,
                receiving_file: Some((file_name, size)),
                ..client
            },
            turn: tells(seq![progress]),
        }
    }
}

/// What comes of a message.
pub open spec fn message_handled(
    before: ClientView,
    after: ClientView,
    msg_type: u8,
    payload: Seq<u8>,
    is_ratchet: bool,
    turn: TurnView,
) -> bool {
    if msg_type == APP_MESSAGE {
        after == before && turn == app_turn(before, document_in(json_parsed(payload)))
    } else if msg_type == CONTROL_FRAME {
        control_handled(before, after, payload, turn)
    } else if msg_type == EXTENSION_DATA && is_ratchet {
        Outcome { client: after, turn } == extension_outcome(before, json_parsed(payload))
    } else if msg_type == EXTENSION_DATA {
        Outcome { client: after, turn } == chunk_outcome(before, payload, document_in(json_parsed(payload)))
    } else {
        &&& after == before
        &&& turn == quiet_turn(
            seq![system_event(unknown_type_text(msg_type))],
            NextView::Nothing,
            Some(Fault::UnknownType(msg_type)),
        )
    }
}

/// What becomes of a client that cannot read a frame.
pub open spec fn failing(client: ClientView, silently: bool) -> ClientView {
    if silently {
        ClientView { send_bye: false, ..client }
    } else {
        client
    }
}

/// What comes of a frame: of what it holds, if it can be read; otherwise the session ends.
pub open spec fn frame_handled(
    before: ClientView,
    after: ClientView,
    frame: Seq<u8>,
    silently: bool,
    turn: TurnView,
) -> bool {
    match received(before, frame) {
        Ok(Received::Chunk(data)) => message_handled(before, after, EXTENSION_DATA, data, false, turn),
        Ok(Received::Packed { index, packed }) => {
            let advanced = before.after_receive(index);
            match decompressed(before, packed) {
                Ok((msg_type, payload)) => message_handled(advanced, after, msg_type, payload, true, turn),
                Err(e) => after == failing(advanced, silently) && turn == ends(e),
            }
        },
        Err(e) => after == failing(before, silently) && turn == ends(e),
    }
}

/// Whether the client's sending chain has a message left.
pub open spec fn chain_left(client: ClientView) -> bool {
    client.crypto.session matches Some(session) ==> session.ratchet_send < u32::MAX
}

fn ttl_notice_event(ttl: Option<u64>) -> (res: UiEvent)
    ensures
        res.deep_view() == system_event(ttl_notice_text(ttl)),
{
    match ttl {
        Some(secs) => sys_msg(text2("Peer messages will disappear after ", format_ttl(secs).as_str())),
        None => sys_msg("Peer disabled message TTL".to_owned()),
    }
}

impl PatronusClient {
    /// What the peer is called.
    pub(crate) fn peer_name(&self) -> (res: String)
        ensures
            res@ == self@.peer_name(),
    {
        match &self.peer_node_id {
            Some(id) => id.clone(),
            None => "Unknown".to_owned(),
        }
    }

    /// Tells the user a message of the application.
    pub fn app_received(&self, document: Option<&serde_json::Value>) -> (res: Turn)
        ensures
            res.deep_view() == app_turn(self@, tree_of(document)),
    {
        let doc = match document {
            Some(doc) => doc,
            None => return make_tells(no_events()),
        };
        let text = match text_member(doc, "text") {
            Some(text) => text,
            None => return make_ends(Fault::InvalidText),
        };
        let ttl = number_member(doc, "ttl");
        let group = text_member(doc, "group");
        make_tells(one_event(UiEvent::Message { from: self.peer_name(), text, is_system: false, ttl, group }))
    }

    /// Answers a control frame.
    pub fn control_received(&mut self, payload: &[u8]) -> (res: Turn)
        requires
            payload@.len() > 0 && payload@[0] == CTRL_PING ==> old(self)@.crypto.can_send(),
        ensures
            control_handled(old(self)@, final(self)@, payload@, res.deep_view()),
    {
        if payload.len() == 0 {
            return make_tells(no_events());
        }
        let code: u8 = payload[0];
        if code == CTRL_PING {
            match self.send_control_frame(CTRL_PONG) {
                Ok(frame) => make_sends(frame, Unsent::Ends),
                Err(e) => make_ends(e),
            }
        } else if code == CTRL_PONG {
            self.pending_pong = false;
            make_tells(no_events())
        } else if code == CTRL_BYE {
            self.send_bye = false;
            make_ends(Fault::PeerLeft)
        } else {
            make_tells(no_events())
        }
    }

    /// Sends a control frame.
    pub fn send_control_frame(&mut self, payload: u8) -> (res: Result<Vec<u8>, ClientError>)
        requires
            old(self)@.crypto.can_send(),
        ensures
            sent(old(self)@, final(self)@, CONTROL_FRAME, seq![payload], frame_view(res)),
    {
        let mut data: Vec<u8> = Vec::new();
        data.push(payload);
        assert(data@ =~= seq![payload]);
        self.encrypt_message(CONTROL_FRAME, data.as_slice())
    }

    fn offer_received(&mut self, offer: FileOffer) -> (res: Turn)
        ensures
            final(self)@ == (ClientView { pending_recv_offer: Some(offer.deep_view()), ..old(self)@ }),
            res.deep_view() == tells(offer_events(offer.deep_view())),
    {
        let size = decimal_text(offer.size);
        let mut events = one_event(
            sys_msg(text5("Received file offer: ", offer.file_name.as_str(), " (", size.as_str(), " bytes)")),
        );
        add_event(&mut events, sys_msg("To accept, type: '/accept' or '/accept <path>'".to_owned()));
        add_event(&mut events, sys_msg("To decline, type: '/decline'".to_owned()));
        assert(events.deep_view() =~= offer_events(offer.deep_view()));
        self.pending_recv_offer = Some(offer);
        make_tells(events)
    }

    /// Does what an extension document asks for. Where there is none, the session ends.
    pub fn extension_received(&mut self, parsed: Result<serde_json::Value, String>) -> (res: Turn)
        ensures
            (Outcome { client: final(self)@, turn: res.deep_view() }) == extension_outcome(
                old(self)@,
                parse_view(parsed),
            ),
    {
        let value = match parsed {
            Ok(value) => value,
            Err(text) => return make_ends(Fault::InvalidDocument(text)),
        };
        let doc = &value;
        if let Some(notice) = json_get(doc, "ttl_notice") {
            let ttl = number_member(doc, "ttl_notice");
            return make_tells(one_event(ttl_notice_event(ttl)));
        }
        if let Some(value) = json_get(doc, "file_offer") {
            return match read_offer(value) {
                Some(offer) => self.offer_received(offer),
                None => make_tells(no_events()),
            };
        }
        if let Some(accept) = json_get(doc, "file_accept") {
            if text_member(accept, "merkle_root").is_none() {
                return make_tells(no_events());
            }
            let (path, key, file_name) = match self.pending_send_file.take() {
                Some(pending) => pending,
                None => return make_tells(no_events()),
            };
            let start_offset: u64 = match number_member(accept, "start_offset") {
                Some(offset) => offset,
                None => 0,
            };
            let offset = decimal_text(start_offset);
            let event = sys_msg(
                text5(
                    "Peer accepted. Transmitting file: ",
                    file_name.as_str(),
                    " starting at offset ",
                    offset.as_str(),
                    "...",
                ),
            );
            return make_quiet(
                one_event(event),
                Next::OpenFile(SendTask { path, key, file_name, start_offset }),
                None,
            );
        }
        if let Some(decline) = json_get(doc, "file_decline") {
            if text_member(decline, "merkle_root").is_none() {
                return make_tells(no_events());
            }
            return match self.pending_send_file.take() {
                Some((_, _, file_name)) => make_tells(
                    one_event(sys_msg(text2("Peer declined file transfer of: ", file_name.as_str()))),
                ),
                None => make_tells(no_events()),
            };
        }
        make_tells(no_events())
    }

    /// Takes what was sent outside the ratchet: a document, where it is one, or a chunk of
    /// the file that is being received.
    pub fn chunk_received(&mut self, data: &[u8], document: Option<&serde_json::Value>) -> (res: Turn)
        ensures
            (Outcome { client: final(self)@, turn: res.deep_view() }) == chunk_outcome(
                old(self)@,
                data@,
                tree_of(document),
            ),
            res.next matches Next::WriteChunk(chunk) ==> chunk.data@.len() <= data@.len(),
    {
        if let Some(doc) = document {
            if let Some(notice) = json_get(doc, "ttl_notice") {
                let ttl = number_member(doc, "ttl_notice");
                return make_tells(one_event(ttl_notice_event(ttl)));
            }
            let shown = take_chars(json_show(doc).as_str(), 16);
            return make_tells(
                one_event(sys_msg(text3("Got unknown extension packet data: `", shown.as_str(), "...`"))),
            );
        }
        let file = self.receiving_file.take();
        match (file, self.receiving_key) {
            (Some((file_name, size)), Some(key)) => {
                if let Ok((msg_type, chunk)) = self.decrypt_file_chunk(&key, data) {
                    if msg_type == EXTENSION_DATA {
                        return make_asks(Next::WriteChunk(ReceivedChunk { data: chunk, file_name, size }));
                    }
                }
                make_quiet(
                    one_event(sys_msg("Failed to decrypt file chunk".to_owned())),
                    Next::Nothing,
                    Some(Fault::ChunkUnreadable),
                )
            },
            _ => make_tells(no_events()),
        }
    }

    /// Counts a chunk that was written to the file that is being received. Where it could not
    /// be written, the session ends.
    pub fn chunk_written(&mut self, chunk: ReceivedChunk, written: Result<(), String>) -> (res: Turn)
        requires
            old(self)@.receiving_bytes_seen + chunk.data@.len() <= u64::MAX,
        ensures
            (Outcome { client: final(self)@, turn: res.deep_view() }) == match written {
                Ok(_) => written_outcome(old(self)@, chunk.data@.len(), chunk.file_name@, chunk.size),
                Err(e) => Outcome { client: old(self)@, turn: ends(Fault::WriteFailed(e@)) },
            },
    {
        if let Err(e) = written {
            return make_ends(Fault::WriteFailed(e));
        }
        let seen: u64 = self.receiving_bytes_seen + chunk.data.len() as u64;
        self.receiving_bytes_seen = seen;
        let mut events = one_event(
            UiEvent::FileProgress {
                peer_id: self.peer_name(),
                file_name: chunk.file_name.clone(),
                total_size: chunk.size,
                bytes_transferred: seen,
                is_sending: false,
            },
        );
        if seen >= chunk.size {
            let ghost progress = events.deep_view()[0];
            let done = sys_msg(text2("File transfer complete: ", chunk.file_name.as_str()));
            add_event(&mut events, done);
            assert(events.deep_view() =~= seq![progress, done.deep_view()]);
            self.receiving_file = None;
            self.receiving_key = None;
        } else {
            self.receiving_file = Some((chunk.file_name, chunk.size));
        }
        make_tells(events)
    }

    /// Does what a message asks for.
    pub fn message_received(&mut self, msg_type: u8, payload: &[u8], is_ratchet: bool) -> (res: Turn)
        requires
            msg_type == CONTROL_FRAME && payload@.len() > 0 && payload@[0] == CTRL_PING
                ==> old(self)@.crypto.can_send(),
        ensures
            message_handled(old(self)@, final(self)@, msg_type, payload@, is_ratchet, res.deep_view()),
            res.next matches Next::WriteChunk(chunk) ==> chunk.data@.len() <= payload@.len(),
    {
        if msg_type == CONTROL_FRAME {
            return self.control_received(payload);
        }
        if msg_type != APP_MESSAGE && msg_type != EXTENSION_DATA {
            let error: ClientError = Fault::UnknownType(msg_type);
            return make_quiet(one_event(sys_msg(error.message())), Next::Nothing, Some(error));
        }
        let parsed = json_parse(payload);
        if msg_type == EXTENSION_DATA && is_ratchet {
            return self.extension_received(parsed);
        }
        let document = match &parsed {
            Ok(value) => Some(value),
            Err(_) => None,
        };
        assert(tree_of(document) == document_in(json_parsed(payload@)));
        if msg_type == APP_MESSAGE {
            self.app_received(document)
        } else {
            self.chunk_received(payload, document)
        }
    }

    /// Reads a frame and does what it asks for. Where it cannot be read, the session ends.
    pub fn handle_incoming_frame(&mut self, frame: &[u8]) -> (res: Turn)
        requires
            chain_left(old(self)@),
        ensures
            frame_handled(old(self)@, final(self)@, frame@, false, res.deep_view()),
    {
        match self.receive_message(frame) {
            Ok((msg_type, payload, is_ratchet, _)) => self.message_received(msg_type, payload.as_slice(), is_ratchet),
            Err(e) => make_ends(e),
        }
    }

    /// Reads a frame and does what it asks for. Where it cannot be read, the session ends
    /// without a goodbye.
    pub fn handle_incoming(&mut self, frame: &[u8]) -> (res: Turn)
        requires
            chain_left(old(self)@),
        ensures
            frame_handled(old(self)@, final(self)@, frame@, true, res.deep_view()),
    {
        match self.receive_message(frame) {
            Ok((msg_type, payload, is_ratchet, _)) => self.message_received(msg_type, payload.as_slice(), is_ratchet),
            Err(e) => {
                self.send_bye = false;
                make_ends(e)
            },
        }
    }
}

/// A message of the application is told with the text that it has, from the peer, with its time to
/// live where that is a number and its group where that is a text. One without a text ends the
/// session.
pub proof fn message_is_told_as_it_is(client: ClientView, members: Map<Seq<char>, JsonTree>)
    ensures
        ({
            let turn = app_turn(client, Some(JsonTree::Object(members)));
            let has_text = members.contains_key("text"@) && members["text"@] is Text;
            &&& turn.frame is None && turn.next == NextView::Nothing
            &&& !has_text ==> turn.end == Some(ErrorView::InvalidText) && turn.events.len() == 0
            &&& has_text ==> turn.end is None && turn.events.len() == 1 && (turn.events[0] matches EventView::Message {
                from,
                text,
                is_system,
                ttl,
                group,
            } && from == client.peer_name() && members["text"@] == JsonTree::Text(text) && !is_system && (ttl matches
                Some(secs) ==> members.contains_key("ttl"@) && members["ttl"@] == JsonTree::Unsigned(secs)) && (ttl
                is None ==> !(members.contains_key("ttl"@) && members["ttl"@] is Unsigned)) && (group matches Some(name)
                ==> members.contains_key("group"@) && members["group"@] == JsonTree::Text(name)) && (group is None
                ==> !(members.contains_key("group"@) && members["group"@] is Text)))
        }),
        app_turn(client, None).events.len() == 0 && app_turn(client, None).end is None,
        app_turn(client, Some(JsonTree::Null)).end == Some(ErrorView::InvalidText),
{
}

/// A notice, an offer, an acceptance or a refusal changes nothing but the offer that it is about,
/// and only an acceptance asks for anything: to open the file that was offered, from the offset
/// that it names, or from the start where it names none.
pub proof fn extension_touches_its_offer(client: ClientView, doc: JsonTree)
    ensures
        ({
            let outcome = extension_outcome(client, Ok(doc));
            let after = outcome.client;
            &&& outcome.turn.frame is None && outcome.turn.end is None
            &&& after == (ClientView {
                pending_recv_offer: after.pending_recv_offer,
                pending_send_file: after.pending_send_file,
                ..client
            })
            &&& client.pending_send_file is None ==> outcome.turn.next == NextView::Nothing && after.pending_send_file
                is None
            &&& outcome.turn.next matches NextView::OpenFile { path, key, file_name, start_offset } ==> {
                let accept = member_of(doc, "file_accept"@)->0;
                &&& after.pending_send_file is None
                &&& client.pending_send_file == Some((path, key, file_name))
                &&& member_of(doc, "file_accept"@) is Some
                &&& number_in(member_of(accept, "start_offset"@)) matches Some(offset) ==> start_offset == offset
                &&& number_in(member_of(accept, "start_offset"@)) is None ==> start_offset == 0
            }
            &&& outcome.turn.next is OpenFile || outcome.turn.next == NextView::Nothing
            &&& after.pending_recv_offer != client.pending_recv_offer ==> member_of(doc, "file_offer"@) is Some
                && after.pending_recv_offer is Some
        }),
{
}

/// A text that is no document ends the session with the reason.
pub proof fn broken_extension_ends_session(client: ClientView, reason: Seq<char>)
    ensures
        extension_outcome(client, Err(reason)).client == client,
        extension_outcome(client, Err(reason)).turn.end == Some(ErrorView::InvalidDocument(reason)),
        extension_outcome(client, Err(reason)).turn.events.len() == 0,
{
}

/// Of control frames the first byte decides: one is a ping, which is answered; two is the answer,
/// after which none is waited for; three is a goodbye, which ends the session. Any other changes
/// nothing.
pub proof fn control_goes_by_first_byte(
    before: ClientView,
    after: ClientView,
    code: u8,
    rest: Seq<u8>,
    turn: TurnView,
)
    requires
        control_handled(before, after, seq![code] + rest, turn),
    ensures
        code == 1 ==> sent(before, after, CONTROL_FRAME, seq![2u8], frame_of(turn)) && turn.events.len() == 0
            && (turn.end is None ==> turn.frame is Some && turn.unsent == Unsent::Ends),
        code == 2 ==> after == (ClientView { pending_pong: false, ..before }) && turn.end is None && turn.frame is None
            && turn.events.len() == 0,
        code == 3 ==> after == (ClientView { send_bye: false, ..before }) && turn.end == Some(ErrorView::PeerLeft)
            && turn.frame is None && turn.events.len() == 0,
        code != 1 && code != 2 && code != 3 ==> after == before && turn.end is None && turn.frame is None
            && turn.events.len() == 0,
{
}

/// A message of a type that nobody knows ends the session, and the user is told its type.
pub proof fn unknown_type_ends_session(
    before: ClientView,
    after: ClientView,
    msg_type: u8,
    payload: Seq<u8>,
    is_ratchet: bool,
    turn: TurnView,
)
    requires
        msg_type != APP_MESSAGE && msg_type != CONTROL_FRAME && msg_type != EXTENSION_DATA,
        message_handled(before, after, msg_type, payload, is_ratchet, turn),
    ensures
        after == before,
        turn.end == Some(ErrorView::UnknownType(msg_type)),
        turn.events == seq![system_event("Unknown message type: 0x"@ + hex_pair(msg_type))],
        turn.frame is None,
{
}

/// A chunk that was written counts with all its bytes, and the user is told how many there are by
/// now, out of how many. The file is complete with the chunk that makes it so, which the user is
/// told once, and its key is dropped with it; before that it goes on under the same name and size.
pub proof fn written_chunk_counts(client: ClientView, len: nat, file_name: Seq<char>, size: u64)
    requires
        client.receiving_bytes_seen + len <= u64::MAX,
    ensures
        ({
            let outcome = written_outcome(client, len, file_name, size);
            let seen = client.receiving_bytes_seen + len;
            &&& outcome.client.receiving_bytes_seen == seen
            &&& outcome.turn.events.len() == (if seen >= size {
                2int
            } else {
                1
            })
            &&& outcome.turn.events[0] == EventView::FileProgress {
                peer_id: client.peer_name(),
                file_name,
                total_size: size,
                bytes_transferred: seen as u64,
                is_sending: false,
            }
            &&& seen >= size ==> outcome.turn.events[1] == system_event("File transfer complete: "@ + file_name)
                && outcome.client.receiving_file is None && outcome.client.receiving_key is None
            &&& seen < size ==> outcome.client.receiving_file == Some((file_name, size))
                && outcome.client.receiving_key == client.receiving_key
            &&& outcome.turn.end is None && outcome.turn.frame is None && outcome.turn.next == NextView::Nothing
            &&& outcome.client == (ClientView {
                receiving_bytes_seen: outcome.client.receiving_bytes_seen,
                receiving_file: outcome.client.receiving_file,
                receiving_key: outcome.client.receiving_key,
                ..client
            })
        }),
{
}

/// What comes outside the ratchet and is no document is a chunk of the file that is being
/// received: its bytes are to be written as they are, under the name and the size of the file. A
/// chunk that does not open under the key of the file ends the session; without a file nothing
/// comes of it.
pub proof fn chunk_is_written_as_it_is(client: ClientView, data: Seq<u8>)
    ensures
        ({
            let outcome = chunk_outcome(client, data, None);
            &&& outcome.client == (ClientView { receiving_file: None, ..client })
            &&& outcome.turn.frame is None
            &&& client.receiving_file is None || client.receiving_key is None ==> outcome.turn.next == NextView::Nothing
                && outcome.turn.end is None && outcome.turn.events.len() == 0
            &&& client.receiving_file is Some && client.receiving_key is Some ==> match chunk_parts(
                client,
                client.receiving_key->0,
                data,
            ) {
                Ok((msg_type, chunk)) if msg_type == 3 => outcome.turn.end is None && outcome.turn.events.len() == 0
                    && (outcome.turn.next matches NextView::WriteChunk { data: bytes, file_name, size } && bytes == chunk
                    && client.receiving_file == Some((file_name, size))),
                _ => outcome.turn.end == Some(ErrorView::ChunkUnreadable) && outcome.turn.next == NextView::Nothing
                    && outcome.turn.events == seq![system_event("Failed to decrypt file chunk"@)],
            }
        }),
{
}

/// A document outside the ratchet changes nothing: a notice is told, and of any other the user is
/// shown how it starts.
pub proof fn loose_document_is_shown(client: ClientView, data: Seq<u8>, doc: JsonTree)
    ensures
        ({
            let outcome = chunk_outcome(client, data, Some(doc));
            &&& outcome.client == client
            &&& outcome.turn.frame is None && outcome.turn.end is None && outcome.turn.next == NextView::Nothing
            &&& outcome.turn.events.len() == 1
            &&& member_of(doc, "ttl_notice"@) matches Some(JsonTree::Unsigned(secs)) ==> outcome.turn.events[0]
                == system_event("Peer messages will disappear after "@ + ttl_text(secs as nat))
            &&& member_of(doc, "ttl_notice"@) is None ==> outcome.turn.events[0] == system_event(
                "Got unknown extension packet data: `"@ + first_chars(json_display(doc), 16) + "...`"@,
            )
        }),
{
}

/// A notice tells how long the peer's messages are kept, in words, or that they are kept for good.
pub proof fn notice_tells_time(secs: u64)
    ensures
        ttl_notice_text(Some(secs)) == "Peer messages will disappear after "@ + ttl_text(secs as nat),
        ttl_notice_text(None) == "Peer disabled message TTL"@,
{
}

/// A frame that cannot be read ends the session with the reason. Where that is to happen silently
/// no goodbye is sent either; nothing else of the client changes but for the step that a message
/// that was decrypted takes.
pub proof fn unreadable_frame_ends_session(
    before: ClientView,
    after: ClientView,
    frame: Seq<u8>,
    silently: bool,
    turn: TurnView,
)
    requires
        frame_handled(before, after, frame, silently, turn),
    ensures
        received(before, frame) matches Err(e) ==> turn.end == Some(e) && turn.events.len() == 0 && turn.frame is None
            && turn.next == NextView::Nothing && after == (ClientView {
            send_bye: before.send_bye && !silently,
            ..before
        }),
        received(before, frame) matches Ok(Received::Packed { index, packed }) ==> (decompressed(before, packed) matches
            Err(e) ==> turn.end == Some(e) && turn.events.len() == 0 && turn.frame is None && turn.next
            == NextView::Nothing && after == (ClientView {
            send_bye: before.send_bye && !silently,
            ..before.after_receive(index)
        })),
{
}

/// The user is told of an offer with its name and its size in bytes, and how to answer it; and of
/// an acceptance with the name and the offset.
pub proof fn offers_are_told_in_full(offer: OfferView, start_offset: u64)
    ensures
        offer_events(offer).len() == 3,
        offer_events(offer)[0] == system_event(
            "Received file offer: "@ + offer.file_name + " ("@ + decimal(offer.size as nat) + " bytes)"@,
        ),
        accepted_text(offer.file_name, start_offset) == "Peer accepted. Transmitting file: "@ + offer.file_name
            + " starting at offset "@ + decimal(start_offset as nat) + "..."@,
{
}

/// Of the members of an extension document a notice counts first, then an offer, then an
/// acceptance, then a refusal. An answer counts only where it names a root and a file was
/// offered; what is none of these, or is not whole, changes nothing and is not told.
pub proof fn extensions_count_in_order(client: ClientView, members: Map<Seq<char>, JsonTree>)
    ensures
        ({
            let outcome = extension_outcome(client, Ok(JsonTree::Object(members)));
            let notice = members.contains_key("ttl_notice"@);
            let offer = !notice && members.contains_key("file_offer"@);
            let accept = !notice && !offer && members.contains_key("file_accept"@);
            let decline = !notice && !offer && !accept && members.contains_key("file_decline"@);
            let accepts = accept && member_of(members["file_accept"@], "merkle_root"@) matches Some(JsonTree::Text(_));
            let declines = decline && member_of(members["file_decline"@], "merkle_root"@) matches Some(
                JsonTree::Text(_),
            );
            &&& notice && members["ttl_notice"@] is Unsigned ==> outcome.client == client && outcome.turn.events == seq![
                system_event(
                    "Peer messages will disappear after "@ + ttl_text(members["ttl_notice"@]->Unsigned_0 as nat),
                ),
            ]
            &&& notice && !(members["ttl_notice"@] is Unsigned) ==> outcome.client == client && outcome.turn.events
                == seq![system_event("Peer disabled message TTL"@)]
            &&& offer ==> match offer_in(members["file_offer"@]) {
                Some(file) => outcome.client == (ClientView { pending_recv_offer: Some(file), ..client })
                    && outcome.turn.events.len() == 3,
                None => outcome.client == client && outcome.turn.events.len() == 0,
            }
            &&& accepts && client.pending_send_file is Some ==> outcome.turn.next is OpenFile && outcome.client == (
            ClientView { pending_send_file: None, ..client }) && outcome.turn.events.len() == 1
            &&& declines && client.pending_send_file is Some ==> outcome.turn.next == NextView::Nothing
                && outcome.client == (ClientView { pending_send_file: None, ..client }) && outcome.turn.events.len() == 1
            &&& !notice && !offer && (!(accepts || declines) || client.pending_send_file is None) ==> outcome.client
                == client && outcome.turn.events.len() == 0 && outcome.turn.next == NextView::Nothing
        }),
{
}

}
