//! What two clients in one session can rely on: what one sends, the other gets.
use crate::bytes::{be32, be32_reads_back};
use crate::client::{
    after_reading, chunk_sent, decrypted, parts_of, plaintext_of, read_message, received, sent, system_event, ClientView, ErrorView, Fault, EventView,
    OfferView, OutboundMessage, Received, APP_MESSAGE, CONTROL_FRAME, CTRL_BYE, CTRL_PING, CTRL_PONG,
    EXTENSION_DATA, KEEP_ALIVE_TIMEOUT,
};
use crate::crypto::{file_key, in_step, message_reaches_peer, replay_is_refused, CryptoError, WordLists, MAX_RATCHET_STEPS};
use crate::documents::{
    file_accept_doc, file_accept_doc_says, file_decline_doc, file_decline_doc_says, file_offer_doc,
    file_offer_doc_says, message_doc_says, reads_back, ttl_notice_doc, ttl_notice_doc_says,
};
use crate::frame::{frame_reads_back, NO_RATCHET};
use crate::handshake::{
    handshake_opens_session, handshake_outcome, node_id_of, speaks_for, trusts, PacketView,
};
use crate::incoming::{
    accepted_text, frame_handled, offer_events, ttl_notice_text, written_outcome, Outcome,
};
use crate::json::{json_bytes, json_parsed};
use crate::outbound::{
    app_message_sent, command_handled, elapsed, group_target, leaving_handled, message_document, plain_text_is_said,
    tick_handled,
};
use crate::storage::PeerInfoView;
use crate::transfer::{
    accept_handled, file_goes_out, joined, lemma_file_so_far, offer_handled, opening_outcome, resumed, resuming_leaves_no_gap, FileOpening,
    Resume, Sending,
};
use crate::turn::{asks, ends, frame_of, quiet_turn, tells, NextView, SendTask, TurnView};
use vstd::prelude::*;
use vstd::utf8::encode_utf8;

verus! {

/// Whether two clients are in one session, and `receiver` can read what `sender` sends next:
/// it has not fallen behind too far, and the index of the next message is no sentinel.
pub open spec fn connected(sender: ClientView, receiver: ClientView) -> bool {
    &&& sender.crypto.session is Some
    &&& receiver.crypto.session is Some
    &&& in_step(sender.crypto.session->0, receiver.crypto.session->0)
    &&& in_step(receiver.crypto.session->0, sender.crypto.session->0)
    &&& sender.selected_compression == receiver.selected_compression
    &&& sender.crypto.session->0.ratchet_send + 1 < NO_RATCHET
    &&& sender.crypto.session->0.ratchet_send + 1 - receiver.crypto.session->0.ratchet_recv <= MAX_RATCHET_STEPS
}

/// The index of the message that a client sends next.
pub open spec fn next_index(sender: ClientView) -> u32 {
    sender.crypto.session->0.after_send().ratchet_send
}

/// What one client sends, the other reads: the same type and the same payload. After that they
/// are still in step.
pub proof fn message_arrives(
    sender: ClientView,
    after: ClientView,
    receiver: ClientView,
    msg_type: u8,
    payload: Seq<u8>,
    frame: Seq<u8>,
)
    requires
        connected(sender, receiver),
        sent(sender, after, msg_type, payload, Ok(frame)),
    ensures
        ({
            let index = next_index(sender);
            let packed = sender.packed(plaintext_of(msg_type, payload));
            let read = receiver.after_receive(index);
            &&& received(receiver, frame) == Ok::<Received, ErrorView>(Received::Packed { index, packed })
            &&& receiver.unpacked(packed) == Ok::<Seq<u8>, Seq<char>>(plaintext_of(msg_type, payload))
            &&& parts_of(plaintext_of(msg_type, payload)) == Ok::<(u8, Seq<u8>), ErrorView>((msg_type, payload))
            &&& in_step(after.crypto.session->0, read.crypto.session->0)
            &&& in_step(read.crypto.session->0, after.crypto.session->0)
        }),
{
    let packed = sender.packed(plaintext_of(msg_type, payload));
    let data = frame.skip(8);
    let s = sender.crypto.session->0;
    let r = receiver.crypto.session->0;
    frame_reads_back(next_index(sender), data);
    message_reaches_peer(s, r, data, packed);
    assert(decrypted(receiver, next_index(sender), data) == Ok::<Seq<u8>, ErrorView>(packed));
    assert(plaintext_of(msg_type, payload).skip(1) =~= payload);
}

/// What one client sends, the other reads once: what stands behind the length of the frame gives
/// the same type and the same payload, and is refused from then on.
pub proof fn message_is_read_once(
    sender: ClientView,
    after: ClientView,
    receiver: ClientView,
    msg_type: u8,
    payload: Seq<u8>,
    frame: Seq<u8>,
)
    requires
        connected(sender, receiver),
        sent(sender, after, msg_type, payload, Ok(frame)),
    ensures
        ({
            let message = frame.skip(4);
            let read = after_reading(receiver, message);
            &&& read_message(receiver, message) == Ok::<(u8, Seq<u8>), ErrorView>((msg_type, payload))
            &&& read == receiver.after_receive(next_index(sender))
            &&& read_message(read, message) == Err::<(u8, Seq<u8>), ErrorView>(
                Fault::Crypto(CryptoError::StaleRatchetIndex),
            )
            &&& after_reading(read, message) == read
        }),
{
    let index = next_index(sender);
    let data = frame.skip(8);
    let message = frame.skip(4);
    message_arrives(sender, after, receiver, msg_type, payload, frame);
    frame_reads_back(index, data);
    be32_reads_back(index);
    assert(message.take(4) =~= be32(index));
    assert(message.skip(4) =~= data);
    replay_is_refused(receiver.crypto.session->0, index, data, index);
}

/// Two nodes that open a session with each other's packets can each read what the other sends.
pub proof fn opened_session_connects(
    initiator: ClientView,
    responder: ClientView,
    from_initiator: PacketView,
    from_responder: PacketView,
    initiator_trusts: Map<Seq<char>, PeerInfoView>,
    responder_trusts: Map<Seq<char>, PeerInfoView>,
    words: WordLists,
)
    requires
        initiator.crypto.wf(),
        responder.crypto.wf(),
        initiator.crypto.ephemeral_secret is Some,
        responder.crypto.ephemeral_secret is Some,
        speaks_for(from_initiator, initiator.crypto),
        speaks_for(from_responder, responder.crypto),
        trusts(initiator_trusts, responder.crypto.static_public()),
        trusts(responder_trusts, initiator.crypto.static_public()),
    ensures
        ({
            let i = handshake_outcome(
                initiator,
                from_responder,
                true,
                initiator_trusts,
                Some(node_id_of(responder.crypto.static_public())),
                words,
            ).client;
            let r = handshake_outcome(responder, from_initiator, false, responder_trusts, None, words).client;
            &&& connected(i, r)
            &&& connected(r, i)
        }),
{
    handshake_opens_session(
        initiator,
        responder,
        from_initiator,
        from_responder,
        initiator_trusts,
        responder_trusts,
        words,
    );
}

/// The user of the one client gets what the user of the other wrote, from the peer, with the
/// time that it is to be kept, where both let messages vanish.
pub proof fn text_arrives(
    sender: ClientView,
    sender_after: ClientView,
    receiver: ClientView,
    receiver_after: ClientView,
    target: String,
    text: String,
    ttl: Option<u64>,
    frame: Seq<u8>,
    silently: bool,
    turn: TurnView,
)
    requires
        connected(sender, receiver),
        app_message_sent(
            sender,
            sender_after,
            OutboundMessage::Message { target, text, ttl },
            Ok(Some(frame)),
        ),
        frame_handled(receiver, receiver_after, frame, silently, turn),
    ensures
        (Outcome { client: receiver_after, turn }) == (Outcome {
            client: receiver.after_receive(next_index(sender)),
            turn: tells(
                seq![
                    EventView::Message {
                        from: receiver.peer_name(),
                        text: text@,
                        is_system: false,
                        ttl: if sender.messages_vanish() {
                            ttl
                        } else {
                            None
                        },
                        group: if target@ == group_target() {
                            Some("Lobby"@)
                        } else {
                            None
                        },
                    },
                ],
            ),
        }),
{
    let kept = if sender.messages_vanish() {
        ttl
    } else {
        None
    };
    let doc = message_document(sender, target@, text@, ttl);
    message_arrives(sender, sender_after, receiver, APP_MESSAGE, json_bytes(doc), frame);
    message_doc_says(text@, target@ == group_target(), kept);
}

/// The user of the one client is told how long the messages of the other are kept.
pub proof fn ttl_notice_arrives(
    sender: ClientView,
    sender_after: ClientView,
    receiver: ClientView,
    receiver_after: ClientView,
    target: String,
    ttl: Option<u64>,
    frame: Seq<u8>,
    silently: bool,
    turn: TurnView,
)
    requires
        connected(sender, receiver),
        app_message_sent(sender, sender_after, OutboundMessage::TTLNotice { target, ttl }, Ok(Some(frame))),
        frame_handled(receiver, receiver_after, frame, silently, turn),
    ensures
        sender.messages_vanish(),
        (Outcome { client: receiver_after, turn }) == (Outcome {
            client: receiver.after_receive(next_index(sender)),
            turn: tells(seq![system_event(ttl_notice_text(ttl))]),
        }),
{
    message_arrives(sender, sender_after, receiver, EXTENSION_DATA, json_bytes(ttl_notice_doc(ttl)), frame);
    ttl_notice_doc_says(ttl);
}

/// The offer that the one client sends is the one that waits for the user of the other.
pub proof fn offer_arrives(
    sender: ClientView,
    sender_after: ClientView,
    receiver: ClientView,
    receiver_after: ClientView,
    offer: OfferView,
    frame: Seq<u8>,
    silently: bool,
    turn: TurnView,
)
    requires
        connected(sender, receiver),
        reads_back(file_offer_doc(offer)),
        sent(sender, sender_after, EXTENSION_DATA, json_bytes(file_offer_doc(offer)), Ok(frame)),
        frame_handled(receiver, receiver_after, frame, silently, turn),
    ensures
        (Outcome { client: receiver_after, turn }) == (Outcome {
            client: ClientView {
                pending_recv_offer: Some(offer),
                ..receiver.after_receive(next_index(sender))
            },
            turn: tells(offer_events(offer)),
        }),
{
    message_arrives(sender, sender_after, receiver, EXTENSION_DATA, json_bytes(file_offer_doc(offer)), frame);
    file_offer_doc_says(offer);
}

/// A node that offered a file and gets the acceptance sends the file from the offset on that
/// the acceptance names.
pub proof fn acceptance_arrives(
    sender: ClientView,
    sender_after: ClientView,
    receiver: ClientView,
    receiver_after: ClientView,
    merkle_root: Seq<char>,
    start_offset: u64,
    frame: Seq<u8>,
    silently: bool,
    turn: TurnView,
)
    requires
        connected(sender, receiver),
        reads_back(file_accept_doc(merkle_root, Some(start_offset))),
        sent(
            sender,
            sender_after,
            EXTENSION_DATA,
            json_bytes(file_accept_doc(merkle_root, Some(start_offset))),
            Ok(frame),
        ),
        receiver.pending_send_file is Some,
        frame_handled(receiver, receiver_after, frame, silently, turn),
    ensures
        ({
            let (path, key, file_name) = receiver.pending_send_file->0;
            (Outcome { client: receiver_after, turn }) == (Outcome {
                client: ClientView {
                    pending_send_file: None,
                    ..receiver.after_receive(next_index(sender))
                },
                turn: quiet_turn(
                    seq![system_event(accepted_text(file_name, start_offset))],
                    NextView::OpenFile { path, key, file_name, start_offset },
                    None,
                ),
            })
        }),
{
    message_arrives(
        sender,
        sender_after,
        receiver,
        EXTENSION_DATA,
        json_bytes(file_accept_doc(merkle_root, Some(start_offset))),
        frame,
    );
    file_accept_doc_says(merkle_root, Some(start_offset));
}

/// A node that offered a file and gets the refusal drops the offer.
pub proof fn refusal_arrives(
    sender: ClientView,
    sender_after: ClientView,
    receiver: ClientView,
    receiver_after: ClientView,
    merkle_root: Seq<char>,
    frame: Seq<u8>,
    silently: bool,
    turn: TurnView,
)
    requires
        connected(sender, receiver),
        reads_back(file_decline_doc(merkle_root)),
        sent(sender, sender_after, EXTENSION_DATA, json_bytes(file_decline_doc(merkle_root)), Ok(frame)),
        receiver.pending_send_file is Some,
        frame_handled(receiver, receiver_after, frame, silently, turn),
    ensures
        ({
            let (path, key, file_name) = receiver.pending_send_file->0;
            (Outcome { client: receiver_after, turn }) == (Outcome {
                client: ClientView {
                    pending_send_file: None,
                    ..receiver.after_receive(next_index(sender))
                },
                turn: tells(seq![system_event("Peer declined file transfer of: "@ + file_name)]),
            })
        }),
{
    message_arrives(
        sender,
        sender_after,
        receiver,
        EXTENSION_DATA,
        json_bytes(file_decline_doc(merkle_root)),
        frame,
    );
    file_decline_doc_says(merkle_root);
}

/// A ping is answered with a pong.
pub proof fn ping_is_answered(
    sender: ClientView,
    sender_after: ClientView,
    receiver: ClientView,
    receiver_after: ClientView,
    frame: Seq<u8>,
    silently: bool,
    turn: TurnView,
)
    requires
        connected(sender, receiver),
        sent(sender, sender_after, CONTROL_FRAME, seq![CTRL_PING], Ok(frame)),
        frame_handled(receiver, receiver_after, frame, silently, turn),
    ensures
        sent(
            receiver.after_receive(next_index(sender)),
            receiver_after,
            CONTROL_FRAME,
            seq![CTRL_PONG],
            frame_of(turn),
        ),
{
    message_arrives(sender, sender_after, receiver, CONTROL_FRAME, seq![CTRL_PING], frame);
}

/// A pong is the answer that was waited for.
pub proof fn pong_arrives(
    sender: ClientView,
    sender_after: ClientView,
    receiver: ClientView,
    receiver_after: ClientView,
    frame: Seq<u8>,
    silently: bool,
    turn: TurnView,
)
    requires
        connected(sender, receiver),
        sent(sender, sender_after, CONTROL_FRAME, seq![CTRL_PONG], Ok(frame)),
        frame_handled(receiver, receiver_after, frame, silently, turn),
    ensures
        (Outcome { client: receiver_after, turn }) == (Outcome {
            client: ClientView { pending_pong: false, ..receiver.after_receive(next_index(sender)) },
            turn: tells(seq![]),
        }),
{
    message_arrives(sender, sender_after, receiver, CONTROL_FRAME, seq![CTRL_PONG], frame);
}

/// A goodbye ends the session, and is not answered with another.
pub proof fn goodbye_arrives(
    sender: ClientView,
    sender_after: ClientView,
    receiver: ClientView,
    receiver_after: ClientView,
    frame: Seq<u8>,
    silently: bool,
    turn: TurnView,
)
    requires
        connected(sender, receiver),
        sent(sender, sender_after, CONTROL_FRAME, seq![CTRL_BYE], Ok(frame)),
        frame_handled(receiver, receiver_after, frame, silently, turn),
    ensures
        (Outcome { client: receiver_after, turn }) == (Outcome {
            client: ClientView { send_bye: false, ..receiver.after_receive(next_index(sender)) },
            turn: ends(Fault::PeerLeft),
        }),
{
    message_arrives(sender, sender_after, receiver, CONTROL_FRAME, seq![CTRL_BYE], frame);
}

/// A client that leaves says goodbye, and its peer leaves without another.
pub proof fn goodbye_is_said_once(
    sender: ClientView,
    sender_after: ClientView,
    said: TurnView,
    receiver: ClientView,
    receiver_after: ClientView,
    silently: bool,
    turn: TurnView,
    receiver_gone: ClientView,
    last: TurnView,
)
    requires
        connected(sender, receiver),
        sender.send_bye,
        leaving_handled(sender, sender_after, said),
        said.end is None,
        frame_handled(receiver, receiver_after, said.frame->0, silently, turn),
        leaving_handled(receiver_after, receiver_gone, last),
    ensures
        said.frame is Some,
        turn == ends(Fault::PeerLeft),
        receiver_gone == receiver_after,
        last == tells(seq![]),
{
    goodbye_arrives(sender, sender_after, receiver, receiver_after, said.frame->0, silently, turn);
}

/// A client whose peer is silent for too long leaves without a goodbye.
pub proof fn silence_gets_no_goodbye(
    before: ClientView,
    after: ClientView,
    now: u64,
    turn: TurnView,
    gone: ClientView,
    last: TurnView,
)
    requires
        tick_handled(before, after, now, turn),
        turn.end == Some(ErrorView::TimedOut),
        leaving_handled(after, gone, last),
    ensures
        gone == after,
        last == tells(seq![]),
{
}

/// A chunk of a file arrives as it was sent, at a node with the key of the file, unless what
/// is encrypted happens to be a JSON text.
pub proof fn chunk_arrives(
    sender: ClientView,
    receiver: ClientView,
    receiver_after: ClientView,
    chunk: Seq<u8>,
    frame: Seq<u8>,
    silently: bool,
    turn: TurnView,
)
    requires
        sender.crypto.session is Some,
        receiver.crypto.session is Some,
        sender.crypto.session->0.topic_id == receiver.crypto.session->0.topic_id,
        receiver.receiving_file is Some,
        receiver.receiving_key is Some,
        chunk_sent(sender, receiver.receiving_key->0, chunk, Ok(frame)),
        json_parsed(frame.skip(8)) is Err,
        frame_handled(receiver, receiver_after, frame, silently, turn),
    ensures
        ({
            let (file_name, size) = receiver.receiving_file->0;
            &&& receiver_after == ClientView { receiving_file: None, ..receiver }
            &&& turn == asks(NextView::WriteChunk { data: chunk, file_name, size })
        }),
{
    let data = frame.skip(8);
    frame_reads_back(NO_RATCHET, data);
    assert(plaintext_of(EXTENSION_DATA, chunk).skip(1) =~= chunk);
}

/// A file is complete exactly when as many bytes were written as it has, and the user is told
/// how many there are so far.
pub proof fn file_completes(client: ClientView, len: nat, file_name: Seq<char>, size: u64)
    requires
        client.receiving_bytes_seen + len <= u64::MAX,
        client.receiving_file is None,
    ensures
        ({
            let outcome = written_outcome(client, len, file_name, size);
            &&& outcome.client.receiving_bytes_seen == client.receiving_bytes_seen + len
            &&& outcome.client.receiving_file is None <==> client.receiving_bytes_seen + len >= size
            &&& outcome.turn.events[0] == EventView::FileProgress {
                peer_id: client.peer_name(),
                file_name,
                total_size: size,
                bytes_transferred: outcome.client.receiving_bytes_seen,
                is_sending: false,
            }
        }),
{
}

/// How many bytes some chunks have.
pub open spec fn total_len(lens: Seq<nat>) -> nat
    decreases lens.len(),
{
    if lens.len() == 0 {
        0
    } else {
        total_len(lens.drop_last()) + lens.last()
    }
}

/// A client that receives a file, after chunks of the given lengths arrived and were written.
pub open spec fn after_chunks(client: ClientView, lens: Seq<nat>, file_name: Seq<char>, size: u64) -> ClientView
    decreases lens.len(),
{
    if lens.len() == 0 {
        client
    } else {
        let before = after_chunks(client, lens.drop_last(), file_name, size);
        written_outcome(ClientView { receiving_file: None, ..before }, lens.last(), file_name, size).client
    }
}

/// However a file is cut into chunks, it is complete once they have all of its bytes that were
/// missing, and not before.
pub proof fn chunks_add_up(client: ClientView, lens: Seq<nat>, file_name: Seq<char>, size: u64)
    requires
        client.receiving_file == Some((file_name, size)),
        client.receiving_bytes_seen < size,
        client.receiving_bytes_seen + total_len(lens) <= u64::MAX,
    ensures
        ({
            let after = after_chunks(client, lens, file_name, size);
            &&& after.receiving_bytes_seen == client.receiving_bytes_seen + total_len(lens)
            &&& after.receiving_file is None <==> client.receiving_bytes_seen + total_len(lens) >= size
            &&& after.receiving_file is Some ==> after.receiving_file == Some((file_name, size))
        }),
    decreases lens.len(),
{
    if lens.len() > 0 {
        chunks_add_up(client, lens.drop_last(), file_name, size);
    }
}

/// The calls that receive a file: the client before and after each chunk, once it had read the
/// frame, and what it wanted done with it.
pub ghost struct Receiving {
    pub clients: Seq<ClientView>,
    pub readers: Seq<ClientView>,
    pub turns: Seq<TurnView>,
}

impl Receiving {
    /// Whether the client reads the frame `i` of a file, and the chunk is written if the client
    /// wants it written. What is encrypted does not happen to be a JSON text.
    pub open spec fn chunk(self, sending: Sending, file_name: Seq<char>, size: u64, silently: bool, i: int) -> bool {
        let frame = sending.turns[i].frame->0;
        &&& json_parsed(frame.skip(8)) is Err
        &&& frame_handled(self.clients[i], self.readers[i], frame, silently, self.turns[i])
        &&& self.turns[i].next matches NextView::WriteChunk { data, .. } ==> self.clients[i + 1] == written_outcome(
            self.readers[i],
            data.len(),
            file_name,
            size,
        ).client
    }

    /// Whether the client reads all frames of a file.
    pub open spec fn follows(self, sending: Sending, file_name: Seq<char>, size: u64, silently: bool) -> bool {
        &&& self.clients.len() == sending.reads.len()
        &&& self.readers.len() == self.turns.len() == sending.reads.len() - 1
        &&& forall|i: int|
            0 <= i < self.turns.len() ==> #[trigger] self.chunk(sending, file_name, size, silently, i)
    }
}

proof fn lemma_receiving(
    content: Seq<u8>,
    key: Seq<u8>,
    start: u64,
    file_name: Seq<char>,
    sending: Sending,
    receiving: Receiving,
    silently: bool,
    n: int,
)
    requires
        start < content.len() <= u64::MAX,
        sending.runs(content, start),
        sending.until_none_is_sent(),
        sending.clients[0].active_send_file matches Some((k, _, done, _)) && k == key && done == start,
        receiving.follows(sending, file_name, content.len() as u64, silently),
        sending.clients[0].crypto.session is Some,
        receiving.clients[0].crypto.session is Some,
        sending.clients[0].crypto.session->0.topic_id == receiving.clients[0].crypto.session->0.topic_id,
        receiving.clients[0].receiving_file == Some((file_name, content.len() as u64)),
        receiving.clients[0].receiving_key == Some(key),
        receiving.clients[0].receiving_bytes_seen == start,
        0 <= n < sending.reads.len(),
    ensures
        forall|i: int|
            0 <= i < n ==> #[trigger] receiving.turns[i] == asks(
                NextView::WriteChunk { data: sending.reads[i], file_name, size: content.len() as u64 },
            ),
        start + sending.read_before(n).len() <= content.len(),
        receiving.clients[n].crypto == receiving.clients[0].crypto,
        receiving.clients[n].receiving_bytes_seen == start + sending.read_before(n).len(),
        start + sending.read_before(n).len() < content.len() ==> {
            &&& receiving.clients[n].receiving_file == Some((file_name, content.len() as u64))
            &&& receiving.clients[n].receiving_key == Some(key)
        },
        start + sending.read_before(n).len() == content.len() ==> receiving.clients[n].receiving_file is None,
    decreases n,
{
    let (_, total, _, name) = sending.clients[0].active_send_file->0;
    let size = content.len() as u64;
    if n == 0 {
        assert(sending.reads.take(0) =~= seq![]);
    } else {
        let i = n - 1;
        lemma_receiving(content, key, start, file_name, sending, receiving, silently, i);
        lemma_file_so_far(content, key, total, start, name, sending, i);
        let data = sending.reads[i];
        let frame = sending.turns[i].frame->0;
        assert(receiving.chunk(sending, file_name, size, silently, i));
        chunk_arrives(
            sending.clients[i],
            receiving.clients[i],
            receiving.readers[i],
            data,
            frame,
            silently,
            receiving.turns[i],
        );
        assert(receiving.clients[n] == written_outcome(receiving.readers[i], data.len(), file_name, size).client);
    }
}

/// A file arrives whole: what the one client sends until nothing is left of the file, from where
/// the other has it, the other wants written, chunk for chunk; and it has the file complete with
/// the last chunk and not before.
pub proof fn file_arrives(
    content: Seq<u8>,
    key: Seq<u8>,
    start: u64,
    file_name: Seq<char>,
    sending: Sending,
    receiving: Receiving,
    silently: bool,
)
    requires
        start < content.len() <= u64::MAX,
        sending.runs(content, start),
        sending.until_none_is_sent(),
        sending.clients[0].active_send_file matches Some((k, _, done, _)) && k == key && done == start,
        receiving.follows(sending, file_name, content.len() as u64, silently),
        sending.clients[0].crypto.session is Some,
        receiving.clients[0].crypto.session is Some,
        sending.clients[0].crypto.session->0.topic_id == receiving.clients[0].crypto.session->0.topic_id,
        receiving.clients[0].receiving_file == Some((file_name, content.len() as u64)),
        receiving.clients[0].receiving_key == Some(key),
        receiving.clients[0].receiving_bytes_seen == start,
    ensures
        joined(sending.reads.drop_last()) == content.skip(start as int),
        forall|i: int|
            0 <= i < receiving.turns.len() ==> #[trigger] receiving.turns[i] == asks(
                NextView::WriteChunk { data: sending.reads[i], file_name, size: content.len() as u64 },
            ),
        forall|i: int|
            0 <= i < receiving.clients.len() - 1 ==> (#[trigger] receiving.clients[i]).receiving_file is Some,
        receiving.clients.last().receiving_file is None,
        receiving.clients.last().receiving_bytes_seen == content.len(),
{
    let (_, total, _, name) = sending.clients[0].active_send_file->0;
    let last = sending.reads.len() - 1;
    file_goes_out(content, key, total, start, name, sending);
    lemma_receiving(content, key, start, file_name, sending, receiving, silently, last);
    assert(sending.reads.drop_last() =~= sending.reads.take(last));
    assert(content.skip(start as int).len() == content.len() - start);
    assert forall|i: int| 0 <= i < receiving.clients.len() - 1 implies (#[trigger] receiving.clients[i]).receiving_file
        is Some by {
        lemma_receiving(content, key, start, file_name, sending, receiving, silently, i);
        lemma_file_so_far(content, key, total, start, name, sending, i);
    }
}

/// A ping that is not answered ends the session once the timeout is over, and not before.
pub proof fn silence_ends_session(before: ClientView, after: ClientView, now: u64, turn: TurnView)
    requires
        before.pending_pong,
        tick_handled(before, after, now, turn),
    ensures
        turn.end == Some(ErrorView::TimedOut) <==> elapsed(now, before.last_ping) >= KEEP_ALIVE_TIMEOUT,
        turn.end is Some ==> !after.send_bye,
        turn.end is None ==> after == before,
{
}

/// A file of which a part is there becomes whole: the node that has the part accepts the rest, the
/// other opens the file where it was asked to and sends it to its end, and the part with what was
/// sent behind it is the file.
pub proof fn part_and_rest_are_the_file(
    content: Seq<u8>,
    local: u64,
    offset: u64,
    offer: OfferView,
    receiver: ClientView,
    receiver_after: ClientView,
    place: Seq<char>,
    acceptance: TurnView,
    sender: ClientView,
    sender_after: ClientView,
    silently: bool,
    turn: TurnView,
    task: SendTask,
    total_size: u64,
    sending: Sending,
)
    requires
        local < content.len() <= u64::MAX,
        offer.size == content.len(),
        resumed(offer.size, Some(local)) == Resume::From(offset),
        accept_handled(receiver, receiver_after, offer, place, offset, acceptance),
        acceptance.frame is Some,
        connected(receiver, sender),
        sender.pending_send_file is Some,
        frame_handled(sender, sender_after, acceptance.frame->0, silently, turn),
        turn.next == (NextView::OpenFile {
            path: task.path@,
            key: task.key@,
            file_name: task.file_name@,
            start_offset: task.start_offset,
        }),
        sending.clients[0] == opening_outcome(sender_after, task, FileOpening::Opened { total_size }).client,
        sending.runs(content, task.start_offset),
        sending.until_none_is_sent(),
    ensures
        receiver_after.receiving_bytes_seen == local,
        content.take(local as int) + joined(sending.reads.drop_last()) == content,
{
    let session = receiver.crypto.session->0;
    let receiving = ClientView {
        receiving_file: Some((offer.file_name, offer.size)),
        receiving_key: Some(file_key(encode_utf8(offer.merkle_root), session.topic_id)),
        receiving_bytes_seen: offset,
        ..receiver
    };
    acceptance_arrives(
        receiving,
        receiver_after,
        sender,
        sender_after,
        offer.merkle_root,
        offset,
        acceptance.frame->0,
        silently,
        turn,
    );
    resuming_leaves_no_gap(content, local);
    assert((content.take(local as int) + content.skip(offset as int)).len() == content.len());
    assert(offset == local);
    file_goes_out(content, task.key@, total_size, offset, task.file_name@, sending);
}

/// What the user types is what the user of the other client reads, where it is no command: the
/// same text, from the peer, with the time that it is to be kept where both let messages vanish.
pub proof fn typed_text_arrives(
    sender: ClientView,
    sender_after: ClientView,
    target: String,
    text: String,
    ttl: Option<u64>,
    said: TurnView,
    receiver: ClientView,
    receiver_after: ClientView,
    silently: bool,
    turn: TurnView,
)
    requires
        connected(sender, receiver),
        text@.len() == 0 || text@[0] != '/',
        command_handled(sender, sender_after, target, text, ttl, said),
        said.frame is Some,
        frame_handled(receiver, receiver_after, said.frame->0, silently, turn),
    ensures
        turn.events == seq![
            EventView::Message {
                from: receiver.peer_name(),
                text: text@,
                is_system: false,
                ttl: if sender.active_extensions.contains("vanishing_ink:v1"@) {
                    ttl
                } else {
                    None
                },
                group: if target@ == "__group__"@ {
                    Some("Lobby"@)
                } else {
                    None
                },
            },
        ],
        turn.frame is None && turn.end is None && turn.next == NextView::Nothing,
        receiver_after == receiver.after_receive(next_index(sender)),
{
    plain_text_is_said(sender, sender_after, target, text, ttl, said);
    text_arrives(
        sender,
        sender_after,
        receiver,
        receiver_after,
        target,
        text,
        ttl,
        said.frame->0,
        silently,
        turn,
    );
}

/// The file that one user offers waits for the other user's answer, with the name, the size and
/// the root that it has.
pub proof fn offered_file_waits(
    sender: ClientView,
    sender_after: ClientView,
    path: Seq<char>,
    offer: OfferView,
    offered: TurnView,
    receiver: ClientView,
    receiver_after: ClientView,
    silently: bool,
    turn: TurnView,
)
    requires
        connected(sender, receiver),
        offer_handled(sender, sender_after, path, offer, offered),
        offered.frame is Some,
        frame_handled(receiver, receiver_after, offered.frame->0, silently, turn),
    ensures
        receiver_after.pending_recv_offer == Some(offer),
        receiver_after == (ClientView {
            pending_recv_offer: Some(offer),
            ..receiver.after_receive(next_index(sender))
        }),
        turn.frame is None && turn.end is None && turn.next == NextView::Nothing,
{
    let encrypted = ClientView { pending_send_file: sender.pending_send_file, ..sender_after };
    offer_arrives(sender, encrypted, receiver, receiver_after, offer, offered.frame->0, silently, turn);
}

/// The file that one user refuses the other no longer offers, and is told so.
pub proof fn refused_file_is_dropped(
    sender: ClientView,
    sender_after: ClientView,
    target: String,
    text: String,
    ttl: Option<u64>,
    refused: TurnView,
    receiver: ClientView,
    receiver_after: ClientView,
    silently: bool,
    turn: TurnView,
)
    requires
        connected(sender, receiver),
        text@ == "/decline"@,
        sender.pending_recv_offer is Some,
        command_handled(sender, sender_after, target, text, ttl, refused),
        refused.frame is Some,
        receiver.pending_send_file is Some,
        frame_handled(receiver, receiver_after, refused.frame->0, silently, turn),
    ensures
        sender_after.pending_recv_offer is None,
        receiver_after.pending_send_file is None,
        receiver.pending_send_file matches Some((_, _, file_name)) ==> turn.events == seq![
            system_event("Peer declined file transfer of: "@ + file_name),
        ],
        turn.frame is None && turn.end is None && turn.next == NextView::Nothing,
{
    reveal_strlit("/accept");
    reveal_strlit("/send ");
    reveal_strlit("/save_dir");
    reveal_strlit("/save_dir ");
    reveal_strlit("/decline");
    assert(text@[1] == 'd');
    assert("/send "@.is_prefix_of(text@) ==> text@.subrange(0, 6)[1] == text@[1]);
    assert("/save_dir "@.is_prefix_of(text@) ==> text@.subrange(0, 10)[1] == text@[1]);
    assert("/accept"@.is_prefix_of(text@) ==> text@.subrange(0, 7)[1] == text@[1]);
    let offer = sender.pending_recv_offer->0;
    let rest = ClientView { pending_recv_offer: None, ..sender };
    refusal_arrives(
        rest,
        sender_after,
        receiver,
        receiver_after,
        offer.merkle_root,
        refused.frame->0,
        silently,
        turn,
    );
}

}
