//! Files: offering, accepting, sending and receiving them.
use crate::client::{
    chunk_sent, client_error_text, frame_view, sent, sys_msg, system_event, ClientError, ClientView, ErrorView, EventView, Fault,
    FileOffer, OfferView, PatronusClient, UiEvent, CHUNK_LEN, EXTENSION_DATA,
};
use crate::crypto::{crypto_error_text, file_key, CryptoError};
use crate::documents::{file_accept_doc, file_offer_doc, reads_back};
use crate::incoming::{chain_left, Outcome};
use crate::json::{json_bytes, JsonTree};
use crate::primitives::{blake3_finish, blake3_hex, blake3_input, blake3_new, blake3_update};
use crate::text::{decimal, decimal_text, text2, text3, text5};
use crate::turn::{
    add_event, encrypted_in, ends, make_ends, make_quiet, make_tells, no_events, one_event, quiet_turn, tells, Next, NextView,
    SendTask, Turn, TurnView, Unsent,
};
use vstd::prelude::*;
use vstd::string::*;
use vstd::utf8::encode_utf8;

verus! {

/// What the user is told when a file was offered.
pub open spec fn offered_text(offer: OfferView) -> Seq<char> {
    "Offered file: "@ + offer.file_name + " ("@ + decimal(offer.size as nat)
        + " bytes). Waiting for peer to accept/decline..."@
}

/// What comes of an offer of a file, once it was encrypted or could not be: it is kept in mind,
/// under the key of the file, or the user is told why not.
pub open spec fn offer_outcome(
    client: ClientView,
    path: Seq<char>,
    offer: OfferView,
    res: Result<Seq<u8>, ErrorView>,
) -> Outcome {
    match res {
        Ok(frame) => Outcome {
            client: ClientView {
                pending_send_file: Some(
                    (
                        path,
                        file_key(encode_utf8(offer.merkle_root), client.crypto.session->0.topic_id),
                        offer.file_name,
                    ),
                ),
                ..client
            },
            turn: TurnView {
                events: seq![],
                frame: Some(frame),
                later_events: seq![system_event(offered_text(offer))],
                unsent: Unsent::OfferFails,
                next: NextView::Nothing,
                end: None,
            },
        },
        Err(e) => Outcome {
            client,
            turn: tells(seq![system_event("Failed to send file offer: "@ + client_error_text(e))]),
        },
    }
}

/// What the client wants done about the acceptance of a file, once it was encrypted or could not
/// be.
pub open spec fn acceptance_turn(path: Seq<char>, res: Result<Seq<u8>, ErrorView>) -> TurnView {
    let accepting = system_event(accepting_text(path));
    match res {
        Ok(frame) => TurnView {
            events: seq![accepting],
            frame: Some(frame),
            later_events: seq![],
            unsent: Unsent::AcceptFails,
            next: NextView::Nothing,
            end: None,
        },
        Err(e) => tells(seq![accepting, system_event("Failed to send acceptance: "@ + client_error_text(e))]),
    }
}

/// What comes of a file that is to be offered: the offer is sent and kept in mind.
pub open spec fn offer_handled(
    before: ClientView,
    after: ClientView,
    path: Seq<char>,
    offer: OfferView,
    turn: TurnView,
) -> bool {
    let doc = file_offer_doc(offer);
    let encrypted = ClientView { pending_send_file: before.pending_send_file, ..after };
    &&& reads_back(doc)
    &&& sent(before, encrypted, EXTENSION_DATA, json_bytes(doc), encrypted_in(turn))
    &&& (Outcome { client: after, turn }) == offer_outcome(encrypted, path, offer, encrypted_in(turn))
}

/// What the user is told when a file was accepted.
pub open spec fn accepting_text(path: Seq<char>) -> Seq<char> {
    "Accepted file offer. Saving to: "@ + path + ". Waiting for peer to transmit..."@
}

/// What comes of an accepted file whose place is open: the file is received from the offset
/// on, and the peer is told.
pub open spec fn accept_handled(
    before: ClientView,
    after: ClientView,
    offer: OfferView,
    path: Seq<char>,
    start_offset: u64,
    turn: TurnView,
) -> bool {
    match before.crypto.session {
        None => {
            &&& after == ClientView { pending_recv_offer: Some(offer), ..before }
            &&& turn == tells(
                seq![
                    system_event(
                        "Key derivation failed: "@ + crypto_error_text(CryptoError::HandshakeNotCompleted),
                    ),
                ],
            )
        },
        Some(session) => {
            let receiving = ClientView {
                receiving_file: Some((offer.file_name, offer.size)),
                receiving_key: Some(file_key(encode_utf8(offer.merkle_root), session.topic_id)),
                receiving_bytes_seen: start_offset,
                ..before
            };
            let doc = file_accept_doc(offer.merkle_root, Some(start_offset));
            &&& reads_back(doc)
            &&& sent(receiving, after, EXTENSION_DATA, json_bytes(doc), encrypted_in(turn))
            &&& turn == acceptance_turn(path, encrypted_in(turn))
        },
    }
}

/// Where an accepted file goes.
#[derive(Debug)]
pub enum AcceptTarget {
    /// Into a directory, under the name that it was offered with.
    Inside { dir: String, file_name: String },
    /// To a path.
    At(String),
}

/// Where an accepted file goes, as a value.
pub ghost enum TargetView {
    Inside { dir: Seq<char>, file_name: Seq<char> },
    At(Seq<char>),
}

impl DeepView for AcceptTarget {
    type V = TargetView;

    open spec fn deep_view(&self) -> TargetView {
        match self {
            AcceptTarget::Inside { dir, file_name } => TargetView::Inside { dir: dir@, file_name: file_name@ },
            AcceptTarget::At(path) => TargetView::At(path@),
        }
    }
}

/// Where an accepted file goes: into the directory for files, unless the user named a path;
/// into that, where it is a directory or is written like one.
pub open spec fn target_of(
    save_dir: Seq<char>,
    path: Seq<char>,
    is_dir: bool,
    file_name: Seq<char>,
) -> TargetView {
    if path.len() == 0 {
        TargetView::Inside { dir: save_dir, file_name }
    } else if is_dir || path.last() == '/' || path.last() == '\\' {
        TargetView::Inside { dir: path, file_name }
    } else {
        TargetView::At(path)
    }
}

/// How to go on with a file of which there may be a part.
#[derive(Clone, Copy, Debug, PartialEq, Eq, Structural)]
pub enum Resume {
    /// From an offset on. What is there from the start is written over.
    From(u64),
    /// Not at all: the file is complete.
    Complete,
}

/// How to go on with a file of `size` bytes of which `local` are there: behind a part of it;
/// not at all where it is complete; from the start where there is none of it, or more than
/// belongs there.
pub open spec fn resumed(size: u64, local: Option<u64>) -> Resume {
    match local {
        Some(len) => if len < size {
            Resume::From(len)
        } else if len == size {
            Resume::Complete
        } else {
            Resume::From(0)
        },
        None => Resume::From(0),
    }
}

/// What the user is told of a file of which there may be a part.
pub open spec fn resume_events(size: u64, local: Option<u64>) -> Seq<EventView> {
    match local {
        Some(len) => if len < size {
            seq![
                system_event(
                    "Found partial download of "@ + decimal(len as nat) + " bytes. Attempting to resume..."@,
                ),
            ]
        } else if len == size {
            seq![system_event("File already completely downloaded."@)]
        } else {
            seq![]
        },
        None => seq![],
    }
}

/// What went wrong with the place of an accepted file.
#[derive(Clone, Copy, Debug, PartialEq, Eq, Structural)]
pub enum PlaceError {
    Parents,
    Open,
    Seek,
}

/// What the user is told of what went wrong.
pub open spec fn place_error_text(step: PlaceError, error: Seq<char>) -> Seq<char> {
    match step {
        PlaceError::Parents => "Failed to create parent directories: "@ + error,
        PlaceError::Open => "Failed to create destination file: "@ + error,
        PlaceError::Seek => "Failed to seek destination file: "@ + error,
    }
}

/// What came of opening a file that is to be sent.
#[derive(Debug)]
pub enum FileOpening {
    Opened { total_size: u64 },
    OpenFailed(String),
    SeekFailed(String),
}

/// What comes of opening a file that is to be sent.
pub open spec fn opening_outcome(client: ClientView, task: SendTask, opening: FileOpening) -> Outcome {
    match opening {
        FileOpening::Opened { total_size } => Outcome {
            client: ClientView {
                active_send_file: Some((task.key@, total_size, task.start_offset, task.file_name@)),
                ..client
            },
            turn: tells(seq![]),
        },
        FileOpening::OpenFailed(e) => Outcome {
            client,
            turn: tells(seq![system_event("Failed to open file for sending: "@ + e@)]),
        },
        FileOpening::SeekFailed(e) => Outcome {
            client,
            turn: tells(
                seq![
                    system_event(
                        "Failed to seek to offset "@ + decimal(task.start_offset as nat) + ": "@ + e@,
                    ),
                ],
            ),
        },
    }
}

/// What the user is told when a chunk of a file could not be sent.
pub open spec fn chunk_error_text(file_name: Seq<char>, error: Seq<char>) -> Seq<char> {
    "Error sending file chunk for "@ + file_name + ": "@ + error
}

/// What the user is told when a file was sent.
pub open spec fn finished_text(file_name: Seq<char>, size: nat) -> Seq<char> {
    "Finished sending "@ + file_name + " ("@ + decimal(size) + " bytes)"@
}

/// What reading a file gave, as a value.
pub open spec fn read_view(read: Result<Vec<u8>, String>) -> Result<Seq<u8>, Seq<char>> {
    match read {
        Ok(data) => Ok(data@),
        Err(e) => Err(e@),
    }
}

/// What comes of the next bytes of the file that is being sent: they are sent in a chunk; where
/// there are none left the file is done; where they could not be read the session ends.
pub open spec fn chunk_read_handled(
    before: ClientView,
    after: ClientView,
    read: Result<Seq<u8>, Seq<char>>,
    turn: TurnView,
) -> bool {
    match before.active_send_file {
        None => after == before && turn == tells(seq![]),
        Some((key, total, done, file_name)) => {
            let rest = ClientView { active_send_file: None, ..before };
            match read {
                Ok(data) => if data.len() == 0 {
                    after == rest && turn == tells(seq![system_event(finished_text(file_name, total as nat))])
                } else {
                    match turn.frame {
                        Some(frame) => {
                            let now_done = (done + data.len()) as u64;
                            let progress = EventView::FileProgress {
                                peer_id: before.peer_name(),
                                file_name,
                                total_size: total,
                                bytes_transferred: now_done,
                                is_sending: true,
                            };
                            &&& chunk_sent(before, key, data, Ok(frame))
                            &&& after == ClientView {
                                active_send_file: Some((key, total, now_done, file_name)),
                                ..before
                            }
                            &&& turn == TurnView {
                                events: seq![],
                                frame: Some(frame),
                                later_events: seq![progress],
                                unsent: Unsent::SendingFails,
                                next: NextView::Nothing,
                                end: None,
                            }
                        },
                        None => {
                            &&& turn.end is Some
                            &&& chunk_sent(before, key, data, Err(turn.end->0))
                            &&& after == rest
                            &&& turn == quiet_turn(
                                seq![
                                    system_event(chunk_error_text(file_name, client_error_text(turn.end->0))),
                                ],
                                NextView::Nothing,
                                turn.end,
                            )
                        },
                    }
                },
                Err(e) => {
                    &&& after == rest
                    &&& turn == quiet_turn(
                        seq![system_event(chunk_error_text(file_name, e))],
                        NextView::Nothing,
                        Some(Fault::ReadFailed(e)),
                    )
                },
            }
        },
    }
}

/// What comes of a frame that could not be written.
pub open spec fn unsent_outcome(client: ClientView, unsent: Unsent, error: Seq<char>) -> Outcome {
    match unsent {
        Unsent::Ends => Outcome { client, turn: ends(Fault::WriteFailed(error)) },
        Unsent::EndsSilently => Outcome {
            client: ClientView { send_bye: false, ..client },
            turn: ends(Fault::WriteFailed(error)),
        },
        Unsent::OfferFails => Outcome {
            client: ClientView { pending_send_file: None, ..client },
            turn: tells(seq![system_event("Failed to send file offer: "@ + error)]),
        },
        Unsent::AcceptFails => Outcome {
            client,
            turn: tells(seq![system_event("Failed to send acceptance: "@ + error)]),
        },
        Unsent::DeclineFails => Outcome {
            client,
            turn: tells(seq![system_event("Failed to send decline notice: "@ + error)]),
        },
        Unsent::SendingFails => match client.active_send_file {
            Some((_, _, _, file_name)) => Outcome {
                client: ClientView { active_send_file: None, ..client },
                turn: quiet_turn(
                    seq![system_event(chunk_error_text(file_name, error))],
                    NextView::Nothing,
                    Some(Fault::WriteFailed(error)),
                ),
            },
            None => Outcome { client, turn: ends(Fault::WriteFailed(error)) },
        },
        Unsent::TransmissionStops => Outcome {
            client,
            turn: tells(seq![system_event("Error sending file chunk: "@ + error)]),
        },
    }
}

/// A file that is sent in one go.
#[derive(Debug)]
pub struct Transmission {
    pub key: [u8; 32],
    pub file_name: String,
    pub total_size: u64,
    pub start_offset: u64,
    pub sent_bytes: u64,
}

/// What comes of sending the next bytes of a file that is sent in one go: a chunk and the count
/// of what was sent, or that they are too many for a chunk.
pub open spec fn transmitted(
    client: ClientView,
    before: Transmission,
    after: Transmission,
    data: Seq<u8>,
    turn: TurnView,
) -> bool {
    match turn.frame {
        Some(frame) => {
            let progress = EventView::FileProgress {
                peer_id: client.peer_name(),
                file_name: before.file_name@,
                total_size: before.total_size,
                bytes_transferred: (before.start_offset + before.sent_bytes + data.len()) as u64,
                is_sending: true,
            };
            &&& chunk_sent(client, before.key@, data, Ok(frame))
            &&& after == (Transmission { sent_bytes: (before.sent_bytes + data.len()) as u64, ..before })
            &&& turn == TurnView {
                events: seq![],
                frame: Some(frame),
                later_events: seq![progress],
                unsent: Unsent::TransmissionStops,
                next: NextView::Nothing,
                end: None,
            }
        },
        None => {
            &&& chunk_sent(client, before.key@, data, Err(Fault::ChunkTooLarge))
            &&& after == before
            &&& turn == tells(
                seq![system_event("Error sending file chunk: "@ + client_error_text(Fault::ChunkTooLarge))],
            )
        },
    }
}

/// What comes of the next read of a file that is sent in one go: bytes are sent; where there are
/// none, or they cannot be read, the user is told that the file was sent.
pub open spec fn transmission_read(
    client: ClientView,
    before: Transmission,
    after: Transmission,
    read: Result<Seq<u8>, Seq<char>>,
    turn: TurnView,
) -> bool {
    if read is Ok && read->Ok_0.len() > 0 {
        transmitted(client, before, after, read->Ok_0, turn)
    } else {
        &&& after == before
        &&& turn == tells(
            seq![
                system_event(
                    finished_text(before.file_name@, (before.start_offset + before.sent_bytes) as nat),
                ),
            ],
        )
    }
}

impl PatronusClient {
    /// Tells the user that there is no file to offer.
    pub fn file_missing(&self, path: &str) -> (res: Turn)
        ensures
            res.deep_view() == tells(seq![system_event("File not found: "@ + path@)]),
            res.deep_view() == tells(seq![system_event(missing_text(path@))]),
    {
        make_tells(one_event(sys_msg(text2("File not found: ", path))))
    }

    /// Offers a file to the peer.
    pub fn offer_file(&mut self, path: String, offer: FileOffer) -> (res: Turn)
        requires
            old(self)@.crypto.can_send(),
        ensures
            offer_handled(
                old(self)@,
                final(self)@,
                path@,
                offer.deep_view(),
                res.deep_view(),
            ),
    {
        let res = self.send_file_offer(&offer);
        let ghost encrypted = self@;
        let turn = self.offer_sent(path, offer, res);
        assert((ClientView { pending_send_file: old(self)@.pending_send_file, ..self@ }) == encrypted);
        turn
    }

    /// Keeps an offer in mind that was encrypted, or tells the user that it could not be.
    pub fn offer_sent(&mut self, path: String, offer: FileOffer, res: Result<Vec<u8>, ClientError>) -> (turn: Turn)
        requires
            old(self)@.crypto.session is Some,
        ensures
            (Outcome { client: final(self)@, turn: turn.deep_view() }) == offer_outcome(
                old(self)@,
                path@,
                offer.deep_view(),
                frame_view(res),
            ),
    {
        let frame = match res {
            Ok(frame) => frame,
            Err(e) => return make_tells(
                one_event(sys_msg(text2("Failed to send file offer: ", e.message().as_str()))),
            ),
        };
        let key: [u8; 32] = match self.crypto.derive_file_key(offer.merkle_root.as_str().as_bytes()) {
            Ok(key) => key,
            Err(e) => return make_ends(Fault::Crypto(e)),
        };
        let size = decimal_text(offer.size);
        let event = sys_msg(
            text5(
                "Offered file: ",
                offer.file_name.as_str(),
                " (",
                size.as_str(),
                " bytes). Waiting for peer to accept/decline...",
            ),
        );
        self.pending_send_file = Some((path, key, offer.file_name));
        Turn {
            events: no_events(),
            frame: Some(frame),
            later_events: one_event(event),
            unsent: Unsent::OfferFails,
            next: Next::Nothing,
            end: None,
        }
    }

    /// Saves files in another directory, unless it could not be created.
    pub fn save_dir_created(&mut self, path: String, error: Option<String>) -> (res: Turn)
        ensures
            (Outcome { client: final(self)@, turn: res.deep_view() }) == match error {
                None => Outcome {
                    client: ClientView { save_dir: path@, ..old(self)@ },
                    turn: tells(seq![system_event("Save directory set to: "@ + path@)]),
                },
                Some(e) => Outcome {
                    client: old(self)@,
                    turn: tells(seq![system_event("Failed to create/set save directory: "@ + e@)]),
                },
            },
            (Outcome { client: final(self)@, turn: res.deep_view() }) == save_dir_outcome(
                old(self)@,
                path@,
                error.deep_view(),
            ),
    {
        match error {
            None => {
                let event = sys_msg(text2("Save directory set to: ", path.as_str()));
                self.save_dir = path;
                make_tells(one_event(event))
            },
            Some(e) => make_tells(one_event(sys_msg(text2("Failed to create/set save directory: ", e.as_str())))),
        }
    }

    /// Tells where an accepted file goes. Whether the path is a directory is the caller's to
    /// find out.
    pub fn accept_target(&self, offer: &FileOffer, path: &str, is_dir: bool) -> (res: AcceptTarget)
        ensures
            res.deep_view() == target_of(self@.save_dir, path@, is_dir, offer.file_name@),
    {
        let len: usize = path.unicode_len();
        if len == 0 {
            return AcceptTarget::Inside { dir: self.save_dir.clone(), file_name: offer.file_name.clone() };
        }
        let last = path.get_char(len - 1);
        if is_dir || last == '/' || last == '\\' {
            AcceptTarget::Inside { dir: path.to_owned(), file_name: offer.file_name.clone() }
        } else {
            AcceptTarget::At(path.to_owned())
        }
    }

    /// Tells how to go on with a file of which a part may be there.
    pub fn resume(&self, offer: &FileOffer, local: Option<u64>) -> (res: (Resume, Turn))
        ensures
            res.0 == resumed(offer.size, local),
            res.1.deep_view() == tells(resume_events(offer.size, local)),
    {
        match local {
            Some(len) => if len < offer.size {
                let text = decimal_text(len);
                let event = sys_msg(
                    text3("Found partial download of ", text.as_str(), " bytes. Attempting to resume..."),
                );
                (Resume::From(len), make_tells(one_event(event)))
            } else if len == offer.size {
                (Resume::Complete, make_tells(one_event(sys_msg("File already completely downloaded.".to_owned()))))
            } else {
                (Resume::From(0), make_tells(no_events()))
            },
            None => (Resume::From(0), make_tells(no_events())),
        }
    }

    /// Keeps the offer of a file that there is no place for.
    pub fn accept_failed(&mut self, offer: FileOffer, step: PlaceError, error: &str) -> (res: Turn)
        ensures
            final(self)@ == (ClientView { pending_recv_offer: Some(offer.deep_view()), ..old(self)@ }),
            res.deep_view() == tells(seq![system_event(place_error_text(step, error@))]),
            (Outcome { client: final(self)@, turn: res.deep_view() }) == misplaced_outcome(
                old(self)@,
                offer.deep_view(),
                step,
                error@,
            ),
    {
        self.pending_recv_offer = Some(offer);
        let text = match step {
            PlaceError::Parents => text2("Failed to create parent directories: ", error),
            PlaceError::Open => text2("Failed to create destination file: ", error),
            PlaceError::Seek => text2("Failed to seek destination file: ", error),
        };
        make_tells(one_event(sys_msg(text)))
    }

    /// Receives an accepted file, whose place is open, from the offset on, and tells the peer.
    pub fn accept_file(&mut self, offer: FileOffer, path: &str, start_offset: u64) -> (res: Turn)
        requires
            chain_left(old(self)@),
        ensures
            accept_handled(
                old(self)@,
                final(self)@,
                offer.deep_view(),
                path@,
                start_offset,
                res.deep_view(),
            ),
    {
        let key: [u8; 32] = match self.crypto.derive_file_key(offer.merkle_root.as_str().as_bytes()) {
            Ok(key) => key,
            Err(e) => {
                self.pending_recv_offer = Some(offer);
                return make_tells(one_event(sys_msg(text2("Key derivation failed: ", e.message().as_str()))));
            },
        };
        self.receiving_file = Some((offer.file_name.clone(), offer.size));
        self.receiving_key = Some(key);
        self.receiving_bytes_seen = start_offset;
        let res = self.send_file_accept(offer.merkle_root.as_str(), Some(start_offset));
        self.acceptance_sent(path, res)
    }

    /// Tells the user of an acceptance that was encrypted, or could not be.
    pub fn acceptance_sent(&self, path: &str, res: Result<Vec<u8>, ClientError>) -> (turn: Turn)
        ensures
            turn.deep_view() == acceptance_turn(path@, frame_view(res)),
    {
        let accepting = sys_msg(
            text3("Accepted file offer. Saving to: ", path, ". Waiting for peer to transmit..."),
        );
        let ghost first = accepting.deep_view();
        let mut events = one_event(accepting);
        match res {
            Ok(frame) => Turn {
                events,
                frame: Some(frame),
                later_events: no_events(),
                unsent: Unsent::AcceptFails,
                next: Next::Nothing,
                end: None,
            },
            Err(e) => {
                let failed = sys_msg(text2("Failed to send acceptance: ", e.message().as_str()));
                add_event(&mut events, failed);
                assert(events.deep_view() =~= seq![first, failed.deep_view()]);
                make_tells(events)
            },
        }
    }

    /// Starts to send a file that the peer accepted, if it could be opened.
    pub fn start_sending(&mut self, task: SendTask, opening: FileOpening) -> (res: Turn)
        ensures
            (Outcome { client: final(self)@, turn: res.deep_view() }) == opening_outcome(old(self)@, task, opening),
    {
        match opening {
            FileOpening::Opened { total_size } => {
                self.active_send_file = Some((task.key, total_size, task.start_offset, task.file_name));
                make_tells(no_events())
            },
            FileOpening::OpenFailed(e) => make_tells(
                one_event(sys_msg(text2("Failed to open file for sending: ", e.as_str()))),
            ),
            FileOpening::SeekFailed(e) => {
                let offset = decimal_text(task.start_offset);
                let mut text = text3("Failed to seek to offset ", offset.as_str(), ": ");
                text.append(e.as_str());
                make_tells(one_event(sys_msg(text)))
            },
        }
    }

    /// Sends the next bytes of the file that is being sent.
    pub fn send_active_file_chunk(&mut self, read: Result<Vec<u8>, String>) -> (res: Turn)
        requires
            old(self)@.active_send_file is Some ==> old(self)@.crypto.session is Some,
            old(self)@.active_send_file matches Some((_, _, done, _)) ==> (read matches Ok(data) ==> done
                + data@.len() <= u64::MAX),
        ensures
            chunk_read_handled(old(self)@, final(self)@, read_view(read), res.deep_view()),
    {
        let (key, total, done, file_name) = match self.active_send_file.take() {
            Some(active) => active,
            None => return make_tells(no_events()),
        };
        let data = match read {
            Ok(data) => data,
            Err(e) => {
                let mut text = text3("Error sending file chunk for ", file_name.as_str(), ": ");
                text.append(e.as_str());
                return make_quiet(one_event(sys_msg(text)), Next::Nothing, Some(Fault::ReadFailed(e)));
            },
        };
        if data.len() == 0 {
            let size = decimal_text(total);
            return make_tells(
                one_event(
                    sys_msg(text5("Finished sending ", file_name.as_str(), " (", size.as_str(), " bytes)")),
                ),
            );
        }
        match self.send_file_chunk(&key, data.as_slice()) {
            Ok(frame) => {
                let now_done: u64 = done + data.len() as u64;
                let progress = UiEvent::FileProgress {
                    peer_id: self.peer_name(),
                    file_name: file_name.clone(),
                    total_size: total,
                    bytes_transferred: now_done,
                    is_sending: true,
                };
                self.active_send_file = Some((key, total, now_done, file_name));
                Turn {
                    events: no_events(),
                    frame: Some(frame),
                    later_events: one_event(progress),
                    unsent: Unsent::SendingFails,
                    next: Next::Nothing,
                    end: None,
                }
            },
            Err(e) => {
                let mut text = text3("Error sending file chunk for ", file_name.as_str(), ": ");
                text.append(e.message().as_str());
                make_quiet(one_event(sys_msg(text)), Next::Nothing, Some(e))
            },
        }
    }

    /// Does what follows when a frame could not be written.
    pub fn write_failed(&mut self, unsent: Unsent, error: &str) -> (res: Turn)
        ensures
            (Outcome { client: final(self)@, turn: res.deep_view() }) == unsent_outcome(old(self)@, unsent, error@),
    {
        match unsent {
            Unsent::Ends => make_ends(Fault::WriteFailed(error.to_owned())),
            Unsent::EndsSilently => {
                self.send_bye = false;
                make_ends(Fault::WriteFailed(error.to_owned()))
            },
            Unsent::OfferFails => {
                self.pending_send_file = None;
                make_tells(one_event(sys_msg(text2("Failed to send file offer: ", error))))
            },
            Unsent::AcceptFails => make_tells(one_event(sys_msg(text2("Failed to send acceptance: ", error)))),
            Unsent::DeclineFails => make_tells(
                one_event(sys_msg(text2("Failed to send decline notice: ", error))),
            ),
            Unsent::SendingFails => match self.active_send_file.take() {
                Some((_, _, _, file_name)) => {
                    let mut text = text3("Error sending file chunk for ", file_name.as_str(), ": ");
                    text.append(error);
                    make_quiet(
                        one_event(sys_msg(text)),
                        Next::Nothing,
                        Some(Fault::WriteFailed(error.to_owned())),
                    )
                },
                None => make_ends(Fault::WriteFailed(error.to_owned())),
            },
            Unsent::TransmissionStops => make_tells(one_event(sys_msg(text2("Error sending file chunk: ", error)))),
        }
    }

    /// Sends the next bytes of a file that is sent in one go. Where they are too many for a
    /// chunk, the transmission stops.
    pub fn transmit(&self, transmission: &mut Transmission, data: &[u8]) -> (res: Turn)
        requires
            self@.crypto.session is Some,
            old(transmission).start_offset + old(transmission).sent_bytes + data@.len() <= u64::MAX,
        ensures
            transmitted(self@, *old(transmission), *final(transmission), data@, res.deep_view()),
    {
        match self.send_file_chunk(&transmission.key, data) {
            Ok(frame) => {
                transmission.sent_bytes = transmission.sent_bytes + data.len() as u64;
                let progress = UiEvent::FileProgress {
                    peer_id: self.peer_name(),
                    file_name: transmission.file_name.clone(),
                    total_size: transmission.total_size,
                    bytes_transferred: transmission.start_offset + transmission.sent_bytes,
                    is_sending: true,
                };
                Turn {
                    events: no_events(),
                    frame: Some(frame),
                    later_events: one_event(progress),
                    unsent: Unsent::TransmissionStops,
                    next: Next::Nothing,
                    end: None,
                }
            },
            Err(e) => make_tells(one_event(sys_msg(text2("Error sending file chunk: ", e.message().as_str())))),
        }
    }
}

impl PatronusClient {
    /// Goes on with a file that is sent in one go, by what the next read gave: sends the bytes, or
    /// tells the user that the file was sent, where there are none.
    pub fn transmit_read(&self, transmission: &mut Transmission, read: Result<Vec<u8>, String>) -> (res: Turn)
        requires
            self@.crypto.session is Some,
            old(transmission).start_offset + old(transmission).sent_bytes <= u64::MAX,
            read matches Ok(data) ==> old(transmission).start_offset + old(transmission).sent_bytes + data@.len()
                <= u64::MAX,
        ensures
            transmission_read(
                self@,
                *old(transmission),
                *final(transmission),
                read_view(read),
                res.deep_view(),
            ),
    {
        if let Ok(data) = read {
            if data.len() > 0 {
                return self.transmit(transmission, data.as_slice());
            }
        }
        make_tells(one_event(transmission.finished()))
    }
}

impl Transmission {
    /// Tells the user that the file was sent.
    pub fn finished(&self) -> (res: UiEvent)
        requires
            self.start_offset + self.sent_bytes <= u64::MAX,
        ensures
            res.deep_view() == system_event(
                finished_text(self.file_name@, (self.start_offset + self.sent_bytes) as nat),
            ),
    {
        let size = decimal_text(self.start_offset + self.sent_bytes);
        sys_msg(text5("Finished sending ", self.file_name.as_str(), " (", size.as_str(), " bytes)"))
    }
}

/// Bytes that came one after the other.
pub open spec fn joined(parts: Seq<Seq<u8>>) -> Seq<u8>
    decreases parts.len(),
{
    if parts.len() == 0 {
        seq![]
    } else {
        joined(parts.drop_last()) + parts.last()
    }
}

/// Whether `data` is what reading a file gives at a place: the bytes that are there, as many as
/// go into a chunk at most, and some unless the file ends there.
pub open spec fn is_read(content: Seq<u8>, at: int, data: Seq<u8>) -> bool {
    &&& data.len() <= CHUNK_LEN
    &&& at + data.len() <= content.len()
    &&& data == content.subrange(at, at + data.len())
    &&& data.len() == 0 ==> at == content.len()
}

/// The calls that send a file: the client before and after each of them, what was read for
/// it, and what the client wanted done.
pub ghost struct Sending {
    pub clients: Seq<ClientView>,
    pub reads: Seq<Seq<u8>>,
    pub turns: Seq<TurnView>,
}

impl Sending {
    /// Where the file stands before the call `i`, from where the first call found it.
    pub open spec fn read_before(self, i: int) -> Seq<u8> {
        joined(self.reads.take(i))
    }

    /// Whether the call `i` got what the file has there, and did with it what it does.
    pub open spec fn call(self, content: Seq<u8>, start: u64, i: int) -> bool {
        &&& is_read(content, start + self.read_before(i).len(), self.reads[i])
        &&& chunk_read_handled(self.clients[i], self.clients[i + 1], Ok(self.reads[i]), self.turns[i])
    }

    /// Whether the calls read the file from `start` on, one behind the other.
    pub open spec fn runs(self, content: Seq<u8>, start: u64) -> bool {
        &&& self.clients.len() == self.reads.len() + 1
        &&& self.turns.len() == self.reads.len()
        &&& forall|i: int| 0 <= i < self.reads.len() ==> #[trigger] self.call(content, start, i)
    }

    /// Whether each call but the last sent a frame.
    pub open spec fn until_none_is_sent(self) -> bool {
        &&& self.turns.len() > 0
        &&& self.turns.last().frame is None
        &&& forall|i: int| 0 <= i < self.turns.len() - 1 ==> (#[trigger] self.turns[i]).frame is Some
    }
}

proof fn lemma_chunk_goes_out(
    before: ClientView,
    after: ClientView,
    key: Seq<u8>,
    total: u64,
    done: u64,
    file_name: Seq<char>,
    data: Seq<u8>,
    turn: TurnView,
)
    requires
        chunk_read_handled(before, after, Ok(data), turn),
        before.active_send_file == Some((key, total, done, file_name)),
        turn.frame is Some,
        done + data.len() <= u64::MAX,
    ensures
        data.len() > 0,
        chunk_sent(before, key, data, Ok(turn.frame->0)),
        after == (ClientView {
            active_send_file: Some((key, total, (done + data.len()) as u64, file_name)),
            ..before
        }),
{
}

proof fn lemma_sending(
    content: Seq<u8>,
    key: Seq<u8>,
    total: u64,
    start: u64,
    file_name: Seq<char>,
    sending: Sending,
    n: int,
)
    requires
        start <= content.len() <= u64::MAX,
        sending.runs(content, start),
        sending.until_none_is_sent(),
        sending.clients[0].active_send_file == Some((key, total, start, file_name)),
        0 <= n < sending.reads.len(),
    ensures
        start + sending.read_before(n).len() <= content.len(),
        sending.read_before(n) == content.subrange(start as int, start + sending.read_before(n).len()),
        sending.clients[n] == (ClientView {
            active_send_file: Some((key, total, (start + sending.read_before(n).len()) as u64, file_name)),
            ..sending.clients[0]
        }),
    decreases n,
{
    if n == 0 {
        assert(sending.reads.take(0) =~= seq![]);
        assert(sending.read_before(0) =~= content.subrange(start as int, start as int));
    } else {
        let i = n - 1;
        lemma_sending(content, key, total, start, file_name, sending, i);
        let before = sending.read_before(i);
        let data = sending.reads[i];
        let done = (start + before.len()) as u64;
        assert(sending.turns[i].frame is Some);
        assert(sending.call(content, start, i));
        lemma_chunk_goes_out(
            sending.clients[i],
            sending.clients[n],
            key,
            total,
            done,
            file_name,
            data,
            sending.turns[i],
        );
        assert(sending.read_before(n) == before + data) by {
            assert(sending.reads.take(n).drop_last() =~= sending.reads.take(i));
        }
        assert(before + data =~= content.subrange(start as int, start + before.len() + data.len()));
    }
}

/// What the call `i` of those that send a file does.
pub(crate) proof fn lemma_file_so_far(
    content: Seq<u8>,
    key: Seq<u8>,
    total: u64,
    start: u64,
    file_name: Seq<char>,
    sending: Sending,
    i: int,
)
    requires
        start <= content.len() <= u64::MAX,
        sending.runs(content, start),
        sending.until_none_is_sent(),
        sending.clients[0].active_send_file == Some((key, total, start, file_name)),
        0 <= i < sending.reads.len() - 1,
    ensures
        0 < sending.reads[i].len() <= CHUNK_LEN,
        chunk_sent(sending.clients[i], key, sending.reads[i], Ok(sending.turns[i].frame->0)),
        sending.clients[i].crypto == sending.clients[0].crypto,
        sending.clients[i + 1] == (ClientView {
            active_send_file: Some((key, total, (start + sending.read_before(i + 1).len()) as u64, file_name)),
            ..sending.clients[0]
        }),
        sending.read_before(i + 1) == sending.read_before(i) + sending.reads[i],
        start + sending.read_before(i + 1).len() <= content.len(),
{
    lemma_sending(content, key, total, start, file_name, sending, i);
    lemma_sending(content, key, total, start, file_name, sending, i + 1);
    let data = sending.reads[i];
    assert(sending.turns[i].frame is Some);
    assert(sending.call(content, start, i));
    lemma_chunk_goes_out(
        sending.clients[i],
        sending.clients[i + 1],
        key,
        total,
        (start + sending.read_before(i).len()) as u64,
        file_name,
        data,
        sending.turns[i],
    );
    assert(sending.reads.take(i + 1).drop_last() =~= sending.reads.take(i));
}

/// A file goes out whole: called until nothing is sent, the client sends the bytes of the file
/// from where it was opened to its end, in chunks of which none is empty or longer than a chunk
/// may be, counts them, tells that the file was sent, and is done with it.
pub proof fn file_goes_out(
    content: Seq<u8>,
    key: Seq<u8>,
    total: u64,
    start: u64,
    file_name: Seq<char>,
    sending: Sending,
)
    requires
        start <= content.len() <= u64::MAX,
        sending.runs(content, start),
        sending.until_none_is_sent(),
        sending.clients[0].active_send_file == Some((key, total, start, file_name)),
    ensures
        joined(sending.reads.drop_last()) == content.skip(start as int),
        forall|i: int|
            0 <= i < sending.reads.len() - 1 ==> {
                &&& 0 < (#[trigger] sending.reads[i]).len() <= CHUNK_LEN
                &&& chunk_sent(sending.clients[i], key, sending.reads[i], Ok(sending.turns[i].frame->0))
                &&& sending.clients[i + 1] == (ClientView {
                    active_send_file: Some(
                        (key, total, (start + sending.read_before(i + 1).len()) as u64, file_name),
                    ),
                    ..sending.clients[0]
                })
            },
        sending.turns.last() == tells(seq![system_event(finished_text(file_name, total as nat))]),
        sending.clients.last() == (ClientView { active_send_file: None, ..sending.clients[0] }),
{
    let last = sending.reads.len() - 1;
    assert forall|i: int| 0 <= i < last implies {
        &&& 0 < (#[trigger] sending.reads[i]).len() <= CHUNK_LEN
        &&& chunk_sent(sending.clients[i], key, sending.reads[i], Ok(sending.turns[i].frame->0))
        &&& sending.clients[i + 1] == (ClientView {
            active_send_file: Some((key, total, (start + sending.read_before(i + 1).len()) as u64, file_name)),
            ..sending.clients[0]
        })
    } by {
        lemma_file_so_far(content, key, total, start, file_name, sending, i);
    }
    lemma_sending(content, key, total, start, file_name, sending, last);
    let data = sending.reads[last];
    assert(sending.call(content, start, last));
    assert(data.len() == 0);
    assert(sending.reads.drop_last() =~= sending.reads.take(last));
    assert(content.skip(start as int) =~= content.subrange(start as int, content.len() as int));
}

/// The calls that send a file in one go: how far it is before and after each of them, what was
/// read for it, and what the client wanted done.
pub ghost struct Transmitting {
    pub states: Seq<Transmission>,
    pub reads: Seq<Seq<u8>>,
    pub turns: Seq<TurnView>,
}

impl Transmitting {
    /// What was read before the call `i`.
    pub open spec fn read_before(self, i: int) -> Seq<u8> {
        joined(self.reads.take(i))
    }

    /// Whether the call `i` got what the file has there, and did with it what it does.
    pub open spec fn call(self, client: ClientView, content: Seq<u8>, i: int) -> bool {
        &&& is_read(content, self.states[0].start_offset + self.read_before(i).len(), self.reads[i])
        &&& transmission_read(client, self.states[i], self.states[i + 1], Ok(self.reads[i]), self.turns[i])
    }

    /// Whether the calls read the file from its offset on, until one sends nothing.
    pub open spec fn runs(self, client: ClientView, content: Seq<u8>) -> bool {
        &&& self.states.len() == self.reads.len() + 1
        &&& self.turns.len() == self.reads.len()
        &&& self.turns.len() > 0
        &&& self.states[0].sent_bytes == 0
        &&& self.turns.last().frame is None
        &&& forall|i: int| 0 <= i < self.turns.len() - 1 ==> (#[trigger] self.turns[i]).frame is Some
        &&& forall|i: int| 0 <= i < self.reads.len() ==> #[trigger] self.call(client, content, i)
    }
}

proof fn lemma_chunk_transmitted(
    client: ClientView,
    before: Transmission,
    after: Transmission,
    data: Seq<u8>,
    turn: TurnView,
)
    requires
        transmission_read(client, before, after, Ok(data), turn),
        turn.frame is Some,
    ensures
        data.len() > 0,
        chunk_sent(client, before.key@, data, Ok(turn.frame->0)),
        after == (Transmission { sent_bytes: (before.sent_bytes + data.len()) as u64, ..before }),
{
}

proof fn lemma_transmitting(client: ClientView, content: Seq<u8>, run: Transmitting, n: int)
    requires
        run.runs(client, content),
        run.states[0].start_offset <= content.len() <= u64::MAX,
        0 <= n < run.reads.len(),
    ensures
        ({
            let start = run.states[0].start_offset;
            let so_far = run.read_before(n);
            &&& start + so_far.len() <= content.len()
            &&& so_far == content.subrange(start as int, start + so_far.len())
            &&& run.states[n] == (Transmission { sent_bytes: so_far.len() as u64, ..run.states[0] })
        }),
    decreases n,
{
    let start = run.states[0].start_offset;
    if n == 0 {
        assert(run.reads.take(0) =~= seq![]);
        assert(run.read_before(0) =~= content.subrange(start as int, start as int));
    } else {
        let i = n - 1;
        lemma_transmitting(client, content, run, i);
        let before = run.read_before(i);
        let data = run.reads[i];
        assert(run.turns[i].frame is Some);
        assert(run.call(client, content, i));
        lemma_chunk_transmitted(client, run.states[i], run.states[n], data, run.turns[i]);
        assert(run.read_before(n) == before + data) by {
            assert(run.reads.take(n).drop_last() =~= run.reads.take(i));
        }
        assert(before + data =~= content.subrange(start as int, start + before.len() + data.len()));
    }
}

/// A file that is sent in one go goes out whole: the bytes from its offset to its end, in chunks
/// of which none is empty or longer than a chunk may be; then the user is told how many there
/// are.
pub proof fn transmission_goes_out(client: ClientView, content: Seq<u8>, run: Transmitting)
    requires
        run.runs(client, content),
        run.states[0].start_offset <= content.len() <= u64::MAX,
    ensures
        joined(run.reads.drop_last()) == content.skip(run.states[0].start_offset as int),
        forall|i: int|
            0 <= i < run.reads.len() - 1 ==> {
                &&& 0 < (#[trigger] run.reads[i]).len() <= CHUNK_LEN
                &&& chunk_sent(client, run.states[0].key@, run.reads[i], Ok(run.turns[i].frame->0))
                &&& run.states[i + 1].sent_bytes == run.read_before(i + 1).len()
            },
        run.turns.last() == tells(
            seq![system_event(finished_text(run.states[0].file_name@, content.len()))],
        ),
{
    let last = run.reads.len() - 1;
    let start = run.states[0].start_offset;
    assert forall|i: int| 0 <= i < last implies {
        &&& 0 < (#[trigger] run.reads[i]).len() <= CHUNK_LEN
        &&& chunk_sent(client, run.states[0].key@, run.reads[i], Ok(run.turns[i].frame->0))
        &&& run.states[i + 1].sent_bytes == run.read_before(i + 1).len()
    } by {
        lemma_transmitting(client, content, run, i);
        lemma_transmitting(client, content, run, i + 1);
        assert(run.turns[i].frame is Some);
        assert(run.call(client, content, i));
        lemma_chunk_transmitted(client, run.states[i], run.states[i + 1], run.reads[i], run.turns[i]);
    }
    lemma_transmitting(client, content, run, last);
    assert(run.call(client, content, last));
    assert(run.reads[last].len() == 0);
    assert(run.reads.drop_last() =~= run.reads.take(last));
    assert(content.skip(start as int) =~= content.subrange(start as int, content.len() as int));
}

/// The root of a file: the BLAKE3 hash of its bytes, as they come.
pub struct FileDigest {
    hasher: blake3::Hasher,
}

impl View for FileDigest {
    type V = Seq<u8>;

    /// The bytes so far.
    closed spec fn view(&self) -> Seq<u8> {
        blake3_input(self.hasher)
    }
}

impl FileDigest {
    /// The digest of a file of which nothing was read.
    pub fn new() -> (res: FileDigest)
        ensures
            res@ == Seq::<u8>::empty(),
    {
        FileDigest { hasher: blake3_new() }
    }

    /// Takes the next bytes of the file.
    pub fn update(&mut self, data: &[u8])
        ensures
            final(self)@ == old(self)@ + data@,
    {
        blake3_update(&mut self.hasher, data);
    }

    /// The root of the file.
    pub fn finish(&self) -> (res: String)
        ensures
            res@ == blake3_hex(self@),
    {
        blake3_finish(&self.hasher)
    }
}

/// A file of which a part is there is gone on with exactly behind that part: the part and what is
/// sent from the offset on are the file, without a gap and without an overlap. A file that is
/// there is complete. Where nothing of it is there, or more than belongs there, all of it is sent.
pub proof fn resuming_leaves_no_gap(content: Seq<u8>, local: u64)
    requires
        content.len() <= u64::MAX,
    ensures
        ({
            let size = content.len() as u64;
            &&& local < size ==> (resumed(size, Some(local)) matches Resume::From(offset) && offset <= size
                && content.take(local as int) + content.skip(offset as int) == content)
            &&& local == size ==> resumed(size, Some(local)) == Resume::Complete && content.take(local as int)
                == content
            &&& local > size ==> (resumed(size, Some(local)) matches Resume::From(offset) && content.skip(offset as int)
                == content)
            &&& resumed(size, None) matches Resume::From(offset) && content.skip(offset as int) == content
        }),
{
    let size = content.len() as u64;
    assert(content.skip(0) =~= content);
    if local <= size {
        assert(content.take(local as int) + content.skip(local as int) =~= content);
        assert(local == size ==> content.take(local as int) =~= content);
    }
}

/// The user is told of a part of a file that there is with its length, and of a file that is
/// complete, and of nothing else.
pub proof fn part_is_told(size: u64, local: Option<u64>)
    ensures
        resume_events(size, local).len() == (if local is Some && local->0 <= size {
            1int
        } else {
            0
        }),
        local matches Some(len) ==> len < size ==> resume_events(size, local)[0] == system_event(
            "Found partial download of "@ + decimal(len as nat) + " bytes. Attempting to resume..."@,
        ),
        local == Some(size) ==> resume_events(size, local)[0] == system_event("File already completely downloaded."@),
{
}

/// An accepted file keeps the name that it was offered with in every directory: in the one for
/// files, where the user names none, and in the one that the user names, be it one that is there
/// or one that is written with a slash or a backslash behind it. Else it goes to the path itself.
pub proof fn accepted_file_goes_where_named(save_dir: Seq<char>, path: Seq<char>, file_name: Seq<char>, is_dir: bool)
    ensures
        target_of(save_dir, seq![], is_dir, file_name) == (TargetView::Inside { dir: save_dir, file_name }),
        path.len() > 0 ==> target_of(save_dir, path, true, file_name) == (TargetView::Inside { dir: path, file_name }),
        target_of(save_dir, path.push('/'), is_dir, file_name) == (TargetView::Inside {
            dir: path.push('/'),
            file_name,
        }),
        target_of(save_dir, path.push('\\'), is_dir, file_name) == (TargetView::Inside {
            dir: path.push('\\'),
            file_name,
        }),
        path.len() > 0 && path.last() != '/' && path.last() != '\\' ==> target_of(save_dir, path, false, file_name)
            == TargetView::At(path),
{
}

/// The node that offers a file and the node that accepts it come to the same key for it. The one
/// keeps the path and the name in mind; the other receives the file under its name and its size
/// from the offset on. Both users are told.
pub proof fn offer_and_acceptance_agree(
    sender: ClientView,
    sender_after: ClientView,
    path: Seq<char>,
    offer: OfferView,
    sender_turn: TurnView,
    receiver: ClientView,
    receiver_after: ClientView,
    place: Seq<char>,
    start_offset: u64,
    receiver_turn: TurnView,
)
    requires
        sender.crypto.session is Some,
        receiver.crypto.session is Some,
        sender.crypto.session->0.topic_id == receiver.crypto.session->0.topic_id,
        offer_handled(sender, sender_after, path, offer, sender_turn),
        sender_turn.frame is Some,
        accept_handled(receiver, receiver_after, offer, place, start_offset, receiver_turn),
        receiver_turn.frame is Some,
    ensures
        sender_after.pending_send_file matches Some((kept_path, key, name)) && kept_path == path && name
            == offer.file_name && receiver_after.receiving_key == Some(key),
        receiver_after.receiving_file == Some((offer.file_name, offer.size)),
        receiver_after.receiving_bytes_seen == start_offset,
        sender_turn.end is None && receiver_turn.end is None,
        sender_turn.unsent == Unsent::OfferFails && receiver_turn.unsent == Unsent::AcceptFails,
        sender_turn.events.len() == 0,
        sender_turn.later_events == seq![
            system_event(
                "Offered file: "@ + offer.file_name + " ("@ + decimal(offer.size as nat)
                    + " bytes). Waiting for peer to accept/decline..."@,
            ),
        ],
        receiver_turn.events == seq![
            system_event("Accepted file offer. Saving to: "@ + place + ". Waiting for peer to transmit..."@),
        ],
{
}

/// An offer or an acceptance that cannot be encrypted is told to the user and sent to nobody, and
/// the session goes on; the offer is not kept in mind.
pub proof fn failed_offer_is_told(
    before: ClientView,
    after: ClientView,
    path: Seq<char>,
    offer: OfferView,
    turn: TurnView,
)
    requires
        offer_handled(before, after, path, offer, turn),
        turn.frame is None,
    ensures
        after.pending_send_file == before.pending_send_file,
        turn.end is None,
        turn.next == NextView::Nothing,
        turn.events.len() == 1,
{
}

/// A file that was opened is sent from the offset that it was opened at, under the key and the
/// name that it was accepted with. One that cannot be opened changes nothing.
pub proof fn opened_file_is_sent_from_offset(client: ClientView, task: SendTask, opening: FileOpening)
    ensures
        ({
            let outcome = opening_outcome(client, task, opening);
            &&& outcome.turn.end is None && outcome.turn.frame is None && outcome.turn.next == NextView::Nothing
            &&& outcome.client == (ClientView { active_send_file: outcome.client.active_send_file, ..client })
            &&& match opening {
                FileOpening::Opened { total_size } => outcome.turn.events.len() == 0
                    && outcome.client.active_send_file == Some(
                    (task.key@, total_size, task.start_offset, task.file_name@),
                ),
                FileOpening::OpenFailed(e) => outcome.client == client && outcome.turn.events == seq![
                    system_event("Failed to open file for sending: "@ + e@),
                ],
                FileOpening::SeekFailed(e) => outcome.client == client && outcome.turn.events == seq![
                    system_event("Failed to seek to offset "@ + decimal(task.start_offset as nat) + ": "@ + e@),
                ],
            }
        }),
{
}

/// With each chunk that goes out the user is told, once it is written, how many bytes of the file
/// have gone out so far, out of how many.
pub proof fn chunk_counts_its_bytes(
    before: ClientView,
    after: ClientView,
    data: Seq<u8>,
    turn: TurnView,
    key: Seq<u8>,
    total: u64,
    done: u64,
    file_name: Seq<char>,
)
    requires
        before.active_send_file == Some((key, total, done, file_name)),
        done + data.len() <= u64::MAX,
        chunk_read_handled(before, after, Ok(data), turn),
        turn.frame is Some,
    ensures
        turn.later_events == seq![
            EventView::FileProgress {
                peer_id: before.peer_name(),
                file_name,
                total_size: total,
                bytes_transferred: (done + data.len()) as u64,
                is_sending: true,
            },
        ],
        turn.events.len() == 0,
        turn.end is None,
        turn.unsent == Unsent::SendingFails,
        after == (ClientView {
            active_send_file: Some((key, total, (done + data.len()) as u64, file_name)),
            ..before
        }),
{
}

/// A file that cannot be read on ends the session with the reason, and is no longer sent. Without
/// a file that is being sent, nothing comes of a read.
pub proof fn unreadable_file_ends_session(
    before: ClientView,
    after: ClientView,
    read: Result<Seq<u8>, Seq<char>>,
    turn: TurnView,
)
    requires
        chunk_read_handled(before, after, read, turn),
    ensures
        before.active_send_file is None ==> after == before && turn.frame is None && turn.end is None
            && turn.events.len() == 0,
        before.active_send_file is Some ==> (read matches Err(e) ==> turn.end == Some(ErrorView::ReadFailed(e))
            && turn.frame is None && turn.events.len() == 1),
        turn.frame is None ==> after == (ClientView { active_send_file: None, ..before }),
        turn.frame is Some ==> read is Ok && read->Ok_0.len() > 0,
{
    if before.active_send_file is None {
        assert(after.active_send_file is None);
    }
}

/// With each chunk of a file that is sent in one go the user is told how far the file is, counted
/// from its start.
pub proof fn transmission_counts_its_bytes(
    client: ClientView,
    before: Transmission,
    after: Transmission,
    data: Seq<u8>,
    turn: TurnView,
)
    requires
        before.start_offset + before.sent_bytes + data.len() <= u64::MAX,
        transmission_read(client, before, after, Ok(data), turn),
        turn.frame is Some,
    ensures
        turn.later_events == seq![
            EventView::FileProgress {
                peer_id: client.peer_name(),
                file_name: before.file_name@,
                total_size: before.total_size,
                bytes_transferred: (before.start_offset + before.sent_bytes + data.len()) as u64,
                is_sending: true,
            },
        ],
        after.sent_bytes == before.sent_bytes + data.len(),
        after == (Transmission { sent_bytes: after.sent_bytes, ..before }),
        turn.events.len() == 0 && turn.end is None && turn.next == NextView::Nothing,
        turn.unsent == Unsent::TransmissionStops,
{
}

/// What cannot be written ends the session with the reason, unless it only concerns an offer, an
/// answer to one or a transmission; then the user is told the reason. An offer that was not
/// written is not kept in mind, a file that is being sent no longer is, and nobody says goodbye
/// where a message was lost. Nothing else changes.
pub proof fn lost_frame_is_told(client: ClientView, unsent: Unsent, error: Seq<char>)
    ensures
        ({
            let outcome = unsent_outcome(client, unsent, error);
            let after = outcome.client;
            let ends = unsent == Unsent::Ends || unsent == Unsent::EndsSilently || unsent == Unsent::SendingFails;
            &&& ends ==> outcome.turn.end == Some(ErrorView::WriteFailed(error))
            &&& !ends ==> outcome.turn.end is None && outcome.turn.events.len() == 1
            &&& outcome.turn.frame is None && outcome.turn.next == NextView::Nothing
            &&& after.pending_send_file == (if unsent == Unsent::OfferFails {
                None
            } else {
                client.pending_send_file
            })
            &&& after.active_send_file == (if unsent == Unsent::SendingFails {
                None
            } else {
                client.active_send_file
            })
            &&& after.send_bye == (client.send_bye && unsent != Unsent::EndsSilently)
            &&& after == (ClientView {
                pending_send_file: after.pending_send_file,
                active_send_file: after.active_send_file,
                send_bye: after.send_bye,
                ..client
            })
            &&& unsent == Unsent::OfferFails ==> outcome.turn.events[0] == system_event(
                "Failed to send file offer: "@ + error,
            )
            &&& unsent == Unsent::AcceptFails ==> outcome.turn.events[0] == system_event(
                "Failed to send acceptance: "@ + error,
            )
            &&& unsent == Unsent::DeclineFails ==> outcome.turn.events[0] == system_event(
                "Failed to send decline notice: "@ + error,
            )
            &&& unsent == Unsent::TransmissionStops ==> outcome.turn.events[0] == system_event(
                "Error sending file chunk: "@ + error,
            )
            &&& unsent == Unsent::SendingFails ==> (client.active_send_file matches Some((_, _, _, file_name)) ==>
                outcome.turn.events == seq![
                system_event("Error sending file chunk for "@ + file_name + ": "@ + error),
            ])
        }),
{
}

/// What comes of the directory that files are to be saved in, once it was created or could not be.
pub open spec fn save_dir_outcome(client: ClientView, path: Seq<char>, error: Option<Seq<char>>) -> Outcome {
    match error {
        None => Outcome {
            client: ClientView { save_dir: path, ..client },
            turn: tells(seq![system_event("Save directory set to: "@ + path)]),
        },
        Some(e) => Outcome {
            client,
            turn: tells(seq![system_event("Failed to create/set save directory: "@ + e)]),
        },
    }
}

/// A directory that was created is where files go from then on that no other path is named for;
/// one that could not be created changes nothing.
pub proof fn chosen_directory_is_used(
    client: ClientView,
    path: Seq<char>,
    reason: Seq<char>,
    is_dir: bool,
    file_name: Seq<char>,
)
    ensures
        target_of(save_dir_outcome(client, path, None).client.save_dir, seq![], is_dir, file_name)
            == (TargetView::Inside { dir: path, file_name }),
        save_dir_outcome(client, path, None).client == (ClientView { save_dir: path, ..client }),
        save_dir_outcome(client, path, None).turn.events == seq![system_event("Save directory set to: "@ + path)],
        save_dir_outcome(client, path, Some(reason)).client == client,
        save_dir_outcome(client, path, Some(reason)).turn.events == seq![
            system_event("Failed to create/set save directory: "@ + reason),
        ],
        save_dir_outcome(client, path, None).turn.end is None,
        save_dir_outcome(client, path, Some(reason)).turn.end is None,
{
}

/// What comes of an accepted file that there is no place for.
pub open spec fn misplaced_outcome(client: ClientView, offer: OfferView, step: PlaceError, error: Seq<char>) -> Outcome {
    Outcome {
        client: ClientView { pending_recv_offer: Some(offer), ..client },
        turn: tells(seq![system_event(place_error_text(step, error))]),
    }
}

/// The offer of a file that there was no place for waits again, so that it can be accepted once
/// more; the user is told what went wrong, and nothing else changes.
pub proof fn misplaced_file_can_be_accepted_again(
    client: ClientView,
    offer: OfferView,
    step: PlaceError,
    error: Seq<char>,
)
    ensures
        ({
            let outcome = misplaced_outcome(client, offer, step, error);
            &&& outcome.client.pending_recv_offer == Some(offer)
            &&& outcome.client == (ClientView { pending_recv_offer: Some(offer), ..client })
            &&& outcome.turn.end is None && outcome.turn.frame is None && outcome.turn.next == NextView::Nothing
            &&& outcome.turn.events.len() == 1
            &&& step == PlaceError::Parents ==> outcome.turn.events[0] == system_event(
                "Failed to create parent directories: "@ + error,
            )
            &&& step == PlaceError::Open ==> outcome.turn.events[0] == system_event(
                "Failed to create destination file: "@ + error,
            )
            &&& step == PlaceError::Seek ==> outcome.turn.events[0] == system_event(
                "Failed to seek destination file: "@ + error,
            )
        }),
{
}

/// Of a file that was sent the user is told its name and how many bytes it has.
pub proof fn finished_file_is_told(file_name: Seq<char>, size: nat)
    ensures
        finished_text(file_name, size) == "Finished sending "@ + file_name + " ("@ + decimal(size) + " bytes)"@,
{
}

/// An acceptance that cannot be encrypted is told with the reason, and so is a file without a
/// session, whose offer then waits again. The session goes on.
pub proof fn failed_acceptance_is_told(
    before: ClientView,
    after: ClientView,
    offer: OfferView,
    path: Seq<char>,
    start_offset: u64,
    turn: TurnView,
)
    requires
        accept_handled(before, after, offer, path, start_offset, turn),
        turn.frame is None,
    ensures
        turn.end is None && turn.next == NextView::Nothing,
        before.crypto.session is None ==> after == (ClientView { pending_recv_offer: Some(offer), ..before })
            && turn.events == seq![system_event("Key derivation failed: "@ + "handshake not completed"@)],
        before.crypto.session is Some ==> turn.events == seq![
            system_event("Accepted file offer. Saving to: "@ + path + ". Waiting for peer to transmit..."@),
            system_event("Failed to send acceptance: "@ + client_error_text(ErrorView::MessageTooLarge)),
        ],
{
}

/// Bytes that are too many for a chunk stop a file that is sent in one go, and are not counted.
/// Where nothing more is read, the user is told how much was sent.
pub proof fn transmission_ends_told(
    client: ClientView,
    before: Transmission,
    after: Transmission,
    read: Result<Seq<u8>, Seq<char>>,
    turn: TurnView,
)
    requires
        transmission_read(client, before, after, read, turn),
        turn.frame is None,
    ensures
        after == before,
        turn.end is None && turn.next == NextView::Nothing && turn.events.len() == 1,
        read is Err || read->Ok_0.len() == 0 ==> turn.events[0] == system_event(
            "Finished sending "@ + before.file_name@ + " ("@ + decimal((before.start_offset + before.sent_bytes) as nat)
                + " bytes)"@,
        ),
        read matches Ok(data) ==> data.len() > 0 ==> turn.events[0] == system_event(
            "Error sending file chunk: "@ + client_error_text(ErrorView::ChunkTooLarge),
        ),
{
}

/// What the user is told of a file that is not there.
pub open spec fn missing_text(path: Seq<char>) -> Seq<char> {
    "File not found: "@ + path
}

/// The user is told the whole path of a file that is not there.
pub proof fn missing_file_is_told(path: Seq<char>)
    ensures
        missing_text(path).take(16) == "File not found: "@,
        missing_text(path).skip(16) == path,
        missing_text(path).len() == 16 + path.len(),
{
    reveal_strlit("File not found: ");
    assert(missing_text(path).take(16) =~= "File not found: "@);
    assert(missing_text(path).skip(16) =~= path);
}

/// The acceptance of a file names the root of the file that was offered and the offset from which
/// on it is to be sent, from nought on too.
pub proof fn acceptance_names_root_and_offset(
    before: ClientView,
    after: ClientView,
    offer: OfferView,
    path: Seq<char>,
    start_offset: u64,
    turn: TurnView,
    receiving: ClientView,
)
    requires
        before.crypto.session is Some,
        accept_handled(before, after, offer, path, start_offset, turn),
        turn.frame is Some,
        receiving == (ClientView {
            receiving_file: Some((offer.file_name, offer.size)),
            receiving_key: Some(file_key(encode_utf8(offer.merkle_root), before.crypto.session->0.topic_id)),
            receiving_bytes_seen: start_offset,
            ..before
        }),
    ensures
        sent(
            receiving,
            after,
            3,
            json_bytes(
                JsonTree::Object(
                    map![
                        "file_accept"@ => JsonTree::Object(
                            map![
                                "merkle_root"@ => JsonTree::Text(offer.merkle_root),
                                "start_offset"@ => JsonTree::Unsigned(start_offset),
                            ],
                        ),
                    ],
                ),
            ),
            Ok(turn.frame->0),
        ),
{
}

}
