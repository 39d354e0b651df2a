//! What a client wants done: what the user is told, what the peer is sent, and what is to be
//! done with files.
use crate::client::{ClientError, ErrorView, EventView, Fault, FileOffer, OfferView, UiEvent};
use vstd::prelude::*;

verus! {

/// A file that a peer accepted.
#[derive(Debug)]
pub struct SendTask {
    pub path: String,
    pub key: [u8; 32],
    pub file_name: String,
    pub start_offset: u64,
}

/// A chunk of the file that is being received.
#[derive(Debug)]
pub struct ReceivedChunk {
    pub data: Vec<u8>,
    pub file_name: String,
    pub size: u64,
}

/// What is to be done next, outside the client.
#[derive(Debug)]
pub enum Next {
    Nothing,
    /// Open the file at its offset.
    OpenFile(SendTask),
    /// Write the chunk to the file that is being received.
    WriteChunk(ReceivedChunk),
    /// Find the file that is to be offered.
    FindFile(String),
    /// Create the directory that files are to be saved in.
    CreateSaveDir(String),
    /// Find out where an accepted file goes; the user may have named a path.
    PlaceFile(FileOffer, String),
}

/// What is to be done next, as a value.
pub ghost enum NextView {
    Nothing,
    OpenFile { path: Seq<char>, key: Seq<u8>, file_name: Seq<char>, start_offset: u64 },
    WriteChunk { data: Seq<u8>, file_name: Seq<char>, size: u64 },
    FindFile(Seq<char>),
    CreateSaveDir(Seq<char>),
    PlaceFile(OfferView, Seq<char>),
}

impl DeepView for Next {
    type V = NextView;

    open spec fn deep_view(&self) -> NextView {
        match self {
            Next::Nothing => NextView::Nothing,
            Next::OpenFile(task) => NextView::OpenFile {
                path: task.path@,
                key: task.key@,
                file_name: task.file_name@,
                start_offset: task.start_offset,
            },
            Next::WriteChunk(chunk) => NextView::WriteChunk {
                data: chunk.data@,
                file_name: chunk.file_name@,
                size: chunk.size,
            },
            Next::FindFile(path) => NextView::FindFile(path@),
            Next::CreateSaveDir(path) => NextView::CreateSaveDir(path@),
            Next::PlaceFile(offer, path) => NextView::PlaceFile(offer.deep_view(), path@),
        }
    }
}

/// What follows when a frame cannot be written.
#[derive(Clone, Copy, Debug, PartialEq, Eq, Structural)]
pub enum Unsent {
    /// The session ends.
    Ends,
    /// The session ends, and no goodbye is sent.
    EndsSilently,
    /// The offer of a file fails.
    OfferFails,
    /// The user is told that the acceptance of a file was not sent.
    AcceptFails,
    /// The user is told that the refusal of a file was not sent.
    DeclineFails,
    /// The file that is being sent fails, and the session ends.
    SendingFails,
    /// The transmission of a file stops.
    TransmissionStops,
}

/// What a client wants done, in this order: the user is told the events; the frame is
/// written; once it is, the user is told the later events; the next step is taken. Where
/// there is an error, the session ends.
#[derive(Debug)]
pub struct Turn {
    pub events: Vec<UiEvent>,
    pub frame: Option<Vec<u8>>,
    pub later_events: Vec<UiEvent>,
    pub unsent: Unsent,
    pub next: Next,
    pub end: Option<ClientError>,
}

/// What a client wants done, as a value.
pub ghost struct TurnView {
    pub events: Seq<EventView>,
    pub frame: Option<Seq<u8>>,
    pub later_events: Seq<EventView>,
    pub unsent: Unsent,
    pub next: NextView,
    pub end: Option<ErrorView>,
}

impl DeepView for Turn {
    type V = TurnView;

    open spec fn deep_view(&self) -> TurnView {
        TurnView {
            events: self.events.deep_view(),
            frame: match self.frame {
                Some(frame) => Some(frame@),
                None => None,
            },
            later_events: self.later_events.deep_view(),
            unsent: self.unsent,
            next: self.next.deep_view(),
            end: self.end.deep_view(),
        }
    }
}

/// A turn that sends nothing.
pub open spec fn quiet_turn(events: Seq<EventView>, next: NextView, end: Option<ErrorView>) -> TurnView {
    TurnView { events, frame: None, later_events: seq![], unsent: Unsent::Ends, next, end }
}

/// A turn that tells something and goes on.
pub open spec fn tells(events: Seq<EventView>) -> TurnView {
    quiet_turn(events, NextView::Nothing, None)
}

/// A turn that ends the session.
pub open spec fn ends(error: ErrorView) -> TurnView {
    quiet_turn(seq![], NextView::Nothing, Some(error))
}

/// A turn that asks for the next step.
pub open spec fn asks(next: NextView) -> TurnView {
    quiet_turn(seq![], next, None)
}

/// A turn that sends a frame.
pub open spec fn sends(frame: Seq<u8>, unsent: Unsent) -> TurnView {
    TurnView {
        events: seq![],
        frame: Some(frame),
        later_events: seq![],
        unsent,
        next: NextView::Nothing,
        end: None,
    }
}

/// A turn that sends a frame, or ends the session where there is none.
pub open spec fn sends_or_ends(res: Result<Seq<u8>, ErrorView>, unsent: Unsent) -> TurnView {
    match res {
        Ok(frame) => sends(frame, unsent),
        Err(e) => ends(e),
    }
}

/// The frame that a turn sends, or why it sends none.
pub open spec fn frame_of(turn: TurnView) -> Result<Seq<u8>, ErrorView> {
    match turn.end {
        Some(e) => Err(e),
        None => Ok(turn.frame->0),
    }
}

/// What came of encrypting, by the frame that a turn sends: where it sends none, the message was
/// too large for one.
pub open spec fn encrypted_in(turn: TurnView) -> Result<Seq<u8>, ErrorView> {
    match turn.frame {
        Some(frame) => Ok(frame),
        None => Err(Fault::MessageTooLarge),
    }
}

/// No events.
pub(crate) fn no_events() -> (res: Vec<UiEvent>)
    ensures
        res.deep_view() == Seq::<EventView>::empty(),
{
    let events: Vec<UiEvent> = Vec::new();
    assert(events.deep_view() =~= seq![]);
    events
}

/// One event.
pub(crate) fn one_event(event: UiEvent) -> (res: Vec<UiEvent>)
    ensures
        res.deep_view() == seq![event.deep_view()],
{
    let mut events: Vec<UiEvent> = Vec::new();
    let ghost told = event.deep_view();
    events.push(event);
    assert(events.deep_view() =~= seq![told]);
    events
}

/// Puts an event behind the others.
pub(crate) fn add_event(events: &mut Vec<UiEvent>, event: UiEvent)
    ensures
        final(events).deep_view() == old(events).deep_view().push(event.deep_view()),
{
    let ghost before = events.deep_view();
    let ghost told = event.deep_view();
    events.push(event);
    assert(events.deep_view() =~= before.push(told));
}

pub(crate) fn make_quiet(events: Vec<UiEvent>, next: Next, end: Option<ClientError>) -> (res: Turn)
    ensures
        res.deep_view() == quiet_turn(events.deep_view(), next.deep_view(), end.deep_view()),
{
    Turn { events, frame: None, later_events: no_events(), unsent: Unsent::Ends, next, end }
}

pub(crate) fn make_tells(events: Vec<UiEvent>) -> (res: Turn)
    ensures
        res.deep_view() == tells(events.deep_view()),
{
    make_quiet(events, Next::Nothing, None)
}

pub(crate) fn make_ends(error: ClientError) -> (res: Turn)
    ensures
        res.deep_view() == ends(error.deep_view()),
{
    make_quiet(no_events(), Next::Nothing, Some(error))
}

pub(crate) fn make_asks(next: Next) -> (res: Turn)
    ensures
        res.deep_view() == asks(next.deep_view()),
{
    make_quiet(no_events(), next, None)
}

pub(crate) fn make_sends(frame: Vec<u8>, unsent: Unsent) -> (res: Turn)
    ensures
        res.deep_view() == sends(frame@, unsent),
{
    Turn {
        events: no_events(),
        frame: Some(frame),
        later_events: no_events(),
        unsent,
        next: Next::Nothing,
        end: None,
    }
}

/// A turn does one thing: it tells something, asks for something, sends a frame or ends the
/// session, and nothing else with it.
pub proof fn turns_do_one_thing(
    events: Seq<EventView>,
    next: NextView,
    frame: Seq<u8>,
    unsent: Unsent,
    error: ErrorView,
)
    ensures
        tells(events).events == events && tells(events).frame is None && tells(events).next == NextView::Nothing
            && tells(events).end is None && tells(events).later_events.len() == 0,
        asks(next).next == next && asks(next).events.len() == 0 && asks(next).frame is None && asks(next).end is None
            && asks(next).later_events.len() == 0,
        ends(error).end == Some(error) && ends(error).events.len() == 0 && ends(error).frame is None && ends(error).next
            == NextView::Nothing && ends(error).later_events.len() == 0,
        sends(frame, unsent).frame == Some(frame) && sends(frame, unsent).unsent == unsent && sends(
            frame,
            unsent,
        ).events.len() == 0 && sends(frame, unsent).end is None && sends(frame, unsent).next == NextView::Nothing
            && sends(frame, unsent).later_events.len() == 0,
{
}

}
