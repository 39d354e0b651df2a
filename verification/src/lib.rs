//! Patronus: encrypted messages and files between the nodes of a local network.
//!
//! The library holds what a node decides and computes. What it needs done, it says: which bytes
//! are to be sent, what the user is to be told, which file is to be opened. A program around
//! it does that, and tells the library what came of it.
//!
//! - A session: [`crypto`] has the keys of a session and its ratchet, [`handshake`] opens it,
//!   [`frame`] is what goes over the wire, [`client`] encrypts and decrypts messages.
//! - What a client does: [`incoming`] takes what a peer sends, [`outbound`] what the user wants
//!   sent, [`transfer`] files; [`turn`] is what a client wants done, [`documents`] are the JSON
//!   documents of messages. [`exchange`] states what two clients can rely on.
//! - A node: [`discovery`] finds peers, [`network`] starts up and keeps track of connections,
//!   [`storage`] keeps peers and messages encrypted.
//! - The user interface: [`tui`] is its state, [`keys`] takes what the user types, [`events`]
//!   what the node tells, [`autocomplete`] suggests, [`ttl`] reads and writes times to live,
//!   [`history`] keeps what is to be there after a restart, [`render`] is what is shown.
//! - What the rest is written with: [`text`], [`bytes`], [`order`], [`names`], and [`records`],
//!   which are kept and sent as JSON.
//!
//! [`primitives`] and [`json`] hold the calls into other crates, and [`text`] three into the
//! standard library. What those promise is not proved; everything else is.
pub mod autocomplete;
pub mod bytes;
pub mod client;
pub mod crypto;
pub mod discovery;
pub mod documents;
pub mod events;
pub mod exchange;
pub mod frame;
pub mod handshake;
pub mod history;
pub mod incoming;
pub mod json;
pub mod keys;
pub mod names;
pub mod network;
pub mod order;
pub mod outbound;
pub mod primitives;
pub mod records;
pub mod render;
pub mod storage;
pub mod text;
pub mod transfer;
pub mod ttl;
pub mod tui;
pub mod turn;
