//! The tagged-variant message model.
//!
//! A connection speaks in `Message` values: a handshake request that binds
//! the connection to a durable user identity, its acknowledgement, an
//! open-ended application payload, and an explicit arm for wire tags this
//! version does not know, so that forward-compatibility decisions stay
//! visible instead of unrecognized frames being dropped silently.

use vstd::prelude::*;

verus! {

/// One protocol message, immutable once constructed; consumed exactly once
/// by either the handshake step or the dispatcher.
#[derive(Debug, Clone, PartialEq, Eq)]
pub enum Message {
    /// The mandatory first message of a connection: proposes the durable
    /// user identity to bind this connection to.
    HandshakeRequest { steam_id: u64 },
    /// Acknowledgement of a successful handshake.
    HandshakeResponse,
    /// An application-level payload; its meaning belongs to the dispatcher.
    Application { payload: Vec<u8> },
    /// A frame whose tag this version of the protocol does not know.
    Unknown { tag: u8, payload: Vec<u8> },
}

/// The mathematical model of a `Message`: payloads are byte sequences.
#[verifier::ext_equal]
pub enum MessageView {
    HandshakeRequest { steam_id: u64 },
    HandshakeResponse,
    Application { payload: Seq<u8> },
    Unknown { tag: u8, payload: Seq<u8> },
}

impl View for Message {
    type V = MessageView;

    open spec fn view(&self) -> MessageView {
        match self {
            Message::HandshakeRequest { steam_id } => MessageView::HandshakeRequest {
                steam_id: *steam_id,
            },
            Message::HandshakeResponse => MessageView::HandshakeResponse,
            Message::Application { payload } => MessageView::Application { payload: payload@ },
            Message::Unknown { tag, payload } => MessageView::Unknown {
                tag: *tag,
                payload: payload@,
            },
        }
    }
}

} // verus!
