//! The per-connection state machine.
//!
//! One actor exists per accepted socket.  It reads exactly one message
//! before anything else: only a handshake request opens the connection,
//! binds its durable identity, and registers it; anything else closes the
//! connection with no registry side effect.  Once active, the connection is
//! driven by events from a single combined wait over "next outbound message
//! queued" and "next inbound bytes available"; `active_step` turns each
//! event into the one action the embedding task must perform.  Every exit
//! path funnels into `finish`, the sole cleanup point, which deregisters the
//! connection exactly once.
//!
//! The embedding task owns the socket, the scheduler, and the dispatcher;
//! every decision it takes stands here, under contract.

use vstd::prelude::*;

use crate::codec;
use crate::codec::frame_bytes;
use crate::messages::Message;
use crate::messages::MessageView;
use crate::registry::ClientHandle;
use crate::registry::ClientInfo;
use crate::registry::ConnId;
use crate::registry::Registry;

verus! {

/// Where a connection stands in its lifecycle.
#[derive(Debug, Clone, Copy, PartialEq, Eq, Structural)]
pub enum Phase {
    /// Accepted, but the mandatory first message has not arrived yet.
    AwaitingHandshake,
    /// Handshake succeeded; the multiplex loop is running and the registry
    /// holds this connection's entry.
    Active,
    /// Torn down; no registry entry.
    Closed,
}

/// The outcome of reading the one message the handshake phase allows.
pub enum FirstRead {
    /// A message was decoded from the stream.
    Msg(Message),
    /// The read failed: an I/O error or malformed bytes.
    Failed,
    /// The stream ended before any message arrived.
    Closed,
}

/// One event from the multiplex loop's combined wait, or the reported
/// outcome of a previously requested action.
pub enum LoopEvent {
    /// A message became available on this connection's outbound channel.
    OutboundReady(Message),
    /// A complete inbound message was decoded from the socket.
    InboundMsg(Message),
    /// Inbound bytes were malformed, or reading failed: a protocol or I/O
    /// error, never resynchronized.
    InboundFailed,
    /// The peer closed its stream cleanly.
    InboundClosed,
    /// Writing an earlier frame to the socket failed; the peer is presumed
    /// unreachable.
    WriteFailed,
    /// The dispatcher reported failure for an earlier inbound message.
    DispatchFailed,
    /// Both event sources are gone.
    SourcesClosed,
}

/// Why the multiplex loop exits.  Diagnostic only: every reason tears the
/// connection down identically.
#[derive(Debug, Clone, Copy, PartialEq, Eq, Structural)]
pub enum ExitReason {
    /// The peer closed its stream cleanly.
    PeerClosed,
    /// Malformed inbound bytes or a failed read.
    ProtocolError,
    /// A socket write failed.
    WriteFailed,
    /// The dispatcher failed on an inbound message; fatal for this
    /// connection only, by this crate's declared policy.
    DispatchFailed,
    /// Both event sources are gone.
    SourcesClosed,
    /// An outbound message was too large to frame.
    OversizeOutbound,
}

/// What the embedding task must do next with its connection.
pub enum LoopAction {
    /// Write these bytes — one complete frame — to the socket.
    WriteFrame(Vec<u8>),
    /// Hand this message, with this connection's identity, to the
    /// dispatcher.
    Dispatch(Message),
    /// Leave the loop and tear the connection down via `finish`.
    Exit(ExitReason),
}

/// The per-connection state machine: one per accepted socket.
pub struct Actor {
    id: ConnId,
    phase: Phase,
}

impl Actor {
    /// This connection's identity: fixed for the actor's lifetime.
    pub closed spec fn id(&self) -> ConnId {
        self.id
    }

    /// The phase the connection is in.
    pub closed spec fn phase(&self) -> Phase {
        self.phase
    }

    /// The state-registry consistency invariant: the registry holds an
    /// entry for this connection exactly while the connection is `Active`.
    pub open spec fn consistent_with(&self, reg: Map<ConnId, ClientInfo>) -> bool {
        (self.phase() == Phase::Active) <==> reg.contains_key(self.id())
    }

    /// Whether `first` is the handshake request the first-message rule demands.
    pub open spec fn is_handshake(first: FirstRead) -> bool {
        first matches FirstRead::Msg(m) && m@ matches MessageView::HandshakeRequest { .. }
    }

    /// The durable identity a handshake request proposes.
    pub open spec fn requested_id(first: FirstRead) -> u64
        recommends
            Self::is_handshake(first),
    {
        match first {
            FirstRead::Msg(m) => match m@ {
                MessageView::HandshakeRequest { steam_id } => steam_id,
                _ => 0,
            },
            _ => 0,
        }
    }

    /// A new actor for an accepted socket, before its handshake.
    pub fn new(id: ConnId) -> (r: Actor)
        ensures
            r.id() == id,
            r.phase() == Phase::AwaitingHandshake,
    {
        Actor { id, phase: Phase::AwaitingHandshake }
    }

    /// Whether the connection is in the `Active` phase.
    pub fn is_active(&self) -> (r: bool)
        ensures
            r == (self.phase() == Phase::Active),
    {
        matches!(self.phase, Phase::Active)
    }

    /// The handshake decision.  The actor reads exactly one message before the
    /// main loop; this is the decision taken on it.  A handshake request
    /// binds the proposed identity, registers a handle owning `tx`, and
    /// activates the connection.  Anything else — another variant, a decode
    /// error, an I/O error, or a closed stream — rejects it: the connection
    /// closes with the registry untouched, so no entry is ever created for
    /// an unidentified peer.  A clashing live identity (a programming-error
    /// condition) also rejects.
    pub fn on_first_read(
        &mut self,
        reg: &mut Registry,
        first: FirstRead,
        tx: tokio::sync::mpsc::UnboundedSender<Message>,
    ) -> (r: bool)
        requires
            old(self).phase() == Phase::AwaitingHandshake,
            old(reg).wf(),
        ensures
            final(reg).wf(),
            final(self).id() == old(self).id(),
            Self::is_handshake(first) && !old(reg)@.contains_key(old(self).id()) ==> r
                && final(self).phase() == Phase::Active && final(reg)@ == old(reg)@.insert(
                old(self).id(),
                ClientInfo { steam_id: Self::requested_id(first), name: Seq::<char>::empty() },
            ),
            !(Self::is_handshake(first) && !old(reg)@.contains_key(old(self).id())) ==> !r
                && final(self).phase() == Phase::Closed && final(reg)@ == old(reg)@,
            forall|k: ConnId|
                k != old(self).id() ==> (#[trigger] final(reg)@.contains_key(k))
                    == old(reg)@.contains_key(k) && (old(reg)@.contains_key(k) ==> final(reg)@[k]
                    == old(reg)@[k]),
            old(self).consistent_with(old(reg)@) ==> final(self).consistent_with(final(reg)@),
    {
        match first {
            FirstRead::Msg(m) => match m {
                Message::HandshakeRequest { steam_id } => {
                    let mut h = ClientHandle::new(tx);
                    h.bind_identity(steam_id);
                    match reg.insert(self.id, h) {
                        Ok(()) => {
                            self.phase = Phase::Active;
                            true
                        },
                        Err(_clashing) => {
                            self.phase = Phase::Closed;
                            false
                        },
                    }
                },
                _ => {
                    self.phase = Phase::Closed;
                    false
                },
            },
            _ => {
                self.phase = Phase::Closed;
                false
            },
        }
    }

    /// One decision of the active multiplex loop: what to do with one
    /// event.  An outbound message is framed for the socket, in enqueue
    /// order, one frame per message; an inbound message goes to the
    /// dispatcher, identity attached; every failure or end-of-stream leaves
    /// the loop.
    pub fn active_step(&self, event: LoopEvent) -> (r: LoopAction)
        requires
            self.phase() == Phase::Active,
        ensures
            event matches LoopEvent::OutboundReady(m) ==> (if codec::fits_frame(m@) {
                r matches LoopAction::WriteFrame(b) && b@ == frame_bytes(m@)
            } else {
                r == LoopAction::Exit(ExitReason::OversizeOutbound)
            }),
            event matches LoopEvent::InboundMsg(m) ==> r == LoopAction::Dispatch(m),
            event is InboundFailed ==> r == LoopAction::Exit(ExitReason::ProtocolError),
            event is InboundClosed ==> r == LoopAction::Exit(ExitReason::PeerClosed),
            event is WriteFailed ==> r == LoopAction::Exit(ExitReason::WriteFailed),
            event is DispatchFailed ==> r == LoopAction::Exit(ExitReason::DispatchFailed),
            event is SourcesClosed ==> r == LoopAction::Exit(ExitReason::SourcesClosed),
    {
        match event {
            LoopEvent::OutboundReady(m) => {
                let mut frame: Vec<u8> = Vec::new();
                match codec::encode(&m, &mut frame) {
                    Ok(()) => {
                        proof {
                            assert(frame@ =~= frame_bytes(m@));
                        }
                        LoopAction::WriteFrame(frame)
                    },
                    Err(_too_long) => LoopAction::Exit(ExitReason::OversizeOutbound),
                }
            },
            LoopEvent::InboundMsg(m) => LoopAction::Dispatch(m),
            LoopEvent::InboundFailed => LoopAction::Exit(ExitReason::ProtocolError),
            LoopEvent::InboundClosed => LoopAction::Exit(ExitReason::PeerClosed),
            LoopEvent::WriteFailed => LoopAction::Exit(ExitReason::WriteFailed),
            LoopEvent::DispatchFailed => LoopAction::Exit(ExitReason::DispatchFailed),
            LoopEvent::SourcesClosed => LoopAction::Exit(ExitReason::SourcesClosed),
        }
    }

    /// The sole cleanup point: whatever made the connection exit, this runs
    /// exactly once as the task ends and performs the one registry removal
    /// for this identity.  Removing an absent identity — the handshake never
    /// completed, or cleanup raced nothing at all — changes nothing, so a
    /// second call could not remove a second time; no other connection's
    /// entry is touched.
    pub fn finish(&mut self, reg: &mut Registry)
        requires
            old(reg).wf(),
        ensures
            final(reg).wf(),
            final(self).id() == old(self).id(),
            final(self).phase() == Phase::Closed,
            final(reg)@ == old(reg)@.remove(old(self).id()),
            !final(reg)@.contains_key(old(self).id()),
            old(reg)@.contains_key(old(self).id()) ==> final(reg)@.len() == old(reg)@.len() - 1,
            !old(reg)@.contains_key(old(self).id()) ==> final(reg)@ == old(reg)@,
            forall|k: ConnId|
                k != old(self).id() ==> (#[trigger] final(reg)@.contains_key(k))
                    == old(reg)@.contains_key(k) && (old(reg)@.contains_key(k) ==> final(reg)@[k]
                    == old(reg)@[k]),
            final(self).consistent_with(final(reg)@),
    {
        reg.remove(self.id);
        self.phase = Phase::Closed;
    }
}

} // verus!
