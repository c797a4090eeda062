//! The outbound side of a connection's message channel.
//!
//! Every task may enqueue messages for a connection; only the owning
//! connection task drains them.  The queue itself is the unbounded
//! multi-producer channel of the async runtime; this module declares its
//! sender half and puts the one call the library makes behind a contract.

use vstd::prelude::*;

use crate::messages::Message;

verus! {

#[verifier::external_type_specification]
#[verifier::external_body]
#[verifier::reject_recursive_types(T)]
pub struct ExUnboundedSender<T>(tokio::sync::mpsc::UnboundedSender<T>);

/// Relies on `tokio::sync::mpsc::UnboundedSender::send`: enqueueing never
/// blocks; it fails only when the receiving half is gone, and the error then
/// carries the rejected message back unchanged.
#[verifier::external_body]
pub(crate) fn channel_send(
    tx: &tokio::sync::mpsc::UnboundedSender<Message>,
    m: Message,
) -> (r: Result<(), Message>)
    ensures
        r matches Err(e) ==> e == m,
{
    match tx.send(m) {
        Ok(()) => Ok(()),
        Err(e) => Err(e.0),
    }
}

} // verus!
