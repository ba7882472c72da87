//! The outbound side of a connection: a handle through which frames are
//! queued for one peer.

use vstd::prelude::*;

use crate::error::SignalError;

verus! {

/// The sending half of an unbounded channel of `futures_channel`. Nothing
/// inside it is visible here; a value of it only names the channel it feeds.
#[verifier::external_type_specification]
#[verifier::external_body]
#[verifier::reject_recursive_types(T)]
pub struct ExUnboundedSender<T>(futures_channel::mpsc::UnboundedSender<T>);

/// A WebSocket message of `tungstenite`, carried through and never read.
#[verifier::external_type_specification]
#[verifier::external_body]
pub struct ExMessage(tungstenite::protocol::Message);

/// The handle through which frames are queued for one connection.
pub type Tx = futures_channel::mpsc::UnboundedSender<tungstenite::protocol::Message>;

/// `Clone::clone` of `futures_channel::mpsc::UnboundedSender`: a second handle
/// to the channel that `tx` feeds. All that a handle holds is the pointer to
/// its channel, and the clone holds the same one, so the two are equal as
/// values. The call counts the new handle in the channel, and panics only if
/// the channel already has `usize::MAX >> 2` live handles, which is more than
/// an address space holds.
#[verifier::external_body]
pub(crate) fn clone_sender(tx: &Tx) -> (handle: Tx)
    ensures
        handle == *tx,
{
    tx.clone()
}

/// `UnboundedSender::unbounded_send` with the text message that
/// `tungstenite::protocol::Message::from` makes of `frame`. The result says
/// whether the message was queued. It is not queued when the receiving half
/// is closed or dropped, which depends on the other end of the channel and
/// not on the arguments, so nothing is promised of the result. The call
/// panics only if `usize::MAX >> 1` messages already wait in the queue, which
/// is more than an address space holds.
#[verifier::external_body]
pub(crate) fn send_text(tx: &Tx, frame: &str) -> (queued: bool) {
    tx.unbounded_send(tungstenite::protocol::Message::from(frame)).is_ok()
}

/// What the relay reports for a frame it tried to queue.
pub fn delivery_result(queued: bool) -> (r: Result<(), SignalError>)
    ensures
        queued ==> r == Ok::<(), SignalError>(()),
        !queued ==> r == Err::<(), SignalError>(SignalError::TransportSendFailure),
{
    if queued {
        Ok(())
    } else {
        Err(SignalError::TransportSendFailure)
    }
}

} // verus!
