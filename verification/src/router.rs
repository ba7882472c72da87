//! The router: what each of the six messages does to the registry, and to
//! whom the frame that carried it goes on.

use vstd::prelude::*;

use crate::channel::clone_sender;
use crate::channel::delivery_result;
use crate::channel::send_text;
use crate::channel::Tx;
use crate::error::SignalError;
use crate::identity::identity_of;
use crate::identity::parse_identity;
use crate::message::SignallerMessage;
use crate::model::StateView;
use crate::state::State;

verus! {

/// What an accepted message comes to: the registry after it, and the peer to
/// whom the frame is forwarded, if any.
#[verifier::ext_equal]
pub struct Routed {
    pub state: StateView,
    pub forward: Option<u128>,
}

/// Peer `id` opens its session. Nothing is forwarded.
pub open spec fn start(pre: StateView, sender: Tx, id: u128) -> Result<Routed, SignalError> {
    match pre.add_sharer(id, sender) {
        Ok(post) => Ok(Routed { state: post, forward: None }),
        Err(e) => Err(e),
    }
}

/// Peer `id` joins session `room`, and the frame goes to the peer `room`,
/// the session's sharer.
pub open spec fn join(pre: StateView, sender: Tx, id: u128, room: u128) -> Result<
    Routed,
    SignalError,
> {
    match pre.add_viewer(id, room, sender) {
        Ok(post) => Ok(Routed { state: post, forward: Some(room) }),
        Err(e) => Err(e),
    }
}

/// Peer `id` ends its session. Nothing is forwarded.
pub open spec fn leave(pre: StateView, id: u128) -> Result<Routed, SignalError> {
    match pre.end_session(id) {
        Ok(post) => Ok(Routed { state: post, forward: None }),
        Err(e) => Err(e),
    }
}

/// An offer, an answer or a candidate for peer `to`: the registry stays as it
/// is and the frame goes to `to`.
pub open spec fn relay(pre: StateView, to: u128) -> Result<Routed, SignalError> {
    if pre.peers.contains_key(to) {
        Ok(Routed { state: pre, forward: Some(to) })
    } else {
        Err(SignalError::PeerNotFound)
    }
}

/// A message from `uuid` for `to`, both still as text: refused where either
/// is no identity, else relayed to the peer that `to` names.
pub open spec fn relay_text(pre: StateView, uuid: Seq<char>, to: Seq<char>) -> Result<
    Routed,
    SignalError,
> {
    match identity_of(uuid) {
        Ok(_) => match identity_of(to) {
            Ok(id) => relay(pre, id),
            Err(e) => Err(e),
        },
        Err(e) => Err(e),
    }
}

/// The transition that `msg` asks for, on a registry `pre`, from a connection
/// reachable through `sender`. Every identity that the message carries is
/// read before anything else, the sender's first.
pub open spec fn route_spec(pre: StateView, sender: Tx, msg: SignallerMessage) -> Result<
    Routed,
    SignalError,
> {
    match msg {
        SignallerMessage::Join { uuid, room } => match identity_of(uuid@) {
            Ok(id) => match identity_of(room@) {
                Ok(session) => join(pre, sender, id, session),
                Err(e) => Err(e),
            },
            Err(e) => Err(e),
        },
        SignallerMessage::Start { uuid } => match identity_of(uuid@) {
            Ok(id) => start(pre, sender, id),
            Err(e) => Err(e),
        },
        SignallerMessage::Leave { uuid } => match identity_of(uuid@) {
            Ok(id) => leave(pre, id),
            Err(e) => Err(e),
        },
        SignallerMessage::Offer { uuid, to } => relay_text(pre, uuid@, to@),
        SignallerMessage::Answer { uuid, to } => relay_text(pre, uuid@, to@),
        SignallerMessage::Ice { uuid, to } => relay_text(pre, uuid@, to@),
    }
}

/// Applies one decoded message to the registry and says to whom its frame is
/// to be forwarded. A refused message leaves the registry untouched.
pub fn route(state: &mut State, tx: &Tx, msg: &SignallerMessage) -> (r: Result<
    Option<u128>,
    SignalError,
>)
    ensures
        match route_spec(old(state)@, *tx, *msg) {
            Ok(routed) => {
                &&& r == Ok::<Option<u128>, SignalError>(routed.forward)
                &&& final(state)@ == routed.state
                &&& routed.forward matches Some(to) ==> routed.state.peers.contains_key(to)
            },
            Err(e) => r == Err::<Option<u128>, SignalError>(e) && final(state)@ == old(state)@,
        },
        old(state)@.wf(),
        final(state)@.wf(),
{
    proof {
        use_type_invariant(&*state);
    }
    match msg {
        SignallerMessage::Join { uuid, room } => {
            let id = match parse_identity(uuid.as_str()) {
                Ok(id) => id,
                Err(e) => {
                    return Err(e);
                },
            };
            let session = match parse_identity(room.as_str()) {
                Ok(session) => session,
                Err(e) => {
                    return Err(e);
                },
            };
            match state.add_viewer(id, session, clone_sender(tx)) {
                Ok(()) => {
                    assert(state@.shared(session));
                    Ok(Some(session))
                },
                Err(e) => Err(e),
            }
        },
        SignallerMessage::Start { uuid } => {
            let id = match parse_identity(uuid.as_str()) {
                Ok(id) => id,
                Err(e) => {
                    return Err(e);
                },
            };
            match state.add_sharer(id, clone_sender(tx)) {
                Ok(()) => Ok(None),
                Err(e) => Err(e),
            }
        },
        SignallerMessage::Leave { uuid } => {
            let id = match parse_identity(uuid.as_str()) {
                Ok(id) => id,
                Err(e) => {
                    return Err(e);
                },
            };
            match state.end_session(id) {
                Ok(()) => Ok(None),
                Err(e) => Err(e),
            }
        },
        SignallerMessage::Offer { uuid, to }
        | SignallerMessage::Answer { uuid, to }
        | SignallerMessage::Ice { uuid, to } => {
            if let Err(e) = parse_identity(uuid.as_str()) {
                return Err(e);
            }
            let id = match parse_identity(to.as_str()) {
                Ok(id) => id,
                Err(e) => {
                    return Err(e);
                },
            };
            if state.get_peer(id).is_none() {
                return Err(SignalError::PeerNotFound);
            }
            Ok(Some(id))
        },
    }
}

/// What is handed to the channel for a frame meant for peer `to`: the handle
/// on `to`'s record and the frame as it came in. `None` where `to` is not
/// registered.
pub fn outbound<'a>(state: &'a State, to: u128, raw_payload: &'a str) -> (r: Option<
    (&'a Tx, &'a str),
>)
    ensures
        match r {
            Some((tx, frame)) => {
                &&& state@.peers.contains_key(to)
                &&& *tx == state@.peers[to].sender
                &&& frame@ == raw_payload@
            },
            None => !state@.peers.contains_key(to),
        },
{
    match state.get_peer(to) {
        Some(peer) => Some((peer.sender(), raw_payload)),
        None => None,
    }
}

/// What a frame asks of the registry: nothing, where it decoded to no
/// message; else what its message asks.
pub open spec fn handle_spec(pre: StateView, sender: Tx, decoded: Option<SignallerMessage>) -> Result<
    Routed,
    SignalError,
> {
    match decoded {
        Some(msg) => route_spec(pre, sender, msg),
        None => Err(SignalError::MalformedMessage),
    }
}

/// Handles one received frame. `raw_payload` is the frame as it came in and
/// `decoded` the message it holds, `None` where it holds none; `tx` reaches
/// the connection it came from. The message is applied to the registry, and
/// where it calls for it the frame is queued, as it came in, for the peer it
/// is meant for.
///
/// A refused frame changes nothing. A frame whose recipient has gone away
/// is reported as `TransportSendFailure`, with the registry as the message
/// left it.
pub fn handle_message(
    state: &mut State,
    tx: &Tx,
    decoded: Option<SignallerMessage>,
    raw_payload: &str,
) -> (r: Result<(), SignalError>)
    ensures
        match handle_spec(old(state)@, *tx, decoded) {
            Ok(routed) => {
                &&& final(state)@ == routed.state
                &&& r is Ok || r == Err::<(), SignalError>(SignalError::TransportSendFailure)
                &&& routed.forward is None ==> r is Ok
            },
            Err(e) => r == Err::<(), SignalError>(e) && final(state)@ == old(state)@,
        },
        old(state)@.wf(),
        final(state)@.wf(),
{
    proof {
        use_type_invariant(&*state);
    }
    let msg = match decoded {
        Some(msg) => msg,
        None => {
            return Err(SignalError::MalformedMessage);
        },
    };
    match route(state, tx, &msg) {
        Ok(Some(to)) => {
            let (target, frame) = outbound(state, to, raw_payload).unwrap();
            delivery_result(send_text(target, frame))
        },
        Ok(None) => Ok(()),
        Err(e) => Err(e),
    }
}

} // verus!
