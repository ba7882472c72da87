//! The six signalling messages.

use vstd::prelude::*;

verus! {

/// One decoded frame. Every message carries the sender's identity as UUID
/// text; the other field names the session to join or the peer to reach.
/// What else the frame holds (an offer, an answer, a candidate) is of no
/// concern to the relay and is not kept here.
#[derive(Debug, PartialEq, Eq)]
pub enum SignallerMessage {
    Offer { uuid: String, to: String },
    Answer { uuid: String, to: String },
    Ice { uuid: String, to: String },
    Join { uuid: String, room: String },
    Start { uuid: String },
    Leave { uuid: String },
}

} // verus!
