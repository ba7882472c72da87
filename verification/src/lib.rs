//! A rendezvous relay for peer-to-peer media sessions.
//!
//! One sharer and any number of viewers exchange negotiation frames through
//! the relay, which routes each frame by the identities it names and never
//! looks at the rest of it. The crate holds the session registry and the
//! routing rules; connections, framing and JSON decoding belong to the caller.

pub mod channel;
pub mod error;
pub mod identity;
pub mod laws;
pub mod message;
pub mod model;
pub mod router;
pub mod state;

pub use channel::Tx;
pub use error::SignalError;
pub use message::SignallerMessage;
