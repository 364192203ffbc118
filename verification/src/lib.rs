pub mod cache;
pub mod cdn;
pub mod chat;
pub mod codec_laws;
pub mod color;
pub mod config;
pub mod datetime;
pub mod embed;
pub mod emote;
pub mod event;
pub mod flair;
pub mod json;
pub mod json_laws;
pub mod json_parse;
pub mod json_print;
pub mod mock;
pub mod numbers;
pub mod text;

use vstd::prelude::*;

verus! {

/// The error taxonomy of the chat client: every fallible operation of the
/// library reports one of these.
#[derive(Debug, Clone, PartialEq, Eq)]
pub enum ChatError {
    /// Socket or TLS failure while connecting or transmitting.
    TransportError(String),
    /// The remote rejected the upgrade handshake, or sent an invalid frame
    /// sequence.
    ProtocolError(String),
    /// A wire line could not be decoded; carries the offending raw line.
    DecodeError(String),
    /// The event has no outbound wire token.
    EncodeError,
    /// The operation was invoked in an invalid connection state.
    StateError,
    /// Non-success HTTP response or transport failure while resolving a
    /// resource collection.
    FetchError(String),
    /// Filesystem or JSON parse failure for the persisted cache document.
    CacheIOError(String),
}

impl ChatError {
    /// True for the variants that `receive_next`-style operations report when
    /// the connection is not in the state the operation needs.
    pub fn is_state_error(&self) -> (r: bool)
        ensures
            r == (*self is StateError),
    {
        match self {
            ChatError::StateError => true,
            _ => false,
        }
    }
}

} // verus!
