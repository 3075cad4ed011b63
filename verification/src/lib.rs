use vstd::prelude::*;

pub mod bytes;
pub mod codec;
pub mod message;
pub mod nonce;
pub mod socket;

pub use message::WSMessage;
pub use message::WSStatusCode;
pub use socket::WebSocket;

verus! {

/// The error kinds that the library's operations surface.
#[derive(Clone, Copy, Debug, PartialEq, Eq, Structural)]
pub enum WSError {
    /// A value handed in was unusable: a bad URL, a handshake response
    /// whose status line is not 101, or an accept key that does not match.
    InvalidInput,
    /// An operation was attempted before the connection was opened.
    NotConnected,
    /// The underlying byte stream failed.
    Transport,
    /// A 64-bit frame length exceeds this machine's payload cap.
    TooLarge,
    /// The frame breaks the wire protocol: the reserved high bit of a
    /// 64-bit length is set.
    Protocol,
}

} // verus!
