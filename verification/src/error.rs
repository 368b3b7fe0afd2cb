//! What the relay rejects.

use vstd::prelude::*;

verus! {

/// An input that the relay turns away. None of these ends the relay: the
/// datagram is dropped, or the one handshake fails.
#[derive(Clone, Copy, Debug, PartialEq, Eq, Structural)]
pub enum RelayError {
    /// A datagram whose bytes are not UTF-8.
    UndecodableDatagram,
    /// A handshake whose request target does not make a URL.
    InvalidRequestTarget,
}

} // verus!
