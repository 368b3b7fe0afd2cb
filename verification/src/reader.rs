//! The read loop of one session as a state machine.
//!
//! The caller blocks on the socket and classifies what it read; the step
//! below says what that does to the registry and whether the loop goes on.

use crate::scale_server::{ScaleServer, ServerView};
use crate::session::ConnectionId;
use vstd::prelude::*;

verus! {

/// What the read loop of a session got from its socket.
#[derive(Clone, Copy, Debug, PartialEq, Eq, Structural)]
pub enum Inbound {
    /// A ping frame.
    Ping,
    /// A close frame.
    Close,
    /// Any other frame: the client has spoken.
    Frame,
    /// The read failed.
    ReadError,
}

/// Where the read loop of a session stands.
#[derive(Clone, Copy, Debug, PartialEq, Eq, Structural)]
pub enum ReadState {
    /// The loop waits for the next frame.
    Reading,
    /// The loop has ended and the session is gone.
    Closed,
}

/// The state of the read loop after `event`: a close frame or a failed read
/// ends it, and nothing starts it again.
pub open spec fn read_step(state: ReadState, event: Inbound) -> ReadState {
    match (state, event) {
        (ReadState::Reading, Inbound::Ping) => ReadState::Reading,
        (ReadState::Reading, Inbound::Frame) => ReadState::Reading,
        _ => ReadState::Closed,
    }
}

impl ServerView {
    /// The registry after the read loop of session `id`, standing at `state`,
    /// got `event`. A ping changes nothing; another frame clears the
    /// session's memory of the last payload; the event that ends the loop
    /// drops the session; an ended loop changes nothing any more.
    pub open spec fn after_inbound(
        self,
        id: ConnectionId,
        state: ReadState,
        event: Inbound,
    ) -> ServerView {
        match (state, event) {
            (ReadState::Closed, _) => self,
            (ReadState::Reading, Inbound::Ping) => self,
            (ReadState::Reading, Inbound::Frame) => self.cleared(id),
            (ReadState::Reading, _) => self.without(set![id]),
        }
    }
}

impl ScaleServer {
    /// One step of the read loop of session `connection_id`.
    pub fn handle_inbound(
        &mut self,
        connection_id: &ConnectionId,
        state: ReadState,
        event: Inbound,
    ) -> (next: ReadState)
        requires
            old(self).wf(),
        ensures
            final(self).wf(),
            next == read_step(state, event),
            final(self)@ == old(self)@.after_inbound(*connection_id, state, event),
    {
        match state {
            ReadState::Closed => ReadState::Closed,
            ReadState::Reading => match event {
                Inbound::Ping => ReadState::Reading,
                Inbound::Frame => {
                    self.clear_message_history(connection_id);
                    ReadState::Reading
                },
                Inbound::Close | Inbound::ReadError => {
                    self.remove_connection(connection_id);
                    ReadState::Closed
                },
            },
        }
    }
}

} // verus!
