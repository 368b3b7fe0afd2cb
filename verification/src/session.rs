//! One subscriber session: its filter and its memory of the last payload
//! delivered.

use vstd::prelude::*;

verus! {

pub type ConnectionId = usize;

/// A session as the contracts see it.
pub struct ConnectionView {
    /// The session's id.
    pub id: ConnectionId,
    /// The sender ids that the session asked for; `None` asks for all.
    pub filter: Option<Seq<Seq<char>>>,
    /// The payload delivered last, unless the client has spoken since.
    pub last_sent: Option<Seq<char>>,
}

impl ConnectionView {
    /// A session as it is right after the handshake.
    pub open spec fn fresh(id: ConnectionId, filter: Option<Seq<Seq<char>>>) -> ConnectionView {
        ConnectionView { id, filter, last_sent: None }
    }

    /// The filter lets the sender through.
    pub open spec fn matches_filter(self, scale_id: Seq<char>) -> bool {
        match self.filter {
            Some(ids) => ids.contains(scale_id),
            None => true,
        }
    }

    /// The payload repeats the one delivered last.
    pub open spec fn is_duplicate(self, payload: Seq<char>) -> bool {
        self.last_sent == Some(payload)
    }

    /// The session is owed a frame for this message.
    pub open spec fn wants(self, scale_id: Seq<char>, payload: Seq<char>) -> bool {
        self.matches_filter(scale_id) && !self.is_duplicate(payload)
    }

    /// The session after `payload` was delivered to it.
    pub open spec fn delivered(self, payload: Seq<char>) -> ConnectionView {
        ConnectionView { last_sent: Some(payload), ..self }
    }

    /// The session after its client has spoken.
    pub open spec fn cleared(self) -> ConnectionView {
        ConnectionView { last_sent: None, ..self }
    }
}

/// One live subscriber.
pub struct Connection {
    id: ConnectionId,
    filter_scale_ids: Option<Vec<String>>,
    last_message_sent: Option<String>,
}

impl View for Connection {
    type V = ConnectionView;

    closed spec fn view(&self) -> ConnectionView {
        ConnectionView {
            id: self.id,
            filter: self.filter_scale_ids.deep_view(),
            last_sent: self.last_message_sent.deep_view(),
        }
    }
}

impl Connection {
    /// A session with the given filter that has been sent nothing yet.
    pub fn new(id: ConnectionId, filter_scale_ids: Option<Vec<String>>) -> (connection: Connection)
        ensures
            connection@ == ConnectionView::fresh(id, filter_scale_ids.deep_view()),
    {
        Connection { id, filter_scale_ids, last_message_sent: None }
    }

    /// The session's id.
    pub fn id(&self) -> (id: ConnectionId)
        ensures
            id == self@.id,
    {
        self.id
    }

    /// The sender ids that the session asked for.
    pub fn filter_scale_ids(&self) -> (filter: &Option<Vec<String>>)
        ensures
            filter.deep_view() == self@.filter,
    {
        &self.filter_scale_ids
    }

    /// The payload delivered last, unless the client has spoken since.
    pub fn last_message_sent(&self) -> (last: &Option<String>)
        ensures
            last.deep_view() == self@.last_sent,
    {
        &self.last_message_sent
    }

    /// Whether the filter lets the sender through.
    pub fn matches_filter(&self, scale_id: &str) -> (r: bool)
        ensures
            r == self@.matches_filter(scale_id@),
    {
        match &self.filter_scale_ids {
            Some(ids) => {
                let wanted = String::from_str(scale_id);
                let mut k: usize = 0;
                while k < ids.len()
                    invariant
                        k <= ids.len(),
                        wanted@ == scale_id@,
                        self@.filter == Some(ids.deep_view()),
                        forall|j: int| 0 <= j < k ==> ids.deep_view()[j] != scale_id@,
                    decreases ids.len() - k,
                {
                    if ids[k] == wanted {
                        assert(ids.deep_view()[k as int] == scale_id@);
                        return true;
                    }
                    k += 1;
                }
                false
            },
            None => true,
        }
    }

    /// Whether the payload repeats the one delivered last.
    pub fn is_duplicate(&self, message: &str) -> (r: bool)
        ensures
            r == self@.is_duplicate(message@),
    {
        match &self.last_message_sent {
            Some(last) => *last == String::from_str(message),
            None => false,
        }
    }

    /// Remembers `message` as the payload delivered last.
    pub fn record_delivery(&mut self, message: &str)
        ensures
            final(self)@ == old(self)@.delivered(message@),
    {
        self.last_message_sent = Some(String::from_str(message));
    }

    /// Forgets the payload delivered last.
    pub fn clear_history(&mut self)
        ensures
            final(self)@ == old(self)@.cleared(),
    {
        self.last_message_sent = None;
    }
}

} // verus!
