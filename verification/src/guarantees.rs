//! What holds of the relay whatever the order of events, stated over the
//! registry as the contracts see it.

use crate::message::{has_two_separators, lemma_parse_malformed, parse_message, SEPARATOR};
use crate::reader::{Inbound, ReadState};
use crate::scale_server::ServerView;
use crate::session::ConnectionId;
use vstd::prelude::*;

verus! {

/// Repeat suppression. A session without filter to which the payload is no
/// repeat is owed a frame for the message; once the message was forwarded,
/// the same message calls for no frame to that session, whether the send
/// went through or not. With the plan naming no session twice, two
/// forwardings in a row make one frame for the session.
pub proof fn lemma_repeat_is_suppressed(
    server: ServerView,
    id: ConnectionId,
    raw: Seq<char>,
    failed: Set<ConnectionId>,
)
    requires
        server.sessions.contains_key(id),
        server.sessions[id].filter is None,
        parse_message(raw) matches Some((_, payload)) && !server.sessions[id].is_duplicate(
            payload,
        ),
    ensures
        server.recipients(raw).contains(id),
        !server.forwarded(raw, failed).recipients(raw).contains(id),
{
}

/// A repeat is suppressed for a filtered session too: a session that was
/// owed a frame for a message is owed none for the same message next.
pub proof fn lemma_forwarded_once(
    server: ServerView,
    id: ConnectionId,
    raw: Seq<char>,
    failed: Set<ConnectionId>,
)
    requires
        server.recipients(raw).contains(id),
    ensures
        !server.forwarded(raw, failed).recipients(raw).contains(id),
        !failed.contains(id) ==> server.forwarded(raw, failed).sessions.contains_key(id),
        parse_message(raw) matches Some((_, payload)) && (!failed.contains(id)
            ==> server.forwarded(raw, failed).sessions[id].last_sent == Some(payload)),
{
}

/// A filter keeps out every sender that it does not name.
pub proof fn lemma_filter_keeps_out(
    server: ServerView,
    id: ConnectionId,
    raw: Seq<char>,
)
    requires
        server.sessions.contains_key(id),
        server.sessions[id].filter matches Some(ids) && parse_message(raw) matches Some(
            (scale_id, _),
        ) && !ids.contains(scale_id),
    ensures
        !server.recipients(raw).contains(id),
{
}

/// A session without filter is owed a frame for every sender's message,
/// unless the payload repeats the one delivered last.
pub proof fn lemma_unfiltered_lets_in(
    server: ServerView,
    id: ConnectionId,
    raw: Seq<char>,
)
    requires
        server.sessions.contains_key(id),
        server.sessions[id].filter is None,
        parse_message(raw) matches Some((_, payload)) && !server.sessions[id].is_duplicate(
            payload,
        ),
    ensures
        server.recipients(raw).contains(id),
{
}

/// The filter of a session is the one it was opened with, for as long as
/// the session lives: no event changes it.
pub proof fn lemma_filter_is_fixed(
    server: ServerView,
    id: ConnectionId,
    filter: Option<Seq<Seq<char>>>,
    raw: Seq<char>,
    ids: Set<ConnectionId>,
    other: ConnectionId,
    state: ReadState,
    event: Inbound,
)
    requires
        server.wf(),
    ensures
        server.opened(filter).sessions[server.next_id].filter == filter,
        server.sessions.contains_key(id) ==> server.opened(filter).sessions[id].filter
            == server.sessions[id].filter,
        server.forwarded(raw, ids).sessions.contains_key(id) ==> server.forwarded(
            raw,
            ids,
        ).sessions[id].filter == server.sessions[id].filter,
        server.without(ids).sessions.contains_key(id) ==> server.without(ids).sessions[id].filter
            == server.sessions[id].filter,
        server.after_inbound(other, state, event).sessions.contains_key(id)
            ==> server.after_inbound(other, state, event).sessions[id].filter
            == server.sessions[id].filter,
{
}

/// After the client of a session has spoken, a payload that was suppressed
/// as a repeat is owed to the session again.
pub proof fn lemma_client_frame_resets(server: ServerView, id: ConnectionId, raw: Seq<char>)
    requires
        server.sessions.contains_key(id),
        parse_message(raw) matches Some((scale_id, payload)) && server.sessions[id].matches_filter(
            scale_id,
        ) && server.sessions[id].is_duplicate(payload),
    ensures
        !server.recipients(raw).contains(id),
        server.after_inbound(id, ReadState::Reading, Inbound::Frame).recipients(raw).contains(id),
{
}

/// A session whose send failed is gone for good. It is in no later plan,
/// neither of a message nor of a heartbeat; to drop it again changes
/// nothing; and no later event brings its id back, since a new session gets
/// an id above every id given before.
pub proof fn lemma_failed_session_is_gone(
    server: ServerView,
    id: ConnectionId,
    raw: Seq<char>,
    failed: Set<ConnectionId>,
    later: Seq<char>,
    later_failed: Set<ConnectionId>,
    filter: Option<Seq<Seq<char>>>,
    other: ConnectionId,
    state: ReadState,
    event: Inbound,
)
    requires
        server.wf(),
        server.recipients(raw).contains(id),
        failed.contains(id),
    ensures
        ({
            let after = server.forwarded(raw, failed);
            &&& after.wf()
            &&& !after.sessions.contains_key(id)
            &&& !after.recipients(later).contains(id)
            &&& after.without(set![id]) == after
            &&& !after.forwarded(later, later_failed).sessions.contains_key(id)
            &&& !after.without(later_failed).sessions.contains_key(id)
            &&& !after.opened(filter).sessions.contains_key(id)
            &&& !after.after_inbound(other, state, event).sessions.contains_key(id)
        }),
{
    let after = server.forwarded(raw, failed);
    lemma_forwarded_keeps_wf(server, raw, failed);
    assert(after.without(set![id]).sessions =~= after.sessions);
}

/// A session dropped after a failed heartbeat is gone in the same way.
pub proof fn lemma_failed_heartbeat_is_gone(
    server: ServerView,
    id: ConnectionId,
    failed: Set<ConnectionId>,
    later: Seq<char>,
    later_failed: Set<ConnectionId>,
    filter: Option<Seq<Seq<char>>>,
)
    requires
        server.wf(),
        server.sessions.contains_key(id),
        failed.contains(id),
    ensures
        ({
            let after = server.without(failed);
            &&& after.wf()
            &&& !after.sessions.contains_key(id)
            &&& !after.recipients(later).contains(id)
            &&& after.without(set![id]) == after
            &&& !after.forwarded(later, later_failed).sessions.contains_key(id)
            &&& !after.without(later_failed).sessions.contains_key(id)
            &&& !after.opened(filter).sessions.contains_key(id)
        }),
{
    let after = server.without(failed);
    lemma_without_keeps_wf(server, failed);
    assert(after.without(set![id]).sessions =~= after.sessions);
}

/// A text without the separator, or with more than one, calls for no frame
/// and leaves every session as it is.
pub proof fn lemma_malformed_changes_nothing(
    server: ServerView,
    raw: Seq<char>,
    failed: Set<ConnectionId>,
)
    requires
        !raw.contains(SEPARATOR) || has_two_separators(raw),
    ensures
        server.recipients(raw) == Set::<ConnectionId>::empty(),
        server.forwarded(raw, failed) == server,
{
    lemma_parse_malformed(raw);
}

/// Ids only grow. A new session gets an id that no live session has, and
/// every event keeps the registry's invariant and never lowers the next id.
pub proof fn lemma_ids_are_fresh(server: ServerView, filter: Option<Seq<Seq<char>>>)
    requires
        server.wf(),
        server.next_id < usize::MAX,
    ensures
        !server.sessions.contains_key(server.next_id),
        server.opened(filter).wf(),
        server.opened(filter).next_id == server.next_id + 1,
        forall|id: ConnectionId| #[trigger]
            server.sessions.contains_key(id) ==> id < server.next_id,
{
}

/// Forwarding keeps the registry's invariant and the next id.
pub proof fn lemma_forwarded_keeps_wf(
    server: ServerView,
    raw: Seq<char>,
    failed: Set<ConnectionId>,
)
    requires
        server.wf(),
    ensures
        server.forwarded(raw, failed).wf(),
        server.forwarded(raw, failed).next_id == server.next_id,
        server.forwarded(raw, failed).sessions.dom().subset_of(server.sessions.dom()),
{
    let after = server.forwarded(raw, failed);
    assert(after.sessions.dom().subset_of(server.sessions.dom()));
    vstd::set_lib::lemma_len_subset(after.sessions.dom(), server.sessions.dom());
}

/// Dropping sessions keeps the registry's invariant and the next id.
pub proof fn lemma_without_keeps_wf(server: ServerView, ids: Set<ConnectionId>)
    requires
        server.wf(),
    ensures
        server.without(ids).wf(),
        server.without(ids).next_id == server.next_id,
        server.without(ids).sessions.dom().subset_of(server.sessions.dom()),
{
    let after = server.without(ids);
    assert(after.sessions.dom().subset_of(server.sessions.dom()));
    vstd::set_lib::lemma_len_subset(after.sessions.dom(), server.sessions.dom());
}

/// A step of a read loop keeps the registry's invariant and the next id.
pub proof fn lemma_inbound_keeps_wf(
    server: ServerView,
    id: ConnectionId,
    state: ReadState,
    event: Inbound,
)
    requires
        server.wf(),
    ensures
        server.after_inbound(id, state, event).wf(),
        server.after_inbound(id, state, event).next_id == server.next_id,
        server.after_inbound(id, state, event).sessions.dom().subset_of(server.sessions.dom()),
{
    lemma_without_keeps_wf(server, set![id]);
}

} // verus!
