//! The session registry and the rules of forwarding.
//!
//! The registry never touches a socket. For a message or a heartbeat it says
//! which frame is owed to which session; the caller sends them and reports
//! the sessions whose send failed; the registry then records the deliveries
//! and drops the failed sessions.

use crate::message::{extract_message, frame_text, message_to_json, parse_message};
use crate::session::{Connection, ConnectionId, ConnectionView};
use std::collections::HashMap;
use vstd::prelude::*;

verus! {

/// The registry as the contracts see it.
#[verifier::ext_equal]
pub struct ServerView {
    /// The live sessions by id.
    pub sessions: Map<ConnectionId, ConnectionView>,
    /// The id that the next session gets.
    pub next_id: ConnectionId,
}

impl ServerView {
    /// Every session is filed under its own id, and every id in use lies
    /// below the next one, so that no id is given twice.
    pub open spec fn wf(self) -> bool {
        &&& self.sessions.dom().finite()
        &&& forall|id: ConnectionId| #[trigger]
            self.sessions.contains_key(id) ==> id < self.next_id && self.sessions[id].id == id
    }

    /// The registry before the first handshake.
    pub open spec fn empty() -> ServerView {
        ServerView { sessions: Map::empty(), next_id: 0 }
    }

    /// The registry after a handshake that asked for `filter`.
    pub open spec fn opened(self, filter: Option<Seq<Seq<char>>>) -> ServerView {
        ServerView {
            sessions: self.sessions.insert(
                self.next_id,
                ConnectionView::fresh(self.next_id, filter),
            ),
            next_id: (self.next_id + 1) as ConnectionId,
        }
    }

    /// The registry without the sessions in `ids`.
    pub open spec fn without(self, ids: Set<ConnectionId>) -> ServerView {
        ServerView { sessions: self.sessions.remove_keys(ids), next_id: self.next_id }
    }

    /// The sessions that are owed a frame for a message: those whose filter
    /// lets the sender through and to which the payload is no repeat.
    pub open spec fn owed(self, scale_id: Seq<char>, payload: Seq<char>) -> Set<ConnectionId> {
        Set::new(
            |id: ConnectionId|
                self.sessions.contains_key(id) && self.sessions[id].wants(scale_id, payload),
        )
    }

    /// The sessions that are owed a frame for a datagram's text: none where
    /// the text is no message.
    pub open spec fn recipients(self, raw: Seq<char>) -> Set<ConnectionId> {
        match parse_message(raw) {
            Some((scale_id, payload)) => self.owed(scale_id, payload),
            None => Set::empty(),
        }
    }

    /// The registry after `payload` was sent to the sessions in `targets`
    /// and the sends to those in `failed` failed: a target whose send failed
    /// is gone, every other target remembers the payload, and the sessions
    /// that were no target are as they were.
    pub open spec fn sent(
        self,
        payload: Seq<char>,
        targets: Set<ConnectionId>,
        failed: Set<ConnectionId>,
    ) -> ServerView {
        ServerView {
            sessions: Map::new(
                |id: ConnectionId|
                    self.sessions.contains_key(id) && !(targets.contains(id) && failed.contains(
                        id,
                    )),
                |id: ConnectionId|
                    if targets.contains(id) {
                        self.sessions[id].delivered(payload)
                    } else {
                        self.sessions[id]
                    },
            ),
            next_id: self.next_id,
        }
    }

    /// The registry after a datagram's text was forwarded and the sends to
    /// the sessions in `failed` failed. A text that is no message changes
    /// nothing.
    pub open spec fn forwarded(self, raw: Seq<char>, failed: Set<ConnectionId>) -> ServerView {
        match parse_message(raw) {
            Some((scale_id, payload)) => self.sent(payload, self.owed(scale_id, payload), failed),
            None => self,
        }
    }

    /// The registry after the client of session `id` has spoken.
    pub open spec fn cleared(self, id: ConnectionId) -> ServerView {
        if self.sessions.contains_key(id) {
            ServerView {
                sessions: self.sessions.insert(id, self.sessions[id].cleared()),
                next_id: self.next_id,
            }
        } else {
            self
        }
    }
}

/// One frame owed to one session.
pub struct Delivery {
    /// The session to send to.
    pub session: ConnectionId,
    /// The text of the frame.
    pub frame: String,
}

/// The sessions that a plan sends to, in the plan's order.
pub open spec fn plan_sessions(plan: Seq<Delivery>) -> Seq<ConnectionId> {
    plan.map_values(|delivery: Delivery| delivery.session)
}

/// Whether `id` is among `ids`.
fn contains_id(ids: &Vec<ConnectionId>, id: ConnectionId) -> (r: bool)
    ensures
        r == ids@.contains(id),
{
    let mut k: usize = 0;
    while k < ids.len()
        invariant
            k <= ids.len(),
            forall|j: int| 0 <= j < k ==> ids@[j] != id,
        decreases ids.len() - k,
    {
        if ids[k] == id {
            return true;
        }
        k += 1;
    }
    false
}

/// A sequence without repeats stays so when a value that it lacks is put
/// at its end.
proof fn lemma_push_fresh(ids: Seq<ConnectionId>, id: ConnectionId)
    requires
        ids.no_duplicates(),
        !ids.contains(id),
    ensures
        ids.push(id).no_duplicates(),
{
    assert forall|i: int, j: int|
        0 <= i < ids.len() + 1 && 0 <= j < ids.len() + 1 && i != j implies ids.push(id)[i]
        != ids.push(id)[j] by {
        if i < ids.len() {
            assert(ids.contains(ids[i]));
        }
        if j < ids.len() {
            assert(ids.contains(ids[j]));
        }
    }
}

/// The live subscriber sessions.
pub struct ScaleServer {
    connections: HashMap<ConnectionId, Connection>,
    next_connection_id: ConnectionId,
}

impl View for ScaleServer {
    type V = ServerView;

    closed spec fn view(&self) -> ServerView {
        ServerView {
            sessions: self.connections@.map_values(|c: Connection| c@),
            next_id: self.next_connection_id,
        }
    }
}

impl ScaleServer {
    /// The invariant of the registry.
    pub open spec fn wf(&self) -> bool {
        self@.wf()
    }

    /// The sessions of the view are those of the map, and they are finitely
    /// many.
    proof fn lemma_sessions_finite(&self)
        ensures
            self@.sessions.dom() == self.connections@.dom(),
            self@.sessions.dom().finite(),
    {
        assert(self@.sessions.dom() =~= self.connections@.dom());
    }

    /// A registry without sessions.
    pub fn new() -> (server: ScaleServer)
        ensures
            server.wf(),
            server@ == ServerView::empty(),
    {
        let server = ScaleServer { connections: HashMap::new(), next_connection_id: 0 };
        assert(server@.sessions == Map::<ConnectionId, ConnectionView>::empty());
        server
    }

    /// Registers a session after a handshake: allocates the next id and files
    /// a session with the given filter, to which nothing has been sent yet.
    pub fn add_connection(&mut self, filter_scale_ids: Option<Vec<String>>) -> (id: ConnectionId)
        requires
            old(self).wf(),
            old(self)@.next_id < usize::MAX,
        ensures
            final(self).wf(),
            id == old(self)@.next_id,
            !old(self)@.sessions.contains_key(id),
            final(self)@ == old(self)@.opened(filter_scale_ids.deep_view()),
    {
        let id = self.next_connection_id;
        let connection = Connection::new(id, filter_scale_ids);
        self.connections.insert(id, connection);
        self.next_connection_id += 1;
        assert(self@.sessions == old(self)@.sessions.insert(id, connection@));
        id
    }

    /// Drops a session and hands out its record; dropping a session that is
    /// not there changes nothing.
    pub fn remove_connection(&mut self, connection_id: &ConnectionId) -> (removed: Option<
        Connection,
    >)
        requires
            old(self).wf(),
        ensures
            final(self).wf(),
            final(self)@ == old(self)@.without(set![*connection_id]),
            match removed {
                Some(connection) => old(self)@.sessions.contains_key(*connection_id)
                    && connection@ == old(self)@.sessions[*connection_id],
                None => !old(self)@.sessions.contains_key(*connection_id),
            },
    {
        let removed = self.connections.remove(connection_id);
        proof {
            self.lemma_sessions_finite();
            assert(self@.sessions == old(self)@.sessions.remove_keys(set![*connection_id]));
        }
        removed
    }

    /// Forgets what was delivered last to a session, so that the next
    /// payload is forwarded to it even if it repeats. Nothing changes where
    /// the session is not there.
    pub fn clear_message_history(&mut self, client_id: &ConnectionId)
        requires
            old(self).wf(),
        ensures
            final(self).wf(),
            final(self)@ == old(self)@.cleared(*client_id),
    {
        match self.connections.remove(client_id) {
            Some(connection) => {
                let mut connection = connection;
                connection.clear_history();
                self.connections.insert(*client_id, connection);
                assert(self@.sessions == old(self)@.sessions.insert(
                    *client_id,
                    old(self)@.sessions[*client_id].cleared(),
                ));
            },
            None => {
                assert(self.connections@ == old(self).connections@);
            },
        }
    }

    /// The id that the next session gets.
    pub fn next_connection_id(&self) -> (id: ConnectionId)
        ensures
            id == self@.next_id,
    {
        self.next_connection_id
    }

    /// The record of a session.
    pub fn connection(&self, connection_id: &ConnectionId) -> (found: Option<&Connection>)
        ensures
            match found {
                Some(connection) => self@.sessions.contains_key(*connection_id) && connection@
                    == self@.sessions[*connection_id],
                None => !self@.sessions.contains_key(*connection_id),
            },
    {
        self.connections.get(connection_id)
    }

    /// The ids of the live sessions, each once, in no particular order.
    pub fn connection_ids(&self) -> (ids: Vec<ConnectionId>)
        ensures
            ids@.no_duplicates(),
            ids@.to_set() == self@.sessions.dom(),
    {
        let mut ids: Vec<ConnectionId> = Vec::new();
        for id in it: self.connections.keys()
            invariant
                it.seq().no_duplicates(),
                it.seq().unref().to_set() == self.connections@.dom(),
                ids@ == it.seq().unref().take(it.index()),
                it.index() == it.seq().len() ==> ids@ == it.seq().unref(),
        {
            ids.push(*id);
            assert(it.seq().unref().take(it.seq().len() as int) == it.seq().unref());
        }
        proof {
            self.lemma_sessions_finite();
        }
        ids
    }

    /// The ids of the sessions that are owed a frame for a message, each
    /// once.
    fn owed_sessions(&self, scale_id: &str, payload: &str) -> (ids: Vec<ConnectionId>)
        ensures
            ids@.no_duplicates(),
            ids@.to_set() == self@.owed(scale_id@, payload@),
    {
        let all = self.connection_ids();
        let mut ids: Vec<ConnectionId> = Vec::new();
        let mut k: usize = 0;
        while k < all.len()
            invariant
                k <= all.len(),
                all@.no_duplicates(),
                all@.to_set() == self@.sessions.dom(),
                ids@.no_duplicates(),
                forall|id: ConnectionId|
                    ids@.contains(id) <==> all@.take(k as int).contains(id) && self@.owed(
                        scale_id@,
                        payload@,
                    ).contains(id),
            decreases all.len() - k,
        {
            let id = all[k];
            let ghost seen = all@.take(k as int);
            let ghost before = ids@;
            proof {
                assert(all@.to_set().contains(id));
                assert(all@.take(k + 1) == seen.push(id));
                if seen.contains(id) {
                    let j = choose|j: int| 0 <= j < seen.len() && seen[j] == id;
                    assert(all@[j] == all@[k as int]);
                }
            }
            let mut wanted = false;
            match self.connections.get(&id) {
                Some(connection) => {
                    wanted = connection.matches_filter(scale_id) && !connection.is_duplicate(
                        payload,
                    );
                },
                None => {},
            }
            assert(wanted == self@.owed(scale_id@, payload@).contains(id));
            if wanted {
                ids.push(id);
                proof {
                    lemma_push_fresh(before, id);
                }
            }
            proof {
                assert forall|x: ConnectionId|
                    ids@.contains(x) <==> seen.push(id).contains(x) && self@.owed(
                        scale_id@,
                        payload@,
                    ).contains(x) by {
                    vstd::seq_lib::lemma_seq_contains_after_push(seen, id, x);
                    if wanted {
                        vstd::seq_lib::lemma_seq_contains_after_push(before, id, x);
                    }
                }
            }
            k += 1;
        }
        assert(all@.take(k as int) == all@);
        assert(ids@.to_set() == self@.owed(scale_id@, payload@));
        ids
    }

    /// The frames that a datagram's text calls for: one frame, carrying the
    /// message, for each session whose filter lets the sender through and to
    /// which the payload is no repeat. A text that is no message calls for
    /// none. The registry is left as it is; `forward_message` records what
    /// became of the sends.
    pub fn forward_plan(&self, message: &str) -> (plan: Vec<Delivery>)
        ensures
            plan_sessions(plan@).no_duplicates(),
            plan_sessions(plan@).to_set() == self@.recipients(message@),
            match parse_message(message@) {
                Some((scale_id, payload)) => forall|k: int|
                    0 <= k < plan.len() ==> (#[trigger] plan[k]).frame@ == frame_text(
                        scale_id,
                        payload,
                    ),
                None => plan.len() == 0,
            },
    {
        let mut plan: Vec<Delivery> = Vec::new();
        match extract_message(message) {
            Some((scale_id, payload)) => {
                let targets = self.owed_sessions(scale_id, payload);
                let mut k: usize = 0;
                while k < targets.len()
                    invariant
                        k <= targets.len(),
                        parse_message(message@) == Some((scale_id@, payload@)),
                        plan_sessions(plan@) == targets@.take(k as int),
                        forall|j: int|
                            0 <= j < plan.len() ==> (#[trigger] plan[j]).frame@ == frame_text(
                                scale_id@,
                                payload@,
                            ),
                    decreases targets.len() - k,
                {
                    let ghost before = plan@;
                    plan.push(
                        Delivery { session: targets[k], frame: message_to_json(scale_id, payload) },
                    );
                    assert(plan_sessions(plan@) == plan_sessions(before).push(targets@[k as int]));
                    assert(targets@.take(k + 1) == targets@.take(k as int).push(
                        targets@[k as int],
                    ));
                    k += 1;
                }
                assert(targets@.take(k as int) == targets@);
            },
            None => {
                assert(plan_sessions(plan@) == Seq::<ConnectionId>::empty());
                assert(plan_sessions(plan@).to_set() == Set::<ConnectionId>::empty());
            },
        }
        plan
    }

    /// Records what became of forwarding a datagram's text: each session
    /// that was owed a frame remembers the payload as delivered last, unless
    /// it is in `failed`, in which case it is dropped. The other sessions are
    /// untouched, and a text that is no message changes nothing.
    pub fn forward_message(&mut self, message: &str, failed: &Vec<ConnectionId>)
        requires
            old(self).wf(),
        ensures
            final(self).wf(),
            final(self)@ == old(self)@.forwarded(message@, failed@.to_set()),
    {
        match extract_message(message) {
            Some((scale_id, payload)) => {
                let targets = self.owed_sessions(scale_id, payload);
                let mut k: usize = 0;
                assert(targets@.take(0).to_set() == Set::<ConnectionId>::empty());
                assert(self@ =~= old(self)@.sent(payload@, Set::empty(), failed@.to_set()));
                while k < targets.len()
                    invariant
                        k <= targets.len(),
                        old(self).wf(),
                        targets@.no_duplicates(),
                        targets@.to_set() == old(self)@.owed(scale_id@, payload@),
                        self@ == old(self)@.sent(
                            payload@,
                            targets@.take(k as int).to_set(),
                            failed@.to_set(),
                        ),
                    decreases targets.len() - k,
                {
                    let id = targets[k];
                    let ghost done = targets@.take(k as int);
                    proof {
                        assert(targets@.take(k + 1) == done.push(id));
                        done.lemma_push_to_set_commute(id);
                        assert(targets@.to_set().contains(id));
                        assert(!done.contains(id));
                    }
                    let ghost before = self@;
                    match self.connections.remove(&id) {
                        Some(connection) => {
                            if !contains_id(failed, id) {
                                let mut connection = connection;
                                connection.record_delivery(payload);
                                self.connections.insert(id, connection);
                            }
                        },
                        None => {},
                    }
                    proof {
                        assert(before.sessions.contains_key(id));
                        assert(before.sessions[id] == old(self)@.sessions[id]);
                        if failed@.contains(id) {
                            assert(self@.sessions =~= before.sessions.remove(id));
                        } else {
                            assert(self@.sessions =~= before.sessions.insert(
                                id,
                                before.sessions[id].delivered(payload@),
                            ));
                        }
                        assert(self@.sessions =~= old(self)@.sent(
                            payload@,
                            done.to_set().insert(id),
                            failed@.to_set(),
                        ).sessions);
                    }
                    k += 1;
                }
                assert(targets@.take(k as int) == targets@);
                proof {
                    self.lemma_sessions_finite();
                }
            },
            None => {},
        }
    }

    /// The frames of one heartbeat: an empty frame for every session.
    pub fn heartbeat_plan(&self) -> (plan: Vec<Delivery>)
        ensures
            plan_sessions(plan@).no_duplicates(),
            plan_sessions(plan@).to_set() == self@.sessions.dom(),
            forall|k: int| 0 <= k < plan.len() ==> (#[trigger] plan[k]).frame@.len() == 0,
    {
        let targets = self.connection_ids();
        let mut plan: Vec<Delivery> = Vec::new();
        let mut k: usize = 0;
        while k < targets.len()
            invariant
                k <= targets.len(),
                plan_sessions(plan@) == targets@.take(k as int),
                forall|j: int| 0 <= j < plan.len() ==> (#[trigger] plan[j]).frame@.len() == 0,
            decreases targets.len() - k,
        {
            let ghost before = plan@;
            plan.push(Delivery { session: targets[k], frame: String::new() });
            assert(plan_sessions(plan@) == plan_sessions(before).push(targets@[k as int]));
            assert(targets@.take(k + 1) == targets@.take(k as int).push(targets@[k as int]));
            k += 1;
        }
        assert(targets@.take(k as int) == targets@);
        plan
    }

    /// Records what became of one heartbeat: the sessions in `failed` are
    /// dropped, and the others are untouched.
    pub fn send_heartbeats(&mut self, failed: &Vec<ConnectionId>)
        requires
            old(self).wf(),
        ensures
            final(self).wf(),
            final(self)@ == old(self)@.without(failed@.to_set()),
    {
        let mut k: usize = 0;
        assert(failed@.take(0).to_set() == Set::<ConnectionId>::empty());
        assert(self@.sessions =~= old(self)@.sessions.remove_keys(Set::empty()));
        while k < failed.len()
            invariant
                k <= failed.len(),
                self@ == old(self)@.without(failed@.take(k as int).to_set()),
            decreases failed.len() - k,
        {
            let ghost gone = failed@.take(k as int);
            let ghost before = self@;
            self.connections.remove(&failed[k]);
            proof {
                assert(failed@.take(k + 1) == gone.push(failed@[k as int]));
                gone.lemma_push_to_set_commute(failed@[k as int]);
                assert(self@.sessions =~= before.sessions.remove(failed@[k as int]));
                assert(self@.sessions =~= old(self)@.sessions.remove_keys(
                    gone.to_set().insert(failed@[k as int]),
                ));
            }
            k += 1;
        }
        assert(failed@.take(k as int) == failed@);
        proof {
            self.lemma_sessions_finite();
        }
    }
}

} // verus!
