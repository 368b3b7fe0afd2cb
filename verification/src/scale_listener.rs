//! The ingester's subscription registry: who listens to the decoded
//! datagrams, and the publishing of one datagram's text to all of them.

use crate::error::RelayError;
use crate::message::decode_datagram;
use std::collections::HashMap;
use std::sync::mpsc::{channel, Receiver, SendError, Sender};
use vstd::prelude::*;
use vstd::utf8::valid_utf8;

verus! {

pub type ObserverId = usize;

/// `std::sync::mpsc::Sender`, the sending end of a channel, carried as an
/// opaque value.
#[verifier::external_type_specification]
#[verifier::external_body]
#[verifier::reject_recursive_types(T)]
pub struct ExSender<T>(Sender<T>);

/// `std::sync::mpsc::Receiver`, the receiving end of a channel, carried as
/// an opaque value.
#[verifier::external_type_specification]
#[verifier::external_body]
#[verifier::reject_recursive_types(T)]
pub struct ExReceiver<T>(Receiver<T>);

/// `std::sync::mpsc::SendError`, the failure of a send, carried as an
/// opaque value.
#[verifier::external_type_specification]
#[verifier::external_body]
#[verifier::reject_recursive_types(T)]
pub struct ExSendError<T>(SendError<T>);

/// `std::sync::mpsc::channel` makes the two ends of a new channel. Nothing is
/// claimed of them: a channel end is opaque here.
pub assume_specification<T>[ channel::<T> ]() -> (ends: (Sender<T>, Receiver<T>));

/// `Sender::send` hands a value to the channel and fails where the receiving
/// end is gone. Nothing is claimed of the result: whether the receiver still
/// lives is not a function of the arguments.
pub assume_specification<T>[ Sender::<T>::send ](sender: &Sender<T>, t: T) -> (r: Result<
    (),
    SendError<T>,
>);

/// The registry as the contracts see it.
pub struct ListenerView {
    /// The sending end kept for each subscription.
    pub observers: Map<ObserverId, Sender<String>>,
    /// The id that the next subscription gets.
    pub next_id: ObserverId,
}

impl ListenerView {
    /// Every id in use lies below the next one, so that no id is given twice.
    pub open spec fn wf(self) -> bool {
        &&& self.observers.dom().finite()
        &&& forall|id: ObserverId| self.observers.contains_key(id) ==> id < self.next_id
    }

    /// The registry without the subscriptions in `ids`.
    pub open spec fn without(self, ids: Set<ObserverId>) -> ListenerView {
        ListenerView { observers: self.observers.remove_keys(ids), next_id: self.next_id }
    }
}

/// The subscriptions whose send failed, by the outcomes of one publishing
/// pass: each outcome names a subscription and says whether its send went
/// through.
pub open spec fn failed_sends(outcomes: Seq<(ObserverId, bool)>) -> Set<ObserverId> {
    Set::new(
        |id: ObserverId|
            exists|k: int| 0 <= k < outcomes.len() && #[trigger] outcomes[k] == (id, false),
    )
}

/// The subscriptions to the ingester's stream of decoded datagrams.
pub struct ScaleListener {
    next_observer_id: ObserverId,
    observers: HashMap<ObserverId, Sender<String>>,
}

impl View for ScaleListener {
    type V = ListenerView;

    closed spec fn view(&self) -> ListenerView {
        ListenerView { observers: self.observers@, next_id: self.next_observer_id }
    }
}

impl ScaleListener {
    /// The invariant of the registry.
    pub open spec fn wf(&self) -> bool {
        self@.wf()
    }

    /// A registry without subscriptions.
    pub fn new() -> (listener: ScaleListener)
        ensures
            listener.wf(),
            listener@.observers == Map::<ObserverId, Sender<String>>::empty(),
            listener@.next_id == 0,
    {
        ScaleListener { next_observer_id: 0, observers: HashMap::new() }
    }

    /// The id that the next subscription gets.
    pub fn next_observer_id(&self) -> (id: ObserverId)
        ensures
            id == self@.next_id,
    {
        self.next_observer_id
    }

    /// The ids of the open subscriptions, each once, in no particular order.
    pub fn observer_ids(&self) -> (ids: Vec<ObserverId>)
        ensures
            ids@.no_duplicates(),
            ids@.to_set() == self@.observers.dom(),
    {
        let mut ids: Vec<ObserverId> = Vec::new();
        for id in it: self.observers.keys()
            invariant
                it.seq().no_duplicates(),
                it.seq().unref().to_set() == self.observers@.dom(),
                ids@ == it.seq().unref().take(it.index()),
                it.index() == it.seq().len() ==> ids@ == it.seq().unref(),
        {
            ids.push(*id);
            assert(it.seq().unref().take(it.seq().len() as int) == it.seq().unref());
        }
        ids
    }

    /// Opens a subscription: allocates the next id, keeps the sending end of
    /// a new channel under it and hands out the id with the receiving end.
    pub fn add_observer(&mut self) -> (subscription: (ObserverId, Receiver<String>))
        requires
            old(self).wf(),
            old(self)@.next_id < usize::MAX,
        ensures
            final(self).wf(),
            subscription.0 == old(self)@.next_id,
            final(self)@.next_id == old(self)@.next_id + 1,
            !old(self)@.observers.contains_key(subscription.0),
            final(self)@.observers.contains_key(subscription.0),
            final(self)@.observers.remove(subscription.0) == old(self)@.observers,
    {
        let (tx, rx) = channel();
        let id = self.next_observer_id;
        self.observers.insert(id, tx);
        self.next_observer_id += 1;
        assert(self.observers@.remove(id) == old(self).observers@);
        (id, rx)
    }

    /// Closes a subscription; closing one that is not open changes nothing.
    pub fn remove_observer(&mut self, id: &ObserverId)
        requires
            old(self).wf(),
        ensures
            final(self).wf(),
            final(self)@ == old(self)@.without(set![*id]),
    {
        self.observers.remove(id);
        assert(self.observers@ == old(self).observers@.remove_keys(set![*id]));
    }

    /// Closes the subscriptions in `ids`.
    pub fn remove_observers(&mut self, ids: &Vec<ObserverId>)
        requires
            old(self).wf(),
        ensures
            final(self).wf(),
            final(self)@ == old(self)@.without(ids@.to_set()),
    {
        let mut k: usize = 0;
        assert(ids@.subrange(0, 0).to_set() == Set::<ObserverId>::empty());
        assert(self.observers@ == old(self).observers@.remove_keys(Set::empty()));
        while k < ids.len()
            invariant
                k <= ids.len(),
                self.next_observer_id == old(self).next_observer_id,
                self.observers@ == old(self).observers@.remove_keys(
                    ids@.subrange(0, k as int).to_set(),
                ),
            decreases ids.len() - k,
        {
            self.observers.remove(&ids[k]);
            proof {
                let seen = ids@.subrange(0, k as int);
                assert(ids@.subrange(0, k + 1) == seen.push(ids@[k as int]));
                seen.lemma_push_to_set_commute(ids@[k as int]);
            }
            k += 1;
        }
        assert(ids@.subrange(0, k as int) == ids@);
    }

    /// Settles one publishing pass: closes every subscription whose send
    /// failed and leaves the others as they are.
    pub fn settle(&mut self, outcomes: &Vec<(ObserverId, bool)>)
        requires
            old(self).wf(),
        ensures
            final(self).wf(),
            final(self)@ == old(self)@.without(failed_sends(outcomes@)),
    {
        let mut remove_ids: Vec<ObserverId> = Vec::new();
        let mut k: usize = 0;
        assert(remove_ids@.to_set() == failed_sends(outcomes@.take(0)));
        while k < outcomes.len()
            invariant
                k <= outcomes.len(),
                remove_ids@.to_set() == failed_sends(outcomes@.take(k as int)),
            decreases outcomes.len() - k,
        {
            let ghost seen = outcomes@.take(k as int);
            let ghost more = outcomes@.take(k + 1);
            let ghost before = remove_ids@;
            let id = outcomes[k].0;
            let delivered = outcomes[k].1;
            if !delivered {
                remove_ids.push(id);
                proof {
                    before.lemma_push_to_set_commute(id);
                }
            }
            proof {
                assert(more == seen.push(outcomes@[k as int]));
                assert forall|x: ObserverId|
                    failed_sends(more).contains(x) <==> failed_sends(seen).contains(x) || (
                    !delivered && x == id) by {
                    if failed_sends(more).contains(x) {
                        let j = choose|j: int| 0 <= j < more.len() && more[j] == (x, false);
                        if j < k {
                            assert(seen[j] == (x, false));
                        }
                    }
                    if failed_sends(seen).contains(x) {
                        let j = choose|j: int| 0 <= j < seen.len() && seen[j] == (x, false);
                        assert(more[j] == (x, false));
                    }
                    if !delivered && x == id {
                        assert(more[k as int] == (x, false));
                    }
                }
                assert(remove_ids@.to_set() == failed_sends(more));
            }
            k += 1;
        }
        assert(outcomes@.take(k as int) == outcomes@);
        self.remove_observers(&remove_ids);
    }

    /// Publishes one decoded datagram: offers the text to every
    /// subscription, notes for each whether the send went through, and
    /// settles the pass. Whether a send goes through is not the registry's
    /// to know, so the contract says what holds of every outcome: no
    /// subscription is opened, and those that stay keep their channel.
    pub fn notify_observers(&mut self, msg: String)
        requires
            old(self).wf(),
        ensures
            final(self).wf(),
            final(self)@.next_id == old(self)@.next_id,
            final(self)@.observers.submap_of(old(self)@.observers),
    {
        let mut outcomes: Vec<(ObserverId, bool)> = Vec::new();
        for entry in self.observers.iter() {
            let delivered = entry.1.send(msg.clone()).is_ok();
            outcomes.push((*entry.0, delivered));
        }
        self.settle(&outcomes);
    }

    /// Takes one datagram from the socket: decodes it and publishes the text.
    /// A datagram that is not UTF-8 is turned away and nothing is published.
    pub fn publish_datagram(&mut self, datagram: &[u8]) -> (r: Result<(), RelayError>)
        requires
            old(self).wf(),
        ensures
            final(self).wf(),
            final(self)@.next_id == old(self)@.next_id,
            final(self)@.observers.submap_of(old(self)@.observers),
            r is Ok <==> valid_utf8(datagram@),
            r matches Err(e) ==> e == RelayError::UndecodableDatagram && final(self)@ == old(
                self,
            )@,
    {
        match decode_datagram(datagram) {
            Ok(text) => {
                self.notify_observers(text);
                Ok(())
            },
            Err(e) => Err(e),
        }
    }
}

} // verus!
