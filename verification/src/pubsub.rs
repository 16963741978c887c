//! The per-collection publish/subscribe fabric: one broadcast channel per
//! internal collection name, created on demand, replaced when abandoned.

use vstd::prelude::*;
use crate::events::CollectionEvent;
use crate::strutil::str_eq;

verus! {

/// The bound on each collection's event buffer.
pub const CHANNEL_CAPACITY: usize = 20000;

#[verifier::external_type_specification]
#[verifier::external_body]
#[verifier::reject_recursive_types(T)]
pub struct ExSender<T>(tokio::sync::broadcast::Sender<T>);

#[verifier::external_type_specification]
#[verifier::external_body]
#[verifier::reject_recursive_types(T)]
pub struct ExReceiver<T>(tokio::sync::broadcast::Receiver<T>);

/// Relies on tokio::sync::broadcast::channel: a fresh channel whose buffer
/// holds `capacity` events. It panics on a zero capacity and on one above
/// `usize::MAX / 2`, which the bound rules out.
#[verifier::external_body]
fn broadcast_channel(capacity: usize) -> (r: (
    tokio::sync::broadcast::Sender<CollectionEvent>,
    tokio::sync::broadcast::Receiver<CollectionEvent>,
))
    requires
        1 <= capacity <= usize::MAX / 2,
{
    tokio::sync::broadcast::channel(capacity)
}

/// Relies on tokio's Sender::clone: another handle to the same channel.
#[verifier::external_body]
fn clone_sender(
    sender: &tokio::sync::broadcast::Sender<CollectionEvent>,
) -> (r: tokio::sync::broadcast::Sender<CollectionEvent>) {
    sender.clone()
}

/// Relies on tokio's Sender::receiver_count: how many receivers the
/// channel has right now. The value is a momentary observation.
#[verifier::external_body]
fn receiver_count(sender: &tokio::sync::broadcast::Sender<CollectionEvent>) -> (r: usize) {
    sender.receiver_count()
}

/// Relies on tokio's Sender::send: the event reaches the buffers of the
/// receivers subscribed at this moment; their number comes back, or `None`
/// when no receiver exists and the event is dropped. A successful send
/// reports at least one receiver: tokio refuses the send when none is
/// subscribed.
#[verifier::external_body]
fn send_event(
    sender: &tokio::sync::broadcast::Sender<CollectionEvent>,
    event: CollectionEvent,
) -> (r: Option<usize>)
    ensures
        r matches Some(n) ==> n >= 1,
{
    match sender.send(event) {
        Ok(n) => Some(n),
        Err(_) => None,
    }
}

/// The registry of per-collection broadcasters.
pub struct SubscriptionManager {
    publishers: Vec<(String, tokio::sync::broadcast::Sender<CollectionEvent>)>,
}

impl Default for SubscriptionManager {
    fn default() -> (r: SubscriptionManager)
        ensures
            r.wf(),
            r.names() == Seq::<Seq<char>>::empty(),
    {
        SubscriptionManager::new()
    }
}

impl SubscriptionManager {
    /// The collection names that currently hold a channel.
    pub closed spec fn names(&self) -> Seq<Seq<char>> {
        Seq::new(self.publishers@.len(), |i: int| self.publishers@[i].0@)
    }

    /// One channel per name.
    pub closed spec fn wf(&self) -> bool {
        forall|i: int, j: int|
            0 <= i < j < self.names().len() ==> self.names()[i] != self.names()[j]
    }

    pub fn new() -> (r: SubscriptionManager)
        ensures
            r.wf(),
            r.names() == Seq::<Seq<char>>::empty(),
    {
        let m = SubscriptionManager { publishers: Vec::new() };
        proof {
            assert(m.names() =~= Seq::<Seq<char>>::empty());
        }
        m
    }

    /// The registry position of a name, if present.
    #[verifier::loop_isolation(false)]
    fn find(&self, collection: &str) -> (r: Option<usize>)
        ensures
            match r {
                Some(i) => i < self.names().len() && self.names()[i as int] == collection@,
                None => forall|i: int|
                    0 <= i < self.names().len() ==> self.names()[i] != collection@,
            },
    {
        let mut i: usize = 0;
        while i < self.publishers.len()
            invariant
                i <= self.publishers@.len(),
                forall|j: int| 0 <= j < i ==> self.names()[j] != collection@,
            decreases self.publishers@.len() - i,
        {
            if str_eq(self.publishers[i].0.as_str(), collection) {
                return Some(i);
            }
            i = i + 1;
        }
        None
    }

    /// The sender for a collection: an existing channel that still has
    /// receivers is reused; an abandoned or missing one is replaced by a
    /// fresh channel, so an abandoned buffer is not retained.
    pub fn get_or_create_channel(&mut self, collection: &str) -> (r: tokio::sync::broadcast::Sender<
        CollectionEvent,
    >)
        requires
            old(self).wf(),
        ensures
            final(self).wf(),
            final(self).names().contains(collection@),
            forall|q: Seq<char>|
                old(self).names().contains(q) ==> final(self).names().contains(q),
            forall|q: Seq<char>|
                final(self).names().contains(q) ==> old(self).names().contains(q) || q
                    == collection@,
    {
        let found = self.find(collection);
        match found {
            Some(i) => {
                if receiver_count(&self.publishers[i].1) > 0 {
                    proof {
                        assert(self.names()[i as int] == collection@);
                        assert(self.names().contains(collection@));
                    }
                    clone_sender(&self.publishers[i].1)
                } else {
                    let (sender, _receiver) = broadcast_channel(CHANNEL_CAPACITY);
                    let ghost oldn = self.names();
                    let mut pair = self.publishers.remove(i);
                    pair.1 = sender;
                    self.publishers.insert(i, pair);
                    proof {
                        assert(self.names() =~= oldn);
                        assert(self.names()[i as int] == collection@);
                        assert(self.names().contains(collection@));
                    }
                    clone_sender(&self.publishers[i].1)
                }
            },
            None => {
                let (sender, _receiver) = broadcast_channel(CHANNEL_CAPACITY);
                let ghost oldn = self.names();
                let mut name_string = String::new();
                name_string.append(collection);
                self.publishers.push((name_string, sender));
                proof {
                    assert(name_string@ =~= collection@);
                    assert(self.names() =~= oldn.push(collection@));
                    assert(self.names()[self.names().len() - 1] == collection@);
                    assert(self.names().contains(collection@));
                    assert forall|q: Seq<char>| oldn.contains(q) implies self.names().contains(
                        q,
                    ) by {
                        let j = choose|j: int| 0 <= j < oldn.len() && oldn[j] == q;
                        assert(self.names()[j] == q);
                    }
                    assert forall|q: Seq<char>| self.names().contains(q) implies oldn.contains(q)
                        || q == collection@ by {
                        let j = choose|j: int|
                            0 <= j < self.names().len() && self.names()[j] == q;
                        if j < oldn.len() {
                            assert(oldn[j] == q);
                        }
                    }
                }
                clone_sender(&self.publishers[self.publishers.len() - 1].1)
            },
        }
    }

    /// Whether any subscriber is currently listening on a collection.
    /// The answer is a momentary observation of the channel.
    pub fn has_subscribers(&self, collection: &str) -> (r: bool) {
        match self.find(collection) {
            Some(i) => receiver_count(&self.publishers[i].1) > 0,
            None => false,
        }
    }

    /// Publish a mutation to whoever listens on the collection right now.
    /// Fire-and-forget: without subscribers the event is dropped and no
    /// channel is created; how many receivers were reached comes back,
    /// and a delivery always reached at least one.
    pub fn publish(&self, collection: &str, event: CollectionEvent) -> (r: Option<usize>)
        ensures
            r matches Some(n) ==> n >= 1,
    {
        match self.find(collection) {
            Some(i) => {
                if receiver_count(&self.publishers[i].1) > 0 {
                    send_event(&self.publishers[i].1, event)
                } else {
                    None
                }
            },
            None => None,
        }
    }
}

} // verus!
