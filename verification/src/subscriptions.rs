//! Who is subscribed to which port, looked up from either side.

use crate::protocol::{ClientId, Port};
use crate::seq_facts::lemma_filter_no_duplicates;
use vstd::prelude::*;

verus! {

/// One subscription: the port, and the client that holds it.
pub type Subscription = (Port, ClientId);

/// Picks the subscriptions on `topic`.
pub open spec fn on_topic(topic: Port) -> spec_fn(Subscription) -> bool {
    |entry: Subscription| entry.0 == topic
}

/// Picks the subscriptions held by `client`.
pub open spec fn held_by(client: ClientId) -> spec_fn(Subscription) -> bool {
    |entry: Subscription| entry.1 == client
}

/// Picks the subscriptions held by anyone but `client`.
pub open spec fn not_held_by(client: ClientId) -> spec_fn(Subscription) -> bool {
    |entry: Subscription| entry.1 != client
}

/// Picks every subscription but that of `client` on `topic`.
pub open spec fn other_than(topic: Port, client: ClientId) -> spec_fn(Subscription) -> bool {
    |entry: Subscription| entry != (topic, client)
}

/// The client of a subscription.
pub open spec fn client_part() -> spec_fn(Subscription) -> ClientId {
    |entry: Subscription| entry.1
}

/// The port of a subscription.
pub open spec fn topic_part() -> spec_fn(Subscription) -> Port {
    |entry: Subscription| entry.0
}

/// The subscribers of `topic`, oldest subscription first.
pub open spec fn subscribers_of(entries: Seq<Subscription>, topic: Port) -> Seq<ClientId> {
    entries.filter(on_topic(topic)).map_values(client_part())
}

/// The ports that `client` is subscribed to, oldest subscription first.
pub open spec fn topics_of(entries: Seq<Subscription>, client: ClientId) -> Seq<Port> {
    entries.filter(held_by(client)).map_values(topic_part())
}

/// The subscribers listed for a port are the clients subscribed to it.
pub proof fn lemma_subscribers_of(entries: Seq<Subscription>, topic: Port, client: ClientId)
    ensures
        subscribers_of(entries, topic).contains(client) <==> entries.contains((topic, client)),
{
    let on = entries.filter(on_topic(topic));
    let subscribers = subscribers_of(entries, topic);
    crate::seq_facts::lemma_filter_membership(entries, on_topic(topic), (topic, client));
    crate::seq_facts::lemma_filter_elements(entries, on_topic(topic));
    if subscribers.contains(client) {
        let k = choose|k: int| 0 <= k < subscribers.len() && subscribers[k] == client;
        assert(on[k].1 == client);
        assert(on[k].0 == topic);
        assert(on[k] == (topic, client));
    }
    if entries.contains((topic, client)) {
        let k = choose|k: int| 0 <= k < on.len() && on[k] == (topic, client);
        assert(subscribers[k] == client);
    }
}

/// A two-way index between ports and clients.
///
/// Subscriptions are kept in the order in which they were made, so the
/// subscribers of a port are listed oldest first.
#[derive(Debug)]
pub struct Subscriptions {
    entries: Vec<Subscription>,
}

impl View for Subscriptions {
    type V = Seq<Subscription>;

    closed spec fn view(&self) -> Seq<Subscription> {
        self.entries@
    }
}

impl Subscriptions {
    /// No subscription is listed twice.
    pub open spec fn wf(&self) -> bool {
        self@.no_duplicates()
    }

    /// An index without subscriptions.
    pub fn new() -> (subscriptions: Subscriptions)
        ensures
            subscriptions.wf(),
            subscriptions@ == Seq::<Subscription>::empty(),
    {
        Subscriptions { entries: Vec::new() }
    }

    /// Whether `client` is subscribed to `topic`.
    pub fn is_subscribed(&self, client: ClientId, topic: Port) -> (subscribed: bool)
        ensures
            subscribed == self@.contains((topic, client)),
    {
        let mut i: usize = 0;
        while i < self.entries.len()
            invariant
                i <= self.entries@.len(),
                forall|j: int| 0 <= j < i ==> self.entries@[j] != (topic, client),
            decreases self.entries@.len() - i,
        {
            let entry = self.entries[i];
            if entry.0 == topic && entry.1 == client {
                return true;
            }
            i += 1;
        }
        false
    }

    /// Subscribes `client` to `topic`. Subscribing twice changes nothing.
    pub fn subscribe(&mut self, client: ClientId, topic: Port)
        requires
            old(self).wf(),
        ensures
            final(self).wf(),
            final(self)@ == if old(self)@.contains((topic, client)) {
                old(self)@
            } else {
                old(self)@.push((topic, client))
            },
    {
        if !self.is_subscribed(client, topic) {
            let ghost before = self@;
            self.entries.push((topic, client));
            assert(self@ =~= before.push((topic, client)));
        }
    }

    /// Ends the subscription of `client` to `topic`, if there is one.
    pub fn unsubscribe(&mut self, client: ClientId, topic: Port)
        requires
            old(self).wf(),
        ensures
            final(self).wf(),
            final(self)@ == old(self)@.filter(other_than(topic, client)),
    {
        let ghost pick = other_than(topic, client);
        let mut kept: Vec<Subscription> = Vec::new();
        let mut i: usize = 0;
        assert(self.entries@.take(0) =~= Seq::<Subscription>::empty());
        while i < self.entries.len()
            invariant
                i <= self.entries@.len(),
                pick == other_than(topic, client),
                kept@ == self.entries@.take(i as int).filter(pick),
            decreases self.entries@.len() - i,
        {
            let entry = self.entries[i];
            proof {
                self.entries@.take(i as int).lemma_filter_push(entry, pick);
                assert(self.entries@.take(i + 1) =~= self.entries@.take(i as int).push(entry));
            }
            if !(entry.0 == topic && entry.1 == client) {
                kept.push(entry);
            }
            i += 1;
        }
        proof {
            assert(self.entries@.take(i as int) =~= self.entries@);
            lemma_filter_no_duplicates(self.entries@, pick);
        }
        self.entries = kept;
    }

    /// Ends every subscription of `client`.
    pub fn remove_client(&mut self, client: ClientId)
        requires
            old(self).wf(),
        ensures
            final(self).wf(),
            final(self)@ == old(self)@.filter(not_held_by(client)),
    {
        let ghost pick = not_held_by(client);
        let mut kept: Vec<Subscription> = Vec::new();
        let mut i: usize = 0;
        assert(self.entries@.take(0) =~= Seq::<Subscription>::empty());
        while i < self.entries.len()
            invariant
                i <= self.entries@.len(),
                pick == not_held_by(client),
                kept@ == self.entries@.take(i as int).filter(pick),
            decreases self.entries@.len() - i,
        {
            let entry = self.entries[i];
            proof {
                self.entries@.take(i as int).lemma_filter_push(entry, pick);
                assert(self.entries@.take(i + 1) =~= self.entries@.take(i as int).push(entry));
            }
            if entry.1 != client {
                kept.push(entry);
            }
            i += 1;
        }
        proof {
            assert(self.entries@.take(i as int) =~= self.entries@);
            lemma_filter_no_duplicates(self.entries@, pick);
        }
        self.entries = kept;
    }

    /// The subscribers of `topic`, oldest subscription first.
    pub fn get_topic_subscribers(&self, topic: Port) -> (subscribers: Vec<ClientId>)
        ensures
            subscribers@ == subscribers_of(self@, topic),
    {
        let ghost pick = on_topic(topic);
        let ghost part = client_part();
        let mut found: Vec<ClientId> = Vec::new();
        let mut i: usize = 0;
        assert(self.entries@.take(0) =~= Seq::<Subscription>::empty());
        while i < self.entries.len()
            invariant
                i <= self.entries@.len(),
                pick == on_topic(topic),
                part == client_part(),
                found@ == self.entries@.take(i as int).filter(pick).map_values(part),
            decreases self.entries@.len() - i,
        {
            let entry = self.entries[i];
            proof {
                let seen = self.entries@.take(i as int);
                seen.lemma_filter_push(entry, pick);
                assert(self.entries@.take(i + 1) =~= seen.push(entry));
                seen.filter(pick).lemma_push_map_commute(part, entry);
            }
            if entry.0 == topic {
                found.push(entry.1);
            }
            i += 1;
        }
        assert(self.entries@.take(i as int) =~= self.entries@);
        found
    }

    /// The ports that `client` is subscribed to, oldest subscription first.
    pub fn get_client_topics(&self, client: ClientId) -> (topics: Vec<Port>)
        ensures
            topics@ == topics_of(self@, client),
    {
        let ghost pick = held_by(client);
        let ghost part = topic_part();
        let mut found: Vec<Port> = Vec::new();
        let mut i: usize = 0;
        assert(self.entries@.take(0) =~= Seq::<Subscription>::empty());
        while i < self.entries.len()
            invariant
                i <= self.entries@.len(),
                pick == held_by(client),
                part == topic_part(),
                found@ == self.entries@.take(i as int).filter(pick).map_values(part),
            decreases self.entries@.len() - i,
        {
            let entry = self.entries[i];
            proof {
                let seen = self.entries@.take(i as int);
                seen.lemma_filter_push(entry, pick);
                assert(self.entries@.take(i + 1) =~= seen.push(entry));
                seen.filter(pick).lemma_push_map_commute(part, entry);
            }
            if entry.1 == client {
                found.push(entry.0);
            }
            i += 1;
        }
        assert(self.entries@.take(i as int) =~= self.entries@);
        found
    }

    /// Whether anybody is subscribed to `topic`.
    pub fn has_subscriber(&self, topic: Port) -> (subscribed: bool)
        ensures
            subscribed == exists|client: ClientId| self@.contains((topic, client)),
    {
        let mut i: usize = 0;
        while i < self.entries.len()
            invariant
                i <= self.entries@.len(),
                forall|j: int| 0 <= j < i ==> self.entries@[j].0 != topic,
            decreases self.entries@.len() - i,
        {
            let entry = self.entries[i];
            if entry.0 == topic {
                assert(self@.contains((topic, entry.1)));
                return true;
            }
            i += 1;
        }
        assert forall|client: ClientId| !self@.contains((topic, client)) by {
            if self@.contains((topic, client)) {
                let k = choose|k: int| 0 <= k < self@.len() && self@[k] == (topic, client);
                assert(self.entries@[k].0 == topic);
            }
        }
        false
    }

    /// Whether anybody but `client` is subscribed to `topic`.
    pub fn has_other_subscriber(&self, topic: Port, client: ClientId) -> (subscribed: bool)
        ensures
            subscribed == exists|other: ClientId| other != client && self@.contains((topic, other)),
    {
        let mut i: usize = 0;
        while i < self.entries.len()
            invariant
                i <= self.entries@.len(),
                forall|j: int|
                    0 <= j < i ==> !(self.entries@[j].0 == topic && self.entries@[j].1 != client),
            decreases self.entries@.len() - i,
        {
            let entry = self.entries[i];
            if entry.0 == topic && entry.1 != client {
                assert(self@.contains((topic, entry.1)));
                return true;
            }
            i += 1;
        }
        assert forall|other: ClientId| !(other != client && self@.contains((topic, other))) by {
            if other != client && self@.contains((topic, other)) {
                let k = choose|k: int| 0 <= k < self@.len() && self@[k] == (topic, other);
                assert(self.entries@[k].0 == topic);
            }
        }
        false
    }

    /// The oldest subscriber of `topic`.
    pub fn first_subscriber(&self, topic: Port) -> (first: Option<ClientId>)
        ensures
            first.is_some() == exists|client: ClientId| self@.contains((topic, client)),
            first matches Some(client) ==> subscribers_of(self@, topic).len() > 0 && client
                == subscribers_of(self@, topic).first() && self@.contains((topic, client)),
    {
        let subscribers = self.get_topic_subscribers(topic);
        proof {
            if subscribers@.len() > 0 {
                lemma_subscribers_of(self@, topic, subscribers@[0]);
                assert(subscribers@.contains(subscribers@[0]));
            }
            assert forall|client: ClientId| self@.contains((topic, client)) implies subscribers@.len()
                > 0 by {
                lemma_subscribers_of(self@, topic, client);
            }
        }
        if subscribers.len() > 0 {
            Some(subscribers[0])
        } else {
            None
        }
    }

    /// Whether there is no subscription at all.
    pub fn is_empty(&self) -> (empty: bool)
        ensures
            empty == (self@.len() == 0),
    {
        self.entries.len() == 0
    }
}

} // verus!
