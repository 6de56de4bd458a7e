//! The registry: topics by name, and the routing of events to them.

use vstd::prelude::*;
use crate::message::{
    AcknowledgeMessage, BroadcastMessage, Confirm, Id, SubscribeOnTopic, Unsubscribe,
    UnsubscribeFromTopic,
};
use crate::store::{strs, StoreMode};
use crate::topic::{action_views, Action, Event, Topic, TopicView, ACK_TIMEOUT};

verus! {

/// Why the registry refused a request.
#[derive(Debug, Clone, Copy, PartialEq, Eq, Structural)]
pub enum BrokerError {
    /// No topic has the name.
    TopicNotFound,
    /// A topic with the name exists already.
    TopicAlreadyExists,
}

pub open spec fn has_topic(s: Seq<TopicView>, name: Seq<char>) -> bool {
    exists|p: int| 0 <= p < s.len() && (#[trigger] s[p]).name == name
}

/// `new` and `r` are the registry and the result after `event` was routed
/// at `now` to the topic named `name`: that topic handled it and the others
/// are unchanged, or there is no such topic and nothing changed.
pub open spec fn dispatch_post(
    old: Seq<TopicView>,
    name: Seq<char>,
    now: u64,
    event: Event,
    new: Seq<TopicView>,
    r: Result<Vec<Action>, BrokerError>,
) -> bool {
    if has_topic(old, name) {
        exists|p: int|
            {
                &&& 0 <= p < old.len()
                &&& (#[trigger] old[p]).name == name
                &&& new.len() == old.len()
                &&& forall|j: int| 0 <= j < old.len() && j != p ==> new[j] == old[j]
                &&& r is Ok
                &&& old[p].handle_post(now, event, new[p], action_views(r->Ok_0@))
            }
    } else {
        r == Err::<Vec<Action>, BrokerError>(BrokerError::TopicNotFound) && new == old
    }
}

/// The registry of topics, each under a distinct name.
pub struct Broker {
    topics: Vec<Topic>,
}

impl View for Broker {
    type V = Seq<TopicView>;

    closed spec fn view(&self) -> Seq<TopicView> {
        self.topics@.map_values(|t: Topic| t@)
    }
}

impl Broker {
    pub closed spec fn wf(&self) -> bool {
        &&& forall|i: int| 0 <= i < self.topics@.len() ==> (#[trigger] self.topics@[i]).wf()
        &&& forall|i: int, j: int|
            0 <= i < self@.len() && 0 <= j < self@.len() && i != j ==> (#[trigger] self@[i]).name
                != (#[trigger] self@[j]).name
    }

    /// A registry without topics.
    pub fn new() -> (r: Broker)
        ensures
            r.wf(),
            r@.len() == 0,
    {
        Broker { topics: Vec::new() }
    }

    fn position(&self, name: &String) -> (r: Option<usize>)
        requires
            self.wf(),
        ensures
            match r {
                None => !has_topic(self@, name@),
                Some(p) => p < self@.len() && self@[p as int].name == name@,
            },
    {
        let mut i: usize = 0;
        while i < self.topics.len()
            invariant
                0 <= i <= self.topics@.len(),
                forall|j: int| 0 <= j < i ==> (#[trigger] self@[j]).name != name@,
            decreases self.topics@.len() - i,
        {
            assert(self@[i as int] == self.topics@[i as int]@);
            if *self.topics[i].name() == *name {
                return Some(i);
            }
            i += 1;
        }
        None
    }

    /// Makes a topic named `name`, with messages expiring after `retention`
    /// milliseconds if given, compacted by key if `compaction`.
    pub fn create_topic(&mut self, name: String, retention: Option<u64>, compaction: bool) -> (r:
        Result<(), BrokerError>)
        requires
            old(self).wf(),
        ensures
            final(self).wf(),
            has_topic(old(self)@, name@) ==> r == Err::<(), BrokerError>(
                BrokerError::TopicAlreadyExists,
            ) && final(self)@ == old(self)@,
            !has_topic(old(self)@, name@) ==> {
                let t = final(self)@.last();
                &&& r is Ok
                &&& final(self)@.len() == old(self)@.len() + 1
                &&& final(self)@.drop_last() == old(self)@
                &&& t.name == name@
                &&& t.retention == retention
                &&& t.ack_timeout == ACK_TIMEOUT
                &&& t.store.mode == (if compaction {
                    StoreMode::Compact
                } else {
                    StoreMode::Log
                })
                &&& t.store.messages.len() == 0
                &&& t.subscribers.len() == 0
                &&& t.acks.is_empty()
            },
    {
        if self.position(&name).is_some() {
            return Err(BrokerError::TopicAlreadyExists);
        }
        let ghost old_v = self@;
        let mut t = Topic::new(name);
        if let Some(r) = retention {
            t = t.with_retention(r);
        }
        if compaction {
            t = t.with_compaction();
        }
        self.topics.push(t);
        assert(self@.drop_last() =~= old_v);
        assert forall|i: int, j: int|
            0 <= i < self@.len() && 0 <= j < self@.len() && i != j implies (
        #[trigger] self@[i]).name != (#[trigger] self@[j]).name by {
            if i < old_v.len() && j < old_v.len() {
                assert(self@[i] == old_v[i] && self@[j] == old_v[j]);
            } else if i < old_v.len() {
                assert(self@[i] == old_v[i]);
            } else {
                assert(self@[j] == old_v[j]);
            }
        }
        Ok(())
    }

    /// Removes the topic named `name`, which stops it; whether there was one.
    pub fn delete_topic(&mut self, name: &String) -> (r: bool)
        requires
            old(self).wf(),
        ensures
            final(self).wf(),
            r == has_topic(old(self)@, name@),
            !r ==> final(self)@ == old(self)@,
            r ==> exists|p: int|
                0 <= p < old(self)@.len() && (#[trigger] old(self)@[p]).name == name@
                    && final(self)@ == old(self)@.remove(p),
            !has_topic(final(self)@, name@),
    {
        let ghost old_v = self@;
        match self.position(name) {
            None => false,
            Some(p) => {
                let mut t = self.topics.remove(p);
                t.stop(0);
                assert(self@ =~= old_v.remove(p as int));
                assert forall|i: int, j: int|
                    0 <= i < self@.len() && 0 <= j < self@.len() && i != j implies (
                #[trigger] self@[i]).name != (#[trigger] self@[j]).name by {
                    let i1 = if i < p { i } else { i + 1 };
                    let j1 = if j < p { j } else { j + 1 };
                    assert(self@[i] == old_v[i1] && self@[j] == old_v[j1]);
                }
                assert(!has_topic(self@, name@)) by {
                    if has_topic(self@, name@) {
                        let q = choose|q: int| 0 <= q < self@.len() && (#[trigger] self@[q]).name == name@;
                        let q1 = if q < p { q } else { q + 1 };
                        assert(self@[q] == old_v[q1]);
                    }
                }
                true
            },
        }
    }

    /// Routes `event` at `now` to the topic named `name`.
    pub fn dispatch(&mut self, name: &String, now: u64, event: Event) -> (r: Result<
        Vec<Action>,
        BrokerError,
    >)
        requires
            old(self).wf(),
        ensures
            final(self).wf(),
            dispatch_post(old(self)@, name@, now, event, final(self)@, r),
    {
        let ghost old_v = self@;
        match self.position(name) {
            None => Err(BrokerError::TopicNotFound),
            Some(p) => {
                let mut t = self.topics.remove(p);
                let actions = t.handle(now, event);
                self.topics.insert(p, t);
                assert forall|j: int| 0 <= j < old_v.len() && j != p implies self@[j] == old_v[j] by {
                }
                assert forall|i: int, j: int|
                    0 <= i < self@.len() && 0 <= j < self@.len() && i != j implies (
                #[trigger] self@[i]).name != (#[trigger] self@[j]).name by {
                    assert(old_v[i].name != old_v[j].name);
                }
                Ok(actions)
            },
        }
    }

    /// Publishes the requested message at `now` to the topic named `topic`.
    pub fn publish(&mut self, now: u64, topic: &String, req: BroadcastMessage) -> (r: Result<
        Vec<Action>,
        BrokerError,
    >)
        requires
            old(self).wf(),
        ensures
            final(self).wf(),
            dispatch_post(old(self)@, topic@, now, Event::Publish(req.0), final(self)@, r),
    {
        self.dispatch(topic, now, Event::Publish(req.0))
    }

    /// Subscribes `client` at `now` to the requested topic.
    pub fn subscribe(&mut self, now: u64, client: &Id, req: SubscribeOnTopic) -> (r: Result<
        Vec<Action>,
        BrokerError,
    >)
        requires
            old(self).wf(),
        ensures
            final(self).wf(),
            dispatch_post(old(self)@, req.0@, now, Event::Subscribe(client.0), final(self)@, r),
    {
        self.dispatch(&req.0, now, Event::Subscribe(client.0.clone()))
    }

    /// Unsubscribes `client` at `now` from the requested topic.
    pub fn unsubscribe(&mut self, now: u64, client: &Id, req: UnsubscribeFromTopic) -> (r:
        Result<Vec<Action>, BrokerError>)
        requires
            old(self).wf(),
        ensures
            final(self).wf(),
            dispatch_post(
                old(self)@,
                req.0@,
                now,
                Event::Unsubscribe(Unsubscribe(client.0)),
                final(self)@,
                r,
            ),
    {
        self.dispatch(&req.0, now, Event::Unsubscribe(Unsubscribe(client.0.clone())))
    }

    /// Records at `now` that `client` acknowledged the requested message of
    /// the topic named `topic`.
    pub fn acknowledge(
        &mut self,
        now: u64,
        client: &Id,
        topic: &String,
        req: AcknowledgeMessage,
    ) -> (r: Result<Vec<Action>, BrokerError>)
        requires
            old(self).wf(),
        ensures
            final(self).wf(),
            dispatch_post(
                old(self)@,
                topic@,
                now,
                Event::Acknowledge(Confirm { client_id: client.0, message_id: req.0 }),
                final(self)@,
                r,
            ),
    {
        self.dispatch(
            topic,
            now,
            Event::Acknowledge(Confirm { client_id: client.0.clone(), message_id: req.0 }),
        )
    }

    /// The topic named `name`, if there is one.
    pub fn topic(&self, name: &String) -> (r: Option<&Topic>)
        requires
            self.wf(),
        ensures
            r is Some <==> has_topic(self@, name@),
            r matches Some(t) ==> t.wf() && exists|p: int|
                0 <= p < self@.len() && #[trigger] self@[p] == t@ && t@.name == name@,
    {
        match self.position(name) {
            Some(p) => {
                assert(self@[p as int] == self.topics@[p as int]@);
                Some(&self.topics[p])
            },
            None => None,
        }
    }

    /// The names of the topics, in creation order.
    pub fn list_topics(&self) -> (r: Vec<String>)
        requires
            self.wf(),
        ensures
            strs(r@) == self@.map_values(|t: TopicView| t.name),
    {
        let mut r: Vec<String> = Vec::new();
        let mut i: usize = 0;
        while i < self.topics.len()
            invariant
                0 <= i <= self.topics@.len(),
                strs(r@) == self@.map_values(|t: TopicView| t.name).take(i as int),
            decreases self.topics@.len() - i,
        {
            let ghost before = strs(r@);
            r.push(self.topics[i].name().clone());
            assert(self@[i as int] == self.topics@[i as int]@);
            assert(strs(r@) =~= before.push(self@[i as int].name));
            assert(self@.map_values(|t: TopicView| t.name).take(i + 1) =~= self@.map_values(
                |t: TopicView| t.name,
            ).take(i as int).push(self@[i as int].name));
            i += 1;
        }
        assert(self@.map_values(|t: TopicView| t.name).take(i as int) =~= self@.map_values(
            |t: TopicView| t.name,
        ));
        r
    }
}

} // verus!
