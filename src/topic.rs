//! A topic: a single-writer state machine that stores what is published to
//! it, fans it out to its subscribers, expires and compacts its store, and
//! tracks acknowledgements. It decides; whoever drives it performs the
//! returned actions (deliveries and timers) and feeds back time and events.

use vstd::prelude::*;
use crate::ack::{
    acknowledged, acknowledged_all, ack_status, contains_string, lemma_ack_idempotent,
    lemma_acks_cover, lemma_all_acknowledged, lemma_remove_unique, AckState, AckStatus, AckTracker,
};
use crate::message::{Confirm, Message, MessageView, Unsubscribe};
use crate::store::{expired, strs, MessageStore, StoreMode, StoreView};

verus! {

/// How long, in milliseconds, a topic waits for acknowledgements before it
/// redelivers.
pub const ACK_TIMEOUT: u64 = 30000;

/// How many acknowledgement deadlines a message may pass before the topic
/// gives up on it.
pub const MAX_ACK_RETRIES: u64 = 3;

/// How often, in milliseconds, a driver should send `Event::Tick`.
pub const RETENTION_SWEEP_PERIOD: u64 = 60000;

/// A request that a topic stop: its state is cleared.
pub struct Stop;

/// Something that happens to a topic.
pub enum Event {
    Publish(Message),
    Subscribe(String),
    Unsubscribe(Unsubscribe),
    Acknowledge(Confirm),
    Tick,
    AckDeadline(String),
    Stop(Stop),
}

/// What a topic asks its driver to do.
pub enum Action {
    /// Hand `message` to the sink of `client_id`, without blocking.
    Deliver { client_id: String, message: Message },
    /// Send `Event::AckDeadline(message_id)` at time `at`.
    ScheduleDeadline { message_id: String, at: u64 },
}

pub ghost enum ActionView {
    Deliver { client: Seq<char>, message: MessageView },
    Schedule { message: Seq<char>, at: u64 },
}

impl View for Action {
    type V = ActionView;

    open spec fn view(&self) -> ActionView {
        match self {
            Action::Deliver { client_id, message } => ActionView::Deliver {
                client: client_id@,
                message: message@,
            },
            Action::ScheduleDeadline { message_id, at } => ActionView::Schedule {
                message: message_id@,
                at: *at,
            },
        }
    }
}

pub open spec fn action_views(s: Seq<Action>) -> Seq<ActionView> {
    s.map_values(|a: Action| a@)
}

/// One first delivery of a published message: to whom, and the number of
/// the publish (0 for the first message the topic took in).
pub ghost struct Delivery {
    pub client: Seq<char>,
    pub publish: nat,
}

/// Where a subscription began: the length of the delivery history and the
/// number of publishes processed at that moment.
pub ghost struct JoinPoint {
    pub at: nat,
    pub published: nat,
}

/// A topic as the contracts see it.
pub ghost struct TopicView {
    pub name: Seq<char>,
    pub retention: Option<u64>,
    pub ack_timeout: u64,
    pub store: StoreView,
    pub subscribers: Seq<Seq<char>>,
    pub acks: Map<Seq<char>, AckState>,
    /// The latest time the topic has seen.
    pub clock: u64,
    /// The time of the latest retention sweep.
    pub last_sweep: u64,
    /// How many publishes the topic has processed.
    pub published: nat,
    /// Every first delivery of a published message, in the order made.
    pub history: Seq<Delivery>,
    /// Where the subscription of each current subscriber began.
    pub joined: Map<Seq<char>, JoinPoint>,
}

/// Time never runs backwards in a topic: an event's time is the later of
/// its own and the topic's clock.
pub open spec fn event_time(clock: u64, now: u64) -> u64 {
    if now > clock {
        now
    } else {
        clock
    }
}

pub open spec fn stamp(m: MessageView, t: u64) -> MessageView {
    MessageView { timestamp: t, ..m }
}

pub open spec fn deliveries(clients: Seq<Seq<char>>, m: MessageView) -> Seq<ActionView> {
    clients.map_values(|c: Seq<char>| ActionView::Deliver { client: c, message: m })
}

pub open spec fn first_deliveries(clients: Seq<Seq<char>>, publish: nat) -> Seq<Delivery> {
    clients.map_values(|c: Seq<char>| Delivery { client: c, publish })
}

/// `m` is the first message of `s` with id `id`.
pub open spec fn first_with_id(s: Seq<MessageView>, id: Seq<char>, m: MessageView) -> bool {
    exists|i: int|
        {
            &&& 0 <= i < s.len()
            &&& #[trigger] s[i] == m
            &&& m.id == id
            &&& forall|j: int| 0 <= j < i ==> (#[trigger] s[j]).id != id
        }
}

/// The tracker after a publish of `s` that replaced the message with id
/// `replaced`, to `subscribers`: the replaced message's entry is dropped,
/// and `s` is tracked if it asks for acknowledgement and has subscribers.
pub open spec fn acks_after_publish(
    acks: Map<Seq<char>, AckState>,
    replaced: Option<Seq<char>>,
    s: MessageView,
    subscribers: Seq<Seq<char>>,
) -> Map<Seq<char>, AckState> {
    let a1 = match replaced {
        Some(id) => acks.remove(id),
        None => acks,
    };
    if s.require_ack && subscribers.len() > 0 {
        a1.insert(s.id, AckState { pending: subscribers.to_set(), deadlines: 0 })
    } else {
        a1
    }
}

proof fn lemma_insert_from(old: StoreView, s: MessageView, new: StoreView, replaced: Option<Seq<char>>)
    requires
        old.insert_post(s, new, replaced),
    ensures
        forall|j: int|
            0 <= j < new.messages.len() ==> #[trigger] new.messages[j] == s || old.messages.contains(
                new.messages[j],
            ),
{
    assert forall|j: int| 0 <= j < new.messages.len() implies #[trigger] new.messages[j] == s
        || old.messages.contains(new.messages[j]) by {
        if new.messages[j] != s {
            if old.mode == StoreMode::Log || new.messages == old.messages.push(s) {
                assert(new.messages[j] == old.messages[j]);
            } else if new.messages == old.messages {
            } else {
                let i = choose|i: int|
                    0 <= i < old.messages.len() && (#[trigger] old.messages[i]).key == s.key
                        && new.messages == old.messages.update(i, s) && replaced == Some(
                        old.messages[i].id,
                    );
                assert(new.messages[j] == old.messages[j]);
            }
        }
    }
}

proof fn lemma_sweep_from(
    old: StoreView,
    t: u64,
    r: u64,
    new: StoreView,
    evicted: Seq<Seq<char>>,
)
    requires
        old.sweep_post(t, Some(r), new, evicted),
        old.mode == StoreMode::Log ==> forall|i: int, j: int|
            0 <= i <= j < old.messages.len() ==> (#[trigger] old.messages[i]).timestamp <= (
            #[trigger] old.messages[j]).timestamp,
    ensures
        forall|j: int|
            0 <= j < new.messages.len() ==> old.messages.contains(#[trigger] new.messages[j])
                && !expired(new.messages[j], t, r),
        old.mode == StoreMode::Log ==> forall|i: int, j: int|
            0 <= i <= j < new.messages.len() ==> (#[trigger] new.messages[i]).timestamp <= (
            #[trigger] new.messages[j]).timestamp,
{
    if old.mode == StoreMode::Log {
        let n = choose|n: int|
            {
                &&& 0 <= n <= old.messages.len()
                &&& forall|i: int| 0 <= i < n ==> expired(#[trigger] old.messages[i], t, r)
                &&& n == old.messages.len() || !expired(old.messages[n], t, r)
                &&& new.messages == old.messages.subrange(n, old.messages.len() as int)
                &&& evicted == crate::store::ids_of(old.messages.subrange(0, n))
            };
        assert forall|j: int| 0 <= j < new.messages.len() implies old.messages.contains(
            #[trigger] new.messages[j],
        ) && !expired(new.messages[j], t, r) by {
            assert(new.messages[j] == old.messages[n + j]);
            assert(old.messages[n].timestamp <= old.messages[n + j].timestamp);
        }
        assert forall|i: int, j: int|
            0 <= i <= j < new.messages.len() implies (#[trigger] new.messages[i]).timestamp <= (
            #[trigger] new.messages[j]).timestamp by {
            assert(new.messages[i] == old.messages[n + i]);
            assert(new.messages[j] == old.messages[n + j]);
        }
    } else {
        let p = crate::store::live_at(t, r);
        assert forall|j: int| 0 <= j < new.messages.len() implies old.messages.contains(
            #[trigger] new.messages[j],
        ) && !expired(new.messages[j], t, r) by {
            old.messages.lemma_filter_pred(p, j);
            assert(old.messages.filter(p).contains(new.messages[j]));
            old.messages.lemma_filter_contains_rev(p, new.messages[j]);
        }
    }
}

impl TopicView {
    pub open spec fn subscriber_set(self) -> Set<Seq<char>> {
        self.subscribers.to_set()
    }

    /// What holds of a topic after any history of events.
    pub open spec fn inv(self) -> bool {
        &&& self.store.wf()
        &&& self.subscribers.no_duplicates()
        &&& self.last_sweep <= self.clock
        &&& forall|i: int|
            0 <= i < self.store.messages.len() ==> (#[trigger] self.store.messages[i]).timestamp
                <= self.clock
        &&& self.store.mode == StoreMode::Log ==> forall|i: int, j: int|
            0 <= i <= j < self.store.messages.len() ==> (#[trigger] self.store.messages[i]).timestamp
                <= (#[trigger] self.store.messages[j]).timestamp
        &&& forall|r: u64|
            self.retention == Some(r) ==> forall|i: int|
                0 <= i < self.store.messages.len() ==> !expired(
                    #[trigger] self.store.messages[i],
                    self.last_sweep,
                    r,
                )
        &&& forall|k: Seq<char>| #[trigger]
            self.acks.contains_key(k) ==> self.acks[k].deadlines < MAX_ACK_RETRIES
        &&& forall|i: int| 0 <= i < self.history.len() ==> (#[trigger] self.history[i]).publish < self.published
        &&& forall|i: int, j: int|
            0 <= i < j < self.history.len() && (#[trigger] self.history[i]).client == (
            #[trigger] self.history[j]).client ==> self.history[i].publish < self.history[j].publish
        &&& forall|c: Seq<char>| #[trigger]
            self.subscribers.contains(c) ==> {
                &&& self.joined.contains_key(c)
                &&& self.joined[c].at <= self.history.len()
                &&& self.joined[c].published <= self.published
                &&& forall|i: int|
                    self.joined[c].at <= i < self.history.len() ==> (#[trigger] self.history[i]).publish
                        >= self.joined[c].published
            }
    }

    /// The parts that only publishes, sweeps and stops change.
    pub open spec fn same_settings(self, new: TopicView) -> bool {
        &&& new.name == self.name
        &&& new.retention == self.retention
        &&& new.ack_timeout == self.ack_timeout
        &&& new.store.mode == self.store.mode
    }

    /// `new` is this topic after `m` was published at `now`, and `actions`
    /// what the topic asked for: `m` is stamped with the event's time and
    /// stored, a delivery goes to each subscriber in subscription order,
    /// and a message that asks for acknowledgement and has subscribers is
    /// tracked with an acknowledgement deadline.
    pub open spec fn publish_post(
        self,
        now: u64,
        m: MessageView,
        new: TopicView,
        actions: Seq<ActionView>,
    ) -> bool {
        let t = event_time(self.clock, now);
        let s = stamp(m, t);
        let asks = s.require_ack && self.subscribers.len() > 0;
        &&& self.same_settings(new)
        &&& exists|replaced: Option<Seq<char>>|
            {
                &&& #[trigger] self.store.insert_post(s, new.store, replaced)
                &&& new.acks == acks_after_publish(self.acks, replaced, s, self.subscribers)
            }
        &&& actions == deliveries(self.subscribers, s) + if asks {
            seq![ActionView::Schedule { message: s.id, at: t.saturating_add(self.ack_timeout) }]
        } else {
            Seq::<ActionView>::empty()
        }
        &&& new.clock == t
        &&& new.last_sweep == self.last_sweep
        &&& new.subscribers == self.subscribers
        &&& new.joined == self.joined
        &&& new.published == self.published + 1
        &&& new.history == self.history + first_deliveries(self.subscribers, self.published)
    }

    /// `new` is this topic after a retention sweep at `now` that evicted
    /// the messages with ids `evicted`; their acknowledgement entries are
    /// dropped.
    pub open spec fn sweep_post(self, now: u64, new: TopicView, evicted: Seq<Seq<char>>) -> bool {
        let t = event_time(self.clock, now);
        &&& self.same_settings(new)
        &&& self.store.sweep_post(t, self.retention, new.store, evicted)
        &&& new.acks == self.acks.remove_keys(evicted.to_set())
        &&& new.clock == t
        &&& new.last_sweep == t
        &&& new.subscribers == self.subscribers
        &&& new.joined == self.joined
        &&& new.published == self.published
        &&& new.history == self.history
    }

    /// `new` is this topic after the acknowledgement deadline of message
    /// `id` passed at `now`, and `actions` what the topic asked for. An
    /// untracked message is left alone. A tracked message that is no longer
    /// stored is dropped. Otherwise the first stored message with that id is
    /// delivered again to each client that owes an acknowledgement and is
    /// subscribed; the deadline is counted, and rearmed unless it was the
    /// last one allowed, in which case the entry is dropped.
    pub open spec fn deadline_post(
        self,
        now: u64,
        id: Seq<char>,
        new: TopicView,
        actions: Seq<ActionView>,
    ) -> bool {
        let t = event_time(self.clock, now);
        let st = self.acks[id];
        &&& self.same_settings(new)
        &&& new.store == self.store
        &&& new.clock == t
        &&& new.last_sweep == self.last_sweep
        &&& new.subscribers == self.subscribers
        &&& new.joined == self.joined
        &&& new.published == self.published
        &&& new.history == self.history
        &&& if !self.acks.contains_key(id) {
            new.acks == self.acks && actions.len() == 0
        } else if forall|i: int|
            0 <= i < self.store.messages.len() ==> (#[trigger] self.store.messages[i]).id != id {
            new.acks == self.acks.remove(id) && actions.len() == 0
        } else {
            exists|m: MessageView, cs: Seq<Seq<char>>|
                {
                    &&& first_with_id(self.store.messages, id, m)
                    &&& cs.no_duplicates()
                    &&& cs.to_set() == st.pending.intersect(self.subscriber_set())
                    &&& if st.deadlines + 1 >= MAX_ACK_RETRIES {
                        &&& new.acks == self.acks.remove(id)
                        &&& actions == #[trigger] deliveries(cs, m)
                    } else {
                        &&& new.acks == self.acks.insert(
                            id,
                            AckState { deadlines: st.deadlines + 1, ..st },
                        )
                        &&& actions == deliveries(cs, m).push(
                            ActionView::Schedule { message: id, at: t.saturating_add(self.ack_timeout) },
                        )
                    }
                }
        }
    }

    /// `new` is this topic after it stopped at `now`: no messages, no
    /// subscribers, nothing awaiting acknowledgement.
    pub open spec fn stop_post(self, now: u64, new: TopicView) -> bool {
        &&& self.same_settings(new)
        &&& new.store.messages.len() == 0
        &&& new.subscribers.len() == 0
        &&& new.acks.is_empty()
        &&& new.clock == event_time(self.clock, now)
        &&& new.last_sweep == self.last_sweep
        &&& new.published == self.published
        &&& new.history == self.history
    }

    /// `new` is this topic after `event` at `now`, and `actions` what it
    /// asked for.
    pub open spec fn handle_post(
        self,
        now: u64,
        event: Event,
        new: TopicView,
        actions: Seq<ActionView>,
    ) -> bool {
        match event {
            Event::Publish(m) => self.publish_post(now, m@, new, actions),
            Event::Subscribe(c) => self.subscribe_post(now, c@, new) && actions.len() == 0,
            Event::Unsubscribe(u) => self.unsubscribe_post(now, u.0@, new) && actions.len() == 0,
            Event::Acknowledge(a) => self.acknowledge_post(
                now,
                a.client_id@,
                a.message_id@,
                new,
            ) && actions.len() == 0,
            Event::Tick => actions.len() == 0 && exists|evicted: Seq<Seq<char>>|
                #[trigger] self.sweep_post(now, new, evicted),
            Event::AckDeadline(id) => self.deadline_post(now, id@, new, actions),
            Event::Stop(_) => self.stop_post(now, new) && actions.len() == 0,
        }
    }

    /// `new` is this topic after `c` subscribed at `now`.
    pub open spec fn subscribe_post(self, now: u64, c: Seq<char>, new: TopicView) -> bool {
        &&& self.same_settings(new)
        &&& new.store == self.store
        &&& new.acks == self.acks
        &&& new.clock == event_time(self.clock, now)
        &&& new.last_sweep == self.last_sweep
        &&& new.published == self.published
        &&& new.history == self.history
        &&& new.subscribers == if self.subscribers.contains(c) {
            self.subscribers
        } else {
            self.subscribers.push(c)
        }
        &&& new.joined == self.joined.insert(
            c,
            JoinPoint { at: self.history.len(), published: self.published },
        )
    }

    /// `new` is this topic after `c` unsubscribed at `now`. Its pending
    /// acknowledgements stay: they complete only if it subscribes again and
    /// acknowledges, or when the deadlines give up.
    pub open spec fn unsubscribe_post(self, now: u64, c: Seq<char>, new: TopicView) -> bool {
        &&& self.same_settings(new)
        &&& new.store == self.store
        &&& new.acks == self.acks
        &&& new.clock == event_time(self.clock, now)
        &&& new.last_sweep == self.last_sweep
        &&& new.published == self.published
        &&& new.history == self.history
        &&& if self.subscribers.contains(c) {
            exists|p: int|
                0 <= p < self.subscribers.len() && #[trigger] self.subscribers[p] == c
                    && new.subscribers == self.subscribers.remove(p)
        } else {
            new.subscribers == self.subscribers
        }
        &&& new.joined == self.joined.remove(c)
    }

    /// `new` is this topic after `client` acknowledged `message` at `now`.
    pub open spec fn acknowledge_post(
        self,
        now: u64,
        client: Seq<char>,
        message: Seq<char>,
        new: TopicView,
    ) -> bool {
        &&& self.same_settings(new)
        &&& new.store == self.store
        &&& new.acks == acknowledged(self.acks, message, client)
        &&& new.clock == event_time(self.clock, now)
        &&& new.last_sweep == self.last_sweep
        &&& new.published == self.published
        &&& new.history == self.history
        &&& new.subscribers == self.subscribers
        &&& new.joined == self.joined
    }
}

/// A named topic.
pub struct Topic {
    name: String,
    retention: Option<u64>,
    ack_timeout: u64,
    store: MessageStore,
    subscribers: Vec<String>,
    acks: AckTracker,
    clock: u64,
    last_sweep: u64,
    published: Ghost<nat>,
    history: Ghost<Seq<Delivery>>,
    joined: Ghost<Map<Seq<char>, JoinPoint>>,
}

impl View for Topic {
    type V = TopicView;

    closed spec fn view(&self) -> TopicView {
        TopicView {
            name: self.name@,
            retention: self.retention,
            ack_timeout: self.ack_timeout,
            store: self.store@,
            subscribers: strs(self.subscribers@),
            acks: self.acks@,
            clock: self.clock,
            last_sweep: self.last_sweep,
            published: self.published@,
            history: self.history@,
            joined: self.joined@,
        }
    }
}

impl Topic {
    pub closed spec fn wf(&self) -> bool {
        self@.inv() && self.acks.wf()
    }

    /// A well-formed topic satisfies the topic invariant.
    pub proof fn lemma_wf_view(&self)
        requires
            self.wf(),
        ensures
            self@.inv(),
    {
    }

    /// A topic that keeps every message forever, with no subscribers.
    pub fn new(name: String) -> (r: Topic)
        ensures
            r.wf(),
            r@.name == name@,
            r@.retention is None,
            r@.ack_timeout == ACK_TIMEOUT,
            r@.store.mode == StoreMode::Log,
            r@.store.messages.len() == 0,
            r@.subscribers.len() == 0,
            r@.acks.is_empty(),
            r@.clock == 0,
            r@.last_sweep == 0,
            r@.published == 0,
            r@.history.len() == 0,
    {
        let r = Topic {
            name,
            retention: None,
            ack_timeout: ACK_TIMEOUT,
            store: MessageStore::new(StoreMode::Log),
            subscribers: Vec::new(),
            acks: AckTracker::new(),
            clock: 0,
            last_sweep: 0,
            published: Ghost(0),
            history: Ghost(Seq::empty()),
            joined: Ghost(Map::empty()),
        };
        assert(r@.subscribers =~= Seq::<Seq<char>>::empty());
        r
    }

    fn advance(&mut self, now: u64)
        requires
            old(self).wf(),
        ensures
            final(self).wf(),
            final(self)@ == (TopicView { clock: event_time(old(self).clock, now), ..old(self)@ }),
    {
        if now > self.clock {
            self.clock = now;
        }
    }

    /// This new topic, with messages expiring `retention` milliseconds after
    /// they were taken in.
    pub fn with_retention(self, retention: u64) -> (r: Topic)
        requires
            self.wf(),
            self@.store.messages.len() == 0,
        ensures
            r.wf(),
            r@ == (TopicView { retention: Some(retention), ..self@ }),
    {
        Topic { retention: Some(retention), ..self }
    }

    /// This new topic, keeping only the latest message of each key.
    pub fn with_compaction(self) -> (r: Topic)
        requires
            self.wf(),
            self@.store.messages.len() == 0,
        ensures
            r.wf(),
            r@ == (TopicView {
                store: StoreView { mode: StoreMode::Compact, ..self@.store },
                ..self@
            }),
    {
        let Topic {
            name,
            retention,
            ack_timeout,
            store,
            subscribers,
            acks,
            clock,
            last_sweep,
            published,
            history,
            joined,
        } = self;
        let ghost sv = store@;
        let store = MessageStore::new(StoreMode::Compact);
        let store = store.with_keys_seen(Ghost(sv.keys_seen));
        assert(store@.messages =~= sv.messages);
        Topic {
            name,
            retention,
            ack_timeout,
            store,
            subscribers,
            acks,
            clock,
            last_sweep,
            published,
            history,
            joined,
        }
    }

    /// This new topic, waiting `ack_timeout` milliseconds for
    /// acknowledgements.
    pub fn with_ack_timeout(self, ack_timeout: u64) -> (r: Topic)
        requires
            self.wf(),
        ensures
            r.wf(),
            r@ == (TopicView { ack_timeout, ..self@ }),
    {
        Topic { ack_timeout, ..self }
    }

    /// Handles one event at `now` and returns what the driver must do.
    pub fn handle(&mut self, now: u64, event: Event) -> (r: Vec<Action>)
        requires
            old(self).wf(),
        ensures
            final(self).wf(),
            old(self)@.handle_post(now, event, final(self)@, action_views(r@)),
    {
        match event {
            Event::Publish(m) => self.broadcast(now, m),
            Event::Subscribe(c) => {
                self.subscribe(now, c);
                let r: Vec<Action> = Vec::new();
                assert(action_views(r@).len() == 0);
                r
            },
            Event::Unsubscribe(u) => {
                self.unsubscribe(now, &u.0);
                let r: Vec<Action> = Vec::new();
                assert(action_views(r@).len() == 0);
                r
            },
            Event::Acknowledge(a) => {
                self.confirm_message(now, &a.client_id, &a.message_id);
                let r: Vec<Action> = Vec::new();
                assert(action_views(r@).len() == 0);
                r
            },
            Event::Tick => {
                let ghost v0 = self@;
                let evicted = self.check_retention(now);
                assert(v0.sweep_post(now, self@, strs(evicted@)));
                let r: Vec<Action> = Vec::new();
                assert(action_views(r@).len() == 0);
                r
            },
            Event::AckDeadline(id) => self.ack_deadline(now, &id),
            Event::Stop(_) => {
                self.stop(now);
                let r: Vec<Action> = Vec::new();
                assert(action_views(r@).len() == 0);
                r
            },
        }
    }

    /// Stops the topic at `now`: drops its messages, subscribers and
    /// acknowledgement entries.
    pub fn stop(&mut self, now: u64)
        requires
            old(self).wf(),
        ensures
            final(self).wf(),
            old(self)@.stop_post(now, final(self)@),
    {
        self.advance(now);
        self.store = MessageStore::new(self.store.mode());
        self.subscribers = Vec::new();
        self.acks = AckTracker::new();
        self.joined = Ghost(Map::empty());
        assert(self@.subscribers =~= Seq::<Seq<char>>::empty());
    }

    /// The subscribers, in subscription order.
    pub fn subscribers(&self) -> (r: Vec<String>)
        ensures
            strs(r@) == self@.subscribers,
    {
        self.subscribers.clone()
    }

    /// Copies of the stored messages, in store order.
    pub fn stored(&self) -> (r: Vec<Message>)
        ensures
            crate::store::views(r@) == self@.store.messages,
    {
        self.store.messages()
    }

    /// The clients that still owe an acknowledgement of `message_id`; none
    /// when it is not awaiting acknowledgement.
    pub fn pending_acks(&self, message_id: &String) -> (r: Vec<String>)
        requires
            self.wf(),
        ensures
            strs(r@).no_duplicates(),
            self@.acks.contains_key(message_id@) ==> strs(r@).to_set()
                == self@.acks[message_id@].pending,
            !self@.acks.contains_key(message_id@) ==> r@.len() == 0,
    {
        self.acks.pending(message_id)
    }

    /// Whether `message_id` is awaiting acknowledgement.
    pub fn awaits_ack(&self, message_id: &String) -> (r: bool)
        requires
            self.wf(),
        ensures
            r == self@.acks.contains_key(message_id@),
    {
        self.acks.contains(message_id)
    }

    /// The storage mode.
    pub fn mode(&self) -> (r: StoreMode)
        ensures
            r == self@.store.mode,
    {
        self.store.mode()
    }

    /// The retention, in milliseconds, if messages expire.
    pub fn retention(&self) -> (r: Option<u64>)
        ensures
            r == self@.retention,
    {
        self.retention
    }

    /// The latest time the topic has seen.
    pub fn clock(&self) -> (r: u64)
        ensures
            r == self@.clock,
    {
        self.clock
    }

    /// The topic's name.
    pub fn name(&self) -> (r: &String)
        ensures
            r@ == self@.name,
    {
        &self.name
    }

    /// Takes `message` in at `now`: stamps it, stores it, delivers it to
    /// every subscriber, and tracks its acknowledgements if it asks for them.
    pub fn broadcast(&mut self, now: u64, message: Message) -> (r: Vec<Action>)
        requires
            old(self).wf(),
        ensures
            final(self).wf(),
            old(self)@.publish_post(now, message@, final(self)@, action_views(r@)),
    {
        let ghost v0 = self@;
        self.advance(now);
        let t = self.clock;
        let msg = message.with_timestamp(t);
        let ghost s = msg@;
        let replaced = self.store.insert(msg.duplicate());
        let ghost rep = crate::message::opt_view(replaced);
        proof {
            lemma_insert_from(v0.store, s, self@.store, rep);
        }
        match &replaced {
            Some(old_id) => self.acks.drop_entry(old_id),
            None => {},
        }
        let mut actions: Vec<Action> = Vec::new();
        let mut i: usize = 0;
        while i < self.subscribers.len()
            invariant
                0 <= i <= self.subscribers@.len(),
                msg@ == s,
                action_views(actions@) == deliveries(strs(self.subscribers@).take(i as int), s),
            decreases self.subscribers@.len() - i,
        {
            let ghost before = action_views(actions@);
            actions.push(
                Action::Deliver { client_id: self.subscribers[i].clone(), message: msg.duplicate() },
            );
            assert(action_views(actions@) =~= before.push(
                ActionView::Deliver { client: strs(self.subscribers@)[i as int], message: s },
            ));
            assert(strs(self.subscribers@).take(i + 1) =~= strs(self.subscribers@).take(
                i as int,
            ).push(strs(self.subscribers@)[i as int]));
            i += 1;
        }
        assert(strs(self.subscribers@).take(i as int) =~= strs(self.subscribers@));
        let ghost delivered = action_views(actions@);
        if msg.reply() && self.subscribers.len() > 0 {
            self.acks.register(msg.id(), &self.subscribers);
            actions.push(
                Action::ScheduleDeadline {
                    message_id: msg.id().clone(),
                    at: t.saturating_add(self.ack_timeout),
                },
            );
            assert(action_views(actions@) =~= delivered + seq![
                ActionView::Schedule { message: s.id, at: t.saturating_add(self.ack_timeout) },
            ]);
        } else {
            assert(action_views(actions@) =~= delivered + Seq::<ActionView>::empty());
        }
        let ghost p = self.published@;
        let ghost added = first_deliveries(v0.subscribers, p);
        self.history = Ghost(self.history@ + added);
        self.published = Ghost(p + 1);
        let ghost v1 = self@;
        assert(v1.acks == acks_after_publish(v0.acks, rep, s, v0.subscribers));
        assert(v0.store.insert_post(s, v1.store, rep));
        assert forall|k: Seq<char>| #[trigger] v1.acks.contains_key(k) implies v1.acks[k].deadlines
            < MAX_ACK_RETRIES by {
            if k != s.id || !(s.require_ack && v0.subscribers.len() > 0) {
                assert(v0.acks.contains_key(k));
            }
        }
        assert forall|j: int| 0 <= j < v1.store.messages.len() implies (
        #[trigger] v1.store.messages[j]).timestamp <= v1.clock by {
            if v1.store.messages[j] != s {
                let a = choose|a: int|
                    0 <= a < v0.store.messages.len() && v0.store.messages[a] == v1.store.messages[j];
            }
        }
        assert forall|r: u64| v1.retention == Some(r) implies forall|j: int|
            0 <= j < v1.store.messages.len() ==> !expired(
                #[trigger] v1.store.messages[j],
                v1.last_sweep,
                r,
            ) by {
            assert forall|j: int| 0 <= j < v1.store.messages.len() implies !expired(
                #[trigger] v1.store.messages[j],
                v1.last_sweep,
                r,
            ) by {
                if v1.store.messages[j] != s {
                    let a = choose|a: int|
                        0 <= a < v0.store.messages.len() && v0.store.messages[a]
                            == v1.store.messages[j];
                }
            }
        }
        proof {
            if v0.store.mode == StoreMode::Log {
                assert forall|a: int, b: int|
                    0 <= a <= b < v1.store.messages.len() implies (
                #[trigger] v1.store.messages[a]).timestamp <= (
                #[trigger] v1.store.messages[b]).timestamp by {
                    assert(v1.store.messages == v0.store.messages.push(s));
                    if b < v0.store.messages.len() {
                        assert(v0.store.messages[a] == v1.store.messages[a]);
                        assert(v0.store.messages[b] == v1.store.messages[b]);
                    } else if a < v0.store.messages.len() {
                        assert(v0.store.messages[a] == v1.store.messages[a]);
                    }
                }
            }
        }
        assert forall|a: int| 0 <= a < v1.history.len() implies (#[trigger] v1.history[a]).publish
            < v1.published by {
            if a >= v0.history.len() {
                assert(v1.history[a] == added[a - v0.history.len()]);
            }
        }
        assert forall|a: int, b: int|
            0 <= a < b < v1.history.len() && (#[trigger] v1.history[a]).client == (
            #[trigger] v1.history[b]).client implies v1.history[a].publish < v1.history[b].publish by {
            let n = v0.history.len();
            if b < n {
                assert(v1.history[a] == v0.history[a] && v1.history[b] == v0.history[b]);
            } else if a < n {
                assert(v1.history[a] == v0.history[a]);
                assert(v1.history[b] == added[b - n]);
            } else {
                assert(v1.history[a] == added[a - n]);
                assert(v1.history[b] == added[b - n]);
                assert(v0.subscribers[a - n] != v0.subscribers[b - n]);
            }
        }
        assert forall|c: Seq<char>| #[trigger] v1.subscribers.contains(c) implies {
            &&& v1.joined.contains_key(c)
            &&& v1.joined[c].at <= v1.history.len()
            &&& v1.joined[c].published <= v1.published
            &&& forall|i: int|
                v1.joined[c].at <= i < v1.history.len() ==> (#[trigger] v1.history[i]).publish
                    >= v1.joined[c].published
        } by {
            assert(v0.subscribers.contains(c));
            assert forall|i: int| v1.joined[c].at <= i < v1.history.len() implies (
            #[trigger] v1.history[i]).publish >= v1.joined[c].published by {
                if i >= v0.history.len() {
                    assert(v1.history[i] == added[i - v0.history.len()]);
                } else {
                    assert(v1.history[i] == v0.history[i]);
                }
            }
        }
        actions
    }

    /// The periodic retention sweep at `now`: removes expired messages and
    /// their acknowledgement entries, and returns the evicted ids.
    pub fn check_retention(&mut self, now: u64) -> (r: Vec<String>)
        requires
            old(self).wf(),
        ensures
            final(self).wf(),
            old(self)@.sweep_post(now, final(self)@, strs(r@)),
    {
        let ghost v0 = self@;
        self.advance(now);
        let t = self.clock;
        let evicted = self.store.sweep(t, self.retention);
        let ghost vm = self@;
        let mut i: usize = 0;
        while i < evicted.len()
            invariant
                self.acks.wf(),
                self@ == (TopicView { acks: self@.acks, ..vm }),
                v0.inv(),
                v0.store.sweep_post(t, vm.retention, vm.store, strs(evicted@)),
                vm.clock == t,
                t == event_time(v0.clock, now),
                v0 == (TopicView { clock: v0.clock, acks: v0.acks, store: v0.store, ..vm }),
                0 <= i <= evicted@.len(),
                self@.acks == v0.acks.remove_keys(strs(evicted@).take(i as int).to_set()),
            decreases evicted@.len() - i,
        {
            let ghost before = self@.acks;
            self.acks.drop_entry(&evicted[i]);
            proof {
                strs(evicted@).take(i as int).lemma_push_to_set_commute(evicted@[i as int]@);
            }
            assert(strs(evicted@).take(i + 1) =~= strs(evicted@).take(i as int).push(
                evicted@[i as int]@,
            ));
            assert(self@.acks =~= v0.acks.remove_keys(strs(evicted@).take(i + 1).to_set()));
            i += 1;
        }
        assert(strs(evicted@).take(i as int) =~= strs(evicted@));
        self.last_sweep = t;
        let ghost v1 = self@;
        assert forall|k: Seq<char>| #[trigger] v1.acks.contains_key(k) implies v1.acks[k].deadlines
            < MAX_ACK_RETRIES by {
            assert(v0.acks.contains_key(k));
        }
        match self.retention {
            Some(r) => {
                proof {
                    lemma_sweep_from(v0.store, t, r, v1.store, strs(evicted@));
                }
                assert forall|j: int| 0 <= j < v1.store.messages.len() implies (
                #[trigger] v1.store.messages[j]).timestamp <= v1.clock by {
                    let a = choose|a: int|
                        0 <= a < v0.store.messages.len() && v0.store.messages[a]
                            == v1.store.messages[j];
                }
            },
            None => {},
        }
        evicted
    }

    /// Handles the passing of the acknowledgement deadline of `message_id`
    /// at `now`: redelivers to those who still owe an acknowledgement, up to
    /// the allowed number of deadlines.
    pub fn ack_deadline(&mut self, now: u64, message_id: &String) -> (r: Vec<Action>)
        requires
            old(self).wf(),
        ensures
            final(self).wf(),
            old(self)@.deadline_post(now, message_id@, final(self)@, action_views(r@)),
    {
        let ghost v0 = self@;
        self.advance(now);
        let mut actions: Vec<Action> = Vec::new();
        if !self.acks.contains(message_id) {
            assert(action_views(actions@).len() == 0);
            return actions;
        }
        let m = match self.store.find(message_id) {
            None => {
                self.acks.drop_entry(message_id);
                assert forall|k: Seq<char>| #[trigger] self@.acks.contains_key(k) implies self@.acks[
                    k].deadlines < MAX_ACK_RETRIES by {
                    assert(v0.acks.contains_key(k));
                }
                assert(action_views(actions@).len() == 0);
                return actions;
            },
            Some(m) => m,
        };
        let ghost mv = m@;
        let ghost st = v0.acks[message_id@];
        let count = self.acks.deadlines(message_id) + 1;
        let pending = self.acks.deadline_expired(message_id);
        let ghost subs = self@.subscribers.to_set();
        let ghost mut cs: Seq<Seq<char>> = Seq::empty();
        let mut i: usize = 0;
        while i < pending.len()
            invariant
                0 <= i <= pending@.len(),
                m@ == mv,
                strs(pending@).no_duplicates(),
                subs == strs(self.subscribers@).to_set(),
                cs.no_duplicates(),
                cs.to_set() == strs(pending@).take(i as int).to_set().intersect(subs),
                action_views(actions@) == deliveries(cs, mv),
            decreases pending@.len() - i,
        {
            let ghost x = strs(pending@)[i as int];
            proof {
                strs(pending@).take(i as int).lemma_push_to_set_commute(x);
            }
            assert(strs(pending@).take(i + 1) =~= strs(pending@).take(i as int).push(x));
            if contains_string(&self.subscribers, &pending[i]) {
                let ghost before = action_views(actions@);
                actions.push(Action::Deliver { client_id: pending[i].clone(), message: m.duplicate() });
                assert(!cs.contains(x)) by {
                    if cs.contains(x) {
                        assert(cs.to_set().contains(x));
                        let j = choose|j: int| 0 <= j < i && strs(pending@).take(i as int)[j] == x;
                        assert(strs(pending@)[j] == strs(pending@)[i as int]);
                    }
                }
                assert(action_views(actions@) =~= before.push(
                    ActionView::Deliver { client: x, message: mv },
                ));
                let ghost cs0 = cs;
                proof {
                    cs.lemma_push_to_set_commute(x);
                    cs = cs.push(x);
                }
                assert(deliveries(cs, mv) =~= deliveries(cs0, mv).push(
                    ActionView::Deliver { client: x, message: mv },
                ));
                assert(action_views(actions@) =~= deliveries(cs, mv));
                assert(cs.to_set() =~= strs(pending@).take(i + 1).to_set().intersect(subs));
            } else {
                assert(cs.to_set() =~= strs(pending@).take(i + 1).to_set().intersect(subs));
            }
            i += 1;
        }
        assert(strs(pending@).take(i as int) =~= strs(pending@));
        let ghost delivered = action_views(actions@);
        if count >= MAX_ACK_RETRIES {
            self.acks.drop_entry(message_id);
            assert(self@.acks =~= v0.acks.remove(message_id@));
        } else {
            actions.push(
                Action::ScheduleDeadline {
                    message_id: message_id.clone(),
                    at: self.clock.saturating_add(self.ack_timeout),
                },
            );
            assert(action_views(actions@) =~= delivered.push(
                ActionView::Schedule {
                    message: message_id@,
                    at: self.clock.saturating_add(self.ack_timeout),
                },
            ));
        }
        assert forall|k: Seq<char>| #[trigger] self@.acks.contains_key(k) implies self@.acks[k].deadlines
            < MAX_ACK_RETRIES by {
            if k != message_id@ {
                assert(v0.acks.contains_key(k));
            }
        }
        assert(first_with_id(v0.store.messages, message_id@, mv));
        assert(deliveries(cs, mv) == delivered);
        actions
    }

    /// Adds `client_id` to the subscribers, or keeps it there. A subscriber
    /// receives only what is published from now on.
    pub fn subscribe(&mut self, now: u64, client_id: String)
        requires
            old(self).wf(),
        ensures
            final(self).wf(),
            old(self)@.subscribe_post(now, client_id@, final(self)@),
    {
        self.advance(now);
        let ghost old_subs = self@.subscribers;
        if !contains_string(&self.subscribers, &client_id) {
            self.subscribers.push(client_id.clone());
            assert(self@.subscribers =~= old_subs.push(client_id@));
            assert forall|a: int, b: int|
                0 <= a < self@.subscribers.len() && 0 <= b < self@.subscribers.len() && a != b
                    implies self@.subscribers[a] != self@.subscribers[b] by {
                if a < old_subs.len() && b < old_subs.len() {
                } else if a < old_subs.len() {
                    assert(old_subs.contains(old_subs[a]));
                } else {
                    assert(old_subs.contains(old_subs[b]));
                }
            }
        }
        self.joined = Ghost(
            self.joined@.insert(
                client_id@,
                JoinPoint { at: self.history@.len(), published: self.published@ },
            ),
        );
        assert forall|c: Seq<char>| #[trigger] self@.subscribers.contains(c) implies {
            &&& self@.joined.contains_key(c)
            &&& self@.joined[c].at <= self@.history.len()
            &&& self@.joined[c].published <= self@.published
            &&& forall|i: int|
                self@.joined[c].at <= i < self@.history.len() ==> (#[trigger] self@.history[i]).publish
                    >= self@.joined[c].published
        } by {
            if c != client_id@ {
                assert(old_subs.contains(c));
            }
        }
    }

    /// Removes `client_id` from the subscribers.
    pub fn unsubscribe(&mut self, now: u64, client_id: &String)
        requires
            old(self).wf(),
        ensures
            final(self).wf(),
            old(self)@.unsubscribe_post(now, client_id@, final(self)@),
    {
        self.advance(now);
        let ghost old_subs = self@.subscribers;
        let mut p: usize = 0;
        while p < self.subscribers.len() && self.subscribers[p] != *client_id
            invariant
                0 <= p <= self.subscribers@.len(),
                forall|j: int| 0 <= j < p ==> (#[trigger] strs(self.subscribers@)[j]) != client_id@,
            decreases self.subscribers@.len() - p,
        {
            p += 1;
        }
        if p < self.subscribers.len() {
            proof {
                lemma_remove_unique(old_subs, p as int);
            }
            self.subscribers.remove(p);
            assert(self@.subscribers =~= old_subs.remove(p as int));
            assert(old_subs.contains(client_id@));
        } else {
            assert(!old_subs.contains(client_id@));
        }
        self.joined = Ghost(self.joined@.remove(client_id@));
        assert forall|c: Seq<char>| #[trigger] self@.subscribers.contains(c) implies {
            &&& self@.joined.contains_key(c)
            &&& self@.joined[c].at <= self@.history.len()
            &&& self@.joined[c].published <= self@.published
            &&& forall|i: int|
                self@.joined[c].at <= i < self@.history.len() ==> (#[trigger] self@.history[i]).publish
                    >= self@.joined[c].published
        } by {
            let a = choose|a: int| 0 <= a < self@.subscribers.len() && self@.subscribers[a] == c;
            if p < old_subs.len() {
                let a1 = if a < p { a } else { a + 1 };
                assert(old_subs[a1] == c);
                assert(old_subs.contains(c));
                assert(c != client_id@);
            }
        }
    }

    /// Records that `client_id` acknowledged `message_id`.
    pub fn confirm_message(&mut self, now: u64, client_id: &String, message_id: &String) -> (r:
        AckStatus)
        requires
            old(self).wf(),
        ensures
            final(self).wf(),
            old(self)@.acknowledge_post(now, client_id@, message_id@, final(self)@),
            r == ack_status(old(self)@.acks, message_id@, client_id@),
    {
        self.advance(now);
        let r = self.acks.acknowledge(message_id, client_id);
        assert forall|k: Seq<char>| #[trigger] self@.acks.contains_key(k) implies self@.acks[k].deadlines
            < MAX_ACK_RETRIES by {
            assert(old(self)@.acks.contains_key(k));
        }
        r
    }
}

/// Every subscriber receives the first deliveries of published messages in
/// publish order: of two deliveries to the same client, the earlier one
/// carries the earlier publish.
pub proof fn lemma_delivery_order(v: TopicView, i: int, j: int)
    requires
        v.inv(),
        0 <= i < j < v.history.len(),
        v.history[i].client == v.history[j].client,
    ensures
        v.history[i].publish < v.history[j].publish,
{
}

/// A subscriber receives nothing that was published before it subscribed:
/// every delivery to it since its subscription carries a publish numbered
/// at least the count of publishes processed when it subscribed.
pub proof fn lemma_no_replay(v: TopicView, c: Seq<char>, i: int)
    requires
        v.inv(),
        v.subscribers.contains(c),
        v.joined[c].at <= i < v.history.len(),
        v.history[i].client == c,
    ensures
        v.history[i].publish >= v.joined[c].published,
{
}

/// With retention `r` and sweeps at most `period` apart, no stored message
/// is older than `r + period` at time `t`.
pub proof fn lemma_retention_bound(v: TopicView, r: u64, t: u64, period: u64)
    requires
        v.inv(),
        v.retention == Some(r),
        v.last_sweep <= t,
        t - v.last_sweep <= period,
    ensures
        forall|i: int|
            0 <= i < v.store.messages.len() ==> t - (#[trigger] v.store.messages[i]).timestamp
                <= r + period,
{
    assert forall|i: int| 0 <= i < v.store.messages.len() implies t - (
    #[trigger] v.store.messages[i]).timestamp <= r + period by {
        assert(!expired(v.store.messages[i], v.last_sweep, r));
    }
}

/// Subscribing a client that was not subscribed and then unsubscribing it
/// leaves the subscribers as they were.
pub proof fn lemma_subscribe_unsubscribe(
    v0: TopicView,
    v1: TopicView,
    v2: TopicView,
    now1: u64,
    now2: u64,
    c: Seq<char>,
)
    requires
        v0.inv(),
        !v0.subscribers.contains(c),
        v0.subscribe_post(now1, c, v1),
        v1.unsubscribe_post(now2, c, v2),
    ensures
        v2.subscribers == v0.subscribers,
        v2.subscriber_set() == v0.subscriber_set(),
{
    assert(v1.subscribers == v0.subscribers.push(c));
    assert(v1.subscribers[v0.subscribers.len() as int] == c);
    assert(v1.subscribers.contains(c));
    let p = choose|p: int|
        0 <= p < v1.subscribers.len() && #[trigger] v1.subscribers[p] == c && v2.subscribers
            == v1.subscribers.remove(p);
    if p < v0.subscribers.len() {
        assert(v0.subscribers.contains(v1.subscribers[p]));
    }
    assert(v2.subscribers =~= v0.subscribers);
}

/// In a compacted topic, two publishes with the same key in a row leave
/// exactly one stored message with that key: the second, as stamped.
pub proof fn lemma_compact_latest(
    v0: TopicView,
    v1: TopicView,
    v2: TopicView,
    now1: u64,
    now2: u64,
    m1: MessageView,
    m2: MessageView,
    a1: Seq<ActionView>,
    a2: Seq<ActionView>,
    k: Seq<char>,
)
    requires
        v0.inv(),
        v0.store.mode == StoreMode::Compact,
        v0.publish_post(now1, m1, v1, a1),
        v1.inv(),
        v1.publish_post(now2, m2, v2, a2),
        m1.key == Some(k),
        m2.key == Some(k),
    ensures
        exists|i: int|
            0 <= i < v2.store.messages.len() && #[trigger] v2.store.messages[i] == stamp(
                m2,
                v2.clock,
            ),
        forall|i: int, j: int|
            0 <= i < v2.store.messages.len() && 0 <= j < v2.store.messages.len()
                && (#[trigger] v2.store.messages[i]).key == Some(k) && (
            #[trigger] v2.store.messages[j]).key == Some(k) ==> i == j,
{
    let s2 = stamp(m2, v2.clock);
    let rep = choose|rep: Option<Seq<char>>|
        {
            &&& #[trigger] v1.store.insert_post(s2, v2.store, rep)
            &&& v2.acks == acks_after_publish(v1.acks, rep, s2, v1.subscribers)
        };
    assert(v1.store.mode == StoreMode::Compact);
    if exists|i: int| 0 <= i < v1.store.messages.len() && (#[trigger] v1.store.messages[i]).key == Some(k) {
        let i = choose|i: int|
            0 <= i < v1.store.messages.len() && (#[trigger] v1.store.messages[i]).key == Some(k)
                && v2.store.messages == v1.store.messages.update(i, s2) && rep == Some(
                v1.store.messages[i].id,
            );
        assert(v2.store.messages[i] == s2);
    } else {
        assert(v2.store.messages == v1.store.messages.push(s2));
        assert(v2.store.messages[v1.store.messages.len() as int] == s2);
    }
}

/// The same acknowledgement twice leaves the tracker as one did.
pub proof fn lemma_acknowledge_twice(
    v0: TopicView,
    v1: TopicView,
    v2: TopicView,
    now1: u64,
    now2: u64,
    client: Seq<char>,
    message: Seq<char>,
)
    requires
        v0.acknowledge_post(now1, client, message, v1),
        v1.acknowledge_post(now2, client, message, v2),
    ensures
        v2.acks == v1.acks,
{
    lemma_ack_idempotent(v0.acks, message, client);
}

/// Once every subscriber present when an acknowledged message was
/// published has acknowledged it, in any order, no entry for it remains.
/// Left out: a publish to no subscribers while an entry of an earlier
/// message with the same id is still tracked; that entry is not this
/// message's.
pub proof fn lemma_ack_completion(
    v0: TopicView,
    v1: TopicView,
    now: u64,
    m: MessageView,
    actions: Seq<ActionView>,
    acks: Seq<Seq<char>>,
)
    requires
        v0.inv(),
        v0.publish_post(now, m, v1, actions),
        m.require_ack,
        v0.subscribers.len() > 0 || !v0.acks.contains_key(m.id),
        forall|i: int| 0 <= i < v0.subscribers.len() ==> acks.contains(#[trigger] v0.subscribers[i]),
    ensures
        !acknowledged_all(v1.acks, m.id, acks).contains_key(m.id),
{
    let s = stamp(m, v1.clock);
    let rep = choose|rep: Option<Seq<char>>|
        {
            &&& #[trigger] v0.store.insert_post(s, v1.store, rep)
            &&& v1.acks == acks_after_publish(v0.acks, rep, s, v0.subscribers)
        };
    let a1 = match rep {
        Some(id) => v0.acks.remove(id),
        None => v0.acks,
    };
    if v0.subscribers.len() > 0 {
        lemma_all_acknowledged(a1, m.id, v0.subscribers, acks);
    } else {
        lemma_acks_cover(v1.acks, m.id, acks);
    }
}

} // verus!
