//! Per-topic message storage: an append-only log, or a compacted store that
//! keeps the latest message of each key.

use vstd::prelude::*;
use crate::message::{opt_view, Message, MessageView};

verus! {

/// How a topic stores what is published to it. Fixed when the topic is made.
#[derive(Debug, Clone, Copy, PartialEq, Eq, Structural)]
pub enum StoreMode {
    /// Every message, in publish order (front is oldest).
    Log,
    /// The latest message of each key; messages without a key are not kept.
    Compact,
}

/// What a store holds, as the contracts see it: the stored messages in
/// order, and every key ever offered to it.
pub ghost struct StoreView {
    pub mode: StoreMode,
    pub messages: Seq<MessageView>,
    pub keys_seen: Set<Seq<char>>,
}

/// A message is expired at `now` when it is older than `retention`.
pub open spec fn expired(m: MessageView, now: u64, retention: u64) -> bool {
    now as int - m.timestamp as int > retention as int
}

pub open spec fn live_at(now: u64, retention: u64) -> spec_fn(MessageView) -> bool {
    |m: MessageView| !expired(m, now, retention)
}

pub open spec fn expired_at(now: u64, retention: u64) -> spec_fn(MessageView) -> bool {
    |m: MessageView| expired(m, now, retention)
}

pub open spec fn ids_of(s: Seq<MessageView>) -> Seq<Seq<char>> {
    s.map_values(|m: MessageView| m.id)
}

impl StoreView {
    /// Compaction holds at most one message per key, only keyed messages,
    /// and only keys that were offered.
    pub open spec fn wf(self) -> bool {
        &&& self.keys_seen.finite()
        &&& self.mode == StoreMode::Compact ==> {
            &&& forall|i: int|
                0 <= i < self.messages.len() ==> {
                    &&& (#[trigger] self.messages[i]).key is Some
                    &&& self.keys_seen.contains(self.messages[i].key.unwrap())
                }
            &&& forall|i: int, j: int|
                0 <= i < self.messages.len() && 0 <= j < self.messages.len() && i != j
                    ==> (#[trigger] self.messages[i]).key != (#[trigger] self.messages[j]).key
        }
    }

    /// `new` is this store after `m` was inserted; `replaced` is the id of
    /// the message that `m` took the place of.
    pub open spec fn insert_post(
        self,
        m: MessageView,
        new: StoreView,
        replaced: Option<Seq<char>>,
    ) -> bool {
        &&& new.mode == self.mode
        &&& new.keys_seen == match m.key {
            Some(k) => self.keys_seen.insert(k),
            None => self.keys_seen,
        }
        &&& match self.mode {
            StoreMode::Log => new.messages == self.messages.push(m) && replaced is None,
            StoreMode::Compact => match m.key {
                None => new.messages == self.messages && replaced is None,
                Some(k) => if exists|i: int|
                    0 <= i < self.messages.len() && (#[trigger] self.messages[i]).key == Some(k) {
                    exists|i: int|
                        0 <= i < self.messages.len() && (#[trigger] self.messages[i]).key == Some(k)
                            && new.messages == self.messages.update(i, m) && replaced == Some(
                            self.messages[i].id,
                        )
                } else {
                    new.messages == self.messages.push(m) && replaced is None
                },
            },
        }
    }

    /// `new` is this store after a retention sweep at `now`, and `evicted`
    /// the ids of the messages that it removed, in store order.
    pub open spec fn sweep_post(
        self,
        now: u64,
        retention: Option<u64>,
        new: StoreView,
        evicted: Seq<Seq<char>>,
    ) -> bool {
        &&& new.mode == self.mode
        &&& new.keys_seen == self.keys_seen
        &&& match retention {
            None => new.messages == self.messages && evicted.len() == 0,
            Some(r) => match self.mode {
                StoreMode::Log => exists|n: int|
                    {
                        &&& 0 <= n <= self.messages.len()
                        &&& forall|i: int| 0 <= i < n ==> expired(#[trigger] self.messages[i], now, r)
                        &&& n == self.messages.len() || !expired(self.messages[n], now, r)
                        &&& new.messages == self.messages.subrange(n, self.messages.len() as int)
                        &&& evicted == ids_of(self.messages.subrange(0, n))
                    },
                StoreMode::Compact => {
                    &&& new.messages == self.messages.filter(live_at(now, r))
                    &&& evicted == ids_of(self.messages.filter(expired_at(now, r)))
                },
            },
        }
    }
}

fn is_expired(m: &Message, now: u64, retention: u64) -> (b: bool)
    ensures
        b == expired(m@, now, retention),
{
    let ts = m.timestamp();
    now > ts && now - ts > retention
}

/// A compacted store never holds more messages than the number of distinct
/// keys that were ever offered to it.
pub proof fn lemma_compact_size(v: StoreView)
    requires
        v.wf(),
        v.mode == StoreMode::Compact,
    ensures
        v.messages.len() <= v.keys_seen.len(),
{
    let ks = v.messages.map_values(|m: MessageView| m.key.unwrap());
    assert forall|a: int, b: int| 0 <= a < ks.len() && 0 <= b < ks.len() && a != b implies ks[a]
        != ks[b] by {
        assert(v.messages[a].key != v.messages[b].key);
    }
    ks.unique_seq_to_set();
    assert forall|k: Seq<char>| ks.to_set().contains(k) implies v.keys_seen.contains(k) by {
        let a = choose|a: int| 0 <= a < ks.len() && ks[a] == k;
        assert(v.messages[a].key is Some);
    }
    vstd::set_lib::lemma_len_subset(ks.to_set(), v.keys_seen);
}

/// The stored messages of one topic.
pub struct MessageStore {
    mode: StoreMode,
    messages: Vec<Message>,
    keys_seen: Ghost<Set<Seq<char>>>,
}

pub open spec fn strs(s: Seq<String>) -> Seq<Seq<char>> {
    s.map_values(|x: String| x@)
}

pub open spec fn views(s: Seq<Message>) -> Seq<MessageView> {
    s.map_values(|m: Message| m@)
}

impl View for MessageStore {
    type V = StoreView;

    closed spec fn view(&self) -> StoreView {
        StoreView { mode: self.mode, messages: views(self.messages@), keys_seen: self.keys_seen@ }
    }
}

impl MessageStore {
    /// An empty store of the given mode.
    pub fn new(mode: StoreMode) -> (r: MessageStore)
        ensures
            r@.wf(),
            r@.mode == mode,
            r@.messages.len() == 0,
            r@.keys_seen == Set::<Seq<char>>::empty(),
    {
        let r = MessageStore { mode, messages: Vec::new(), keys_seen: Ghost(Set::empty()) };
        assert(r@.messages =~= Seq::<MessageView>::empty());
        r
    }

    /// Stores `msg`: a log appends it; a compacted store puts it in place
    /// of the message with the same key, and keeps nothing without a key.
    /// Returns the id of the message it replaced.
    pub fn insert(&mut self, msg: Message) -> (replaced: Option<String>)
        requires
            old(self)@.wf(),
        ensures
            final(self)@.wf(),
            old(self)@.insert_post(msg@, final(self)@, opt_view(replaced)),
    {
        let ghost old_v = self@;
        let ghost mv = msg@;
        let ghost seen = match msg@.key {
            Some(k) => self.keys_seen@.insert(k),
            None => self.keys_seen@,
        };
        if self.mode == StoreMode::Log {
            self.messages.push(msg);
            self.keys_seen = Ghost(seen);
            assert(self@.messages =~= old_v.messages.push(mv));
            return None;
        }
        let key: String = match msg.key() {
            Some(k) => k.clone(),
            None => {
                return None;
            },
        };
        let mut i: usize = 0;
        while i < self.messages.len()
            invariant
                self@ == old_v,
                old(self)@ == old_v,
                old_v.wf(),
                old_v.mode == StoreMode::Compact,
                msg@ == mv,
                mv.key == Some(key@),
                seen == old_v.keys_seen.insert(key@),
                0 <= i <= self.messages@.len(),
                forall|j: int| 0 <= j < i ==> (#[trigger] old_v.messages[j]).key != Some(key@),
            decreases self.messages@.len() - i,
        {
            assert(old_v.messages[i as int] == self.messages@[i as int]@);
            let same = match self.messages[i].key() {
                Some(k2) => *k2 == key,
                None => false,
            };
            if same {
                assert(old_v.messages[i as int].key == Some(key@));
                let old_id = self.messages[i].id().clone();
                self.messages.set(i, msg);
                self.keys_seen = Ghost(seen);
                assert(self@.messages =~= old_v.messages.update(i as int, mv));
                assert forall|a: int, b: int|
                    0 <= a < self@.messages.len() && 0 <= b < self@.messages.len() && a != b
                        implies (#[trigger] self@.messages[a]).key != (
                    #[trigger] self@.messages[b]).key by {
                    if a != i && b != i {
                        assert(old_v.messages[a].key != old_v.messages[b].key);
                    }
                }
                assert(old_v.messages[i as int].id == old_id@);
                assert forall|a: int| 0 <= a < self@.messages.len() implies {
                    &&& (#[trigger] self@.messages[a]).key is Some
                    &&& seen.contains(self@.messages[a].key.unwrap())
                } by {
                    if a != i {
                        assert(old_v.messages[a] == self@.messages[a]);
                        assert(old_v.keys_seen.contains(old_v.messages[a].key.unwrap()));
                    } else {
                        assert(self@.messages[a] == mv);
                    }
                }
                assert(opt_view(Some(old_id)) == Some(old_v.messages[i as int].id));
                assert(self@.keys_seen == seen);
                assert(self@.messages == old_v.messages.update(i as int, mv));
                return Some(old_id);
            }
            i += 1;
        }
        self.messages.push(msg);
        self.keys_seen = Ghost(seen);
        assert(self@.messages =~= old_v.messages.push(mv));
        assert forall|a: int, b: int|
            0 <= a < self@.messages.len() && 0 <= b < self@.messages.len() && a != b
                implies (#[trigger] self@.messages[a]).key != (#[trigger] self@.messages[b]).key by {
            if a != old_v.messages.len() && b != old_v.messages.len() {
                assert(old_v.messages[a].key != old_v.messages[b].key);
            } else if a == old_v.messages.len() {
                assert(old_v.messages[b].key != Some(key@));
            } else {
                assert(old_v.messages[a].key != Some(key@));
            }
        }
        None
    }

    /// Removes the messages that are expired at `now` under `retention`, and
    /// returns their ids. A log stops at its first live message; a
    /// compacted store looks at every entry. Without a retention nothing is
    /// removed.
    pub fn sweep(&mut self, now: u64, retention: Option<u64>) -> (evicted: Vec<String>)
        requires
            old(self)@.wf(),
        ensures
            final(self)@.wf(),
            old(self)@.sweep_post(now, retention, final(self)@, strs(evicted@)),
    {
        let ghost old_v = self@;
        let r = match retention {
            None => {
                let e: Vec<String> = Vec::new();
                assert(strs(e@) =~= Seq::<Seq<char>>::empty());
                return e;
            },
            Some(r) => r,
        };
        let mut evicted: Vec<String> = Vec::new();
        if self.mode == StoreMode::Log {
            let mut n: usize = 0;
            while n < self.messages.len() && is_expired(&self.messages[n], now, r)
                invariant
                    self@ == old_v,
                    old(self)@ == old_v,
                    0 <= n <= self.messages@.len(),
                    forall|i: int| 0 <= i < n ==> expired(#[trigger] old_v.messages[i], now, r),
                    strs(evicted@) == ids_of(old_v.messages.subrange(0, n as int)),
                decreases self.messages@.len() - n,
            {
                assert(old_v.messages[n as int] == self.messages@[n as int]@);
                let ghost before = evicted@;
                evicted.push(self.messages[n].id().clone());
                assert(strs(evicted@) =~= strs(before).push(old_v.messages[n as int].id));
                assert(ids_of(old_v.messages.subrange(0, n + 1)) =~= ids_of(
                    old_v.messages.subrange(0, n as int),
                ).push(old_v.messages[n as int].id));
                n += 1;
            }
            assert(n == old_v.messages.len() || !expired(old_v.messages[n as int], now, r)) by {
                if n < old_v.messages.len() {
                    assert(old_v.messages[n as int] == self.messages@[n as int]@);
                }
            }
            let rest = self.messages.split_off(n);
            self.messages = rest;
            assert(self@.messages =~= old_v.messages.subrange(n as int, old_v.messages.len() as int));
            return evicted;
        }
        let mut kept: Vec<Message> = Vec::new();
        let mut i: usize = 0;
        while i < self.messages.len()
            invariant
                self@ == old_v,
                old(self)@ == old_v,
                old_v.wf(),
                old_v.mode == StoreMode::Compact,
                0 <= i <= self.messages@.len(),
                views(kept@) == old_v.messages.take(i as int).filter(live_at(now, r)),
                strs(evicted@) == ids_of(old_v.messages.take(i as int).filter(expired_at(now, r))),
                forall|a: int|
                    0 <= a < kept@.len() ==> exists|j: int|
                        0 <= j < i && (#[trigger] kept@[a])@ == #[trigger] old_v.messages[j],
                forall|a: int, b: int|
                    0 <= a < kept@.len() && 0 <= b < kept@.len() && a != b
                        ==> (#[trigger] kept@[a])@.key != (#[trigger] kept@[b])@.key,
            decreases self.messages@.len() - i,
        {
            let ghost x = old_v.messages[i as int];
            assert(x == self.messages@[i as int]@);
            assert(old_v.messages.take(i + 1) =~= old_v.messages.take(i as int).push(x));
            proof {
                old_v.messages.take(i as int).lemma_filter_push(x, live_at(now, r));
                old_v.messages.take(i as int).lemma_filter_push(x, expired_at(now, r));
            }
            if is_expired(&self.messages[i], now, r) {
                let ghost before = evicted@;
                evicted.push(self.messages[i].id().clone());
                assert(strs(evicted@) =~= strs(before).push(x.id));
                assert(ids_of(old_v.messages.take(i as int).filter(expired_at(now, r)).push(x))
                    =~= ids_of(old_v.messages.take(i as int).filter(expired_at(now, r))).push(x.id));
            } else {
                let ghost before = kept@;
                kept.push(self.messages[i].duplicate());
                assert(views(kept@) =~= views(before).push(x));
                assert forall|a: int| 0 <= a < kept@.len() implies exists|j: int|
                    0 <= j < i + 1 && (#[trigger] kept@[a])@ == #[trigger] old_v.messages[j] by {
                    if a < before.len() {
                        assert(kept@[a] == before[a]);
                    } else {
                        assert(kept@[a]@ == old_v.messages[i as int]);
                    }
                }
                assert forall|a: int, b: int|
                    0 <= a < kept@.len() && 0 <= b < kept@.len() && a != b
                        implies (#[trigger] kept@[a])@.key != (#[trigger] kept@[b])@.key by {
                    if a < before.len() && b < before.len() {
                        assert(kept@[a] == before[a] && kept@[b] == before[b]);
                    } else if a < before.len() {
                        assert(kept@[a] == before[a]);
                        let j = choose|j: int| 0 <= j < i && (#[trigger] before[a])@ == old_v.messages[j];
                        assert(old_v.messages[j].key != old_v.messages[i as int].key);
                    } else {
                        assert(kept@[b] == before[b]);
                        let j = choose|j: int| 0 <= j < i && (#[trigger] before[b])@ == old_v.messages[j];
                        assert(old_v.messages[j].key != old_v.messages[i as int].key);
                    }
                }
            }
            i += 1;
        }
        assert(old_v.messages.take(i as int) =~= old_v.messages);
        self.messages = kept;
        assert forall|a: int| 0 <= a < self@.messages.len() implies {
            &&& (#[trigger] self@.messages[a]).key is Some
            &&& self@.keys_seen.contains(self@.messages[a].key.unwrap())
        } by {
            assert(self@.messages[a] == self.messages@[a]@);
            let j = choose|j: int| 0 <= j < i && (#[trigger] self.messages@[a])@ == old_v.messages[j];
            assert(old_v.keys_seen.contains(old_v.messages[j].key.unwrap()));
        }
        assert forall|a: int, b: int|
            0 <= a < self@.messages.len() && 0 <= b < self@.messages.len() && a != b
                implies (#[trigger] self@.messages[a]).key != (#[trigger] self@.messages[b]).key by {
            assert(self@.messages[a] == self.messages@[a]@);
            assert(self@.messages[b] == self.messages@[b]@);
        }
        evicted
    }

    /// A copy of the first stored message with id `id`, if there is one.
    pub fn find(&self, id: &String) -> (r: Option<Message>)
        ensures
            match r {
                None => forall|i: int|
                    0 <= i < self@.messages.len() ==> (#[trigger] self@.messages[i]).id != id@,
                Some(m) => exists|i: int|
                    {
                        &&& 0 <= i < self@.messages.len()
                        &&& #[trigger] self@.messages[i] == m@
                        &&& m@.id == id@
                        &&& forall|j: int| 0 <= j < i ==> (#[trigger] self@.messages[j]).id != id@
                    },
            },
    {
        let mut i: usize = 0;
        while i < self.messages.len()
            invariant
                0 <= i <= self.messages@.len(),
                forall|j: int| 0 <= j < i ==> (#[trigger] self@.messages[j]).id != id@,
            decreases self.messages@.len() - i,
        {
            assert(self@.messages[i as int] == self.messages@[i as int]@);
            if *self.messages[i].id() == *id {
                let m = self.messages[i].duplicate();
                assert(self@.messages[i as int] == m@);
                return Some(m);
            }
            i += 1;
        }
        None
    }

    /// Copies of the stored messages, in store order.
    pub fn messages(&self) -> (r: Vec<Message>)
        ensures
            views(r@) == self@.messages,
    {
        let mut r: Vec<Message> = Vec::new();
        let mut i: usize = 0;
        while i < self.messages.len()
            invariant
                0 <= i <= self.messages@.len(),
                views(r@) == self@.messages.take(i as int),
            decreases self.messages@.len() - i,
        {
            let ghost before = r@;
            r.push(self.messages[i].duplicate());
            assert(views(r@) =~= views(before).push(self.messages@[i as int]@));
            assert(self@.messages.take(i + 1) =~= self@.messages.take(i as int).push(
                self.messages@[i as int]@,
            ));
            i += 1;
        }
        assert(self@.messages.take(i as int) =~= self@.messages);
        r
    }

    /// This empty store, remembering `keys` as offered before.
    pub fn with_keys_seen(self, keys: Ghost<Set<Seq<char>>>) -> (r: MessageStore)
        requires
            self@.messages.len() == 0,
            keys@.finite(),
        ensures
            r@ == (StoreView { keys_seen: keys@, ..self@ }),
            r@.wf(),
    {
        MessageStore { keys_seen: keys, ..self }
    }

    pub fn mode(&self) -> (r: StoreMode)
        ensures
            r == self@.mode,
    {
        self.mode
    }

    /// The number of stored messages.
    pub fn len(&self) -> (r: usize)
        ensures
            r == self@.messages.len(),
    {
        self.messages.len()
    }
}

} // verus!
