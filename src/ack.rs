//! Bookkeeping of which subscribers still owe an acknowledgement for each
//! message that asked for one.

use vstd::prelude::*;
use crate::store::strs;

verus! {

/// What an acknowledgement did.
#[derive(Debug, Clone, Copy, PartialEq, Eq, Structural)]
pub enum AckStatus {
    /// No entry is tracked for the message.
    Unknown,
    /// Some subscribers still owe an acknowledgement.
    StillPending,
    /// The last pending subscriber acknowledged; the entry is gone.
    Completed,
}

/// One tracked message: who still owes an acknowledgement, and how many
/// acknowledgement deadlines have passed for it.
pub ghost struct AckState {
    pub pending: Set<Seq<char>>,
    pub deadlines: nat,
}

/// The tracker after `client` acknowledged `message`: the client leaves the
/// pending set, and an entry whose set becomes empty is removed. An unknown
/// message or a client that owes nothing leaves the entry as it was.
pub open spec fn acknowledged(
    m: Map<Seq<char>, AckState>,
    message: Seq<char>,
    client: Seq<char>,
) -> Map<Seq<char>, AckState> {
    if !m.contains_key(message) {
        m
    } else if m[message].pending.remove(client).is_empty() {
        m.remove(message)
    } else {
        m.insert(message, AckState { pending: m[message].pending.remove(client), ..m[message] })
    }
}

pub open spec fn ack_status(
    m: Map<Seq<char>, AckState>,
    message: Seq<char>,
    client: Seq<char>,
) -> AckStatus {
    if !m.contains_key(message) {
        AckStatus::Unknown
    } else if m[message].pending.remove(client).is_empty() {
        AckStatus::Completed
    } else {
        AckStatus::StillPending
    }
}

/// The tracker after each client of `clients`, in order, acknowledged
/// `message`.
pub open spec fn acknowledged_all(
    m: Map<Seq<char>, AckState>,
    message: Seq<char>,
    clients: Seq<Seq<char>>,
) -> Map<Seq<char>, AckState>
    decreases clients.len(),
{
    if clients.len() == 0 {
        m
    } else {
        acknowledged_all(acknowledged(m, message, clients[0]), message, clients.drop_first())
    }
}

/// Acknowledging the same message by the same client twice leaves the
/// tracker as one acknowledgement did.
pub proof fn lemma_ack_idempotent(m: Map<Seq<char>, AckState>, message: Seq<char>, client: Seq<char>)
    ensures
        acknowledged(acknowledged(m, message, client), message, client) == acknowledged(
            m,
            message,
            client,
        ),
{
    let m1 = acknowledged(m, message, client);
    if m1.contains_key(message) {
        let st = m1[message];
        assert(st.pending.remove(client) =~= st.pending);
        assert(m1.insert(message, AckState { pending: st.pending, ..st }) =~= m1);
    }
}

pub(crate) proof fn lemma_acks_cover(m: Map<Seq<char>, AckState>, message: Seq<char>, clients: Seq<Seq<char>>)
    requires
        m.contains_key(message) ==> {
            &&& !m[message].pending.is_empty()
            &&& m[message].pending.subset_of(clients.to_set())
        },
    ensures
        !acknowledged_all(m, message, clients).contains_key(message),
    decreases clients.len(),
{
    if clients.len() == 0 {
        if m.contains_key(message) {
            let x = m[message].pending.choose();
            assert(m[message].pending.contains(x));
            assert(!clients.to_set().contains(x));
        }
    } else {
        let c = clients[0];
        let rest = clients.drop_first();
        let m1 = acknowledged(m, message, c);
        if m1.contains_key(message) {
            assert forall|x: Seq<char>| m1[message].pending.contains(x) implies rest.to_set().contains(
                x,
            ) by {
                assert(clients.to_set().contains(x));
                let i = choose|i: int| 0 <= i < clients.len() && clients[i] == x;
                assert(i != 0);
                assert(rest[i - 1] == x);
            }
        }
        lemma_acks_cover(m1, message, rest);
    }
}

/// Once every client that a message was registered with has acknowledged
/// it, in any order and with repeats or others in between, the tracker
/// holds no entry for it.
pub proof fn lemma_all_acknowledged(
    m: Map<Seq<char>, AckState>,
    message: Seq<char>,
    clients: Seq<Seq<char>>,
    acks: Seq<Seq<char>>,
)
    requires
        clients.len() > 0,
        forall|i: int| 0 <= i < clients.len() ==> acks.contains(#[trigger] clients[i]),
    ensures
        !acknowledged_all(
            m.insert(message, AckState { pending: clients.to_set(), deadlines: 0 }),
            message,
            acks,
        ).contains_key(message),
{
    let m1 = m.insert(message, AckState { pending: clients.to_set(), deadlines: 0 });
    assert(clients.to_set().contains(clients[0]));
    assert forall|x: Seq<char>| clients.to_set().contains(x) implies acks.to_set().contains(x) by {
        let i = choose|i: int| 0 <= i < clients.len() && clients[i] == x;
        assert(acks.contains(clients[i]));
    }
    lemma_acks_cover(m1, message, acks);
}

struct AckEntry {
    message_id: String,
    pending: Vec<String>,
    deadlines: u64,
}

impl AckEntry {
    spec fn state(&self) -> AckState {
        AckState { pending: strs(self.pending@).to_set(), deadlines: self.deadlines as nat }
    }
}

/// For each message that asked for acknowledgement and had subscribers:
/// the subscribers that have not acknowledged it yet.
pub struct AckTracker {
    entries: Vec<AckEntry>,
    model: Ghost<Map<Seq<char>, AckState>>,
}

impl View for AckTracker {
    type V = Map<Seq<char>, AckState>;

    closed spec fn view(&self) -> Map<Seq<char>, AckState> {
        self.model@
    }
}

fn copy_strings(v: &Vec<String>) -> (r: Vec<String>)
    ensures
        strs(r@) == strs(v@),
{
    let mut r: Vec<String> = Vec::new();
    let mut i: usize = 0;
    while i < v.len()
        invariant
            0 <= i <= v@.len(),
            strs(r@) == strs(v@).take(i as int),
        decreases v@.len() - i,
    {
        let ghost before = r@;
        r.push(v[i].clone());
        assert(strs(r@) =~= strs(before).push(v@[i as int]@));
        assert(strs(v@).take(i + 1) =~= strs(v@).take(i as int).push(v@[i as int]@));
        i += 1;
    }
    assert(strs(v@).take(i as int) =~= strs(v@));
    r
}

/// The first position of `x` in `s`, or the length of `s` when it is absent.
fn position(s: &Vec<String>, x: &String) -> (r: usize)
    ensures
        r <= s@.len(),
        r < s@.len() ==> strs(s@)[r as int] == x@,
        forall|j: int| 0 <= j < r ==> (#[trigger] strs(s@)[j]) != x@,
{
    let mut i: usize = 0;
    while i < s.len() && s[i] != *x
        invariant
            0 <= i <= s@.len(),
            forall|j: int| 0 <= j < i ==> (#[trigger] strs(s@)[j]) != x@,
        decreases s@.len() - i,
    {
        i += 1;
    }
    i
}

/// Whether `s` holds `x`.
pub fn contains_string(s: &Vec<String>, x: &String) -> (r: bool)
    ensures
        r == strs(s@).contains(x@),
{
    let mut i: usize = 0;
    while i < s.len()
        invariant
            0 <= i <= s@.len(),
            forall|j: int| 0 <= j < i ==> (#[trigger] strs(s@)[j]) != x@,
        decreases s@.len() - i,
    {
        if s[i] == *x {
            assert(strs(s@)[i as int] == x@);
            return true;
        }
        i += 1;
    }
    false
}

pub(crate) proof fn lemma_remove_unique(v: Seq<Seq<char>>, p: int)
    requires
        v.no_duplicates(),
        0 <= p < v.len(),
    ensures
        v.remove(p).to_set() == v.to_set().remove(v[p]),
        v.remove(p).no_duplicates(),
{
    let w = v.remove(p);
    assert forall|x: Seq<char>| w.to_set().contains(x) <==> v.to_set().remove(v[p]).contains(x) by {
        if w.to_set().contains(x) {
            let a = choose|a: int| 0 <= a < w.len() && w[a] == x;
            if a < p {
                assert(v[a] == x);
            } else {
                assert(v[a + 1] == x);
            }
        }
        if v.to_set().remove(v[p]).contains(x) {
            let a = choose|a: int| 0 <= a < v.len() && v[a] == x;
            assert(a != p);
            if a < p {
                assert(w[a] == x);
            } else {
                assert(w[a - 1] == x);
            }
        }
    }
    assert(w.to_set() =~= v.to_set().remove(v[p]));
    assert forall|a: int, b: int| 0 <= a < w.len() && 0 <= b < w.len() && a != b implies w[a]
        != w[b] by {
        let a1 = if a < p { a } else { a + 1 };
        let b1 = if b < p { b } else { b + 1 };
        assert(w[a] == v[a1] && w[b] == v[b1]);
    }
}

fn dedup(v: &Vec<String>) -> (r: Vec<String>)
    ensures
        strs(r@).no_duplicates(),
        strs(r@).to_set() == strs(v@).to_set(),
        r@.len() == 0 <==> v@.len() == 0,
{
    let mut r: Vec<String> = Vec::new();
    let mut i: usize = 0;
    while i < v.len()
        invariant
            0 <= i <= v@.len(),
            strs(r@).no_duplicates(),
            strs(r@).to_set() == strs(v@).take(i as int).to_set(),
            r@.len() == 0 <==> i == 0,
        decreases v@.len() - i,
    {
        let ghost before = strs(r@);
        let ghost x = v@[i as int]@;
        assert(strs(v@).take(i + 1) =~= strs(v@).take(i as int).push(x));
        proof {
            strs(v@).take(i as int).lemma_push_to_set_commute(x);
            before.lemma_push_to_set_commute(x);
        }
        if !contains_string(&r, &v[i]) {
            r.push(v[i].clone());
            assert(strs(r@) =~= before.push(x));
            assert forall|a: int, b: int|
                0 <= a < strs(r@).len() && 0 <= b < strs(r@).len() && a != b implies strs(r@)[a]
                != strs(r@)[b] by {
                if a < before.len() && b < before.len() {
                    assert(before[a] != before[b]);
                } else if a < before.len() {
                    assert(before.contains(before[a]));
                } else {
                    assert(before.contains(before[b]));
                }
            }
            assert(strs(r@).to_set() =~= strs(v@).take(i + 1).to_set());
        } else {
            assert(before.to_set().contains(x));
            assert(strs(r@).to_set() =~= strs(v@).take(i + 1).to_set());
        }
        i += 1;
    }
    assert(strs(v@).take(i as int) =~= strs(v@));
    r
}

impl AckTracker {
    /// Entries have distinct ids and non-empty pending lists without
    /// repeats, and the model says what they hold.
    pub closed spec fn wf(&self) -> bool {
        &&& forall|i: int, j: int|
            0 <= i < self.entries@.len() && 0 <= j < self.entries@.len() && i != j
                ==> (#[trigger] self.entries@[i]).message_id@ != (
            #[trigger] self.entries@[j]).message_id@
        &&& forall|i: int|
            0 <= i < self.entries@.len() ==> {
                &&& strs((#[trigger] self.entries@[i]).pending@).no_duplicates()
                &&& self.entries@[i].pending@.len() > 0
                &&& self.model@.contains_key(self.entries@[i].message_id@)
                &&& self.model@[self.entries@[i].message_id@] == self.entries@[i].state()
            }
        &&& forall|k: Seq<char>|
            #[trigger] self.model@.contains_key(k) ==> exists|i: int|
                0 <= i < self.entries@.len() && (#[trigger] self.entries@[i]).message_id@ == k
    }

    /// An empty tracker.
    pub fn new() -> (r: AckTracker)
        ensures
            r.wf(),
            r@ == Map::<Seq<char>, AckState>::empty(),
    {
        AckTracker { entries: Vec::new(), model: Ghost(Map::empty()) }
    }

    fn index_of(&self, id: &String) -> (r: Option<usize>)
        requires
            self.wf(),
        ensures
            match r {
                None => !self@.contains_key(id@),
                Some(i) => i < self.entries@.len() && self.entries@[i as int].message_id@ == id@
                    && self@.contains_key(id@),
            },
    {
        let mut i: usize = 0;
        while i < self.entries.len()
            invariant
                self.wf(),
                0 <= i <= self.entries@.len(),
                forall|j: int| 0 <= j < i ==> (#[trigger] self.entries@[j]).message_id@ != id@,
            decreases self.entries@.len() - i,
        {
            if self.entries[i].message_id == *id {
                return Some(i);
            }
            i += 1;
        }
        None
    }

    fn remove_at(&mut self, i: usize)
        requires
            old(self).wf(),
            i < old(self).entries@.len(),
        ensures
            final(self).wf(),
            final(self)@ == old(self)@.remove(old(self).entries@[i as int].message_id@),
    {
        let ghost old_e = self.entries@;
        let ghost id = self.entries@[i as int].message_id@;
        self.entries.remove(i);
        self.model = Ghost(self.model@.remove(id));
        assert forall|a: int| 0 <= a < self.entries@.len() implies {
            &&& strs((#[trigger] self.entries@[a]).pending@).no_duplicates()
            &&& self.entries@[a].pending@.len() > 0
            &&& self.model@.contains_key(self.entries@[a].message_id@)
            &&& self.model@[self.entries@[a].message_id@] == self.entries@[a].state()
        } by {
            let a1 = if a < i { a } else { a + 1 };
            assert(self.entries@[a] == old_e[a1]);
            assert(old_e[a1].message_id@ != id);
        }
        assert forall|a: int, b: int|
            0 <= a < self.entries@.len() && 0 <= b < self.entries@.len() && a != b
                implies (#[trigger] self.entries@[a]).message_id@ != (
            #[trigger] self.entries@[b]).message_id@ by {
            let a1 = if a < i { a } else { a + 1 };
            let b1 = if b < i { b } else { b + 1 };
            assert(self.entries@[a] == old_e[a1] && self.entries@[b] == old_e[b1]);
        }
        assert forall|k: Seq<char>| #[trigger] self.model@.contains_key(k) implies exists|a: int|
            0 <= a < self.entries@.len() && (#[trigger] self.entries@[a]).message_id@ == k by {
            let a1 = choose|a: int| 0 <= a < old_e.len() && (#[trigger] old_e[a]).message_id@ == k;
            assert(a1 != i);
            let a = if a1 < i { a1 } else { a1 - 1 };
            assert(self.entries@[a] == old_e[a1]);
        }
    }

    fn replace_at(&mut self, i: usize, e: AckEntry)
        requires
            old(self).wf(),
            i < old(self).entries@.len(),
            e.message_id@ == old(self).entries@[i as int].message_id@,
            strs(e.pending@).no_duplicates(),
            e.pending@.len() > 0,
        ensures
            final(self).wf(),
            final(self)@ == old(self)@.insert(e.message_id@, e.state()),
    {
        let ghost old_e = self.entries@;
        let ghost id = e.message_id@;
        let ghost st = e.state();
        self.entries.set(i, e);
        self.model = Ghost(self.model@.insert(id, st));
        assert forall|a: int| 0 <= a < self.entries@.len() implies {
            &&& strs((#[trigger] self.entries@[a]).pending@).no_duplicates()
            &&& self.entries@[a].pending@.len() > 0
            &&& self.model@.contains_key(self.entries@[a].message_id@)
            &&& self.model@[self.entries@[a].message_id@] == self.entries@[a].state()
        } by {
            if a != i {
                assert(self.entries@[a] == old_e[a]);
                assert(old_e[a].message_id@ != id);
            }
        }
        assert forall|a: int, b: int|
            0 <= a < self.entries@.len() && 0 <= b < self.entries@.len() && a != b
                implies (#[trigger] self.entries@[a]).message_id@ != (
            #[trigger] self.entries@[b]).message_id@ by {
            assert(old_e[a].message_id@ != old_e[b].message_id@);
        }
        assert forall|k: Seq<char>| #[trigger] self.model@.contains_key(k) implies exists|a: int|
            0 <= a < self.entries@.len() && (#[trigger] self.entries@[a]).message_id@ == k by {
            if k != id {
                let a = choose|a: int| 0 <= a < old_e.len() && (#[trigger] old_e[a]).message_id@ == k;
                assert(self.entries@[a] == old_e[a]);
            } else {
                assert(self.entries@[i as int].message_id@ == k);
            }
        }
    }

    fn push_entry(&mut self, e: AckEntry)
        requires
            old(self).wf(),
            !old(self)@.contains_key(e.message_id@),
            strs(e.pending@).no_duplicates(),
            e.pending@.len() > 0,
        ensures
            final(self).wf(),
            final(self)@ == old(self)@.insert(e.message_id@, e.state()),
    {
        let ghost old_e = self.entries@;
        let ghost id = e.message_id@;
        let ghost st = e.state();
        self.entries.push(e);
        self.model = Ghost(self.model@.insert(id, st));
        assert forall|a: int| 0 <= a < self.entries@.len() implies {
            &&& strs((#[trigger] self.entries@[a]).pending@).no_duplicates()
            &&& self.entries@[a].pending@.len() > 0
            &&& self.model@.contains_key(self.entries@[a].message_id@)
            &&& self.model@[self.entries@[a].message_id@] == self.entries@[a].state()
        } by {
            if a < old_e.len() {
                assert(self.entries@[a] == old_e[a]);
                assert(old_e[a].message_id@ != id);
            }
        }
        assert forall|a: int, b: int|
            0 <= a < self.entries@.len() && 0 <= b < self.entries@.len() && a != b
                implies (#[trigger] self.entries@[a]).message_id@ != (
            #[trigger] self.entries@[b]).message_id@ by {
            if a < old_e.len() && b < old_e.len() {
                assert(old_e[a].message_id@ != old_e[b].message_id@);
            }
        }
        assert forall|k: Seq<char>| #[trigger] self.model@.contains_key(k) implies exists|a: int|
            0 <= a < self.entries@.len() && (#[trigger] self.entries@[a]).message_id@ == k by {
            if k != id {
                let a = choose|a: int| 0 <= a < old_e.len() && (#[trigger] old_e[a]).message_id@ == k;
                assert(self.entries@[a] == old_e[a]);
            } else {
                assert(self.entries@[old_e.len() as int].message_id@ == k);
            }
        }
    }

    /// Starts tracking `message_id` with `clients` owing an acknowledgement
    /// and no deadline passed. With no clients nothing is tracked.
    pub fn register(&mut self, message_id: &String, clients: &Vec<String>)
        requires
            old(self).wf(),
        ensures
            final(self).wf(),
            final(self)@ == if clients@.len() == 0 {
                old(self)@
            } else {
                old(self)@.insert(
                    message_id@,
                    AckState { pending: strs(clients@).to_set(), deadlines: 0 },
                )
            },
    {
        if clients.len() == 0 {
            return;
        }
        let pending = dedup(clients);
        let e = AckEntry { message_id: message_id.clone(), pending, deadlines: 0 };
        match self.index_of(message_id) {
            Some(i) => self.replace_at(i, e),
            None => self.push_entry(e),
        }
    }

    /// Records that `client_id` acknowledged `message_id`.
    pub fn acknowledge(&mut self, message_id: &String, client_id: &String) -> (r: AckStatus)
        requires
            old(self).wf(),
        ensures
            final(self).wf(),
            final(self)@ == acknowledged(old(self)@, message_id@, client_id@),
            r == ack_status(old(self)@, message_id@, client_id@),
    {
        let i = match self.index_of(message_id) {
            None => {
                return AckStatus::Unknown;
            },
            Some(i) => i,
        };
        let ghost st = self@[message_id@];
        assert(st == self.entries@[i as int].state());
        let mut pending = copy_strings(&self.entries[i].pending);
        let p = position(&pending, client_id);
        if p == pending.len() {
            assert(!st.pending.contains(client_id@));
            assert(st.pending.remove(client_id@) =~= st.pending);
            assert(strs(pending@).len() > 0);
            assert(st.pending.contains(strs(pending@)[0]));
            assert(self@.insert(message_id@, AckState { pending: st.pending, ..st }) =~= self@);
            return AckStatus::StillPending;
        }
        assert(strs(pending@)[p as int] == client_id@);
        proof {
            lemma_remove_unique(strs(pending@), p as int);
        }
        pending.remove(p);
        assert(strs(pending@) =~= strs(old(self).entries@[i as int].pending@).remove(p as int));
        if pending.len() == 0 {
            assert(strs(pending@).to_set() =~= Set::<Seq<char>>::empty());
            self.remove_at(i);
            AckStatus::Completed
        } else {
            assert(strs(pending@).to_set().contains(strs(pending@)[0]));
            let deadlines = self.entries[i].deadlines;
            let e = AckEntry { message_id: message_id.clone(), pending, deadlines };
            self.replace_at(i, e);
            AckStatus::StillPending
        }
    }

    /// Stops tracking `message_id`.
    pub fn drop_entry(&mut self, message_id: &String)
        requires
            old(self).wf(),
        ensures
            final(self).wf(),
            final(self)@ == old(self)@.remove(message_id@),
    {
        match self.index_of(message_id) {
            Some(i) => self.remove_at(i),
            None => {
                assert(self@.remove(message_id@) =~= self@);
            },
        }
    }

    /// The clients that still owe an acknowledgement of `message_id`, each
    /// once; none when the message is not tracked.
    pub fn pending(&self, message_id: &String) -> (r: Vec<String>)
        requires
            self.wf(),
        ensures
            strs(r@).no_duplicates(),
            self@.contains_key(message_id@) ==> strs(r@).to_set() == self@[message_id@].pending
                && r@.len() > 0,
            !self@.contains_key(message_id@) ==> r@.len() == 0,
    {
        match self.index_of(message_id) {
            Some(i) => {
                assert(self.entries@[i as int].state() == self@[message_id@]);
                let r = copy_strings(&self.entries[i].pending);
                assert(r@.len() == strs(r@).len());
                r
            },
            None => Vec::new(),
        }
    }

    /// An acknowledgement deadline of `message_id` passed: returns the
    /// clients that still owe an acknowledgement, and counts the deadline.
    /// The entry stays.
    pub fn deadline_expired(&mut self, message_id: &String) -> (r: Vec<String>)
        requires
            old(self).wf(),
            old(self)@.contains_key(message_id@) ==> old(self)@[message_id@].deadlines < u64::MAX,
        ensures
            final(self).wf(),
            strs(r@).no_duplicates(),
            old(self)@.contains_key(message_id@) ==> {
                &&& strs(r@).to_set() == old(self)@[message_id@].pending
                &&& r@.len() > 0
                &&& final(self)@ == old(self)@.insert(
                    message_id@,
                    AckState {
                        deadlines: old(self)@[message_id@].deadlines + 1,
                        ..old(self)@[message_id@]
                    },
                )
            },
            !old(self)@.contains_key(message_id@) ==> r@.len() == 0 && final(self)@ == old(self)@,
    {
        match self.index_of(message_id) {
            Some(i) => {
                let pending = copy_strings(&self.entries[i].pending);
                let r = copy_strings(&pending);
                let deadlines = self.entries[i].deadlines + 1;
                let e = AckEntry { message_id: message_id.clone(), pending, deadlines };
                self.replace_at(i, e);
                r
            },
            None => Vec::new(),
        }
    }

    /// How many acknowledgement deadlines of `message_id` have passed; 0
    /// when it is not tracked.
    pub fn deadlines(&self, message_id: &String) -> (r: u64)
        requires
            self.wf(),
        ensures
            self@.contains_key(message_id@) ==> r == self@[message_id@].deadlines,
            !self@.contains_key(message_id@) ==> r == 0,
    {
        match self.index_of(message_id) {
            Some(i) => {
                assert(self.entries@[i as int].state() == self@[message_id@]);
                self.entries[i].deadlines
            },
            None => 0,
        }
    }

    /// Whether an entry is tracked for `message_id`.
    pub fn contains(&self, message_id: &String) -> (r: bool)
        requires
            self.wf(),
        ensures
            r == self@.contains_key(message_id@),
    {
        self.index_of(message_id).is_some()
    }
}

} // verus!
