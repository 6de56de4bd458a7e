use mem_broker::ack::AckStatus;
use mem_broker::message::{Confirm, Message, Unsubscribe};
use mem_broker::store::StoreMode;
use mem_broker::topic::{Action, Event, Stop, Topic, ACK_TIMEOUT};

fn s(x: &str) -> String {
    x.to_string()
}

fn delivered_to(actions: &[Action]) -> Vec<(String, Vec<u8>)> {
    let mut out = Vec::new();
    for a in actions {
        if let Action::Deliver { client_id, message } = a {
            out.push((client_id.clone(), message.payload().clone()));
        }
    }
    out
}

fn schedules(actions: &[Action]) -> Vec<(String, u64)> {
    let mut out = Vec::new();
    for a in actions {
        if let Action::ScheduleDeadline { message_id, at } = a {
            out.push((message_id.clone(), *at));
        }
    }
    out
}

#[test]
fn publish_stamps_and_stores_in_log_order() {
    let mut t = Topic::new(s("t"));
    t.broadcast(5, Message::new(b"a".to_vec()));
    t.broadcast(3, Message::new(b"b".to_vec()));
    let stored = t.stored();
    assert_eq!(stored.len(), 2);
    assert_eq!(stored[0].payload(), &b"a".to_vec());
    assert_eq!(stored[0].timestamp(), 5);
    // time never runs backwards: the second event is stamped with the clock
    assert_eq!(stored[1].timestamp(), 5);
    assert_eq!(t.clock(), 5);
}

#[test]
fn delivery_order_follows_publish_order() {
    let mut t = Topic::new(s("t"));
    t.subscribe(0, s("A"));
    let mut seen = Vec::new();
    for p in [b"1", b"2", b"3"] {
        let actions = t.broadcast(1, Message::new(p.to_vec()));
        seen.extend(delivered_to(&actions));
    }
    assert_eq!(
        seen,
        vec![(s("A"), b"1".to_vec()), (s("A"), b"2".to_vec()), (s("A"), b"3".to_vec())]
    );
}

#[test]
fn no_replay_on_join() {
    let mut t = Topic::new(s("t"));
    t.subscribe(0, s("A"));
    t.broadcast(1, Message::new(b"old".to_vec()));
    let joined = t.handle(2, Event::Subscribe(s("B")));
    assert!(joined.is_empty());
    let actions = t.broadcast(3, Message::new(b"new".to_vec()));
    assert_eq!(
        delivered_to(&actions),
        vec![(s("A"), b"new".to_vec()), (s("B"), b"new".to_vec())]
    );
}

#[test]
fn subscribe_then_unsubscribe_restores_subscribers() {
    let mut t = Topic::new(s("t"));
    t.subscribe(0, s("A"));
    t.subscribe(0, s("B"));
    let before = t.subscribers();
    t.subscribe(1, s("C"));
    assert_eq!(t.subscribers(), vec![s("A"), s("B"), s("C")]);
    t.unsubscribe(2, &s("C"));
    assert_eq!(t.subscribers(), before);
}

#[test]
fn resubscribe_keeps_one_entry() {
    let mut t = Topic::new(s("t"));
    t.subscribe(0, s("A"));
    t.subscribe(1, s("A"));
    assert_eq!(t.subscribers(), vec![s("A")]);
    t.unsubscribe(2, &s("nobody"));
    assert_eq!(t.subscribers(), vec![s("A")]);
}

#[test]
fn compact_keeps_latest_per_key() {
    let mut t = Topic::new(s("k")).with_compaction();
    assert_eq!(t.mode(), StoreMode::Compact);
    t.broadcast(1, Message::new(b"1".to_vec()).with_key(s("x")));
    t.broadcast(2, Message::new(b"2".to_vec()).with_key(s("x")));
    let stored = t.stored();
    assert_eq!(stored.len(), 1);
    assert_eq!(stored[0].payload(), &b"2".to_vec());
    assert_eq!(stored[0].key(), &Some(s("x")));
    assert_eq!(stored[0].timestamp(), 2);
}

#[test]
fn compact_size_bounded_by_keys() {
    let mut t = Topic::new(s("k")).with_compaction();
    let keys = ["a", "b", "a", "c", "b", "a"];
    for (i, k) in keys.iter().enumerate() {
        t.broadcast(i as u64, Message::new(vec![i as u8]).with_key(s(k)));
    }
    t.broadcast(9, Message::new(b"no key".to_vec()));
    let stored = t.stored();
    assert_eq!(stored.len(), 3);
    assert!(stored.iter().all(|m| m.key().is_some()));
}

#[test]
fn compact_unkeyed_message_is_delivered_not_stored() {
    let mut t = Topic::new(s("k")).with_compaction();
    t.subscribe(0, s("A"));
    let actions = t.broadcast(1, Message::new(b"loose".to_vec()));
    assert_eq!(delivered_to(&actions), vec![(s("A"), b"loose".to_vec())]);
    assert!(t.stored().is_empty());
}

#[test]
fn compact_replacement_drops_old_ack_entry() {
    let mut t = Topic::new(s("k")).with_compaction();
    t.subscribe(0, s("A"));
    let first = Message::new(b"1".to_vec()).with_key(s("x")).with_reply();
    let first_id = first.id().clone();
    t.broadcast(1, first);
    assert!(t.awaits_ack(&first_id));
    t.broadcast(2, Message::new(b"2".to_vec()).with_key(s("x")));
    assert!(!t.awaits_ack(&first_id));
}

#[test]
fn log_sweep_keeps_live_messages() {
    let mut t = Topic::new(s("r")).with_retention(100);
    assert_eq!(t.retention(), Some(100));
    t.broadcast(0, Message::new(b"0".to_vec()));
    t.broadcast(50, Message::new(b"50".to_vec()));
    t.broadcast(120, Message::new(b"120".to_vec()));
    let evicted = t.check_retention(160);
    assert_eq!(evicted.len(), 2);
    let stored = t.stored();
    assert_eq!(stored.len(), 1);
    assert_eq!(stored[0].payload(), &b"120".to_vec());
    for m in &stored {
        assert!(160 - m.timestamp() <= 100);
    }
}

#[test]
fn sweep_at_exact_retention_keeps_message() {
    let mut t = Topic::new(s("r")).with_retention(100);
    t.broadcast(0, Message::new(b"0".to_vec()));
    assert!(t.check_retention(100).is_empty());
    assert_eq!(t.stored().len(), 1);
    assert_eq!(t.check_retention(101).len(), 1);
    assert!(t.stored().is_empty());
}

#[test]
fn compact_sweep_looks_at_every_entry() {
    let mut t = Topic::new(s("k")).with_compaction().with_retention(10);
    t.broadcast(0, Message::new(b"a0".to_vec()).with_key(s("a")));
    t.broadcast(5, Message::new(b"b5".to_vec()).with_key(s("b")));
    t.broadcast(8, Message::new(b"a8".to_vec()).with_key(s("a")));
    t.handle(16, Event::Tick);
    let stored = t.stored();
    assert_eq!(stored.len(), 1);
    assert_eq!(stored[0].payload(), &b"a8".to_vec());
}

#[test]
fn sweep_without_retention_removes_nothing() {
    let mut t = Topic::new(s("t"));
    t.broadcast(0, Message::new(b"x".to_vec()));
    assert!(t.check_retention(u64::MAX).is_empty());
    assert_eq!(t.stored().len(), 1);
}

#[test]
fn sweep_drops_ack_entries_of_evicted() {
    let mut t = Topic::new(s("r")).with_retention(10);
    t.subscribe(0, s("A"));
    let m = Message::new(b"x".to_vec()).with_reply();
    let id = m.id().clone();
    t.broadcast(0, m);
    assert!(t.awaits_ack(&id));
    assert_eq!(t.check_retention(11), vec![id.clone()]);
    assert!(!t.awaits_ack(&id));
}

#[test]
fn ack_registered_with_deadline() {
    let mut t = Topic::new(s("a"));
    t.subscribe(0, s("A"));
    let m = Message::new(b"x".to_vec()).with_reply();
    let id = m.id().clone();
    let actions = t.broadcast(7, m);
    assert_eq!(schedules(&actions), vec![(id.clone(), 7 + ACK_TIMEOUT)]);
    assert_eq!(t.pending_acks(&id), vec![s("A")]);
}

#[test]
fn no_ack_entry_without_subscribers() {
    let mut t = Topic::new(s("a"));
    let m = Message::new(b"x".to_vec()).with_reply();
    let id = m.id().clone();
    let actions = t.broadcast(0, m);
    assert!(actions.is_empty());
    assert!(!t.awaits_ack(&id));
}

#[test]
fn ack_deadline_saturates() {
    let mut t = Topic::new(s("a"));
    t.subscribe(0, s("A"));
    let m = Message::new(b"x".to_vec()).with_reply();
    let id = m.id().clone();
    let actions = t.broadcast(u64::MAX - 1, m);
    assert_eq!(schedules(&actions), vec![(id, u64::MAX)]);
}

#[test]
fn ack_twice_same_as_once() {
    let mut t = Topic::new(s("a"));
    t.subscribe(0, s("A"));
    t.subscribe(0, s("B"));
    let m = Message::new(b"x".to_vec()).with_reply();
    let id = m.id().clone();
    t.broadcast(1, m);
    assert_eq!(t.confirm_message(2, &s("A"), &id), AckStatus::StillPending);
    let once = t.pending_acks(&id);
    assert_eq!(t.confirm_message(3, &s("A"), &id), AckStatus::StillPending);
    assert_eq!(t.pending_acks(&id), once);
    assert_eq!(once, vec![s("B")]);
}

#[test]
fn ack_unknown_is_ignored() {
    let mut t = Topic::new(s("a"));
    assert_eq!(t.confirm_message(0, &s("A"), &s("nope")), AckStatus::Unknown);
}

#[test]
fn unsubscribe_keeps_pending_ack() {
    let mut t = Topic::new(s("a"));
    t.subscribe(0, s("A"));
    let m = Message::new(b"x".to_vec()).with_reply();
    let id = m.id().clone();
    t.broadcast(1, m);
    t.handle(2, Event::Unsubscribe(Unsubscribe(s("A"))));
    assert_eq!(t.pending_acks(&id), vec![s("A")]);
    t.handle(3, Event::Subscribe(s("A")));
    t.handle(4, Event::Acknowledge(Confirm::new(s("A"), id.clone())));
    assert!(!t.awaits_ack(&id));
}

#[test]
fn redelivery_skips_unsubscribed() {
    let mut t = Topic::new(s("a")).with_ack_timeout(10);
    t.subscribe(0, s("A"));
    t.subscribe(0, s("B"));
    let m = Message::new(b"x".to_vec()).with_reply();
    let id = m.id().clone();
    t.broadcast(0, m);
    t.unsubscribe(1, &s("B"));
    let actions = t.ack_deadline(10, &id);
    assert_eq!(delivered_to(&actions), vec![(s("A"), b"x".to_vec())]);
    assert_eq!(schedules(&actions), vec![(id, 20)]);
}

#[test]
fn deadline_of_evicted_message_drops_entry() {
    let mut t = Topic::new(s("a")).with_compaction();
    t.subscribe(0, s("A"));
    let m = Message::new(b"x".to_vec()).with_reply();
    let id = m.id().clone();
    t.broadcast(0, m);
    assert!(t.awaits_ack(&id));
    let actions = t.ack_deadline(30, &id);
    assert!(actions.is_empty());
    assert!(!t.awaits_ack(&id));
}

#[test]
fn deadline_of_untracked_message_does_nothing() {
    let mut t = Topic::new(s("a"));
    t.subscribe(0, s("A"));
    assert!(t.ack_deadline(1, &s("missing")).is_empty());
}

#[test]
fn stop_clears_topic() {
    let mut t = Topic::new(s("t"));
    t.subscribe(0, s("A"));
    let m = Message::new(b"x".to_vec()).with_reply();
    let id = m.id().clone();
    t.broadcast(1, m);
    let actions = t.handle(2, Event::Stop(Stop));
    assert!(actions.is_empty());
    assert!(t.stored().is_empty());
    assert!(t.subscribers().is_empty());
    assert!(!t.awaits_ack(&id));
    assert_eq!(t.name(), &s("t"));
}
