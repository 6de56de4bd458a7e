use mem_broker::broker::{Broker, BrokerError};
use mem_broker::message::{
    AcknowledgeMessage, BroadcastMessage, Confirm, Consumer, Id, Message, SubscribeOnTopic,
    UnsubscribeFromTopic,
};
use mem_broker::topic::{Action, Event, RETENTION_SWEEP_PERIOD};

fn s(x: &str) -> String {
    x.to_string()
}

fn deliveries(actions: &[Action]) -> Vec<(String, Vec<u8>, String)> {
    let mut out = Vec::new();
    for a in actions {
        if let Action::Deliver { client_id, message } = a {
            out.push((client_id.clone(), message.payload().clone(), message.id().clone()));
        }
    }
    out
}

#[test]
fn basic_fan_out() {
    let mut b = Broker::new();
    assert_eq!(b.create_topic(s("t"), None, false), Ok(()));
    let a = Id(s("A"));
    let bb = Id(s("B"));
    b.subscribe(0, &a, SubscribeOnTopic::new(s("t"))).unwrap();
    b.subscribe(0, &bb, SubscribeOnTopic::new(s("t"))).unwrap();
    let actions = b
        .publish(1, &s("t"), BroadcastMessage::new(Message::new(b"hello".to_vec())))
        .unwrap();
    let d = deliveries(&actions);
    assert_eq!(d.len(), 2);
    assert_eq!((d[0].0.as_str(), d[0].1.as_slice()), ("A", &b"hello"[..]));
    assert_eq!((d[1].0.as_str(), d[1].1.as_slice()), ("B", &b"hello"[..]));
    let t = b.topic(&s("t")).unwrap();
    assert_eq!(t.stored().len(), 1);
    assert!(!t.awaits_ack(&d[0].2));
}

#[test]
fn compaction_scenario() {
    let mut b = Broker::new();
    b.create_topic(s("k"), None, true).unwrap();
    let mut consumer = Consumer::new(s("S"));
    b.subscribe(0, &Id(s("S")), SubscribeOnTopic::new(s("k"))).unwrap();
    for (k, p) in [("x", "1"), ("x", "2"), ("y", "3")] {
        let m = Message::new(p.as_bytes().to_vec()).with_key(s(k));
        let actions = b.publish(1, &s("k"), BroadcastMessage::new(m)).unwrap();
        for a in actions {
            if let Action::Deliver { message, .. } = a {
                consumer.receive(message);
            }
        }
    }
    let got: Vec<Vec<u8>> = consumer.received().iter().map(|m| m.payload().clone()).collect();
    assert_eq!(got, vec![b"1".to_vec(), b"2".to_vec(), b"3".to_vec()]);
    let stored = b.topic(&s("k")).unwrap().stored();
    let mut pairs: Vec<(String, Vec<u8>)> =
        stored.iter().map(|m| (m.key().clone().unwrap(), m.payload().clone())).collect();
    pairs.sort();
    assert_eq!(pairs, vec![(s("x"), b"2".to_vec()), (s("y"), b"3".to_vec())]);
}

#[test]
fn retention_sweep_scenario() {
    let mut b = Broker::new();
    b.create_topic(s("r"), Some(1000), false).unwrap();
    b.publish(0, &s("r"), BroadcastMessage::new(Message::new(b"m1".to_vec()))).unwrap();
    let later = 2000 + RETENTION_SWEEP_PERIOD;
    b.dispatch(&s("r"), later, Event::Tick).unwrap();
    b.publish(later, &s("r"), BroadcastMessage::new(Message::new(b"m2".to_vec()))).unwrap();
    let stored = b.topic(&s("r")).unwrap().stored();
    assert_eq!(stored.len(), 1);
    assert_eq!(stored[0].payload(), &b"m2".to_vec());
}

#[test]
fn ack_completion_scenario() {
    let mut b = Broker::new();
    b.create_topic(s("a"), None, false).unwrap();
    let a = Id(s("A"));
    let bb = Id(s("B"));
    b.subscribe(0, &a, SubscribeOnTopic::new(s("a"))).unwrap();
    b.subscribe(0, &bb, SubscribeOnTopic::new(s("a"))).unwrap();
    let m = Message::new(b"x".to_vec()).with_reply();
    let id = m.id().clone();
    b.publish(1, &s("a"), BroadcastMessage::new(m)).unwrap();
    b.acknowledge(2, &a, &s("a"), AcknowledgeMessage::new(id.clone())).unwrap();
    assert_eq!(b.topic(&s("a")).unwrap().pending_acks(&id), vec![s("B")]);
    b.acknowledge(3, &bb, &s("a"), AcknowledgeMessage::new(id.clone())).unwrap();
    assert!(!b.topic(&s("a")).unwrap().awaits_ack(&id));
}

#[test]
fn ack_deadline_redelivery_scenario() {
    let mut b = Broker::new();
    b.create_topic(s("a"), None, false).unwrap();
    b.subscribe(0, &Id(s("A")), SubscribeOnTopic::new(s("a"))).unwrap();
    let m = Message::new(b"x".to_vec()).with_reply();
    let id = m.id().clone();
    let actions = b.publish(0, &s("a"), BroadcastMessage::new(m)).unwrap();
    let mut deadline = match actions.last() {
        Some(Action::ScheduleDeadline { message_id, at }) => {
            assert_eq!(message_id, &id);
            *at
        }
        _ => panic!("no deadline scheduled"),
    };
    let mut redelivered = 0;
    for round in 1..=3 {
        let actions = b.dispatch(&s("a"), deadline, Event::AckDeadline(id.clone())).unwrap();
        let d = deliveries(&actions);
        assert_eq!(d.len(), 1);
        assert_eq!((d[0].0.as_str(), d[0].2.as_str()), ("A", id.as_str()));
        redelivered += 1;
        match actions.last() {
            Some(Action::ScheduleDeadline { at, .. }) => {
                assert!(round < 3);
                deadline = *at;
            }
            _ => assert_eq!(round, 3),
        }
    }
    assert_eq!(redelivered, 3);
    assert!(!b.topic(&s("a")).unwrap().awaits_ack(&id));
}

#[test]
fn unknown_topic_scenario() {
    let mut b = Broker::new();
    b.create_topic(s("t"), None, false).unwrap();
    let r = b.publish(0, &s("ghost"), BroadcastMessage::new(Message::new(b"x".to_vec())));
    assert!(matches!(r, Err(BrokerError::TopicNotFound)));
    assert_eq!(b.list_topics(), vec![s("t")]);
    assert!(b.topic(&s("ghost")).is_none());
    assert!(b.topic(&s("t")).unwrap().stored().is_empty());
}

#[test]
fn create_existing_topic_fails() {
    let mut b = Broker::new();
    assert_eq!(b.create_topic(s("t"), None, false), Ok(()));
    assert_eq!(b.create_topic(s("t"), Some(5), true), Err(BrokerError::TopicAlreadyExists));
    assert_eq!(b.topic(&s("t")).unwrap().retention(), None);
    assert_eq!(b.list_topics(), vec![s("t")]);
}

#[test]
fn delete_topic_removes_it() {
    let mut b = Broker::new();
    b.create_topic(s("a"), None, false).unwrap();
    b.create_topic(s("b"), None, false).unwrap();
    assert!(b.delete_topic(&s("a")));
    assert!(!b.delete_topic(&s("a")));
    assert_eq!(b.list_topics(), vec![s("b")]);
    let r = b.subscribe(0, &Id(s("A")), SubscribeOnTopic::new(s("a")));
    assert!(matches!(r, Err(BrokerError::TopicNotFound)));
}

#[test]
fn unsubscribe_request_leaves_topic() {
    let mut b = Broker::new();
    b.create_topic(s("t"), None, false).unwrap();
    let a = Id(s("A"));
    b.subscribe(0, &a, SubscribeOnTopic::new(s("t"))).unwrap();
    b.unsubscribe(1, &a, UnsubscribeFromTopic::new(s("t"))).unwrap();
    let actions = b.publish(2, &s("t"), BroadcastMessage::new(Message::new(b"x".to_vec()))).unwrap();
    assert!(actions.is_empty());
    assert!(b.topic(&s("t")).unwrap().subscribers().is_empty());
}

#[test]
fn message_ids_are_fresh_uuids() {
    let a = Message::new(b"x".to_vec());
    let b = Message::new(b"x".to_vec());
    assert_eq!(a.id().len(), 36);
    assert_ne!(a.id(), b.id());
    assert_eq!(a.id().matches('-').count(), 4);
    let id = Id::generate();
    assert_eq!(id.0.len(), 36);
    assert_ne!(id, Id::generate());
}

#[test]
fn message_builders() {
    let mut m = Message::new(b"p".to_vec()).with_id(s("M")).with_key(s("k"));
    assert_eq!(m.id(), &s("M"));
    assert_eq!(m.key(), &Some(s("k")));
    assert!(!m.reply());
    m.require_ack();
    assert!(m.reply());
    m.change_id(s("N"));
    assert_eq!(m.id(), &s("N"));
    let c = m.duplicate().with_timestamp(9);
    assert_eq!(c.timestamp(), 9);
    assert_eq!(m.timestamp(), 0);
    assert_eq!(c.payload(), &b"p".to_vec());
}

#[test]
fn consumer_confirms_when_asked() {
    let mut c = Consumer::new(s("A"));
    assert!(c.receive(Message::new(b"x".to_vec()).with_id(s("1"))).is_none());
    let confirm: Confirm = c.receive(Message::new(b"y".to_vec()).with_id(s("2")).with_reply()).unwrap();
    assert_eq!(confirm.client_id, s("A"));
    assert_eq!(confirm.message_id, s("2"));
    assert_eq!(c.received().len(), 2);
}
