//! Messages and the small request values exchanged with topics.

use vstd::prelude::*;

verus! {

/// Relies on `uuid::Uuid::new_v4` for a random identifier, and on the text
/// that `Uuid`'s `Display` writes: the hyphenated form, 36 characters.
#[verifier::external_body]
fn fresh_uuid() -> (r: String)
    ensures
        r@.len() == 36,
{
    uuid::Uuid::new_v4().to_string()
}

/// An identifier of a client or of a message.
#[derive(Debug, Clone, PartialEq, Eq, Hash)]
pub struct Id(pub String);

impl Id {
    /// A fresh random identifier.
    pub fn generate() -> (r: Id)
        ensures
            r.0@.len() == 36,
    {
        Id(fresh_uuid())
    }
}

/// What a message is, as the contracts see it.
pub ghost struct MessageView {
    pub id: Seq<char>,
    pub key: Option<Seq<char>>,
    pub payload: Seq<u8>,
    pub require_ack: bool,
    pub timestamp: u64,
}

/// A published message: an identifier, an optional compaction key, an
/// opaque payload, whether delivery must be acknowledged, and the time at
/// which a topic took it in.
#[derive(Debug, Clone)]
pub struct Message {
    id: String,
    key: Option<String>,
    payload: Vec<u8>,
    reply: bool,
    timestamp: u64,
}

pub open spec fn opt_view(o: Option<String>) -> Option<Seq<char>> {
    match o {
        Some(s) => Some(s@),
        None => None,
    }
}

impl View for Message {
    type V = MessageView;

    closed spec fn view(&self) -> MessageView {
        MessageView {
            id: self.id@,
            key: opt_view(self.key),
            payload: self.payload@,
            require_ack: self.reply,
            timestamp: self.timestamp,
        }
    }
}

fn clone_key(k: &Option<String>) -> (r: Option<String>)
    ensures
        opt_view(r) == opt_view(*k),
{
    match k {
        Some(s) => Some(s.clone()),
        None => None,
    }
}

impl Message {
    /// A message with a fresh random id, no key, no acknowledgement asked
    /// and a zero timestamp.
    pub fn new(payload: Vec<u8>) -> (r: Message)
        ensures
            r@.id.len() == 36,
            r@.key == None::<Seq<char>>,
            r@.payload == payload@,
            !r@.require_ack,
            r@.timestamp == 0,
    {
        Message { id: fresh_uuid(), key: None, payload, reply: false, timestamp: 0 }
    }

    /// The message's identifier.
    pub fn id(&self) -> (r: &String)
        ensures
            r@ == self@.id,
    {
        &self.id
    }

    /// The compaction key, if any.
    pub fn key(&self) -> (r: &Option<String>)
        ensures
            opt_view(*r) == self@.key,
    {
        &self.key
    }

    /// The opaque payload.
    pub fn payload(&self) -> (r: &Vec<u8>)
        ensures
            r@ == self@.payload,
    {
        &self.payload
    }

    /// Whether each subscriber must acknowledge the message.
    pub fn reply(&self) -> (r: bool)
        ensures
            r == self@.require_ack,
    {
        self.reply
    }

    /// The time at which a topic took the message in.
    pub fn timestamp(&self) -> (r: u64)
        ensures
            r == self@.timestamp,
    {
        self.timestamp
    }

    /// The same message stamped with time `timestamp`.
    pub fn with_timestamp(self, timestamp: u64) -> (r: Message)
        ensures
            r@ == (MessageView { timestamp, ..self@ }),
    {
        Message { timestamp, ..self }
    }

    /// The same message with id `id`.
    pub fn with_id(self, id: String) -> (r: Message)
        ensures
            r@ == (MessageView { id: id@, ..self@ }),
    {
        Message { id, ..self }
    }

    /// The same message with compaction key `key`.
    pub fn with_key(self, key: String) -> (r: Message)
        ensures
            r@ == (MessageView { key: Some(key@), ..self@ }),
    {
        Message { key: Some(key), ..self }
    }

    /// The same message, asking each subscriber for an acknowledgement.
    pub fn with_reply(self) -> (r: Message)
        ensures
            r@ == (MessageView { require_ack: true, ..self@ }),
    {
        Message { reply: true, ..self }
    }

    /// Asks each subscriber for an acknowledgement.
    pub fn require_ack(&mut self)
        ensures
            final(self)@ == (MessageView { require_ack: true, ..old(self)@ }),
    {
        self.reply = true;
    }

    /// Gives the message the id `id`.
    pub fn change_id(&mut self, id: String)
        ensures
            final(self)@ == (MessageView { id: id@, ..old(self)@ }),
    {
        self.id = id;
    }

    /// A copy with equal contents.
    pub fn duplicate(&self) -> (r: Message)
        ensures
            r@ == self@,
    {
        let payload = self.payload.clone();
        assert(payload@ =~= self.payload@);
        Message {
            id: self.id.clone(),
            key: clone_key(&self.key),
            payload,
            reply: self.reply,
            timestamp: self.timestamp,
        }
    }
}

/// A subscriber's acknowledgement of one message.
pub struct Confirm {
    pub client_id: String,
    pub message_id: String,
}

impl Confirm {
    pub fn new(client_id: String, message_id: String) -> (r: Confirm)
        ensures
            r.client_id@ == client_id@,
            r.message_id@ == message_id@,
    {
        Confirm { client_id, message_id }
    }
}

/// A request that the named client leave a topic.
pub struct Unsubscribe(pub String);

/// A client's request to publish a message.
pub struct BroadcastMessage(pub Message);

impl BroadcastMessage {
    pub fn new(message: Message) -> (r: BroadcastMessage)
        ensures
            r.0@ == message@,
    {
        BroadcastMessage(message)
    }
}

/// A client's request to subscribe to the named topic.
pub struct SubscribeOnTopic(pub String);

impl SubscribeOnTopic {
    pub fn new(topic: String) -> (r: SubscribeOnTopic)
        ensures
            r.0@ == topic@,
    {
        SubscribeOnTopic(topic)
    }
}

/// A client's request to leave the named topic.
pub struct UnsubscribeFromTopic(pub String);

impl UnsubscribeFromTopic {
    pub fn new(topic: String) -> (r: UnsubscribeFromTopic)
        ensures
            r.0@ == topic@,
    {
        UnsubscribeFromTopic(topic)
    }
}

/// A client's acknowledgement of the message with the given id.
pub struct AcknowledgeMessage(pub String);

impl AcknowledgeMessage {
    pub fn new(message_id: String) -> (r: AcknowledgeMessage)
        ensures
            r.0@ == message_id@,
    {
        AcknowledgeMessage(message_id)
    }
}

/// The receiving end of a subscription: what it was delivered, in order.
pub struct Consumer {
    client_id: String,
    received: Vec<Message>,
}

impl Consumer {
    /// A consumer for client `client_id` that has received nothing.
    pub fn new(client_id: String) -> (r: Consumer)
        ensures
            r.client_id()@ == client_id@,
            r.received_view().len() == 0,
    {
        Consumer { client_id, received: Vec::new() }
    }

    pub closed spec fn client_id(&self) -> String {
        self.client_id
    }

    pub closed spec fn received_view(&self) -> Seq<MessageView> {
        self.received@.map_values(|m: Message| m@)
    }

    /// Takes a delivered message, and returns the acknowledgement to send
    /// back if the message asks for one.
    pub fn receive(&mut self, msg: Message) -> (r: Option<Confirm>)
        ensures
            final(self).client_id() == old(self).client_id(),
            final(self).received_view() == old(self).received_view().push(msg@),
            msg@.require_ack <==> r is Some,
            r matches Some(c) ==> c.client_id@ == old(self).client_id()@ && c.message_id@
                == msg@.id,
    {
        let ghost old_r = self.received_view();
        let r = if msg.reply() {
            Some(Confirm::new(self.client_id.clone(), msg.id().clone()))
        } else {
            None
        };
        self.received.push(msg);
        assert(self.received_view() =~= old_r.push(msg@));
        r
    }

    /// Copies of the received messages, in the order received.
    pub fn received(&self) -> (r: Vec<Message>)
        ensures
            r@.map_values(|m: Message| m@) == self.received_view(),
    {
        let mut r: Vec<Message> = Vec::new();
        let mut i: usize = 0;
        while i < self.received.len()
            invariant
                0 <= i <= self.received@.len(),
                r@.map_values(|m: Message| m@) == self.received_view().take(i as int),
            decreases self.received@.len() - i,
        {
            let ghost before = r@.map_values(|m: Message| m@);
            r.push(self.received[i].duplicate());
            assert(r@.map_values(|m: Message| m@) =~= before.push(self.received@[i as int]@));
            assert(self.received_view().take(i + 1) =~= self.received_view().take(i as int).push(
                self.received@[i as int]@,
            ));
            i += 1;
        }
        assert(self.received_view().take(i as int) =~= self.received_view());
        r
    }
}

} // verus!
