//! Message passing between protection domains: endpoints with a bounded
//! queue of fixed-size messages, and the manager that owns them.

use vstd::prelude::*;

verus! {

/// Largest number of data words in one message.
pub const MAX_MESSAGE_WORDS: usize = 8;

/// Largest number of messages that wait in one endpoint.
pub const ENDPOINT_QUEUE_SIZE: usize = 16;

/// Largest number of endpoints that a manager owns.
pub const MAX_ENDPOINTS: usize = 32;

/// The unit of communication: a label and up to eight words.
#[derive(Debug, Clone, Copy)]
pub struct Message {
    /// The kind of message, as the application defines it.
    pub label: u64,
    /// The payload; words that are not in use are zero.
    pub data: [u64; MAX_MESSAGE_WORDS],
    /// The number of words in use.
    pub length: usize,
    /// The endpoint of the sender, which the kernel fills in.
    pub sender_id: u64,
}

impl Message {
    /// The payload of a message whose first words are `words`.
    pub open spec fn padded(words: Seq<u64>) -> Seq<u64> {
        Seq::new(
            MAX_MESSAGE_WORDS as nat,
            |i: int| if i < words.len() {
                words[i]
            } else {
                0u64
            },
        )
    }

    /// Whether the message carries `label` and exactly the words `words`.
    pub open spec fn carries(&self, label: u64, words: Seq<u64>) -> bool {
        &&& self.label == label
        &&& self.data@ == Self::padded(words)
        &&& self.length == words.len()
        &&& self.sender_id == 0
    }

    /// A message with `label` and no data.
    pub fn new(label: u64) -> (msg: Self)
        ensures
            msg.carries(label, Seq::empty()),
    {
        let msg = Message { label, data: [0; MAX_MESSAGE_WORDS], length: 0, sender_id: 0 };
        assert(msg.data@ =~= Self::padded(Seq::empty()));
        msg
    }

    /// A message with `label` and one word.
    pub fn with_data1(label: u64, word0: u64) -> (msg: Self)
        ensures
            msg.carries(label, seq![word0]),
    {
        let mut msg = Message::new(label);
        msg.data[0] = word0;
        msg.length = 1;
        assert(msg.data@ =~= Self::padded(seq![word0]));
        msg
    }

    /// A message with `label` and two words.
    pub fn with_data2(label: u64, word0: u64, word1: u64) -> (msg: Self)
        ensures
            msg.carries(label, seq![word0, word1]),
    {
        let mut msg = Message::new(label);
        msg.data[0] = word0;
        msg.data[1] = word1;
        msg.length = 2;
        assert(msg.data@ =~= Self::padded(seq![word0, word1]));
        msg
    }
}

/// What can go wrong in message passing.
#[derive(Debug, Clone, Copy, PartialEq, Eq, Structural)]
pub enum IpcError {
    /// The endpoint's queue is full.
    QueueFull,
    /// The endpoint's queue is empty.
    QueueEmpty,
    /// The caller lacks the capability for the operation.
    PermissionDenied,
    /// There is no such endpoint, or no room for another.
    InvalidEndpoint,
}

/// A meeting point for senders and receivers: messages wait in it, first in
/// first out, up to `ENDPOINT_QUEUE_SIZE` of them.
pub struct Endpoint {
    /// The identifier of the endpoint.
    pub id: u64,
    queue: [Option<Message>; ENDPOINT_QUEUE_SIZE],
    head: usize,
    tail: usize,
    count: usize,
}

impl View for Endpoint {
    type V = Seq<Message>;

    /// The waiting messages, the oldest first.
    closed spec fn view(&self) -> Seq<Message> {
        Seq::new(
            self.count as nat,
            |i: int| self.queue@[(self.head + i) % (ENDPOINT_QUEUE_SIZE as int)]->0,
        )
    }
}

impl Endpoint {
    /// The identifier of the endpoint.
    pub closed spec fn ident(&self) -> u64 {
        self.id
    }

    /// The ring is consistent: the waiting messages lie from the head on,
    /// the tail follows the last of them, and no other slot is in use.
    pub closed spec fn wf(&self) -> bool {
        &&& self.head < ENDPOINT_QUEUE_SIZE
        &&& self.tail < ENDPOINT_QUEUE_SIZE
        &&& self.count <= ENDPOINT_QUEUE_SIZE
        &&& self.tail == (self.head + self.count) % (ENDPOINT_QUEUE_SIZE as int)
        &&& forall|i: int|
            0 <= i < self.count ==> (#[trigger] self.queue@[(self.head + i) % (
            ENDPOINT_QUEUE_SIZE as int)]) is Some
    }

    /// An endpoint with identifier `id` and nothing waiting.
    pub fn new(id: u64) -> (endpoint: Self)
        ensures
            endpoint.wf(),
            endpoint.ident() == id,
            endpoint@ == Seq::<Message>::empty(),
    {
        let endpoint = Endpoint {
            id,
            queue: [
                None,
                None,
                None,
                None,
                None,
                None,
                None,
                None,
                None,
                None,
                None,
                None,
                None,
                None,
                None,
                None,
            ],
            head: 0,
            tail: 0,
            count: 0,
        };
        assert(endpoint@ =~= Seq::<Message>::empty());
        endpoint
    }

    /// Queues `msg` behind the waiting messages; a full queue refuses it.
    pub fn send(&mut self, msg: Message) -> (sent: Result<(), IpcError>)
        requires
            old(self).wf(),
        ensures
            final(self).wf(),
            final(self).ident() == old(self).ident(),
            match sent {
                Ok(_) => old(self)@.len() < ENDPOINT_QUEUE_SIZE && final(self)@ == old(self)@.push(
                    msg,
                ),
                Err(e) => e == IpcError::QueueFull && old(self)@.len() == ENDPOINT_QUEUE_SIZE
                    && final(self)@ == old(self)@,
            },
    {
        if self.count >= ENDPOINT_QUEUE_SIZE {
            return Err(IpcError::QueueFull);
        }
        let ghost before = *self;
        self.queue[self.tail] = Some(msg);
        self.tail = (self.tail + 1) % ENDPOINT_QUEUE_SIZE;
        self.count += 1;
        proof {
            let size = ENDPOINT_QUEUE_SIZE as int;
            assert forall|i: int| 0 <= i < self.count implies (#[trigger] self.queue@[(self.head
                + i) % size]) is Some && (i < before.count ==> self.queue@[(self.head + i) % size]
                == before.queue@[(before.head + i) % size]) by {
                if i < before.count {
                    assert(before.queue@[(before.head + i) % size] is Some);
                    assert((before.head + i) % size != before.tail);
                }
            }
            assert(self@ =~= before@.push(msg));
        }
        Ok(())
    }

    /// Takes the oldest waiting message; an empty queue has none.
    pub fn receive(&mut self) -> (received: Result<Message, IpcError>)
        requires
            old(self).wf(),
        ensures
            final(self).wf(),
            final(self).ident() == old(self).ident(),
            match received {
                Ok(msg) => old(self)@.len() > 0 && msg == old(self)@[0] && final(self)@ == old(
                    self,
                )@.drop_first(),
                Err(e) => e == IpcError::QueueEmpty && old(self)@.len() == 0 && final(self)@
                    == old(self)@,
            },
    {
        if self.count == 0 {
            return Err(IpcError::QueueEmpty);
        }
        let ghost before = *self;
        assert(self.queue@[(self.head + 0) % (ENDPOINT_QUEUE_SIZE as int)] is Some);
        let slot = self.queue[self.head];
        self.queue[self.head] = None;
        let msg = match slot {
            Some(msg) => msg,
            None => Message::new(0),
        };
        self.head = (self.head + 1) % ENDPOINT_QUEUE_SIZE;
        self.count -= 1;
        proof {
            let size = ENDPOINT_QUEUE_SIZE as int;
            assert forall|i: int| 0 <= i < self.count implies (#[trigger] self.queue@[(self.head
                + i) % size]) is Some && self.queue@[(self.head + i) % size] == before.queue@[(
            before.head + (i + 1)) % size] by {
                assert((self.head + i) % size == (before.head + (i + 1)) % size);
                assert(before.queue@[(before.head + (i + 1)) % size] is Some);
                assert((before.head + (i + 1)) % size != before.head);
            }
            assert(self@ =~= before@.drop_first());
        }
        Ok(msg)
    }

    /// The number of waiting messages.
    pub fn pending_count(&self) -> (n: usize)
        ensures
            n == self@.len(),
    {
        self.count
    }

    /// Whether no message is waiting.
    pub fn is_empty(&self) -> (empty: bool)
        ensures
            empty == (self@.len() == 0),
    {
        self.count == 0
    }
}

/// The owner of all endpoints, through which every message passes.
pub struct IpcManager {
    endpoints: Vec<Option<Endpoint>>,
    count: usize,
    next_id: u64,
}

impl IpcManager {
    /// The endpoints by slot; an empty slot holds none.
    pub closed spec fn slots(&self) -> Seq<Option<Endpoint>> {
        self.endpoints@
    }

    /// The number of endpoints created so far.
    pub closed spec fn created(&self) -> nat {
        self.count as nat
    }

    /// The identifier that the next endpoint gets.
    pub closed spec fn next_ident(&self) -> u64 {
        self.next_id
    }

    /// There are `MAX_ENDPOINTS` slots, the endpoints fill the first of
    /// them without a gap, and each is well-formed.
    pub closed spec fn wf(&self) -> bool {
        &&& self.endpoints@.len() == MAX_ENDPOINTS
        &&& self.count <= MAX_ENDPOINTS
        &&& forall|i: int|
            0 <= i < MAX_ENDPOINTS ==> ((#[trigger] self.endpoints@[i]) is Some <==> i
                < self.count)
        &&& forall|i: int|
            0 <= i < self.count ==> (#[trigger] self.endpoints@[i])->0.wf()
    }

    /// Whether `slot` holds an endpoint.
    pub open spec fn has(&self, slot: usize) -> bool {
        slot < self.slots().len() && self.slots()[slot as int] is Some
    }

    /// The messages that wait in the endpoint at `slot`.
    pub open spec fn waiting(&self, slot: usize) -> Seq<Message> {
        self.slots()[slot as int]->0@
    }

    /// Whether all slots but `slot` are in `other` as they are here.
    pub open spec fn same_but(&self, other: &IpcManager, slot: usize) -> bool {
        &&& self.slots().len() == other.slots().len()
        &&& self.created() == other.created()
        &&& self.next_ident() == other.next_ident()
        &&& forall|i: int|
            0 <= i < self.slots().len() && i != slot ==> self.slots()[i] == other.slots()[i]
    }

    /// A manager without endpoints; the first endpoint gets identifier 1.
    pub fn new() -> (manager: Self)
        ensures
            manager.wf(),
            manager.created() == 0,
            manager.next_ident() == 1,
            forall|slot: usize| !manager.has(slot),
    {
        let mut endpoints: Vec<Option<Endpoint>> = Vec::with_capacity(MAX_ENDPOINTS);
        let mut n: usize = 0;
        while n < MAX_ENDPOINTS
            invariant
                n <= MAX_ENDPOINTS,
                endpoints@.len() == n,
                forall|i: int| 0 <= i < n ==> (#[trigger] endpoints@[i]) is None,
            decreases MAX_ENDPOINTS - n,
        {
            endpoints.push(None);
            n += 1;
        }
        IpcManager { endpoints, count: 0, next_id: 1 }
    }

    /// Creates an endpoint in the first free slot and returns the slot;
    /// when every slot is taken there is no room for another.
    pub fn create_endpoint(&mut self) -> (created: Result<usize, IpcError>)
        requires
            old(self).wf(),
        ensures
            final(self).wf(),
            match created {
                Ok(slot) => {
                    &&& slot == old(self).created()
                    &&& slot < MAX_ENDPOINTS
                    &&& final(self).created() == old(self).created() + 1
                    &&& final(self).has(slot)
                    &&& final(self).waiting(slot) == Seq::<Message>::empty()
                    &&& final(self).slots()[slot as int]->0.ident() == old(self).next_ident()
                    &&& forall|i: int|
                        0 <= i < MAX_ENDPOINTS && i != slot ==> final(self).slots()[i] == old(
                            self,
                        ).slots()[i]
                },
                Err(e) => e == IpcError::InvalidEndpoint && old(self).created() == MAX_ENDPOINTS
                    && final(self).same_but(old(self), MAX_ENDPOINTS),
            },
    {
        let mut i: usize = 0;
        while i < MAX_ENDPOINTS
            invariant
                i <= MAX_ENDPOINTS,
                self.wf(),
                *self == *old(self),
                forall|j: int| 0 <= j < i ==> (#[trigger] self.endpoints@[j]) is Some,
            decreases MAX_ENDPOINTS - i,
        {
            if self.endpoints[i].is_none() {
                proof {
                    if i > 0 {
                        assert(self.endpoints@[i - 1] is Some);
                    }
                    assert(i == self.count);
                }
                let endpoint = Endpoint::new(self.next_id);
                self.next_id = self.next_id.wrapping_add(1);
                self.endpoints[i] = Some(endpoint);
                self.count += 1;
                proof {
                    assert forall|k: int| 0 <= k < MAX_ENDPOINTS implies ((
                    #[trigger] self.endpoints@[k]) is Some <==> k < self.count) by {
                        if k != i {
                            assert(self.endpoints@[k] == old(self).endpoints@[k]);
                        }
                    }
                    assert forall|k: int| 0 <= k < self.count implies (
                    #[trigger] self.endpoints@[k])->0.wf() by {
                        if k != i {
                            assert(self.endpoints@[k] == old(self).endpoints@[k]);
                        }
                    }
                }
                return Ok(i);
            }
            i += 1;
        }
        assert(self.endpoints@[MAX_ENDPOINTS - 1] is Some);
        Err(IpcError::InvalidEndpoint)
    }

    /// Sends `msg` to the endpoint at `endpoint_slot`.
    pub fn send(&mut self, endpoint_slot: usize, msg: Message) -> (sent: Result<(), IpcError>)
        requires
            old(self).wf(),
        ensures
            final(self).wf(),
            final(self).same_but(old(self), endpoint_slot),
            match sent {
                Ok(_) => old(self).has(endpoint_slot) && final(self).has(endpoint_slot) && old(
                    self,
                ).waiting(endpoint_slot).len() < ENDPOINT_QUEUE_SIZE && final(self).waiting(
                    endpoint_slot,
                ) == old(self).waiting(endpoint_slot).push(msg),
                Err(e) => *final(self) == *old(self) && if old(self).has(endpoint_slot) {
                    e == IpcError::QueueFull && old(self).waiting(endpoint_slot).len()
                        == ENDPOINT_QUEUE_SIZE
                } else {
                    e == IpcError::InvalidEndpoint
                },
            },
    {
        if endpoint_slot >= self.endpoints.len() {
            return Err(IpcError::InvalidEndpoint);
        }
        let full = match &self.endpoints[endpoint_slot] {
            Some(endpoint) => endpoint.pending_count() >= ENDPOINT_QUEUE_SIZE,
            None => {
                return Err(IpcError::InvalidEndpoint);
            },
        };
        if full {
            return Err(IpcError::QueueFull);
        }
        assert(self.endpoints@[endpoint_slot as int]->0.wf());
        let mut entry: Option<Endpoint> = None;
        std::mem::swap(&mut self.endpoints[endpoint_slot], &mut entry);
        let sent = match entry {
            Some(mut endpoint) => {
                let sent = endpoint.send(msg);
                self.endpoints[endpoint_slot] = Some(endpoint);
                sent
            },
            None => Err(IpcError::InvalidEndpoint),
        };
        proof {
            assert forall|k: int| 0 <= k < MAX_ENDPOINTS implies ((
            #[trigger] self.endpoints@[k]) is Some <==> k < self.count) by {
                if k != endpoint_slot {
                    assert(self.endpoints@[k] == old(self).endpoints@[k]);
                }
            }
            assert forall|k: int| 0 <= k < self.count implies (#[trigger] self.endpoints@[k])->0.wf(
            ) by {
                if k != endpoint_slot {
                    assert(self.endpoints@[k] == old(self).endpoints@[k]);
                }
            }
        }
        sent
    }

    /// Receives the oldest message of the endpoint at `endpoint_slot`.
    pub fn receive(&mut self, endpoint_slot: usize) -> (received: Result<Message, IpcError>)
        requires
            old(self).wf(),
        ensures
            final(self).wf(),
            final(self).same_but(old(self), endpoint_slot),
            match received {
                Ok(msg) => old(self).has(endpoint_slot) && final(self).has(endpoint_slot) && old(
                    self,
                ).waiting(endpoint_slot).len() > 0 && msg == old(self).waiting(endpoint_slot)[0]
                    && final(self).waiting(endpoint_slot) == old(self).waiting(
                    endpoint_slot,
                ).drop_first(),
                Err(e) => *final(self) == *old(self) && if old(self).has(endpoint_slot) {
                    e == IpcError::QueueEmpty && old(self).waiting(endpoint_slot).len() == 0
                } else {
                    e == IpcError::InvalidEndpoint
                },
            },
    {
        if endpoint_slot >= self.endpoints.len() {
            return Err(IpcError::InvalidEndpoint);
        }
        let empty = match &self.endpoints[endpoint_slot] {
            Some(endpoint) => endpoint.is_empty(),
            None => {
                return Err(IpcError::InvalidEndpoint);
            },
        };
        if empty {
            return Err(IpcError::QueueEmpty);
        }
        assert(self.endpoints@[endpoint_slot as int]->0.wf());
        let mut entry: Option<Endpoint> = None;
        std::mem::swap(&mut self.endpoints[endpoint_slot], &mut entry);
        let received = match entry {
            Some(mut endpoint) => {
                let received = endpoint.receive();
                self.endpoints[endpoint_slot] = Some(endpoint);
                received
            },
            None => Err(IpcError::InvalidEndpoint),
        };
        proof {
            assert forall|k: int| 0 <= k < MAX_ENDPOINTS implies ((
            #[trigger] self.endpoints@[k]) is Some <==> k < self.count) by {
                if k != endpoint_slot {
                    assert(self.endpoints@[k] == old(self).endpoints@[k]);
                }
            }
            assert forall|k: int| 0 <= k < self.count implies (#[trigger] self.endpoints@[k])->0.wf(
            ) by {
                if k != endpoint_slot {
                    assert(self.endpoints@[k] == old(self).endpoints@[k]);
                }
            }
        }
        received
    }

    /// The number of messages that wait in the endpoint at `endpoint_slot`.
    pub fn pending_count(&self, endpoint_slot: usize) -> (pending: Result<usize, IpcError>)
        requires
            self.wf(),
        ensures
            pending == if self.has(endpoint_slot) {
                Ok::<usize, IpcError>(self.waiting(endpoint_slot).len() as usize)
            } else {
                Err::<usize, IpcError>(IpcError::InvalidEndpoint)
            },
    {
        if endpoint_slot >= self.endpoints.len() {
            return Err(IpcError::InvalidEndpoint);
        }
        match &self.endpoints[endpoint_slot] {
            Some(endpoint) => Ok(endpoint.pending_count()),
            None => Err(IpcError::InvalidEndpoint),
        }
    }

    /// The number of endpoints.
    pub fn endpoint_count(&self) -> (n: usize)
        ensures
            n == self.created(),
    {
        self.count
    }
}

} // verus!
