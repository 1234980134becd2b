//! The overlay node: its identity, the handshake that introduces two nodes
//! to each other, and the listener that runs it on each new connection.

use crate::executor::{Executor, Pollable, Task, TaskPoll};
use crate::p2p_kademlia::{
    peer_recorded, sha256, NodeId, PeerInfo, RoutingTable, BUCKET_COUNT, ID_SIZE,
};
use crate::p2p_transport::{
    append_bytes, declared_len, decode_frame, frame_of, from_le32, is_prefix_of, le32,
    pending_of, recv_framed, send_framed, socket_close, socket_listen, socket_state,
    u32_from_le_bytes, u32_to_le_bytes, wanted_after, ConnState, Decoded, FramePoll,
    FrameReader, FrameStatus, FrameWriter, TransportError,
};
use smoltcp::socket::tcp;
use ed25519_dalek::SigningKey;
use vstd::prelude::*;
use vstd::utf8::{decode_utf8, encode_utf8, valid_utf8};

verus! {

/// Length of the random seed that an identity is derived from.
pub const SEED_SIZE: usize = 32;

/// Length of an Ed25519 public key.
pub const PUBLIC_KEY_SIZE: usize = 32;

/// Length of an encoded identity: six bytes of tags, then the public key.
pub const IDENTITY_SIZE: usize = 38;

/// The Ed25519 public key of the signing key with secret seed `seed`.
pub uninterp spec fn ed25519_public_key(seed: Seq<u8>) -> Seq<u8>;

/// Builds `ed25519_dalek::SigningKey::from_bytes(seed)` and returns the bytes
/// of its `verifying_key()`: the public key, which depends on `seed` alone.
#[verifier::external_body]
fn derive_public_key(seed: &[u8; SEED_SIZE]) -> (key: [u8; PUBLIC_KEY_SIZE])
    ensures
        key@ == ed25519_public_key(seed@),
{
    let signing_key = SigningKey::from_bytes(seed);
    let verifying_key = signing_key.verifying_key();
    verifying_key.to_bytes()
}

/// The base-58 text of `data` in the Bitcoin alphabet.
pub uninterp spec fn base58(data: Seq<u8>) -> Seq<char>;

/// Encodes `data` with `bs58::encode(..).into_string()`, which uses the
/// crate's default alphabet; the text depends on `data` alone.
#[verifier::external_body]
fn base58_encode(data: &[u8]) -> (text: String)
    ensures
        text@ == base58(data@),
{
    bs58::encode(data).into_string()
}

/// An error of the system's random number source.
#[verifier::external_type_specification]
#[verifier::external_body]
pub struct ExRandomError(getrandom::Error);

/// Fills a fresh seed with `getrandom::getrandom`. The bytes are random, so
/// nothing is claimed of them, nor of whether the source fails.
#[verifier::external_body]
fn random_seed() -> (seed: Result<[u8; SEED_SIZE], getrandom::Error>) {
    let mut key_bytes = [0u8; SEED_SIZE];
    getrandom::getrandom(&mut key_bytes)?;
    Ok(key_bytes)
}

/// The encoded identity of the holder of `public_key`: a type marker and a
/// length, then the key in a length-tagged field.
pub open spec fn identity_blob(public_key: Seq<u8>) -> Seq<u8> {
    seq![0x00u8, 36u8, 0x08u8, 0x01u8, 0x12u8, 0x20u8] + public_key
}

/// Encodes the identity of the holder of `public_key`.
pub fn encode_identity(public_key: &[u8; PUBLIC_KEY_SIZE]) -> (blob: Vec<u8>)
    ensures
        blob@ == identity_blob(public_key@),
        blob@.len() == IDENTITY_SIZE,
{
    let mut pub_key_proto: Vec<u8> = Vec::with_capacity(36);
    pub_key_proto.push(0x08);
    pub_key_proto.push(0x01);
    pub_key_proto.push(0x12);
    pub_key_proto.push(0x20);
    append_bytes(&mut pub_key_proto, public_key.as_slice(), 0, PUBLIC_KEY_SIZE);
    let mut multihash: Vec<u8> = Vec::with_capacity(2 + 36);
    multihash.push(0x00);
    multihash.push(36);
    append_bytes(&mut multihash, pub_key_proto.as_slice(), 0, 36);
    assert(multihash@ =~= identity_blob(public_key@));
    multihash
}

/// Why the node could not be set up.
#[derive(Clone, Copy, Debug, PartialEq, Eq, Structural)]
pub enum InitError {
    /// The random number source failed.
    RandomnessUnavailable,
}

/// What a node knows of itself and of its peers.
pub struct P2PState {
    /// The printable name of the node.
    pub peer_id: String,
    /// The overlay identifier of the node.
    pub node_id: NodeId,
    /// The peers that the node knows.
    pub routing_table: RoutingTable,
}

impl P2PState {
    /// Whether this is the state of a fresh node whose encoded identity is
    /// `blob`: named by the base-58 text of `blob`, identified by its hash,
    /// and knowing no peer.
    pub open spec fn is_fresh(&self, blob: Seq<u8>) -> bool {
        &&& self.peer_id@ == base58(blob)
        &&& self.node_id@ == sha256(blob)
        &&& self.routing_table.local_id == self.node_id
        &&& self.routing_table.wf()
        &&& forall|b: int|
            0 <= b < BUCKET_COUNT ==> (#[trigger] self.routing_table.buckets@[b])@.len() == 0
    }

    /// The state of a fresh node that holds `public_key`.
    pub fn from_public_key(public_key: &[u8; PUBLIC_KEY_SIZE]) -> (state: P2PState)
        ensures
            state.is_fresh(identity_blob(public_key@)),
    {
        let multihash = encode_identity(public_key);
        let peer_id = base58_encode(multihash.as_slice());
        let node_id = NodeId::from_data(multihash.as_slice());
        P2PState { peer_id, node_id, routing_table: RoutingTable::new(node_id) }
    }

    /// The state of a fresh node whose signing key has secret seed `seed`.
    pub fn from_seed(seed: &[u8; SEED_SIZE]) -> (state: P2PState)
        ensures
            state.is_fresh(identity_blob(ed25519_public_key(seed@))),
    {
        let public_key = derive_public_key(seed);
        P2PState::from_public_key(&public_key)
    }
}

/// Sets the node up: draws a random seed, derives the node's identity from
/// it, and queues `listener` on `executor`. When the random number source
/// fails nothing is queued.
pub fn init<T: Pollable>(executor: &mut Executor<T>, listener: T) -> (outcome: Result<
    P2PState,
    InitError,
>)
    ensures
        match outcome {
            Ok(state) => {
                &&& exists|seed: Seq<u8>|
                    seed.len() == SEED_SIZE && state.is_fresh(
                        identity_blob(ed25519_public_key(seed)),
                    )
                &&& final(executor)@ == old(executor)@.push(Task { future: listener })
            },
            Err(_) => final(executor)@ == old(executor)@,
        },
{
    match random_seed() {
        Ok(seed) => {
            let state = P2PState::from_seed(&seed);
            executor.spawn(Task::new(listener));
            assert(seed@.len() == SEED_SIZE);
            Ok(state)
        },
        Err(_) => Err(InitError::RandomnessUnavailable),
    }
}

/// Shortest handshake payload: an empty name between the length of the
/// name and the identifier.
pub const MIN_HANDSHAKE_LEN: usize = 36;

/// The text that `String::from_utf8_lossy` makes of `bytes`.
pub uninterp spec fn lossy_utf8(bytes: Seq<u8>) -> Seq<char>;

/// Converts `bytes` with `String::from_utf8_lossy`: the text they encode
/// where they are valid UTF-8, and else a text in which each invalid
/// sequence is replaced. The text depends on `bytes` alone.
#[verifier::external_body]
fn utf8_lossy(bytes: &[u8]) -> (text: String)
    ensures
        text@ == lossy_utf8(bytes@),
        valid_utf8(bytes@) ==> text@ == decode_utf8(bytes@),
{
    String::from_utf8_lossy(bytes).into_owned()
}

/// The handshake payload of a node: the length of its name, its name, and
/// its identifier.
pub open spec fn identity_payload(name: Seq<u8>, node_id: Seq<u8>) -> Seq<u8> {
    le32(declared_len(name.len())) + name + node_id
}

/// The name and the identifier that `payload` carries, if it is long enough
/// for both.
pub open spec fn parse_identity(payload: Seq<u8>) -> Option<(Seq<u8>, Seq<u8>)> {
    if payload.len() < MIN_HANDSHAKE_LEN {
        None
    } else {
        let len = from_le32(payload) as int;
        if payload.len() < 4 + len + ID_SIZE {
            None
        } else {
            Some((payload.subrange(4, 4 + len), payload.subrange(4 + len, 4 + len + ID_SIZE)))
        }
    }
}

/// Whether `peer` is what a payload with these name bytes and this
/// identifier introduces: the identifier as it stands, and the name as
/// `String::from_utf8_lossy` reads it, which for valid UTF-8 is the text that
/// the bytes encode.
pub open spec fn is_identity_of(peer: PeerInfo, name: Seq<u8>, id: Seq<u8>) -> bool {
    &&& peer.node_id@ == id
    &&& peer.peer_id_str@ == lossy_utf8(name)
    &&& valid_utf8(name) ==> peer.peer_id_str@ == decode_utf8(name)
}

/// Why a handshake failed.
#[derive(Clone, Copy, Debug, PartialEq, Eq, Structural)]
pub enum HandshakeError {
    /// The stream closed before the identities were exchanged.
    ConnectionClosed,
    /// The peer sent a frame that is too long, or a payload that is too
    /// short for what it declares.
    ProtocolViolation,
}

/// Serialises the identity that a node sends in the handshake.
pub fn encode_handshake(peer_id: &str, node_id: &NodeId) -> (payload: Vec<u8>)
    ensures
        payload@ == identity_payload(encode_utf8(peer_id@), node_id@),
{
    let peer_id_bytes = peer_id.as_bytes();
    let declared = (peer_id_bytes.len() as u64 % 0x1_0000_0000) as u32;
    let prefix = u32_to_le_bytes(declared);
    let mut payload: Vec<u8> = Vec::new();
    append_bytes(&mut payload, prefix.as_slice(), 0, 4);
    append_bytes(&mut payload, peer_id_bytes, 0, peer_id_bytes.len());
    append_bytes(&mut payload, node_id.0.as_slice(), 0, ID_SIZE);
    proof {
        assert(prefix@.subrange(0, 4) =~= prefix@);
        assert(peer_id_bytes@.subrange(0, peer_id_bytes@.len() as int) =~= peer_id_bytes@);
        assert(node_id.0@.subrange(0, ID_SIZE as int) =~= node_id@);
        assert(payload@ =~= identity_payload(encode_utf8(peer_id@), node_id@));
    }
    payload
}

/// Reads the identity that a peer sent in the handshake. A payload that is
/// too short for the name it declares and the identifier is refused; bytes
/// after the identifier are ignored.
pub fn parse_handshake(payload: &[u8]) -> (parsed: Result<PeerInfo, HandshakeError>)
    ensures
        match parse_identity(payload@) {
            Some((name, id)) => parsed is Ok && is_identity_of(parsed->Ok_0, name, id),
            None => parsed == Err::<PeerInfo, HandshakeError>(HandshakeError::ProtocolViolation),
        },
{
    if payload.len() < MIN_HANDSHAKE_LEN {
        return Err(HandshakeError::ProtocolViolation);
    }
    let len = u32_from_le_bytes([payload[0], payload[1], payload[2], payload[3]]) as usize;
    if (payload.len() as u64) < 4 + (len as u64) + (ID_SIZE as u64) {
        return Err(HandshakeError::ProtocolViolation);
    }
    let remote_peer_id = utf8_lossy(vstd::slice::slice_subrange(payload, 4, 4 + len));
    let mut node_id_bytes = [0u8; ID_SIZE];
    let total = payload.len();
    let mut i: usize = 0;
    while i < ID_SIZE
        invariant
            i <= ID_SIZE,
            total == payload@.len(),
            4 + len + ID_SIZE <= total,
            forall|j: int| 0 <= j < i ==> node_id_bytes@[j] == payload@[4 + len + j],
        decreases ID_SIZE - i,
    {
        node_id_bytes[i] = payload[4 + len + i];
        i += 1;
    }
    let remote_node_id = NodeId::new(node_id_bytes);
    assert(remote_node_id@ =~= payload@.subrange(4 + len, 4 + len + ID_SIZE));
    Ok(PeerInfo { node_id: remote_node_id, peer_id_str: remote_peer_id })
}

/// What a node sends of itself is what its peer reads of it: the payload
/// of a name and an identifier parses to the same two, and the name's bytes
/// decode to the name.
pub proof fn lemma_handshake_roundtrip(name: Seq<char>, node_id: NodeId)
    requires
        encode_utf8(name).len() <= u32::MAX,
    ensures
        parse_identity(identity_payload(encode_utf8(name), node_id@)) == Some(
            (encode_utf8(name), node_id@),
        ),
        valid_utf8(encode_utf8(name)),
        decode_utf8(encode_utf8(name)) == name,
{
    let bytes = encode_utf8(name);
    let payload = identity_payload(bytes, node_id@);
    let len = declared_len(bytes.len());
    crate::p2p_transport::lemma_le32_roundtrip(len);
    assert(from_le32(payload) == from_le32(le32(len)));
    assert(payload.subrange(4, 4 + len) =~= bytes);
    assert(payload.subrange(4 + len, 4 + len + ID_SIZE) =~= node_id@);
    vstd::utf8::encode_utf8_valid_utf8(name);
    vstd::utf8::encode_utf8_decode_utf8(name);
}

/// Where a handshake stands.
#[derive(Clone, Copy, Debug, PartialEq, Eq, Structural)]
pub enum HandshakePoll {
    /// The identities are not exchanged yet.
    Pending,
    /// The peer's identity arrived and was offered to the routing table.
    Succeeded,
    /// The handshake failed.
    Failed(HandshakeError),
}

/// Whether a handshake that has received `received` stands at `state`, with
/// the routing table taken from `before` to `after`: nothing happens before
/// the frame is complete, an over-long frame or a malformed payload fails the
/// handshake and leaves the table alone, and a well-formed payload succeeds
/// and offers the peer it introduces to the table.
pub open spec fn settled(
    received: Seq<u8>,
    state: HandshakePoll,
    before: RoutingTable,
    after: RoutingTable,
) -> bool {
    match decode_frame(received) {
        Decoded::Incomplete => state == HandshakePoll::Pending && after == before,
        Decoded::TooLong => state == HandshakePoll::Failed(HandshakeError::ProtocolViolation)
            && after == before,
        Decoded::Payload(p) => match parse_identity(p) {
            None => state == HandshakePoll::Failed(HandshakeError::ProtocolViolation) && after
                == before,
            Some((name, id)) => state == HandshakePoll::Succeeded && exists|peer: PeerInfo|
                is_identity_of(peer, name, id) && peer_recorded(before, after, peer),
        },
    }
}

/// One run of the handshake: the node sends its identity in a frame, then
/// receives its peer's in another and offers it to the routing table.
pub struct Handshake {
    writer: FrameWriter,
    reader: FrameReader,
    state: HandshakePoll,
}

impl Handshake {
    /// The frame that carries the node's own identity.
    pub closed spec fn frame(&self) -> Seq<u8> {
        self.writer.frame()
    }

    /// How many bytes of the frame went out.
    pub closed spec fn sent(&self) -> nat {
        self.writer.sent()
    }

    /// The bytes received from the peer.
    pub closed spec fn received(&self) -> Seq<u8> {
        self.reader.received()
    }

    /// Where the handshake stands.
    pub closed spec fn state(&self) -> HandshakePoll {
        self.state
    }

    /// Nothing is received before the own frame is out, and the handshake
    /// is under way only while the peer's frame is incomplete.
    pub closed spec fn wf(&self) -> bool {
        &&& self.writer.wf()
        &&& self.reader.wf()
        &&& self.sent() < self.frame().len() ==> self.received().len() == 0
        &&& self.state == HandshakePoll::Pending ==> decode_frame(self.received())
            == Decoded::Incomplete
    }

    /// Whether the handshake is at the point of receiving.
    pub open spec fn receiving(&self) -> bool {
        self.state() == HandshakePoll::Pending && self.sent() == self.frame().len()
    }

    /// A handshake for the node named `peer_id` with identifier `node_id`,
    /// with nothing sent or received.
    pub fn new(peer_id: &str, node_id: &NodeId) -> (handshake: Self)
        ensures
            handshake.wf(),
            handshake.frame() == frame_of(identity_payload(encode_utf8(peer_id@), node_id@)),
            handshake.sent() == 0,
            handshake.received() == Seq::<u8>::empty(),
            handshake.state() == HandshakePoll::Pending,
    {
        let payload = encode_handshake(peer_id, node_id);
        Handshake {
            writer: send_framed(payload.as_slice()),
            reader: recv_framed(),
            state: HandshakePoll::Pending,
        }
    }

    /// Where the handshake stands.
    pub fn outcome(&self) -> (state: HandshakePoll)
        ensures
            state == self.state(),
    {
        self.state
    }

    /// The bytes to write to the stream next: none unless the handshake is
    /// under way and its own frame is not out yet.
    pub fn outgoing(&self) -> (bytes: &[u8])
        requires
            self.wf(),
        ensures
            bytes@ == if self.state() == HandshakePoll::Pending {
                pending_of(self.frame(), self.sent() as int)
            } else {
                Seq::<u8>::empty()
            },
    {
        let pending = self.writer.pending();
        match self.state {
            HandshakePoll::Pending => pending,
            _ => vstd::slice::slice_subrange(pending, 0, 0),
        }
    }

    /// Records that the stream took the first `n` of the outgoing bytes.
    pub fn wrote(&mut self, n: usize)
        requires
            old(self).wf(),
            old(self).state() == HandshakePoll::Pending,
            n <= pending_of(old(self).frame(), old(self).sent() as int).len(),
        ensures
            final(self).wf(),
            final(self).frame() == old(self).frame(),
            final(self).sent() == old(self).sent() + n,
            final(self).received() == old(self).received(),
            final(self).state() == old(self).state(),
    {
        proof {
            if self.sent() == self.frame().len() {
                assert(pending_of(self.frame(), self.sent() as int).len() == 0);
            }
        }
        self.writer.advance(n);
    }

    /// The number of bytes to ask the stream for next: none unless the
    /// handshake is receiving.
    pub fn wanted(&self) -> (n: usize)
        requires
            self.wf(),
        ensures
            n == if self.receiving() {
                wanted_after(self.received())
            } else {
                0
            },
    {
        match self.state {
            HandshakePoll::Pending => if self.writer.is_done() {
                self.reader.wanted()
            } else {
                0
            },
            _ => 0,
        }
    }

    /// Judges the peer's frame once no more of it is awaited.
    fn settle(&mut self, table: &mut RoutingTable)
        requires
            old(self).writer.wf(),
            old(self).reader.wf(),
            old(self).sent() == old(self).frame().len(),
            old(table).wf(),
        ensures
            final(self).wf(),
            final(table).wf(),
            final(self).frame() == old(self).frame(),
            final(self).sent() == old(self).sent(),
            final(self).received() == old(self).received(),
            settled(final(self).received(), final(self).state(), *old(table), *final(table)),
    {
        let status = self.reader.status();
        match status {
            FrameStatus::Incomplete => {
                self.state = HandshakePoll::Pending;
            },
            FrameStatus::TooLong => {
                self.state = HandshakePoll::Failed(HandshakeError::ProtocolViolation);
            },
            FrameStatus::Complete => {
                let parsed = match self.reader.payload() {
                    Some(payload) => parse_handshake(payload),
                    None => Err(HandshakeError::ProtocolViolation),
                };
                match parsed {
                    Ok(peer_info) => {
                        let ghost peer = peer_info;
                        table.add_peer(peer_info);
                        self.state = HandshakePoll::Succeeded;
                        assert(peer_recorded(*old(table), *table, peer));
                    },
                    Err(error) => {
                        self.state = HandshakePoll::Failed(error);
                    },
                }
            },
        }
    }

    /// Takes the bytes at the front of `chunk` that the handshake still
    /// asks for, judges the peer's frame if they complete it, and returns how
    /// many bytes were taken.
    pub fn read(&mut self, chunk: &[u8], table: &mut RoutingTable) -> (taken: usize)
        requires
            old(self).wf(),
            old(table).wf(),
        ensures
            final(self).wf(),
            final(table).wf(),
            final(self).frame() == old(self).frame(),
            final(self).sent() == old(self).sent(),
            taken == if !old(self).receiving() {
                0
            } else if chunk@.len() <= wanted_after(old(self).received()) {
                chunk@.len()
            } else {
                wanted_after(old(self).received())
            },
            final(self).received() == old(self).received() + chunk@.take(taken as int),
            old(self).receiving() ==> settled(
                final(self).received(),
                final(self).state(),
                *old(table),
                *final(table),
            ),
            !old(self).receiving() ==> final(self).state() == old(self).state() && *final(table)
                == *old(table),
    {
        let receiving = match self.state {
            HandshakePoll::Pending => self.writer.is_done(),
            _ => false,
        };
        if !receiving {
            assert(chunk@.take(0) =~= Seq::<u8>::empty());
            assert(self.received() + Seq::<u8>::empty() =~= self.received());
            return 0;
        }
        let taken = self.reader.accept(chunk);
        self.settle(table);
        taken
    }

    /// Records that the stream closed: a handshake under way fails.
    pub fn closed(&mut self)
        requires
            old(self).wf(),
        ensures
            final(self).wf(),
            final(self).frame() == old(self).frame(),
            final(self).sent() == old(self).sent(),
            final(self).received() == old(self).received(),
            final(self).state() == if old(self).state() == HandshakePoll::Pending {
                HandshakePoll::Failed(HandshakeError::ConnectionClosed)
            } else {
                old(self).state()
            },
    {
        match self.state {
            HandshakePoll::Pending => {
                self.state = HandshakePoll::Failed(HandshakeError::ConnectionClosed);
            },
            _ => {},
        }
    }

    /// Takes the handshake as far as `socket` allows now. Whatever the
    /// socket answers: a finished handshake stays as it is; no byte is taken
    /// back; and a handshake under way either fails because the stream
    /// closed, leaving the table alone, or stands where the bytes received
    /// so far put it.
    pub fn poll(&mut self, socket: &mut tcp::Socket<'_>, table: &mut RoutingTable) -> (poll:
        HandshakePoll)
        requires
            old(self).wf(),
            old(table).wf(),
        ensures
            final(self).wf(),
            final(table).wf(),
            poll == final(self).state(),
            final(self).frame() == old(self).frame(),
            final(self).sent() >= old(self).sent(),
            is_prefix_of(old(self).received(), final(self).received()),
            old(self).state() != HandshakePoll::Pending ==> final(self).state() == old(
                self,
            ).state() && *final(table) == *old(table),
            old(self).state() == HandshakePoll::Pending ==> (final(self).state()
                == HandshakePoll::Failed(HandshakeError::ConnectionClosed) && *final(table) == *old(
                table,
            )) || settled(
                final(self).received(),
                final(self).state(),
                *old(table),
                *final(table),
            ),
    {
        assert(self.received().take(self.received().len() as int) =~= self.received());
        match self.state {
            HandshakePoll::Pending => {},
            _ => {
                return self.state;
            },
        }
        if !self.writer.is_done() {
            let sending = self.writer.poll(socket);
            match sending {
                FramePoll::Done => {},
                FramePoll::Pending => {
                    return HandshakePoll::Pending;
                },
                FramePoll::Failed(_) => {
                    self.state = HandshakePoll::Failed(HandshakeError::ConnectionClosed);
                    return self.state;
                },
            }
        }
        let receiving = self.reader.poll(socket);
        match receiving {
            FramePoll::Pending => HandshakePoll::Pending,
            FramePoll::Failed(TransportError::ConnectionClosed) => {
                self.state = HandshakePoll::Failed(HandshakeError::ConnectionClosed);
                self.state
            },
            _ => {
                self.settle(table);
                self.state
            },
        }
    }
}

/// The port on which the overlay listens.
pub const P2P_PORT: u16 = 40444;

/// What the listener does about its connection at the start of a round.
#[derive(Clone, Copy, Debug, PartialEq, Eq, Structural)]
pub enum ListenerAction {
    /// A peer is connected: run the handshake.
    Handshake,
    /// The connection is closed: listen again.
    Listen,
    /// Nothing to do this round.
    Wait,
}

/// What to do about a connection in state `state`: a connection that is
/// established, or that the peer has begun to close, gets a handshake; a
/// closed one is put back to listening; any other is left alone.
pub open spec fn action_for(state: ConnState) -> ListenerAction {
    match state {
        ConnState::Established | ConnState::CloseWait => ListenerAction::Handshake,
        ConnState::Closed => ListenerAction::Listen,
        _ => ListenerAction::Wait,
    }
}

/// Decides what to do about a connection in state `state`.
#[verifier::when_used_as_spec(action_for)]
pub fn listener_action(state: ConnState) -> (action: ListenerAction)
    ensures
        action == action_for(state),
{
    match state {
        ConnState::Established | ConnState::CloseWait => ListenerAction::Handshake,
        ConnState::Closed => ListenerAction::Listen,
        _ => ListenerAction::Wait,
    }
}

/// The task that serves the overlay's port for as long as the node runs:
/// round after round it looks at the connection, runs a handshake when a peer
/// is there, closes the connection once the handshake has ended either way,
/// and gives control back once per round.
pub struct P2pListener {
    handshake: Option<Handshake>,
}

impl P2pListener {
    /// The handshake under way, if there is one.
    pub closed spec fn handshake(&self) -> Option<Handshake> {
        self.handshake
    }

    /// Whether a handshake is under way.
    pub open spec fn busy(&self) -> bool {
        self.handshake() is Some
    }

    /// A handshake under way is well-formed and not finished.
    pub open spec fn wf(&self) -> bool {
        self.handshake() matches Some(h) ==> h.wf() && h.state() == HandshakePoll::Pending
    }

    /// A listener at the start of a round.
    pub fn new() -> (listener: Self)
        ensures
            listener.wf(),
            !listener.busy(),
    {
        P2pListener { handshake: None }
    }

    /// Whether a handshake is under way.
    pub fn is_busy(&self) -> (busy: bool)
        ensures
            busy == self.busy(),
    {
        self.handshake.is_some()
    }

    /// Opens a round on a connection in state `state`. While a handshake
    /// is under way the round goes on with it, whatever the state. Else the
    /// state decides: for a peer that is connected a handshake is made ready,
    /// with nothing sent or received yet, which introduces `node`.
    pub fn begin_round(&mut self, state: ConnState, node: &P2PState) -> (action: ListenerAction)
        requires
            old(self).wf(),
        ensures
            final(self).wf(),
            action == if old(self).busy() {
                ListenerAction::Handshake
            } else {
                listener_action(state)
            },
            final(self).busy() == (action == ListenerAction::Handshake),
            old(self).busy() ==> final(self).handshake() == old(self).handshake(),
            !old(self).busy() && final(self).busy() ==> {
                let h = final(self).handshake()->0;
                &&& h.frame() == frame_of(
                    identity_payload(encode_utf8(node.peer_id@), node.node_id@),
                )
                &&& h.sent() == 0
                &&& h.received() == Seq::<u8>::empty()
            },
    {
        if self.handshake.is_some() {
            return ListenerAction::Handshake;
        }
        let action = listener_action(state);
        match action {
            ListenerAction::Handshake => {
                self.handshake = Some(Handshake::new(node.peer_id.as_str(), &node.node_id));
            },
            _ => {},
        }
        action
    }

    /// Closes a round in which the handshake came to `progress`, and says
    /// whether to close the connection: a handshake that has ended, well or
    /// badly, is dropped and the connection closed; one that is still under
    /// way is kept for the next round.
    pub fn end_round(&mut self, progress: HandshakePoll) -> (close: bool)
        requires
            old(self).handshake() matches Some(h) ==> h.wf() && h.state() == progress,
        ensures
            final(self).wf(),
            close == (old(self).busy() && progress != HandshakePoll::Pending),
            final(self).handshake() == if close {
                None
            } else {
                old(self).handshake()
            },
    {
        match progress {
            HandshakePoll::Pending => false,
            _ => {
                let close = self.handshake.is_some();
                self.handshake = None;
                close
            },
        }
    }

    /// Runs the listener up to its next point of suspension: it opens a
    /// round on the state of `socket`, puts a closed socket back to listening
    /// on `P2P_PORT`, takes the handshake as far as the socket allows, and
    /// closes the connection when the handshake has ended. It never completes.
    ///
    /// Whatever the socket answers: the node keeps its identity and its
    /// table stays well-formed. A handshake that is under way before and after
    /// is the same handshake, with no byte taken back; one that is new
    /// introduces the node. The table changes in one way only: a handshake
    /// ends with a complete frame from the peer, which continues what was
    /// received before, and the peer that the frame introduces is offered to
    /// the table.
    pub fn poll(&mut self, socket: &mut tcp::Socket<'_>, node: &mut P2PState) -> (report:
        TaskPoll)
        requires
            old(self).wf(),
            old(node).routing_table.wf(),
        ensures
            report == TaskPoll::Pending,
            final(self).wf(),
            final(node).routing_table.wf(),
            final(node).peer_id == old(node).peer_id,
            final(node).node_id == old(node).node_id,
            final(self).busy() ==> final(node).routing_table == old(node).routing_table,
            old(self).busy() && final(self).busy() ==> {
                let before = old(self).handshake()->0;
                let now = final(self).handshake()->0;
                &&& now.frame() == before.frame()
                &&& now.sent() >= before.sent()
                &&& is_prefix_of(before.received(), now.received())
            },
            !old(self).busy() && final(self).busy() ==> final(self).handshake()->0.frame()
                == frame_of(identity_payload(encode_utf8(old(node).peer_id@), old(node).node_id@)),
            final(node).routing_table == old(node).routing_table || exists|received: Seq<u8>|
                {
                    &&& old(self).busy() ==> is_prefix_of(
                        old(self).handshake()->0.received(),
                        received,
                    )
                    &&& #[trigger] settled(
                        received,
                        HandshakePoll::Succeeded,
                        old(node).routing_table,
                        final(node).routing_table,
                    )
                },
    {
        let action = self.begin_round(socket_state(socket), node);
        match action {
            ListenerAction::Listen => {
                socket_listen(socket, P2P_PORT);
            },
            _ => {},
        }
        let ghost opened = self.handshake;
        let progress = match &mut self.handshake {
            Some(handshake) => handshake.poll(socket, &mut node.routing_table),
            None => {
                return TaskPoll::Pending;
            },
        };
        proof {
            let ended = self.handshake->0;
            if node.routing_table != old(node).routing_table {
                assert(settled(
                    ended.received(),
                    HandshakePoll::Succeeded,
                    old(node).routing_table,
                    node.routing_table,
                ));
                if old(self).busy() {
                    assert(opened == old(self).handshake());
                }
            }
        }
        if self.end_round(progress) {
            socket_close(socket);
        }
        TaskPoll::Pending
    }
}

/// A piece of work that gives control back once and is complete when it is
/// polled again.
pub struct YieldNow {
    /// Whether control was given back already.
    pub yielded: bool,
}

impl Pollable for YieldNow {
    open spec fn may_step(&self, after: &Self, report: TaskPoll) -> bool {
        if self.yielded {
            report == TaskPoll::Ready && after.yielded
        } else {
            report == TaskPoll::Pending && after.yielded
        }
    }

    fn poll(&mut self) -> (report: TaskPoll) {
        if self.yielded {
            TaskPoll::Ready
        } else {
            self.yielded = true;
            TaskPoll::Pending
        }
    }
}

/// Work that gives control back to the scheduler exactly once.
pub fn yield_now() -> (work: YieldNow)
    ensures
        !work.yielded,
{
    YieldNow { yielded: false }
}

} // verus!
