use kernel_net::p2p::{
    encode_handshake, listener_action, parse_handshake, Handshake, HandshakeError,
    HandshakePoll, ListenerAction, P2PState, P2pListener, MIN_HANDSHAKE_LEN, P2P_PORT,
};
use kernel_net::p2p_kademlia::{NodeId, RoutingTable};
use kernel_net::p2p_transport::ConnState;
use std::collections::VecDeque;

fn id_of(fill: u8) -> NodeId {
    let mut bytes = [fill; 32];
    bytes[0] = 0x80 | fill;
    NodeId::new(bytes)
}

fn peers_of(table: &RoutingTable) -> Vec<(NodeId, String)> {
    let mut all = Vec::new();
    for bucket in &table.buckets {
        for p in &bucket.peers {
            all.push((p.node_id, p.peer_id_str.clone()));
        }
    }
    all
}

/// One turn of a node on its end of a stream pair: it writes up to `chunk`
/// of its outgoing bytes and reads up to `chunk` of what has arrived.
fn turn(
    node: &mut Handshake,
    table: &mut RoutingTable,
    outbox: &mut VecDeque<u8>,
    inbox: &mut VecDeque<u8>,
    chunk: usize,
) {
    if node.outcome() == HandshakePoll::Pending {
        let n = node.outgoing().len().min(chunk);
        if n > 0 {
            outbox.extend(node.outgoing()[..n].iter().copied());
            node.wrote(n);
        }
    }
    let n = node.wanted().min(inbox.len()).min(chunk);
    if n > 0 {
        let piece: Vec<u8> = inbox.drain(..n).collect();
        assert_eq!(node.read(&piece, table), n);
    }
}

fn run_pair(a: &P2PState, b: &P2PState, chunk: usize) -> (RoutingTable, RoutingTable) {
    let mut table_a = RoutingTable::new(a.node_id);
    let mut table_b = RoutingTable::new(b.node_id);
    let mut node_a = Handshake::new(&a.peer_id, &a.node_id);
    let mut node_b = Handshake::new(&b.peer_id, &b.node_id);
    let mut a_to_b = VecDeque::new();
    let mut b_to_a = VecDeque::new();
    let mut rounds = 0;
    while node_a.outcome() == HandshakePoll::Pending || node_b.outcome() == HandshakePoll::Pending
    {
        turn(&mut node_a, &mut table_a, &mut a_to_b, &mut b_to_a, chunk);
        turn(&mut node_b, &mut table_b, &mut b_to_a, &mut a_to_b, chunk);
        rounds += 1;
        assert!(rounds < 10_000);
    }
    assert_eq!(node_a.outcome(), HandshakePoll::Succeeded);
    assert_eq!(node_b.outcome(), HandshakePoll::Succeeded);
    assert!(a_to_b.is_empty() && b_to_a.is_empty());
    (table_a, table_b)
}

#[test]
fn both_nodes_learn_exactly_each_other() {
    let a = P2PState::from_seed(&[1u8; 32]);
    let b = P2PState::from_seed(&[2u8; 32]);
    for chunk in [1usize, 5, 4096] {
        let (table_a, table_b) = run_pair(&a, &b, chunk);
        assert_eq!(peers_of(&table_a), vec![(b.node_id, b.peer_id.clone())]);
        assert_eq!(peers_of(&table_b), vec![(a.node_id, a.peer_id.clone())]);
    }
}

#[test]
fn handshake_payload_layout() {
    let payload = encode_handshake("abc", &id_of(7));
    assert_eq!(payload.len(), 4 + 3 + 32);
    assert_eq!(&payload[..4], &[3, 0, 0, 0]);
    assert_eq!(&payload[4..7], b"abc");
    assert_eq!(&payload[7..], &id_of(7).0);
    let empty = encode_handshake("", &id_of(1));
    assert_eq!(empty.len(), MIN_HANDSHAKE_LEN);
    assert_eq!(&empty[..4], &[0, 0, 0, 0]);
    // The length counts bytes, not characters.
    let wide = encode_handshake("né", &id_of(2));
    assert_eq!(&wide[..4], &[3, 0, 0, 0]);
    assert_eq!(&wide[4..7], "né".as_bytes());
}

#[test]
fn parse_reads_back_what_encode_wrote() {
    for name in ["", "a", "12D3KooWQK1wnefoLrcVHbbnf5tLzbopUd3K3bFAoJpA7YJgL5pV", "zażółć"] {
        let peer = parse_handshake(&encode_handshake(name, &id_of(9))).ok().unwrap();
        assert_eq!(peer.peer_id_str, name);
        assert_eq!(peer.node_id, id_of(9));
    }
}

#[test]
fn parse_ignores_bytes_after_the_identifier() {
    let mut payload = encode_handshake("xy", &id_of(3));
    payload.extend_from_slice(&[1, 2, 3]);
    let peer = parse_handshake(&payload).ok().unwrap();
    assert_eq!(peer.peer_id_str, "xy");
    assert_eq!(peer.node_id, id_of(3));
}

#[test]
fn parse_replaces_invalid_utf8() {
    let mut payload = vec![2, 0, 0, 0, 0xff, b'a'];
    payload.extend_from_slice(&id_of(4).0);
    let peer = parse_handshake(&payload).ok().unwrap();
    assert_eq!(peer.peer_id_str, "\u{fffd}a");
    assert_eq!(peer.node_id, id_of(4));
}

#[test]
fn parse_refuses_short_payloads() {
    assert_eq!(parse_handshake(&[]).err(), Some(HandshakeError::ProtocolViolation));
    assert_eq!(parse_handshake(&[0u8; 35]).err(), Some(HandshakeError::ProtocolViolation));
    assert!(parse_handshake(&[0u8; 36]).is_ok());
    // Declares a name of one byte but holds none.
    let mut payload = vec![1, 0, 0, 0];
    payload.extend_from_slice(&[0u8; 32]);
    assert_eq!(parse_handshake(&payload).err(), Some(HandshakeError::ProtocolViolation));
    payload.push(0);
    assert!(parse_handshake(&payload).is_ok());
    // Declares far more than it holds.
    let mut payload = vec![0xff, 0xff, 0xff, 0xff];
    payload.extend_from_slice(&[0u8; 64]);
    assert_eq!(parse_handshake(&payload).err(), Some(HandshakeError::ProtocolViolation));
}

fn sent_all(node: &mut Handshake) {
    while !node.outgoing().is_empty() {
        let n = node.outgoing().len();
        node.wrote(n);
    }
}

#[test]
fn handshake_sends_before_it_receives() {
    let mut table = RoutingTable::new(id_of(1));
    let mut node = Handshake::new("me", &id_of(1));
    assert_eq!(node.outcome(), HandshakePoll::Pending);
    assert_eq!(node.wanted(), 0);
    assert_eq!(node.read(&[1, 2, 3, 4], &mut table), 0);
    // The frame: its length, then the payload.
    assert_eq!(node.outgoing(), &[38, 0, 0, 0]);
    node.wrote(4);
    assert_eq!(node.outgoing(), &encode_handshake("me", &id_of(1))[..]);
    assert_eq!(node.wanted(), 0);
    node.wrote(38);
    assert!(node.outgoing().is_empty());
    assert_eq!(node.wanted(), 4);
}

#[test]
fn malformed_payload_fails_the_handshake_and_leaves_the_table() {
    let mut table = RoutingTable::new(id_of(1));
    let mut node = Handshake::new("me", &id_of(1));
    sent_all(&mut node);
    // A frame of ten bytes: too short for an identity.
    assert_eq!(node.read(&[10, 0, 0, 0], &mut table), 4);
    assert_eq!(node.outcome(), HandshakePoll::Pending);
    assert_eq!(node.read(&[0u8; 10], &mut table), 10);
    assert_eq!(node.outcome(), HandshakePoll::Failed(HandshakeError::ProtocolViolation));
    assert!(peers_of(&table).is_empty());
    assert_eq!(node.wanted(), 0);
    assert!(node.outgoing().is_empty());
}

#[test]
fn over_long_frame_fails_the_handshake() {
    let mut table = RoutingTable::new(id_of(1));
    let mut node = Handshake::new("me", &id_of(1));
    sent_all(&mut node);
    assert_eq!(node.read(&(1_048_577u32).to_le_bytes(), &mut table), 4);
    assert_eq!(node.outcome(), HandshakePoll::Failed(HandshakeError::ProtocolViolation));
    assert!(peers_of(&table).is_empty());
}

#[test]
fn closed_stream_fails_a_handshake_under_way() {
    let mut node = Handshake::new("me", &id_of(1));
    node.wrote(2);
    node.closed();
    assert_eq!(node.outcome(), HandshakePoll::Failed(HandshakeError::ConnectionClosed));
    assert!(node.outgoing().is_empty());
    assert_eq!(node.wanted(), 0);
}

#[test]
fn closing_after_the_end_changes_nothing() {
    let mut table = RoutingTable::new(id_of(1));
    let mut node = Handshake::new("me", &id_of(1));
    sent_all(&mut node);
    let mut frame = vec![39, 0, 0, 0];
    frame.extend_from_slice(&encode_handshake("you", &id_of(2)));
    let mut offset = 0;
    while offset < frame.len() {
        offset += node.read(&frame[offset..], &mut table);
    }
    assert_eq!(node.outcome(), HandshakePoll::Succeeded);
    node.closed();
    assert_eq!(node.outcome(), HandshakePoll::Succeeded);
    assert_eq!(peers_of(&table), vec![(id_of(2), "you".to_string())]);
}

#[test]
fn listener_decides_by_the_state_of_the_connection() {
    assert_eq!(P2P_PORT, 40444);
    assert_eq!(listener_action(ConnState::Established), ListenerAction::Handshake);
    assert_eq!(listener_action(ConnState::CloseWait), ListenerAction::Handshake);
    assert_eq!(listener_action(ConnState::Closed), ListenerAction::Listen);
    for state in [
        ConnState::Listen,
        ConnState::SynSent,
        ConnState::SynReceived,
        ConnState::FinWait1,
        ConnState::FinWait2,
        ConnState::Closing,
        ConnState::LastAck,
        ConnState::TimeWait,
    ] {
        assert_eq!(listener_action(state), ListenerAction::Wait);
    }
}

#[test]
fn round_opens_a_handshake_only_for_a_connected_peer() {
    let node = P2PState::from_seed(&[5u8; 32]);
    for state in [ConnState::Closed, ConnState::Listen, ConnState::SynReceived, ConnState::TimeWait]
    {
        let mut listener = P2pListener::new();
        assert_eq!(listener.begin_round(state, &node), listener_action(state));
        assert!(!listener.is_busy());
    }
    for state in [ConnState::Established, ConnState::CloseWait] {
        let mut listener = P2pListener::new();
        assert_eq!(listener.begin_round(state, &node), ListenerAction::Handshake);
        assert!(listener.is_busy());
    }
}

#[test]
fn round_goes_on_with_a_handshake_under_way() {
    let node = P2PState::from_seed(&[5u8; 32]);
    let mut listener = P2pListener::new();
    assert_eq!(listener.begin_round(ConnState::Established, &node), ListenerAction::Handshake);
    // The handshake is not done: it is kept, and the connection stays open.
    assert!(!listener.end_round(HandshakePoll::Pending));
    assert!(listener.is_busy());
    // Whatever the connection has become, the handshake goes on.
    assert_eq!(listener.begin_round(ConnState::Closed, &node), ListenerAction::Handshake);
    assert_eq!(listener.begin_round(ConnState::FinWait1, &node), ListenerAction::Handshake);
    assert!(listener.is_busy());
}

#[test]
fn round_without_a_handshake_closes_nothing() {
    let mut listener = P2pListener::new();
    assert!(!listener.end_round(HandshakePoll::Pending));
    assert!(!listener.end_round(HandshakePoll::Succeeded));
    assert!(!listener.end_round(HandshakePoll::Failed(HandshakeError::ConnectionClosed)));
    assert!(!listener.is_busy());
}
