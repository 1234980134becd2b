use kernel_net::executor::TaskPoll;
use kernel_net::p2p::{
    encode_handshake, Handshake, HandshakeError, HandshakePoll, P2PState, P2pListener, P2P_PORT,
};
use kernel_net::p2p_kademlia::{NodeId, RoutingTable};
use kernel_net::p2p_transport::{
    poll_read, poll_write, recv_framed, send_framed, FramePoll, FrameReader, FrameStatus,
    StreamPoll, TransportError,
};
use smoltcp::iface::{Config, Interface, SocketHandle, SocketSet};
use smoltcp::phy::{Loopback, Medium};
use smoltcp::socket::tcp;
use smoltcp::time::Instant;
use smoltcp::wire::{EthernetAddress, IpAddress, IpCidr};

fn socket(size: usize) -> tcp::Socket<'static> {
    tcp::Socket::new(tcp::SocketBuffer::new(vec![0; size]), tcp::SocketBuffer::new(vec![0; size]))
}

/// Two sockets on one interface whose packets come straight back to it.
struct Net {
    iface: Interface,
    device: Loopback,
    sockets: SocketSet<'static>,
    server: SocketHandle,
    client: SocketHandle,
    millis: i64,
}

impl Net {
    fn new(buffer: usize) -> Net {
        let mut device = Loopback::new(Medium::Ethernet);
        let config = Config::new(EthernetAddress([0x02, 0, 0, 0, 0, 1]).into());
        let mut iface = Interface::new(config, &mut device, Instant::ZERO);
        iface.update_ip_addrs(|addrs| {
            addrs.push(IpCidr::new(IpAddress::v4(127, 0, 0, 1), 8)).unwrap();
        });
        let mut sockets = SocketSet::new(vec![]);
        let server = sockets.add(socket(buffer));
        let client = sockets.add(socket(buffer));
        Net { iface, device, sockets, server, client, millis: 0 }
    }

    fn step(&mut self) {
        self.millis += 1;
        let now = Instant::from_millis(self.millis);
        self.iface.poll(now, &mut self.device, &mut self.sockets);
    }

    fn connect(&mut self) {
        let cx = self.iface.context();
        let client = self.sockets.get_mut::<tcp::Socket>(self.client);
        client.connect(cx, (IpAddress::v4(127, 0, 0, 1), P2P_PORT), 49152).unwrap();
    }

    fn state(&mut self, handle: SocketHandle) -> tcp::State {
        self.sockets.get_mut::<tcp::Socket>(handle).state()
    }
}

fn peers_of(table: &RoutingTable) -> Vec<(NodeId, String)> {
    let mut all = Vec::new();
    for bucket in &table.buckets {
        for p in &bucket.peers {
            all.push((p.node_id, p.peer_id_str.clone()));
        }
    }
    all
}

#[test]
fn closed_socket_neither_takes_nor_gives() {
    let mut s = socket(64);
    assert_eq!(poll_write(&mut s, b"hello"), StreamPoll::Pending);
    let mut dest = vec![1u8, 2, 3];
    assert_eq!(poll_read(&mut s, &mut dest, 16), StreamPoll::Closed);
    assert_eq!(dest, vec![1, 2, 3]);
    let mut writer = send_framed(b"hello");
    assert_eq!(writer.poll(&mut s), FramePoll::Pending);
    assert_eq!(writer.pending(), &[5, 0, 0, 0]);
    let mut reader = recv_framed();
    assert_eq!(reader.poll(&mut s), FramePoll::Failed(TransportError::ConnectionClosed));
    assert_eq!(reader.wanted(), 4);
}

#[test]
fn listening_socket_is_worth_waiting_for_only_once_active() {
    let mut s = socket(64);
    s.listen(P2P_PORT).unwrap();
    let mut dest = Vec::new();
    // A socket that listens has no connection yet.
    assert_eq!(poll_read(&mut s, &mut dest, 4), StreamPoll::Closed);
    assert_eq!(poll_write(&mut s, b"x"), StreamPoll::Pending);
    assert!(dest.is_empty());
}

#[test]
fn finished_reader_and_writer_do_not_touch_the_socket() {
    let mut s = socket(64);
    let mut reader = FrameReader::new();
    reader.accept(&[1, 0, 0, 0, 9]);
    reader.accept(&[9]);
    assert_eq!(reader.status(), FrameStatus::Complete);
    assert_eq!(reader.poll(&mut s), FramePoll::Done);
    let mut refused = FrameReader::new();
    refused.accept(&[0, 0, 0, 1]);
    assert_eq!(refused.poll(&mut s), FramePoll::Failed(TransportError::ProtocolViolation));
    let mut writer = send_framed(&[]);
    writer.advance(4);
    assert_eq!(writer.poll(&mut s), FramePoll::Done);
}

#[test]
fn listener_puts_a_closed_socket_back_to_listening() {
    let mut s = socket(64);
    let mut node = P2PState::from_seed(&[3u8; 32]);
    let mut listener = P2pListener::new();
    assert_eq!(s.state(), tcp::State::Closed);
    assert_eq!(listener.poll(&mut s, &mut node), TaskPoll::Pending);
    assert_eq!(s.state(), tcp::State::Listen);
    // It listens on the overlay's port and on no other.
    assert!(s.listen(P2P_PORT).is_ok());
    assert!(s.listen(P2P_PORT + 1).is_err());
    assert!(!listener.is_busy());
    // A listening socket is left alone.
    assert_eq!(listener.poll(&mut s, &mut node), TaskPoll::Pending);
    assert_eq!(s.state(), tcp::State::Listen);
    assert!(!listener.is_busy());
}

#[test]
fn frame_crosses_a_connection_in_pieces() {
    // Buffers far smaller than the payload force many partial transfers.
    let mut net = Net::new(256);
    net.sockets.get_mut::<tcp::Socket>(net.server).listen(P2P_PORT).unwrap();
    net.connect();
    let payload: Vec<u8> = (0..5000u32).map(|i| (i * 7 + 1) as u8).collect();
    let mut writer = send_framed(&payload);
    let mut reader = recv_framed();
    let mut sent = FramePoll::Pending;
    let mut received = FramePoll::Pending;
    let mut passes = 0;
    while received == FramePoll::Pending {
        net.step();
        if sent == FramePoll::Pending {
            sent = writer.poll(net.sockets.get_mut::<tcp::Socket>(net.client));
        }
        // As the listener does, the reader starts once the peer is there.
        if net.state(net.server) == tcp::State::Established {
            received = reader.poll(net.sockets.get_mut::<tcp::Socket>(net.server));
        }
        passes += 1;
        assert!(passes < 100_000);
    }
    assert_eq!(sent, FramePoll::Done);
    assert_eq!(received, FramePoll::Done);
    assert!(passes > 10);
    assert_eq!(reader.into_payload().unwrap(), payload);
}

#[test]
fn over_long_frame_is_a_protocol_violation() {
    let mut net = Net::new(1024);
    net.sockets.get_mut::<tcp::Socket>(net.server).listen(P2P_PORT).unwrap();
    net.connect();
    let mut reader = recv_framed();
    let mut wrote = false;
    let mut received = FramePoll::Pending;
    let mut passes = 0;
    while received == FramePoll::Pending {
        net.step();
        let client = net.sockets.get_mut::<tcp::Socket>(net.client);
        if !wrote && client.can_send() {
            // The prefix declares one byte more than the limit.
            assert_eq!(client.send_slice(&[1, 0, 0x10, 0, 0xaa, 0xbb]), Ok(6));
            wrote = true;
        }
        if net.state(net.server) == tcp::State::Established {
            received = reader.poll(net.sockets.get_mut::<tcp::Socket>(net.server));
        }
        passes += 1;
        assert!(passes < 100_000);
    }
    assert_eq!(received, FramePoll::Failed(TransportError::ProtocolViolation));
    // The bytes after the prefix were not taken.
    assert_eq!(reader.wanted(), 0);
    assert!(net.sockets.get_mut::<tcp::Socket>(net.server).can_recv());
}

#[test]
fn connection_closed_mid_frame_fails_the_transfer() {
    let mut net = Net::new(1024);
    net.sockets.get_mut::<tcp::Socket>(net.server).listen(P2P_PORT).unwrap();
    net.connect();
    let mut reader = recv_framed();
    let mut wrote = false;
    let mut received = FramePoll::Pending;
    let mut passes = 0;
    while received == FramePoll::Pending {
        net.step();
        let client = net.sockets.get_mut::<tcp::Socket>(net.client);
        if !wrote && client.can_send() {
            // Ten bytes are declared, three are sent, then the peer gives up.
            assert_eq!(client.send_slice(&[10, 0, 0, 0, 1, 2, 3]), Ok(7));
            client.close();
            wrote = true;
        }
        let server = net.sockets.get_mut::<tcp::Socket>(net.server);
        if server.state() != tcp::State::Listen && server.state() != tcp::State::SynReceived {
            received = reader.poll(server);
            if wrote && server.state() == tcp::State::CloseWait && !server.can_recv() {
                // Nothing more will come: give up our side too.
                server.abort();
            }
        }
        passes += 1;
        assert!(passes < 100_000);
    }
    assert_eq!(received, FramePoll::Failed(TransportError::ConnectionClosed));
    assert_eq!(reader.status(), FrameStatus::Incomplete);
    assert_eq!(reader.wanted(), 7);
}

#[test]
fn two_nodes_shake_hands_over_a_connection() {
    let mut net = Net::new(4096);
    let mut node_a = P2PState::from_seed(&[0xa1u8; 32]);
    let node_b = P2PState::from_seed(&[0xb2u8; 32]);
    let mut table_b = RoutingTable::new(node_b.node_id);
    // Node A serves the port; node B connects to it and runs the handshake itself.
    let mut listener = P2pListener::new();
    let mut dialer = Handshake::new(&node_b.peer_id, &node_b.node_id);
    let mut served = false;
    let mut connected = false;
    let mut passes = 0;
    while !(served && dialer.outcome() != HandshakePoll::Pending) {
        net.step();
        assert_eq!(
            listener.poll(net.sockets.get_mut::<tcp::Socket>(net.server), &mut node_a),
            TaskPoll::Pending
        );
        if listener.is_busy() {
            assert!(peers_of(&node_a.routing_table).is_empty());
        } else if !peers_of(&node_a.routing_table).is_empty() {
            served = true;
        }
        if !connected && net.state(net.server) == tcp::State::Listen {
            net.connect();
            connected = true;
        }
        if connected {
            dialer.poll(net.sockets.get_mut::<tcp::Socket>(net.client), &mut table_b);
        }
        passes += 1;
        assert!(passes < 100_000);
    }
    assert_eq!(dialer.outcome(), HandshakePoll::Succeeded);
    assert_eq!(peers_of(&node_a.routing_table), vec![(node_b.node_id, node_b.peer_id.clone())]);
    assert_eq!(peers_of(&table_b), vec![(node_a.node_id, node_a.peer_id.clone())]);
    // The listener has closed its side of the connection.
    let state = net.state(net.server);
    assert!(state != tcp::State::Established && state != tcp::State::CloseWait);
    // The node has kept its identity.
    assert_eq!(node_a.peer_id, P2PState::from_seed(&[0xa1u8; 32]).peer_id);
}

#[test]
fn listener_survives_a_malformed_handshake_and_serves_again() {
    let mut net = Net::new(4096);
    let mut node = P2PState::from_seed(&[0xc3u8; 32]);
    let mut listener = P2pListener::new();
    let mut connected = false;
    let mut wrote = false;
    let mut was_busy = false;
    let mut passes = 0;
    loop {
        net.step();
        listener.poll(net.sockets.get_mut::<tcp::Socket>(net.server), &mut node);
        was_busy = was_busy || listener.is_busy();
        if !connected && net.state(net.server) == tcp::State::Listen {
            net.connect();
            connected = true;
        }
        let client = net.sockets.get_mut::<tcp::Socket>(net.client);
        if connected && !wrote && client.can_send() {
            // A frame of five bytes: no identity fits in that.
            assert_eq!(client.send_slice(&[5, 0, 0, 0, 1, 2, 3, 4, 5]), Ok(9));
            wrote = true;
        }
        if wrote && was_busy && !listener.is_busy() {
            break;
        }
        passes += 1;
        assert!(passes < 100_000);
    }
    assert!(peers_of(&node.routing_table).is_empty());
    // The listener closed the connection; let it run down and listen again.
    net.sockets.get_mut::<tcp::Socket>(net.client).abort();
    let mut passes = 0;
    while net.state(net.server) != tcp::State::Listen {
        net.step();
        listener.poll(net.sockets.get_mut::<tcp::Socket>(net.server), &mut node);
        if net.state(net.server) == tcp::State::LastAck
            || net.state(net.server) == tcp::State::FinWait1
            || net.state(net.server) == tcp::State::FinWait2
            || net.state(net.server) == tcp::State::TimeWait
        {
            net.sockets.get_mut::<tcp::Socket>(net.server).abort();
        }
        passes += 1;
        assert!(passes < 100_000);
    }
    assert!(!listener.is_busy());
}

#[test]
fn handshake_error_kinds_are_distinct() {
    assert_ne!(HandshakeError::ConnectionClosed, HandshakeError::ProtocolViolation);
    let payload = encode_handshake("n", &NodeId::new([1u8; 32]));
    assert_eq!(payload.len(), 37);
}
