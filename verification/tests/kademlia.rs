use kernel_net::p2p_kademlia::{
    to_hex_digit, KBucket, NodeId, PeerInfo, RoutingTable, BUCKET_COUNT, ID_SIZE, K_BUCKET_SIZE,
};

fn id_with(first: u8, last: u8) -> NodeId {
    let mut bytes = [0u8; 32];
    bytes[0] = first;
    bytes[31] = last;
    NodeId::new(bytes)
}

fn id_from(seed: u64) -> NodeId {
    // A fixed scramble, so that the identifiers spread over the buckets.
    let mut bytes = [0u8; 32];
    let mut x = seed.wrapping_mul(0x9E37_79B9_7F4A_7C15).wrapping_add(0x1234_5678_9ABC_DEF1);
    for b in bytes.iter_mut() {
        x ^= x << 13;
        x ^= x >> 7;
        x ^= x << 17;
        *b = (x >> 24) as u8;
    }
    NodeId::new(bytes)
}

fn peer(first: u8, last: u8, name: &str) -> PeerInfo {
    PeerInfo { node_id: id_with(first, last), peer_id_str: name.to_string() }
}

fn hex(id: &NodeId) -> String {
    id.0.iter().map(|b| format!("{:02x}", b)).collect()
}

#[test]
fn constants_are_those_of_the_overlay() {
    assert_eq!(K_BUCKET_SIZE, 20);
    assert_eq!(ID_SIZE, 32);
    assert_eq!(BUCKET_COUNT, 256);
}

#[test]
fn new_keeps_the_bytes() {
    let mut bytes = [0u8; 32];
    for (i, b) in bytes.iter_mut().enumerate() {
        *b = i as u8;
    }
    assert_eq!(NodeId::new(bytes).0, bytes);
}

#[test]
fn from_data_is_the_sha256_digest() {
    assert_eq!(
        hex(&NodeId::from_data(b"abc")),
        "ba7816bf8f01cfea414140de5dae2223b00361a396177a9cb410ff61f20015ad"
    );
    assert_eq!(
        hex(&NodeId::from_data(b"")),
        "e3b0c44298fc1c149afbf4c8996fb92427ae41e4649b934ca495991b7852b855"
    );
}

#[test]
fn distance_is_bytewise_xor() {
    let a = id_with(0b1010_0000, 0x0f);
    let b = id_with(0b0110_0000, 0xf0);
    let d = a.distance(&b);
    assert_eq!(d.0[0], 0b1100_0000);
    assert_eq!(d.0[31], 0xff);
    assert_eq!(d.0[1], 0);
}

#[test]
fn distance_is_symmetric() {
    for s in 0..50u64 {
        let a = id_from(s);
        let b = id_from(s + 1000);
        assert_eq!(a.distance(&b), b.distance(&a));
    }
}

#[test]
fn distance_to_self_is_zero() {
    for s in 0..50u64 {
        let a = id_from(s);
        assert_eq!(a.distance(&a).0, [0u8; 32]);
        assert!(a.distance(&a).is_zero());
    }
}

#[test]
fn leading_zeros_counts_bits_before_the_first_set_bit() {
    assert_eq!(NodeId::new([0u8; 32]).leading_zeros(), 256);
    assert_eq!(id_with(0x80, 0).leading_zeros(), 0);
    assert_eq!(id_with(0x01, 0).leading_zeros(), 7);
    assert_eq!(id_with(0, 0x01).leading_zeros(), 255);
    assert_eq!(id_with(0, 0x10).leading_zeros(), 251);
    let mut bytes = [0u8; 32];
    bytes[3] = 0x20;
    bytes[9] = 0xff;
    assert_eq!(NodeId::new(bytes).leading_zeros(), 26);
}

#[test]
fn equality_and_order_go_by_the_bytes() {
    assert!(id_with(1, 2).same(&id_with(1, 2)));
    assert!(!id_with(1, 2).same(&id_with(1, 3)));
    assert!(id_with(1, 2) == id_with(1, 2));
    assert!(id_with(1, 2) != id_with(2, 2));
    assert!(id_with(1, 9).less_than(&id_with(2, 0)));
    assert!(!id_with(2, 0).less_than(&id_with(1, 9)));
    assert!(id_with(1, 2).less_than(&id_with(1, 3)));
    assert!(!id_with(1, 2).less_than(&id_with(1, 2)));
    assert!(id_with(1, 2) < id_with(1, 3));
}

#[test]
fn is_zero_only_for_all_zero_bytes() {
    assert!(NodeId::new([0u8; 32]).is_zero());
    assert!(!id_with(0, 1).is_zero());
    assert!(!id_with(1, 0).is_zero());
}

#[test]
fn bucket_takes_up_to_twenty_peers_in_order() {
    let mut bucket = KBucket::new();
    assert!(bucket.peers.is_empty());
    for i in 0..20u8 {
        assert!(bucket.add(peer(1, i, "p")));
        assert_eq!(bucket.peers.len(), i as usize + 1);
    }
    for i in 0..20u8 {
        assert_eq!(bucket.peers[i as usize].node_id, id_with(1, i));
    }
}

#[test]
fn bucket_rejects_the_twenty_first_peer() {
    let mut bucket = KBucket::new();
    for i in 0..20u8 {
        assert!(bucket.add(peer(1, i, "p")));
    }
    assert!(!bucket.add(peer(1, 20, "late")));
    assert_eq!(bucket.peers.len(), 20);
    for i in 0..20u8 {
        assert_eq!(bucket.peers[i as usize].node_id, id_with(1, i));
        assert_eq!(bucket.peers[i as usize].peer_id_str, "p");
    }
}

#[test]
fn bucket_moves_a_known_peer_to_the_tail() {
    let mut bucket = KBucket::new();
    assert!(bucket.add(peer(1, 0, "a")));
    assert!(bucket.add(peer(1, 1, "b")));
    assert!(bucket.add(peer(1, 2, "c")));
    assert!(bucket.add(peer(1, 0, "a again")));
    let ids: Vec<u8> = bucket.peers.iter().map(|p| p.node_id.0[31]).collect();
    assert_eq!(ids, vec![1, 2, 0]);
    assert_eq!(bucket.peers[2].peer_id_str, "a again");
}

#[test]
fn full_bucket_still_refreshes_a_known_peer() {
    let mut bucket = KBucket::new();
    for i in 0..20u8 {
        assert!(bucket.add(peer(1, i, "p")));
    }
    assert!(bucket.add(peer(1, 5, "fresh")));
    assert_eq!(bucket.peers.len(), 20);
    assert_eq!(bucket.peers[19].node_id, id_with(1, 5));
    assert_eq!(bucket.peers[19].peer_id_str, "fresh");
    assert_eq!(bucket.peers[5].node_id, id_with(1, 6));
}

#[test]
fn table_starts_with_256_empty_buckets() {
    let table = RoutingTable::new(id_with(0, 0));
    assert_eq!(table.local_id, id_with(0, 0));
    assert_eq!(table.buckets.len(), 256);
    assert!(table.buckets.iter().all(|b| b.peers.is_empty()));
}

#[test]
fn bucket_index_is_the_number_of_leading_zero_bits() {
    let table = RoutingTable::new(id_with(0, 0));
    assert_eq!(table.get_bucket_index(&id_with(0x80, 0)), 0);
    assert_eq!(table.get_bucket_index(&id_with(0x40, 0)), 1);
    assert_eq!(table.get_bucket_index(&id_with(0x01, 0)), 7);
    assert_eq!(table.get_bucket_index(&id_with(0, 0x01)), 255);
    assert_eq!(table.get_bucket_index(&id_with(0, 0x80)), 248);
}

#[test]
fn zero_distance_goes_to_the_first_bucket() {
    let table = RoutingTable::new(id_with(3, 4));
    assert_eq!(table.get_bucket_index(&NodeId::new([0u8; 32])), 0);
}

#[test]
fn equal_leading_zeros_select_the_same_bucket() {
    let table = RoutingTable::new(id_with(0, 0));
    for s in 0..200u64 {
        let a = id_from(s);
        let mut bytes = a.0;
        // Changing bits after the first set bit keeps the count.
        bytes[31] ^= 0x5a;
        bytes[20] ^= 0xff;
        let b = NodeId::new(bytes);
        if a.leading_zeros() == b.leading_zeros() {
            assert_eq!(table.get_bucket_index(&a), table.get_bucket_index(&b));
        }
    }
    assert_eq!(
        table.get_bucket_index(&id_with(0x10, 0xff)),
        table.get_bucket_index(&id_with(0x1f, 0x00))
    );
}

#[test]
fn add_peer_files_by_distance_to_the_local_id() {
    let local = id_with(0xf0, 0);
    let mut table = RoutingTable::new(local);
    table.add_peer(peer(0x70, 0, "far"));
    table.add_peer(peer(0xf0, 1, "near"));
    table.add_peer(peer(0xf1, 0, "mid"));
    assert_eq!(table.buckets[0].peers.len(), 1);
    assert_eq!(table.buckets[0].peers[0].peer_id_str, "far");
    assert_eq!(table.buckets[255].peers.len(), 1);
    assert_eq!(table.buckets[255].peers[0].peer_id_str, "near");
    assert_eq!(table.buckets[7].peers.len(), 1);
    assert_eq!(table.buckets[7].peers[0].peer_id_str, "mid");
    let total: usize = table.buckets.iter().map(|b| b.peers.len()).sum();
    assert_eq!(total, 3);
}

#[test]
fn add_peer_drops_the_twenty_first_peer_of_a_bucket() {
    let mut table = RoutingTable::new(NodeId::new([0u8; 32]));
    for i in 0..21u8 {
        // All at distance 0x80.. from the local id: bucket 0.
        table.add_peer(peer(0x80, i, "p"));
    }
    assert_eq!(table.buckets[0].peers.len(), 20);
    for i in 0..20u8 {
        assert_eq!(table.buckets[0].peers[i as usize].node_id, id_with(0x80, i));
    }
}

#[test]
fn find_closest_sorts_by_distance_and_truncates() {
    let mut table = RoutingTable::new(NodeId::new([0u8; 32]));
    for s in 0..60u64 {
        table.add_peer(PeerInfo { node_id: id_from(s), peer_id_str: format!("peer{}", s) });
    }
    let target = id_from(777);
    let closest = table.find_closest(&target, 10);
    assert_eq!(closest.len(), 10);
    for pair in closest.windows(2) {
        let d0 = pair[0].node_id.distance(&target);
        let d1 = pair[1].node_id.distance(&target);
        assert!(d0 < d1);
        assert!(d0.less_than(&d1));
    }
    // No peer outside the result is nearer than the farthest inside it.
    let farthest = closest[9].node_id.distance(&target);
    let mut stored = 0;
    for bucket in &table.buckets {
        for p in &bucket.peers {
            stored += 1;
            let inside = closest.iter().any(|c| c.node_id == p.node_id);
            if !inside {
                assert!(farthest.less_than(&p.node_id.distance(&target)));
            }
        }
    }
    assert!(stored >= 10);
    // The names travel with the identifiers.
    for c in &closest {
        let s: u64 = c.peer_id_str[4..].parse().unwrap();
        assert_eq!(c.node_id, id_from(s));
    }
}

#[test]
fn find_closest_returns_all_when_fewer_are_known() {
    let mut table = RoutingTable::new(NodeId::new([0u8; 32]));
    table.add_peer(peer(0x80, 1, "a"));
    table.add_peer(peer(0x40, 2, "b"));
    table.add_peer(peer(0x20, 3, "c"));
    let target = id_with(0x40, 0);
    let closest = table.find_closest(&target, 10);
    let names: Vec<&str> = closest.iter().map(|p| p.peer_id_str.as_str()).collect();
    // Distances: b = 00..02, c = 60..03, a = c0..01.
    assert_eq!(names, vec!["b", "c", "a"]);
    assert!(table.find_closest(&target, 0).is_empty());
    assert_eq!(table.find_closest(&target, 1)[0].peer_id_str, "b");
    assert!(RoutingTable::new(id_with(1, 1)).find_closest(&target, 5).is_empty());
}

#[test]
fn duplicate_copies_both_fields() {
    let p = peer(9, 8, "nine");
    let q = p.duplicate();
    assert_eq!(q.node_id, p.node_id);
    assert_eq!(q.peer_id_str, "nine");
}

#[test]
fn hex_prefix_spells_the_first_four_bytes() {
    let mut bytes = [0u8; 32];
    bytes[..5].copy_from_slice(&[0x00, 0x9a, 0xf1, 0x0b, 0xff]);
    assert_eq!(&NodeId::new(bytes).hex_prefix(), b"009af10b");
    assert_eq!(&NodeId::new([0xff; 32]).hex_prefix(), b"ffffffff");
}

#[test]
fn hex_digits_are_lower_case() {
    let digits: Vec<u8> = (0..16).map(to_hex_digit).collect();
    assert_eq!(digits, b"0123456789abcdef");
}
