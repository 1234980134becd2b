use kernel_net::executor::Executor;
use kernel_net::p2p::{
    encode_identity, init, yield_now, P2PState, IDENTITY_SIZE, PUBLIC_KEY_SIZE, SEED_SIZE,
};
use kernel_net::p2p_kademlia::NodeId;

fn hex(bytes: &[u8]) -> String {
    bytes.iter().map(|b| format!("{:02x}", b)).collect()
}

fn unhex(text: &str) -> Vec<u8> {
    (0..text.len()).step_by(2).map(|i| u8::from_str_radix(&text[i..i + 2], 16).unwrap()).collect()
}

#[test]
fn identity_blob_tags_the_public_key() {
    let mut key = [0u8; PUBLIC_KEY_SIZE];
    for (i, b) in key.iter_mut().enumerate() {
        *b = 0xa0 + i as u8;
    }
    let blob = encode_identity(&key);
    assert_eq!(blob.len(), IDENTITY_SIZE);
    assert_eq!(&blob[..6], &[0x00, 36, 0x08, 0x01, 0x12, 0x20]);
    assert_eq!(&blob[6..], &key);
}

#[test]
fn identity_of_a_known_seed() {
    // The first test vector of RFC 8032.
    let seed: [u8; SEED_SIZE] =
        unhex("9d61b19deffd5a60ba844af492ec2cc44449c5697b326919703bac031cae7f60")
            .try_into()
            .unwrap();
    let state = P2PState::from_seed(&seed);
    assert_eq!(state.peer_id, "12D3KooWQK1wnefoLrcVHbbnf5tLzbopUd3K3bFAoJpA7YJgL5pV");
    assert_eq!(
        hex(&state.node_id.0),
        "06567cf09231b70576326a32e0f6c2fa5dc6004222b79b851ae39d426f83409e"
    );
    assert_eq!(state.routing_table.local_id, state.node_id);
    assert_eq!(state.routing_table.buckets.len(), 256);
    assert!(state.routing_table.buckets.iter().all(|b| b.peers.is_empty()));
}

#[test]
fn identity_of_a_known_public_key() {
    let key: [u8; PUBLIC_KEY_SIZE] =
        unhex("d75a980182b10ab7d54bfed3c964073a0ee172f3daa62325af021a68f707511a")
            .try_into()
            .unwrap();
    let state = P2PState::from_public_key(&key);
    assert_eq!(state.peer_id, "12D3KooWQK1wnefoLrcVHbbnf5tLzbopUd3K3bFAoJpA7YJgL5pV");
    let zero = P2PState::from_public_key(&[0u8; PUBLIC_KEY_SIZE]);
    assert_eq!(zero.peer_id, "12D3KooW9pNAk8aiBuGVQtWRdbkLmo5qVL3e2h5UxbN2Nz9ttwiw");
    assert_eq!(
        hex(&zero.node_id.0),
        "b95c291961b7a0e273f55eb177dcb70ecb94ddcb59f6c1dbabf39d0ac1ae6a4c"
    );
}

#[test]
fn identity_is_a_function_of_the_seed() {
    let a = P2PState::from_seed(&[7u8; SEED_SIZE]);
    let b = P2PState::from_seed(&[7u8; SEED_SIZE]);
    let c = P2PState::from_seed(&[8u8; SEED_SIZE]);
    assert_eq!(a.peer_id, b.peer_id);
    assert_eq!(a.node_id, b.node_id);
    assert_ne!(a.peer_id, c.peer_id);
    assert_ne!(a.node_id, c.node_id);
}

#[test]
fn init_makes_an_identity_and_queues_the_listener() {
    let mut executor = Executor::new();
    let state = match init(&mut executor, yield_now()) {
        Ok(state) => state,
        Err(_) => panic!("the random number source failed"),
    };
    assert_eq!(executor.len(), 1);
    // The name is the base-58 text of the identity, and the identifier its hash.
    let blob = bs58::decode(&state.peer_id).into_vec().unwrap();
    assert_eq!(blob.len(), IDENTITY_SIZE);
    assert_eq!(&blob[..6], &[0x00, 36, 0x08, 0x01, 0x12, 0x20]);
    assert_eq!(state.node_id, NodeId::from_data(&blob));
    assert_eq!(state.routing_table.local_id, state.node_id);
    // Two nodes do not draw the same seed.
    let other = init(&mut executor, yield_now()).ok().unwrap();
    assert_eq!(executor.len(), 2);
    assert_ne!(other.node_id, state.node_id);
}
