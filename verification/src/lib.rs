//! Networking and concurrency core of a bare-metal capability kernel:
//! a cooperative task executor, a packet-buffer pipeline shared with a
//! hardware network queue, and a Kademlia-style peer-to-peer overlay with a
//! length-framed handshake.

pub mod executor;
pub mod hal;
pub mod interrupts;
pub mod ipc;
pub mod memory;
pub mod net_interface;
pub mod net_stack;
pub mod network;
pub mod p2p;
pub mod p2p_kademlia;
pub mod p2p_transport;
pub mod qemu;
pub mod random;
pub mod wasm_runtime;
