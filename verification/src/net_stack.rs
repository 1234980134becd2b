//! The services that the kernel runs on its network interface beside the
//! overlay: what they listen on, and when they act.

use vstd::prelude::*;

verus! {

/// The port of the service that sends each datagram back.
pub const UDP_ECHO_PORT: u16 = 6969;

/// The port of the service that sends the bytes of a connection back.
pub const TCP_ECHO_PORT: u16 = 80;

/// The port of the gateway to which the heartbeat goes.
pub const HEARTBEAT_PORT: u16 = 12345;

/// The least time between two heartbeats, in milliseconds.
pub const HEARTBEAT_INTERVAL_MS: u64 = 5000;

/// The address that the interface has while no other is assigned to it.
pub const FALLBACK_ADDRESS: [u8; 4] = [10, 0, 2, 15];

/// The number of leading bits of the fallback address that name its
/// network.
pub const FALLBACK_PREFIX_LEN: u8 = 24;

/// The gateway that goes with the fallback address.
pub const FALLBACK_GATEWAY: [u8; 4] = [10, 0, 2, 2];

/// Whether a heartbeat is due at time `now_ms` when the last one went out
/// at `last_ms`: more than the interval has passed since.
pub fn heartbeat_due(now_ms: u64, last_ms: u64) -> (due: bool)
    ensures
        due == (now_ms - last_ms > HEARTBEAT_INTERVAL_MS),
{
    now_ms > last_ms && now_ms - last_ms > HEARTBEAT_INTERVAL_MS
}

/// What the echo service does about its connection.
#[derive(Clone, Copy, Debug, PartialEq, Eq, Structural)]
pub enum EchoAction {
    /// Read what has arrived and send it back.
    Serve,
    /// Listen for the next connection.
    Listen,
    /// Nothing to do.
    Wait,
}

/// Decides what the echo service does: it serves a connection that may
/// still deliver bytes, listens again once the connection is closed, and
/// else waits.
pub fn echo_action(may_recv: bool, closed: bool) -> (action: EchoAction)
    ensures
        action == if may_recv {
            EchoAction::Serve
        } else if closed {
            EchoAction::Listen
        } else {
            EchoAction::Wait
        },
{
    if may_recv {
        EchoAction::Serve
    } else if closed {
        EchoAction::Listen
    } else {
        EchoAction::Wait
    }
}

} // verus!
