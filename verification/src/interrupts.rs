//! The timer: the count of its ticks and the setting of its frequency.

use vstd::prelude::*;

verus! {

/// Frequency of the interval timer's input clock, in Hz.
pub const PIT_FREQUENCY: u32 = 1193182;

/// The number of timer ticks since the counter was made.
pub struct TickCounter {
    ticks: u64,
}

impl TickCounter {
    /// The count.
    pub closed spec fn count(&self) -> u64 {
        self.ticks
    }

    /// A counter at zero.
    pub fn new() -> (counter: Self)
        ensures
            counter.count() == 0,
    {
        TickCounter { ticks: 0 }
    }

    /// Counts one tick; after the largest count comes zero.
    pub fn tick(&mut self)
        ensures
            final(self).count() == if old(self).count() == u64::MAX {
                0
            } else {
                (old(self).count() + 1) as u64
            },
    {
        self.ticks = self.ticks.wrapping_add(1);
    }
}

/// The number of ticks counted so far.
pub fn get_ticks(counter: &TickCounter) -> (ticks: u64)
    ensures
        ticks == counter.count(),
{
    counter.ticks
}

/// The two bytes, low then high, that set the interval timer to `freq_hz`
/// ticks per second: the low 16 bits of the input clock divided by the
/// frequency.
pub fn pit_divisor_bytes(freq_hz: u32) -> (bytes: (u8, u8))
    requires
        freq_hz > 0,
    ensures
        bytes.0 == (PIT_FREQUENCY / freq_hz) % 256,
        bytes.1 == ((PIT_FREQUENCY / freq_hz) / 256) % 256,
{
    let divisor = PIT_FREQUENCY / freq_hz;
    ((divisor % 256) as u8, ((divisor / 256) % 256) as u8)
}

/// The time in milliseconds that the network stack is told after `ticks`
/// ticks: ten for every full hundred.
pub fn ticks_to_millis(ticks: u64) -> (millis: u64)
    ensures
        millis == (ticks / 100) * 10,
{
    (ticks / 100) * 10
}

} // verus!
