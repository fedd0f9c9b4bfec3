//! Points in time read from a free-running 32-bit cycle counter.

use vstd::prelude::*;

verus! {

/// How many cycles the counter advances in one microsecond.
pub const CYCCNT_FREQUENCY_MHZ: u32 = 64;

/// The cycles that pass from the reading `then` to the reading `now` of a
/// counter that wraps around at 2^32.
pub open spec fn cycles_between(then: u32, now: u32) -> int {
    if now >= then {
        now - then
    } else {
        now - then + 0x1_0000_0000
    }
}

/// A reading of the cycle counter. The counter wraps around, so two readings
/// say nothing by their order, only by their difference.
#[derive(Clone, Copy, Debug, PartialEq, Eq)]
pub struct Instant(u32);

impl Instant {
    /// The counter value that this instant holds.
    pub closed spec fn cycles(self) -> u32 {
        self.0
    }

    /// The instant at which the counter read `cycles`.
    pub fn from_cycles(cycles: u32) -> (instant: Self)
        ensures
            instant.cycles() == cycles,
    {
        Instant(cycles)
    }

    /// The whole microseconds that have passed at `now` since this instant.
    pub fn elapsed(&self, now: Instant) -> (micros: u64)
        ensures
            micros == cycles_between(self.cycles(), now.cycles()) / (CYCCNT_FREQUENCY_MHZ as int),
    {
        let elapsed: u32 = now.0.wrapping_sub(self.0);
        let micros: u32 = elapsed / CYCCNT_FREQUENCY_MHZ;
        micros as u64
    }

    /// The counter value that this instant holds.
    pub fn as_cycles(self) -> (cycles: u32)
        ensures
            cycles == self.cycles(),
    {
        self.0
    }
}

} // verus!
