//! The messages that host and target exchange.

use vstd::prelude::*;

verus! {

/// A message sent from the host to the target.
#[derive(Clone, Copy, Debug, PartialEq, Eq, Structural)]
pub enum Host2Target {
    /// Asks for the latest measurement.
    GetLastMeasurement,
}

/// A message sent from the target to the host.
#[derive(Clone, Copy, Debug, PartialEq, Eq, Structural)]
pub enum Target2Host {
    /// No measurement has been taken yet.
    NotReady,
    /// The latest measurement.
    Measurement(Measurement),
}

/// A measurement reported by the target.
#[derive(Clone, Copy, Debug, PartialEq, Eq, Structural)]
pub struct Measurement {
    /// The measurement identifier: a counter that goes up by one with every
    /// measurement and wraps around.
    pub id: u32,
    /// When the measurement was taken, in cycles of a counter that wraps
    /// around.
    pub timestamp: u32,
    /// The CO2 concentration in parts per million, as the bits of an IEEE-754
    /// single-precision number.
    pub co2: u32,
}

} // verus!
