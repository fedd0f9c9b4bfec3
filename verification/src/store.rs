//! The one place where the latest measurement is kept.

use crate::messages::Measurement;
use vstd::prelude::*;

verus! {

/// A single slot that holds the latest measurement, or nothing before the
/// first one. Writing replaces what was there; reading copies it out whole.
#[derive(Clone, Copy, Debug)]
pub struct MeasurementStore {
    slot: Option<Measurement>,
}

impl View for MeasurementStore {
    type V = Option<Measurement>;

    closed spec fn view(&self) -> Option<Measurement> {
        self.slot
    }
}

impl MeasurementStore {
    /// A store that holds nothing yet.
    pub fn new() -> (store: Self)
        ensures
            store@ is None,
    {
        MeasurementStore { slot: None }
    }

    /// Replaces whatever the store holds by `measurement`.
    pub fn write(&mut self, measurement: Measurement)
        ensures
            final(self)@ == Some(measurement),
    {
        self.slot = Some(measurement);
    }

    /// A copy of what the store holds.
    pub fn read_snapshot(&self) -> (snapshot: Option<Measurement>)
        ensures
            snapshot == self@,
    {
        self.slot
    }
}

} // verus!
