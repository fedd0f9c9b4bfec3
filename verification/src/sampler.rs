//! The periodic task that polls the sensor and publishes what it read.
//!
//! One activation runs like this. The task is scheduled again one period
//! after the tick it was scheduled for ([`Sampler::next_activation`]). The
//! sensor is asked whether a measurement waits, and the answer decides
//! whether to read it ([`Sampler::on_data_ready`]). What the read brought is
//! then published, or not ([`Sampler::on_measurement`]).

use crate::instant::Instant;
use crate::messages::Measurement;
use crate::scd30::{Error, SensorData};
use crate::store::MeasurementStore;
use vstd::prelude::*;

verus! {

/// The cycles from one activation to the next: 20 ms.
pub const PERIOD_CYCLES: u32 = 1_280_000;

/// What to do once the sensor has said whether a measurement waits.
#[derive(Clone, Copy, Debug, PartialEq, Eq, Structural)]
pub enum Decision {
    /// A measurement waits: read it.
    Read,
    /// The activation is over.
    Finish(Outcome),
}

/// How an activation ended.
#[derive(Clone, Copy, Debug, PartialEq, Eq, Structural)]
pub enum Outcome {
    /// No measurement was waiting.
    Idle,
    /// A new measurement was published.
    Updated,
    /// The sensor could not be reached, or its response was damaged.
    Errored,
}

/// What the sensor gave during one activation.
pub enum Tick {
    /// The sensor could not be asked whether a measurement waits.
    PollFailed,
    /// No measurement was waiting.
    NotReady,
    /// A measurement was waiting but could not be read.
    ReadFailed,
    /// A measurement was read.
    Sampled { timestamp: u32, co2: u32 },
}

/// The identifier that follows `id`.
pub open spec fn next_id(id: u32) -> u32 {
    if id == u32::MAX {
        0
    } else {
        (id + 1) as u32
    }
}

/// What the sampler has counted and what the store holds.
pub struct Published {
    pub count: u32,
    pub slot: Option<Measurement>,
}

/// What one activation makes of the count and of the store: a measurement
/// that was read is published under the next identifier, and anything else
/// leaves both as they were.
pub open spec fn after_tick(before: Published, tick: Tick) -> Published {
    match tick {
        Tick::Sampled { timestamp, co2 } => Published {
            count: next_id(before.count),
            slot: Some(Measurement { id: next_id(before.count), timestamp, co2 }),
        },
        _ => before,
    }
}

/// What a run of activations makes of the count and of the store.
pub open spec fn after_ticks(before: Published, ticks: Seq<Tick>) -> Published
    decreases ticks.len(),
{
    if ticks.len() == 0 {
        before
    } else {
        after_tick(after_ticks(before, ticks.drop_last()), ticks.last())
    }
}

/// How many activations of a run read a measurement.
pub open spec fn successes(ticks: Seq<Tick>) -> nat
    decreases ticks.len(),
{
    if ticks.len() == 0 {
        0
    } else {
        successes(ticks.drop_last()) + if ticks.last() is Sampled {
            1nat
        } else {
            0nat
        }
    }
}

/// The activation that read `reading` at `timestamp`.
pub open spec fn tick_of<E>(timestamp: Instant, reading: Result<SensorData, Error<E>>) -> Tick {
    match reading {
        Ok(data) => Tick::Sampled { timestamp: timestamp.cycles(), co2: data.co2 },
        Err(_) => Tick::ReadFailed,
    }
}

/// The sampling task's own state: how many measurements it has published.
#[derive(Debug)]
pub struct Sampler {
    count: u32,
}

impl Sampler {
    /// How many measurements have been published, modulo 2^32. This is also
    /// the identifier of the latest one.
    pub closed spec fn count(&self) -> u32 {
        self.count
    }

    /// A sampler that has published nothing.
    pub fn new() -> (sampler: Self)
        ensures
            sampler.count() == 0,
    {
        Sampler { count: 0 }
    }

    /// When to run next: one period after the tick that the present
    /// activation was scheduled for, whenever it actually started.
    pub fn next_activation(scheduled: Instant) -> (next: Instant)
        ensures
            next.cycles() == (scheduled.cycles() + PERIOD_CYCLES) % 0x1_0000_0000,
    {
        Instant::from_cycles(scheduled.as_cycles().wrapping_add(PERIOD_CYCLES))
    }

    /// Decides what follows the sensor's answer to "is a measurement
    /// waiting?": read it if so, and end the activation otherwise.
    pub fn on_data_ready<E>(poll: &Result<bool, Error<E>>) -> (decision: Decision)
        ensures
            decision == match *poll {
                Ok(true) => Decision::Read,
                Ok(false) => Decision::Finish(Outcome::Idle),
                Err(_) => Decision::Finish(Outcome::Errored),
            },
    {
        match poll {
            Ok(true) => Decision::Read,
            Ok(false) => Decision::Finish(Outcome::Idle),
            Err(_) => Decision::Finish(Outcome::Errored),
        }
    }

    /// Ends an activation that read the sensor at `timestamp`. A reading is
    /// published under the identifier that follows the last one; a failure
    /// changes neither the count nor the store.
    pub fn on_measurement<E>(
        &mut self,
        store: &mut MeasurementStore,
        timestamp: Instant,
        reading: &Result<SensorData, Error<E>>,
    ) -> (outcome: Outcome)
        ensures
            (Published { count: final(self).count(), slot: final(store)@ }) == after_tick(
                Published { count: old(self).count(), slot: old(store)@ },
                tick_of(timestamp, *reading),
            ),
            outcome == if *reading is Ok {
                Outcome::Updated
            } else {
                Outcome::Errored
            },
    {
        match reading {
            Ok(data) => {
                self.count = self.count.wrapping_add(1);
                store.write(
                    Measurement { id: self.count, timestamp: timestamp.as_cycles(), co2: data.co2 },
                );
                Outcome::Updated
            },
            Err(_) => Outcome::Errored,
        }
    }
}

/// Over any run of activations, the count goes up by one, modulo 2^32, for
/// each activation that read a measurement and for no other. A run without
/// such an activation leaves the store as it was; after any other run the
/// store holds a measurement whose identifier is the count.
pub proof fn lemma_ids_follow_successes(before: Published, ticks: Seq<Tick>)
    ensures
        after_ticks(before, ticks).count == (before.count + successes(ticks)) % 0x1_0000_0000,
        successes(ticks) == 0 ==> after_ticks(before, ticks).slot == before.slot,
        successes(ticks) > 0 ==> after_ticks(before, ticks).slot is Some && after_ticks(
            before,
            ticks,
        ).slot.unwrap().id == after_ticks(before, ticks).count,
    decreases ticks.len(),
{
    if ticks.len() > 0 {
        lemma_ids_follow_successes(before, ticks.drop_last());
    }
}

/// An activation that read a measurement publishes it under the identifier
/// that follows the count, whatever the store held; any other activation
/// writes nothing.
pub proof fn lemma_tick_publishes_next_id(before: Published, tick: Tick)
    ensures
        tick is Sampled ==> after_tick(before, tick).slot is Some && after_tick(
            before,
            tick,
        ).slot.unwrap().id == (before.count + 1) % 0x1_0000_0000 && after_tick(before, tick).count
            == (before.count + 1) % 0x1_0000_0000,
        !(tick is Sampled) ==> after_tick(before, tick) == before,
{
}

} // verus!
