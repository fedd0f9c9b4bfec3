use co2_monitor::codec::{decode_response, encode_request, encode_response, DecodeError};
use co2_monitor::compute_crc;
use co2_monitor::instant::Instant;
use co2_monitor::messages::{Host2Target, Measurement, Target2Host};
use co2_monitor::sampler::{Decision, Outcome, Sampler, PERIOD_CYCLES};
use co2_monitor::scd30::{Error, Scd30, SensorData};
use co2_monitor::server::{respond, CommandServer, Reaction, RX_CAPACITY};
use co2_monitor::store::MeasurementStore;

/// The sensor's own update interval, in milliseconds.
const SENSOR_INTERVAL_MS: u64 = 2_000;

/// Cycles of the counter per millisecond.
const CYCLES_PER_MS: u64 = 64_000;

/// A sensor that has a new reading every two seconds.
struct Sensor {
    ready_at_ms: u64,
    co2: f32,
}

impl Sensor {
    fn data_ready(&self, now_ms: u64) -> [u8; 2] {
        [0, (now_ms >= self.ready_at_ms) as u8]
    }

    fn read_measurement(&mut self) -> [u8; 18] {
        self.ready_at_ms += SENSOR_INTERVAL_MS;
        let mut response = [0u8; 18];
        let mut at = 0;
        for value in [self.co2, 21.0, 45.0] {
            let bytes = value.to_bits().to_be_bytes();
            for half in [[bytes[0], bytes[1]], [bytes[2], bytes[3]]] {
                response[at] = half[0];
                response[at + 1] = half[1];
                response[at + 2] = compute_crc(&half);
                at += 3;
            }
        }
        response
    }
}

/// The target: sensor, sampling task, store and command server, run by hand.
struct Target {
    now_ms: u64,
    scheduled: Instant,
    sensor: Sensor,
    sampler: Sampler,
    store: MeasurementStore,
    server: CommandServer,
}

impl Target {
    fn boot() -> Self {
        Target {
            now_ms: 0,
            scheduled: Instant::from_cycles(0),
            sensor: Sensor {
                ready_at_ms: SENSOR_INTERVAL_MS,
                co2: 415.2,
            },
            sampler: Sampler::new(),
            store: MeasurementStore::new(),
            server: CommandServer::new(),
        }
    }

    /// One activation of the sampling task.
    fn activate(&mut self) -> Outcome {
        self.scheduled = Sampler::next_activation(self.scheduled);
        let poll = Scd30::data_ready::<()>(Ok(self.sensor.data_ready(self.now_ms)));
        let timestamp = Instant::from_cycles((self.now_ms * CYCLES_PER_MS) as u32);
        match Sampler::on_data_ready(&poll) {
            Decision::Finish(outcome) => outcome,
            Decision::Read => {
                let reading = Scd30::read_measurement::<()>(Ok(self.sensor.read_measurement()));
                self.sampler
                    .on_measurement(&mut self.store, timestamp, &reading)
            }
        }
    }

    /// Lets `ms` milliseconds pass, with the sampling task running every
    /// period.
    fn sleep(&mut self, ms: u64) {
        let period_ms = PERIOD_CYCLES as u64 / CYCLES_PER_MS;
        let until = self.now_ms + ms;
        let mut next = (self.now_ms / period_ms + 1) * period_ms;
        while next <= until {
            self.now_ms = next;
            self.activate();
            next += period_ms;
        }
        self.now_ms = until;
    }

    /// Sends `bytes` down the serial line and collects what comes back.
    fn send(&mut self, bytes: &[u8]) -> Vec<u8> {
        let mut sent = Vec::new();
        for byte in bytes {
            if let Reaction::Reply(frame) = self.server.feed(*byte, &self.store) {
                sent.extend_from_slice(frame.as_slice());
            }
        }
        sent
    }

    fn request(&mut self, request: &Host2Target) -> Result<Target2Host, DecodeError> {
        let tx_bytes = encode_request(request);
        let rx_bytes = self.send(tx_bytes.as_slice());
        decode_response(&rx_bytes)
    }

    fn get_measurement(&mut self) -> Result<Option<Measurement>, DecodeError> {
        let resp = self.request(&Host2Target::GetLastMeasurement)?;

        Ok(match resp {
            Target2Host::NotReady => None,
            Target2Host::Measurement(measurement) => Some(measurement),
        })
    }
}

#[test]
fn get_measurement_succeeds() {
    let mut target = Target::boot();
    target.get_measurement().unwrap();
}

#[test]
fn new_measurement_every_2_seconds() {
    let mut target = Target::boot();

    let mut samples = Vec::new();
    for _ in 0..3 {
        target.sleep(2_100);
        samples.push(target.get_measurement().unwrap().unwrap());
    }

    for pair in samples.windows(2) {
        // all samples should be different
        assert_ne!(pair[0], pair[1]);
        // new measurements should have contiguous IDs
        assert_eq!(pair[0].id.wrapping_add(1), pair[1].id);
        // timestamps should be different
        // (the timestamp can wrap around so we don't use `>=`)
        assert_ne!(pair[0].timestamp, pair[1].timestamp);
    }
}

#[test]
fn consecutive_sampling_returns_same_measurement() {
    let mut target = Target::boot();
    target.sleep(1_990);

    // sample faster than the SCD30 update rate
    let first = target.get_measurement().unwrap();
    target.sleep(10);
    let second = target.get_measurement().unwrap();
    target.sleep(10);
    let third = target.get_measurement().unwrap();

    // at most one new measurement can occur; 2 samples should be the same measurement
    if first != second {
        assert_eq!(second, third);
    }

    if second != third {
        assert_eq!(first, second);
    }

    assert_eq!(first, None);
    assert_eq!(second.unwrap().id, 1);
}

#[test]
fn query_before_the_first_sample_is_not_ready() {
    let mut target = Target::boot();
    assert_eq!(
        target.request(&Host2Target::GetLastMeasurement),
        Ok(Target2Host::NotReady)
    );
    target.sleep(1_000);
    assert_eq!(
        target.request(&Host2Target::GetLastMeasurement),
        Ok(Target2Host::NotReady)
    );
    assert_eq!(target.store.read_snapshot(), None);
}

#[test]
fn query_after_one_sample_returns_it() {
    let mut sampler = Sampler::new();
    let mut store = MeasurementStore::new();
    let mut server = CommandServer::new();
    let timestamp = 0x00C0_FFEE;
    let reading: Result<SensorData, Error<()>> = Ok(SensorData {
        co2: 415.2f32.to_bits(),
        temperature: 20.0f32.to_bits(),
        humidity: 50.0f32.to_bits(),
    });
    assert_eq!(
        sampler.on_measurement(&mut store, Instant::from_cycles(timestamp), &reading),
        Outcome::Updated
    );

    let mut sent = Vec::new();
    for byte in encode_request(&Host2Target::GetLastMeasurement).as_slice() {
        if let Reaction::Reply(frame) = server.feed(*byte, &store) {
            sent.extend_from_slice(frame.as_slice());
        }
    }
    let response = decode_response(&sent).unwrap();
    match response {
        Target2Host::Measurement(m) => {
            assert_eq!(m.id, 1);
            assert_eq!(f32::from_bits(m.co2), 415.2);
            assert_eq!(m.timestamp, timestamp);
        }
        Target2Host::NotReady => panic!("a measurement was taken"),
    }
}

#[test]
fn three_fast_queries_see_at_most_one_new_id() {
    let mut target = Target::boot();
    target.sleep(2_100);
    let first = target.get_measurement().unwrap().unwrap();
    let second = target.get_measurement().unwrap().unwrap();
    target.sleep(20);
    let third = target.get_measurement().unwrap().unwrap();
    assert_eq!(first, second);
    assert!(third.id.wrapping_sub(first.id) <= 1);
    assert_eq!(third, first);

    target.sleep(1_870);
    let a = target.get_measurement().unwrap().unwrap();
    target.sleep(20);
    let b = target.get_measurement().unwrap().unwrap();
    target.sleep(20);
    let c = target.get_measurement().unwrap().unwrap();
    assert!(c.id.wrapping_sub(a.id) <= 1);
    assert!(a == b || b == c);
    assert_eq!((a.id, b.id, c.id), (1, 2, 2));
}

#[test]
fn damaged_reading_leaves_the_store_alone() {
    let mut target = Target::boot();
    target.sleep(2_100);
    let before = target.store.read_snapshot();
    assert_eq!(before.unwrap().id, 1);

    let mut response = target.sensor.read_measurement();
    response[17] ^= 0x80;
    let reading = Scd30::read_measurement::<()>(Ok(response));
    assert_eq!(reading, Err(Error::InvalidCrc));
    let outcome = target
        .sampler
        .on_measurement(&mut target.store, Instant::from_cycles(5), &reading);
    assert_eq!(outcome, Outcome::Errored);
    assert_eq!(target.store.read_snapshot(), before);

    let good = Scd30::read_measurement::<()>(Ok(target.sensor.read_measurement()));
    let outcome = target
        .sampler
        .on_measurement(&mut target.store, Instant::from_cycles(6), &good);
    assert_eq!(outcome, Outcome::Updated);
    assert_eq!(target.store.read_snapshot().unwrap().id, 2);
    assert_eq!(target.store.read_snapshot().unwrap().timestamp, 6);
}

#[test]
fn ids_go_up_by_one_per_success_only() {
    let mut sampler = Sampler::new();
    let mut store = MeasurementStore::new();
    let good: Result<SensorData, Error<u8>> = Ok(SensorData {
        co2: 1,
        temperature: 2,
        humidity: 3,
    });
    let bus: Result<SensorData, Error<u8>> = Err(Error::I2c(9));
    let crc: Result<SensorData, Error<u8>> = Err(Error::InvalidCrc);
    let mut ids = Vec::new();
    for (tick, reading) in [&good, &bus, &good, &crc, &crc, &good, &good]
        .into_iter()
        .enumerate()
    {
        let before = store.read_snapshot();
        let outcome = sampler.on_measurement(&mut store, Instant::from_cycles(tick as u32), reading);
        if reading.is_ok() {
            assert_eq!(outcome, Outcome::Updated);
            let m = store.read_snapshot().unwrap();
            assert_eq!(m.timestamp, tick as u32);
            assert_eq!(m.co2, 1);
            ids.push(m.id);
        } else {
            assert_eq!(outcome, Outcome::Errored);
            assert_eq!(store.read_snapshot(), before);
        }
    }
    assert_eq!(ids, vec![1, 2, 3, 4]);
}

#[test]
fn poll_decides_whether_to_read() {
    assert_eq!(Sampler::on_data_ready::<()>(&Ok(true)), Decision::Read);
    assert_eq!(
        Sampler::on_data_ready::<()>(&Ok(false)),
        Decision::Finish(Outcome::Idle)
    );
    assert_eq!(
        Sampler::on_data_ready(&Err(Error::I2c(1u8))),
        Decision::Finish(Outcome::Errored)
    );
    assert_eq!(
        Sampler::on_data_ready::<()>(&Err(Error::InvalidCrc)),
        Decision::Finish(Outcome::Errored)
    );
}

#[test]
fn next_activation_is_one_period_after_the_scheduled_tick() {
    assert_eq!(PERIOD_CYCLES, 1_280_000);
    assert_eq!(
        Sampler::next_activation(Instant::from_cycles(0)).as_cycles(),
        1_280_000
    );
    assert_eq!(
        Sampler::next_activation(Instant::from_cycles(5)).as_cycles(),
        1_280_005
    );
    assert_eq!(
        Sampler::next_activation(Instant::from_cycles(u32::MAX)).as_cycles(),
        1_279_999
    );
    assert_eq!(
        Sampler::next_activation(Instant::from_cycles(u32::MAX - 1_279_999)).as_cycles(),
        0
    );
}

#[test]
fn store_keeps_only_the_latest() {
    let mut store = MeasurementStore::new();
    assert_eq!(store.read_snapshot(), None);
    let a = Measurement {
        id: 1,
        timestamp: 10,
        co2: 100,
    };
    let b = Measurement {
        id: 2,
        timestamp: 20,
        co2: 200,
    };
    store.write(a);
    assert_eq!(store.read_snapshot(), Some(a));
    store.write(b);
    assert_eq!(store.read_snapshot(), Some(b));
    assert_eq!(store.read_snapshot(), Some(b));
}

#[test]
fn respond_maps_the_store_to_a_response() {
    let mut store = MeasurementStore::new();
    assert_eq!(
        respond(Host2Target::GetLastMeasurement, &store),
        Target2Host::NotReady
    );
    let m = Measurement {
        id: 3,
        timestamp: 4,
        co2: 5,
    };
    store.write(m);
    assert_eq!(
        respond(Host2Target::GetLastMeasurement, &store),
        Target2Host::Measurement(m)
    );
}

#[test]
fn server_is_silent_until_the_delimiter() {
    let store = MeasurementStore::new();
    let mut server = CommandServer::new();
    assert!(matches!(server.feed(0x01, &store), Reaction::Pending));
    assert!(matches!(server.feed(0x01, &store), Reaction::Pending));
    match server.feed(0x00, &store) {
        Reaction::Reply(frame) => assert_eq!(
            frame.as_slice(),
            encode_response(&Target2Host::NotReady).as_slice()
        ),
        _ => panic!("the request was well-formed"),
    }
}

#[test]
fn server_drops_malformed_frames_and_heals() {
    let mut store = MeasurementStore::new();
    let m = Measurement {
        id: 1,
        timestamp: 77,
        co2: 415.2f32.to_bits(),
    };
    store.write(m);
    let mut server = CommandServer::new();

    assert!(matches!(
        server.feed(0x00, &store),
        Reaction::Discarded(DecodeError::BadFraming)
    ));
    for byte in [0x05, 0x01, 0x02] {
        assert!(matches!(server.feed(byte, &store), Reaction::Pending));
    }
    assert!(matches!(
        server.feed(0x00, &store),
        Reaction::Discarded(DecodeError::BadFraming)
    ));
    for byte in [0x02, 0x09] {
        assert!(matches!(server.feed(byte, &store), Reaction::Pending));
    }
    assert!(matches!(
        server.feed(0x00, &store),
        Reaction::Discarded(DecodeError::BadMessage)
    ));
    assert_eq!(store.read_snapshot(), Some(m));

    let mut sent = Vec::new();
    for byte in [0x01, 0x01, 0x00] {
        if let Reaction::Reply(frame) = server.feed(byte, &store) {
            sent.extend_from_slice(frame.as_slice());
        }
    }
    assert_eq!(decode_response(&sent), Ok(Target2Host::Measurement(m)));
}

#[test]
fn server_reports_overflow_and_resyncs() {
    let store = MeasurementStore::new();
    let mut server = CommandServer::new();
    assert_eq!(RX_CAPACITY, 64);
    for _ in 0..RX_CAPACITY {
        assert!(matches!(server.feed(0x01, &store), Reaction::Pending));
    }
    assert!(matches!(server.feed(0x01, &store), Reaction::Overflow));
    assert!(matches!(server.feed(0x22, &store), Reaction::Overflow));
    assert!(matches!(
        server.feed(0x00, &store),
        Reaction::Discarded(DecodeError::BadFraming)
    ));
    assert!(matches!(server.feed(0x01, &store), Reaction::Pending));
    assert!(matches!(server.feed(0x01, &store), Reaction::Pending));
    assert!(matches!(server.feed(0x00, &store), Reaction::Reply(_)));
}

#[test]
fn server_discards_a_full_buffer_of_ones() {
    let store = MeasurementStore::new();
    let mut server = CommandServer::new();
    for _ in 0..RX_CAPACITY {
        assert!(matches!(server.feed(0x01, &store), Reaction::Pending));
    }
    assert!(matches!(
        server.feed(0x00, &store),
        Reaction::Discarded(DecodeError::BadFraming)
    ));
}

#[test]
fn server_answers_back_to_back_requests() {
    let mut target = Target::boot();
    target.sleep(4_100);
    let sent = target.send(&[0x01, 0x01, 0x00, 0x01, 0x01, 0x00]);
    let one = encode_response(&Target2Host::Measurement(
        target.store.read_snapshot().unwrap(),
    ));
    assert_eq!(sent.len(), 2 * one.len());
    assert_eq!(&sent[..one.len()], one.as_slice());
    assert_eq!(&sent[one.len()..], one.as_slice());
    assert_eq!(target.store.read_snapshot().unwrap().id, 2);
}
