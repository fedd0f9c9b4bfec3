use co2_monitor::crc::compute_crc;
use co2_monitor::instant::Instant;
use co2_monitor::scd30::{Error, Scd30, SensorData, ADDRESS, AMBIENT_PRESSURE};

/// The response that the sensor's interface description gives as its example:
/// 439 ppm, 27.2 degrees, 48.8 percent.
const EXAMPLE_READING: [u8; 18] = [
    0x43, 0xDB, 0xCB, 0x8C, 0x2E, 0x8F, 0x41, 0xD9, 0x70, 0xE7, 0xFF, 0xF5, 0x42, 0x43, 0xBF, 0x3A,
    0x1B, 0x74,
];

/// A measurement response that carries the three numbers, with the checksum
/// that belongs behind every two bytes.
fn response_with(co2: f32, temperature: f32, humidity: f32) -> [u8; 18] {
    let mut response = [0u8; 18];
    let mut at = 0;
    for value in [co2, temperature, humidity] {
        let bytes = value.to_bits().to_be_bytes();
        for half in [[bytes[0], bytes[1]], [bytes[2], bytes[3]]] {
            response[at] = half[0];
            response[at + 1] = half[1];
            response[at + 2] = compute_crc(&half);
            at += 3;
        }
    }
    response
}

#[test]
fn firmware_version() {
    assert_eq!(ADDRESS, 0x61);
    assert_eq!(Scd30::firmware_version_command(), [0xD1, 0x00]);

    let version = Scd30::get_firmware_version::<()>(Ok([0x03, 0x42, 0xF3])).unwrap();
    assert_eq!([3, 66], version);
}

#[test]
fn firmware_version_bad_crc() {
    // NOTE negated CRC byte in the response!
    let res = Scd30::get_firmware_version::<()>(Ok([0x03, 0x42, !0xF3]));
    assert_eq!(Err(Error::InvalidCrc), res);
}

#[test]
fn crc() {
    // the example in the sensor's interface description
    assert_eq!(compute_crc(&[0xBE, 0xEF]), 0x92);
}

#[test]
fn confirm_firmware_version() {
    const EXPECTED: [u8; 2] = [3, 66];

    let response = [3, 66, compute_crc(&[3, 66])];
    assert_eq!(EXPECTED, Scd30::get_firmware_version::<()>(Ok(response)).unwrap())
}

#[test]
fn data_ready_within_two_seconds() {
    assert_eq!(
        Scd30::start_continuous_measurement::<()>(Ok(())),
        Ok(())
    );

    // do this twice because there may be a cached measurement
    let mut last = Instant::from_cycles(0);
    for round in 1..=2u32 {
        let now = Instant::from_cycles(round * 2_100 * 64_000);
        assert_eq!(last.elapsed(now), 2_100 * 1_000);
        last = now;
        assert!(Scd30::data_ready::<()>(Ok([0x00, 0x01])).unwrap());

        // clear data ready flag
        let _ = Scd30::read_measurement::<()>(Ok(EXAMPLE_READING));
    }
}

#[test]
fn reasonable_co2_value() {
    // range reported by the sensor when using I2C
    const MIN_CO2: f32 = 0.;
    const MAX_CO2: f32 = 40_000.;

    // do this twice for good measure
    for response in [EXAMPLE_READING, response_with(415.2, 21.5, 40.0)] {
        assert!(Scd30::data_ready::<()>(Ok([0x00, 0x01])).unwrap());

        let measurement = Scd30::read_measurement::<()>(Ok(response)).unwrap();
        let co2 = f32::from_bits(measurement.co2);
        assert!(co2.is_finite());
        assert!(co2 >= MIN_CO2);
        assert!(co2 <= MAX_CO2);
    }
}

#[test]
fn crc_of_nothing_is_the_initial_value() {
    assert_eq!(compute_crc(&[]), 0xFF);
}

#[test]
fn crc_of_known_words() {
    assert_eq!(compute_crc(&[0x03, 0x42]), 0xF3);
    assert_eq!(compute_crc(&[0x00, 0x00]), 0x81);
    assert_eq!(compute_crc(&[0x00, 0x01]), 0xB0);
    assert_eq!(compute_crc(&[0x43, 0xDB]), 0xCB);
}

#[test]
fn crc_changes_with_every_single_bit() {
    let payload = [0xBE, 0xEF];
    let sum = compute_crc(&payload);
    for at in 0..payload.len() {
        for bit in 0..8 {
            let mut flipped = payload;
            flipped[at] ^= 1 << bit;
            assert_ne!(compute_crc(&flipped), sum);
        }
    }
}

#[test]
fn crc_changes_with_every_changed_byte() {
    let payload = [0x43, 0xDB];
    let sum = compute_crc(&payload);
    for at in 0..payload.len() {
        for byte in 0..=255u8 {
            if byte != payload[at] {
                let mut changed = payload;
                changed[at] = byte;
                assert_ne!(compute_crc(&changed), sum);
            }
        }
    }
}

#[test]
fn firmware_version_bus_error() {
    let res = Scd30::get_firmware_version(Err("nack"));
    assert_eq!(Err(Error::I2c("nack")), res);
}

#[test]
fn start_continuous_measurement_command_carries_the_pressure() {
    assert_eq!(AMBIENT_PRESSURE, 1_020);
    assert_eq!(
        Scd30::start_continuous_measurement_command(AMBIENT_PRESSURE),
        [0x00, 0x10, 0x03, 0xFC, 0x53]
    );
    assert_eq!(
        Scd30::start_continuous_measurement_command(0),
        [0x00, 0x10, 0x00, 0x00, 0x81]
    );
    assert_eq!(
        Scd30::start_continuous_measurement_command(0xBEEF),
        [0x00, 0x10, 0xBE, 0xEF, 0x92]
    );
}

#[test]
fn start_continuous_measurement_bus_error() {
    assert_eq!(
        Scd30::start_continuous_measurement(Err(7u8)),
        Err(Error::I2c(7u8))
    );
}

#[test]
fn data_ready_reads_a_big_endian_one() {
    assert_eq!(Scd30::data_ready_command(), [0x02, 0x02]);
    assert_eq!(Scd30::data_ready::<()>(Ok([0x00, 0x01])), Ok(true));
    assert_eq!(Scd30::data_ready::<()>(Ok([0x00, 0x00])), Ok(false));
    assert_eq!(Scd30::data_ready::<()>(Ok([0x01, 0x00])), Ok(false));
    assert_eq!(Scd30::data_ready::<()>(Ok([0x01, 0x01])), Ok(false));
    assert_eq!(Scd30::data_ready::<()>(Ok([0x00, 0x02])), Ok(false));
}

#[test]
fn data_ready_bus_error() {
    assert_eq!(Scd30::data_ready(Err(-1i8)), Err(Error::I2c(-1i8)));
}

#[test]
fn read_measurement_decodes_the_example() {
    assert_eq!(Scd30::read_measurement_command(), [0x03, 0x00]);
    let data = Scd30::read_measurement::<()>(Ok(EXAMPLE_READING)).unwrap();
    assert_eq!(
        data,
        SensorData {
            co2: 0x43DB_8C2E,
            temperature: 0x41D9_E7FF,
            humidity: 0x4243_3A1B,
        }
    );
    assert!((f32::from_bits(data.co2) - 439.09515).abs() < 1e-3);
}

#[test]
fn read_measurement_skips_the_checksum_bytes() {
    let response = response_with(415.2, -3.5, 99.9);
    let data = Scd30::read_measurement::<()>(Ok(response)).unwrap();
    assert_eq!(data.co2, 0x43CF_999A);
    assert_eq!(f32::from_bits(data.co2), 415.2);
    assert_eq!(f32::from_bits(data.temperature), -3.5);
    assert_eq!(f32::from_bits(data.humidity), 99.9);
}

#[test]
fn read_measurement_bad_trailing_crc() {
    let mut response = EXAMPLE_READING;
    response[17] ^= 0x01;
    assert_eq!(
        Scd30::read_measurement::<()>(Ok(response)),
        Err(Error::InvalidCrc)
    );
}

#[test]
fn read_measurement_rejects_any_damaged_byte() {
    for at in 0..18 {
        for bit in 0..8 {
            let mut response = EXAMPLE_READING;
            response[at] ^= 1 << bit;
            assert_eq!(
                Scd30::read_measurement::<()>(Ok(response)),
                Err(Error::InvalidCrc)
            );
        }
    }
}

#[test]
fn read_measurement_bus_error() {
    assert_eq!(
        Scd30::read_measurement(Err(42u32)),
        Err(Error::I2c(42u32))
    );
}

#[test]
fn elapsed_is_in_microseconds() {
    let start = Instant::from_cycles(1_000);
    assert_eq!(start.elapsed(Instant::from_cycles(1_000)), 0);
    assert_eq!(start.elapsed(Instant::from_cycles(1_063)), 0);
    assert_eq!(start.elapsed(Instant::from_cycles(1_064)), 1);
    assert_eq!(start.elapsed(Instant::from_cycles(1_000 + 64_000_000)), 1_000_000);
}

#[test]
fn elapsed_survives_the_wrap_of_the_counter() {
    let start = Instant::from_cycles(0xFFFF_FF00);
    assert_eq!(start.elapsed(Instant::from_cycles(0x0000_0100)), 8);
    assert_eq!(
        Instant::from_cycles(1).elapsed(Instant::from_cycles(0)),
        0xFFFF_FFFF / 64
    );
}

#[test]
fn as_cycles_gives_the_counter_back() {
    assert_eq!(Instant::from_cycles(0).as_cycles(), 0);
    assert_eq!(Instant::from_cycles(0xDEAD_BEEF).as_cycles(), 0xDEAD_BEEF);
}
