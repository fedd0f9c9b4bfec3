//! The bus protocol of the SCD30 sensor, free of any bus: for each operation,
//! the bytes to write and the meaning of the bytes that were read back.
//!
//! Whoever owns the bus writes the command to [`ADDRESS`], reads the response
//! and hands the outcome of that exchange to the matching function here.

use crate::crc::{compute_crc, crc8, lemma_crc8_detects_changed_byte};
use vstd::prelude::*;

verus! {

/// The sensor's address on the two-wire bus.
pub const ADDRESS: u8 = 0x61;

/// The ambient pressure, in millibar, that the sensor is given by default.
pub const AMBIENT_PRESSURE: u16 = 1_020;

/// One reading of the sensor. Each field holds the bits of an IEEE-754
/// single-precision number, as the sensor sent them.
#[derive(Clone, Copy, Debug, PartialEq, Eq)]
pub struct SensorData {
    /// CO2 concentration in parts per million.
    pub co2: u32,
    /// Temperature in degrees Celsius.
    pub temperature: u32,
    /// Relative humidity in percent.
    pub humidity: u32,
}

/// A driver error.
#[derive(Debug, PartialEq)]
pub enum Error<E> {
    /// The bus exchange failed.
    I2c(E),
    /// A response did not carry the checksum of its data.
    InvalidCrc,
}

/// The value of two bytes, most significant first.
pub open spec fn be_u16(b0: u8, b1: u8) -> u16 {
    (b0 * 0x100 + b1) as u16
}

/// The value of four bytes, most significant first.
pub open spec fn be_u32(b0: u8, b1: u8, b2: u8, b3: u8) -> u32 {
    (b0 * 0x100_0000 + b1 * 0x1_0000 + b2 * 0x100 + b3) as u32
}

/// Whether word number `word` of a response is intact. A word is two data
/// bytes and the checksum of the two; the words follow each other.
pub open spec fn word_is_valid(bytes: Seq<u8>, word: int) -> bool {
    crc8(seq![bytes[3 * word], bytes[3 * word + 1]]) == bytes[3 * word + 2]
}

/// Whether each of the six words of a measurement response is valid.
pub open spec fn reading_is_valid(bytes: Seq<u8>) -> bool {
    forall|word: int| 0 <= word < 6 ==> word_is_valid(bytes, word)
}

/// The reading that a measurement response carries: three numbers of four
/// bytes each, every pair of bytes followed by a checksum byte that is skipped.
pub open spec fn reading_of(bytes: Seq<u8>) -> SensorData {
    SensorData {
        co2: be_u32(bytes[0], bytes[1], bytes[3], bytes[4]),
        temperature: be_u32(bytes[6], bytes[7], bytes[9], bytes[10]),
        humidity: be_u32(bytes[12], bytes[13], bytes[15], bytes[16]),
    }
}

/// The command that starts continuous measurement at `ambient_pressure`.
pub open spec fn start_command(ambient_pressure: u16) -> Seq<u8> {
    let high = (ambient_pressure / 0x100) as u8;
    let low = (ambient_pressure % 0x100) as u8;
    seq![0x00u8, 0x10u8, high, low, crc8(seq![high, low])]
}

fn check_word(bytes: &[u8], word: usize) -> (ok: bool)
    requires
        3 * word + 3 <= bytes.len(),
    ensures
        ok == word_is_valid(bytes@, word as int),
{
    let at: usize = 3 * word;
    let data: [u8; 2] = [bytes[at], bytes[at + 1]];
    assert(data@ =~= seq![bytes@[3 * word], bytes@[3 * word + 1]]);
    compute_crc(data.as_slice()) == bytes[at + 2]
}

fn check_reading(bytes: &[u8; 18]) -> (ok: bool)
    ensures
        ok == reading_is_valid(bytes@),
{
    let mut word: usize = 0;
    while word < 6
        invariant
            word <= 6,
            forall|w: int| 0 <= w < word ==> word_is_valid(bytes@, w),
        decreases 6 - word,
    {
        if !check_word(bytes.as_slice(), word) {
            return false;
        }
        word += 1;
    }
    true
}

fn u32_from_be_bytes(b0: u8, b1: u8, b2: u8, b3: u8) -> (value: u32)
    ensures
        value == be_u32(b0, b1, b2, b3),
{
    (b0 as u32) * 0x100_0000 + (b1 as u32) * 0x1_0000 + (b2 as u32) * 0x100 + (b3 as u32)
}

/// The SCD30's operations.
pub struct Scd30;

impl Scd30 {
    /// The command that asks for the firmware version. The response is three
    /// bytes long.
    pub fn firmware_version_command() -> (command: [u8; 2])
        ensures
            command@ == seq![0xd1u8, 0x00u8],
    {
        let command: [u8; 2] = [0xd1, 0x00];
        assert(command@ =~= seq![0xd1u8, 0x00u8]);
        command
    }

    /// Returns the firmware version, major then minor, that the sensor
    /// reported, provided the exchange succeeded and the third byte of the
    /// response is the checksum of the first two.
    pub fn get_firmware_version<E>(response: Result<[u8; 3], E>) -> (version: Result<
        [u8; 2],
        Error<E>,
    >)
        ensures
            match response {
                Err(e) => version == Err::<[u8; 2], Error<E>>(Error::I2c(e)),
                Ok(bytes) => match version {
                    Ok(v) => word_is_valid(bytes@, 0) && v@ == seq![bytes@[0], bytes@[1]],
                    Err(e) => !word_is_valid(bytes@, 0) && e == Error::<E>::InvalidCrc,
                },
            },
    {
        match response {
            Err(e) => Err(Error::I2c(e)),
            Ok(bytes) => {
                if check_word(bytes.as_slice(), 0) {
                    let version: [u8; 2] = [bytes[0], bytes[1]];
                    assert(version@ =~= seq![bytes@[0], bytes@[1]]);
                    Ok(version)
                } else {
                    Err(Error::InvalidCrc)
                }
            },
        }
    }

    /// The command that starts continuous measurement: the pressure, most
    /// significant byte first, followed by its checksum. Nothing is read back.
    pub fn start_continuous_measurement_command(ambient_pressure: u16) -> (command: [u8; 5])
        ensures
            command@ == start_command(ambient_pressure),
    {
        let high: u8 = (ambient_pressure / 0x100) as u8;
        let low: u8 = (ambient_pressure % 0x100) as u8;
        let argument: [u8; 2] = [high, low];
        assert(argument@ =~= seq![high, low]);
        let command: [u8; 5] = [0x00, 0x10, high, low, compute_crc(argument.as_slice())];
        assert(command@ =~= start_command(ambient_pressure));
        command
    }

    /// Continuous measurement has started exactly when the command was
    /// written.
    pub fn start_continuous_measurement<E>(written: Result<(), E>) -> (started: Result<
        (),
        Error<E>,
    >)
        ensures
            match written {
                Err(e) => started == Err::<(), Error<E>>(Error::I2c(e)),
                Ok(_) => started == Ok::<(), Error<E>>(()),
            },
    {
        match written {
            Err(e) => Err(Error::I2c(e)),
            Ok(_) => Ok(()),
        }
    }

    /// The command that asks whether a measurement is waiting. The response is
    /// two bytes long.
    pub fn data_ready_command() -> (command: [u8; 2])
        ensures
            command@ == seq![0x02u8, 0x02u8],
    {
        let command: [u8; 2] = [0x02, 0x02];
        assert(command@ =~= seq![0x02u8, 0x02u8]);
        command
    }

    /// A measurement is waiting exactly when the two bytes of the response,
    /// most significant first, are the number one.
    pub fn data_ready<E>(response: Result<[u8; 2], E>) -> (ready: Result<bool, Error<E>>)
        ensures
            match response {
                Err(e) => ready == Err::<bool, Error<E>>(Error::I2c(e)),
                Ok(bytes) => ready == Ok::<bool, Error<E>>(be_u16(bytes@[0], bytes@[1]) == 1),
            },
    {
        match response {
            Err(e) => Err(Error::I2c(e)),
            Ok(bytes) => Ok(bytes[0] == 0 && bytes[1] == 1),
        }
    }

    /// The command that asks for the waiting measurement. The response is
    /// eighteen bytes long.
    pub fn read_measurement_command() -> (command: [u8; 2])
        ensures
            command@ == seq![0x03u8, 0x00u8],
    {
        let command: [u8; 2] = [0x03, 0x00];
        assert(command@ =~= seq![0x03u8, 0x00u8]);
        command
    }

    /// Returns the reading that the response carries, provided the exchange
    /// succeeded and every word of the response has its checksum.
    pub fn read_measurement<E>(response: Result<[u8; 18], E>) -> (reading: Result<
        SensorData,
        Error<E>,
    >)
        ensures
            match response {
                Err(e) => reading == Err::<SensorData, Error<E>>(Error::I2c(e)),
                Ok(bytes) => if reading_is_valid(bytes@) {
                    reading == Ok::<SensorData, Error<E>>(reading_of(bytes@))
                } else {
                    reading == Err::<SensorData, Error<E>>(Error::InvalidCrc)
                },
            },
    {
        match response {
            Err(e) => Err(Error::I2c(e)),
            Ok(bytes) => {
                if check_reading(&bytes) {
                    Ok(
                        SensorData {
                            co2: u32_from_be_bytes(bytes[0], bytes[1], bytes[3], bytes[4]),
                            temperature: u32_from_be_bytes(bytes[6], bytes[7], bytes[9], bytes[10]),
                            humidity: u32_from_be_bytes(bytes[12], bytes[13], bytes[15], bytes[16]),
                        },
                    )
                } else {
                    Err(Error::InvalidCrc)
                }
            },
        }
    }
}

/// A word in which one byte was changed, data or checksum, is not intact.
pub proof fn lemma_damaged_word_is_rejected(bytes: Seq<u8>, word: int, at: int, byte: u8)
    requires
        0 <= 3 * word <= at < 3 * word + 3 <= bytes.len(),
        word_is_valid(bytes, word),
        byte != bytes[at],
    ensures
        !word_is_valid(bytes.update(at, byte), word),
{
    let data = seq![bytes[3 * word], bytes[3 * word + 1]];
    let damaged = bytes.update(at, byte);
    let damaged_data = seq![damaged[3 * word], damaged[3 * word + 1]];
    if at == 3 * word + 2 {
        assert(damaged_data =~= data);
    } else {
        assert(damaged_data =~= data.update(at - 3 * word, byte));
        lemma_crc8_detects_changed_byte(data, at - 3 * word, byte);
    }
}

/// A measurement response in which one byte was changed is not valid.
pub proof fn lemma_damaged_reading_is_rejected(bytes: Seq<u8>, at: int, byte: u8)
    requires
        bytes.len() == 18,
        reading_is_valid(bytes),
        0 <= at < 18,
        byte != bytes[at],
    ensures
        !reading_is_valid(bytes.update(at, byte)),
{
    let word = at / 3;
    assert(word_is_valid(bytes, word));
    lemma_damaged_word_is_rejected(bytes, word, at, byte);
}

} // verus!
