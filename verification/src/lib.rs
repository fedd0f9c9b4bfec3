//! The sampling and serving core of a CO2 monitor: the SCD30 bus protocol, the
//! single-slot store of the latest measurement, the periodic sampler, the wire
//! codec and the byte-stream command server.

pub mod codec;
pub mod crc;
pub mod framing;
pub mod instant;
pub mod messages;
pub mod packet;
pub mod sampler;
pub mod scd30;
pub mod server;
pub mod store;

pub use crate::codec::{
    decode_request, decode_response, encode_request, encode_response, DecodeError,
};
pub use crate::crc::compute_crc;
pub use crate::instant::Instant;
pub use crate::messages::{Host2Target, Measurement, Target2Host};
pub use crate::packet::{Packet, MAX_SIZE};
pub use crate::sampler::{Decision, Outcome, Sampler};
pub use crate::scd30::{Error, Scd30, SensorData};
pub use crate::server::{CommandServer, Reaction};
pub use crate::store::MeasurementStore;
