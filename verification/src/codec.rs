//! The wire codec: messages as frames, and frames as messages.
//!
//! A message is first written as a compact body: one byte that tells the
//! variant, then the fields in order, each 32-bit number as four bytes, least
//! significant first. The body is then framed.

use crate::framing::{
    frame_bounded, framed, lemma_framed_unframed, lemma_stuffed_has_no_zero, lemma_stuffed_len,
    lemma_unframed_framed, unframe, unframed, unstuff, unstuffed, DELIMITER,
};
use crate::messages::{Host2Target, Measurement, Target2Host};
use crate::packet::{Packet, MAX_SIZE};
use vstd::prelude::*;

verus! {

/// Why bytes could not be read as a message.
#[derive(Clone, Copy, Debug, PartialEq, Eq, Structural)]
pub enum DecodeError {
    /// The bytes are not a frame: the delimiter is missing, or what comes
    /// before it is not a stuffed body.
    BadFraming,
    /// The frame is sound, but its body is not the body of a message.
    BadMessage,
}

/// The four bytes of `value`, least significant first.
pub open spec fn le_bytes(value: u32) -> Seq<u8> {
    seq![
        (value % 0x100) as u8,
        (value / 0x100 % 0x100) as u8,
        (value / 0x1_0000 % 0x100) as u8,
        (value / 0x100_0000) as u8,
    ]
}

/// The value of four bytes, least significant first.
pub open spec fn le_u32(b0: u8, b1: u8, b2: u8, b3: u8) -> u32 {
    (b0 + b1 * 0x100 + b2 * 0x1_0000 + b3 * 0x100_0000) as u32
}

/// The body of a request.
pub open spec fn request_body(message: Host2Target) -> Seq<u8> {
    match message {
        Host2Target::GetLastMeasurement => seq![0u8],
    }
}

/// The body of a response.
pub open spec fn response_body(message: Target2Host) -> Seq<u8> {
    match message {
        Target2Host::NotReady => seq![0u8],
        Target2Host::Measurement(m) => seq![1u8] + le_bytes(m.id) + le_bytes(m.timestamp)
            + le_bytes(m.co2),
    }
}

/// The request whose body is `body`, if there is one.
pub open spec fn parsed_request(body: Seq<u8>) -> Option<Host2Target> {
    if body == seq![0u8] {
        Some(Host2Target::GetLastMeasurement)
    } else {
        None
    }
}

/// The response whose body is `body`, if there is one.
pub open spec fn parsed_response(body: Seq<u8>) -> Option<Target2Host> {
    if body == seq![0u8] {
        Some(Target2Host::NotReady)
    } else if body.len() == 13 && body[0] == 1 {
        Some(
            Target2Host::Measurement(
                Measurement {
                    id: le_u32(body[1], body[2], body[3], body[4]),
                    timestamp: le_u32(body[5], body[6], body[7], body[8]),
                    co2: le_u32(body[9], body[10], body[11], body[12]),
                },
            ),
        )
    } else {
        None
    }
}

/// The frame of a request.
pub open spec fn request_frame(message: Host2Target) -> Seq<u8> {
    framed(request_body(message))
}

/// The frame of a response.
pub open spec fn response_frame(message: Target2Host) -> Seq<u8> {
    framed(response_body(message))
}

/// What a stuffed body, without its delimiter, says as a request.
pub open spec fn request_in(stuffed_body: Seq<u8>) -> Result<Host2Target, DecodeError> {
    match unstuffed(stuffed_body) {
        None => Err(DecodeError::BadFraming),
        Some(body) => match parsed_request(body) {
            None => Err(DecodeError::BadMessage),
            Some(message) => Ok(message),
        },
    }
}

/// What `frame` says as a request.
pub open spec fn decoded_request(frame: Seq<u8>) -> Result<Host2Target, DecodeError> {
    match unframed(frame) {
        None => Err(DecodeError::BadFraming),
        Some(body) => match parsed_request(body) {
            None => Err(DecodeError::BadMessage),
            Some(message) => Ok(message),
        },
    }
}

/// What `frame` says as a response.
pub open spec fn decoded_response(frame: Seq<u8>) -> Result<Target2Host, DecodeError> {
    match unframed(frame) {
        None => Err(DecodeError::BadFraming),
        Some(body) => match parsed_response(body) {
            None => Err(DecodeError::BadMessage),
            Some(message) => Ok(message),
        },
    }
}

proof fn lemma_le_round_trip(value: u32)
    ensures
        le_u32(le_bytes(value)[0], le_bytes(value)[1], le_bytes(value)[2], le_bytes(value)[3])
            == value,
{
    let b0 = value % 0x100;
    let upper = value / 0x100;
    let top = value / 0x1_0000;
    assert(value == upper * 0x100 + b0);
    assert(upper == top * 0x100 + upper % 0x100);
    assert(top == (value / 0x100_0000) * 0x100 + top % 0x100);
}

proof fn lemma_le_bytes_of_le_u32(b0: u8, b1: u8, b2: u8, b3: u8)
    ensures
        le_bytes(le_u32(b0, b1, b2, b3)) == seq![b0, b1, b2, b3],
{
    let value = le_u32(b0, b1, b2, b3) as int;
    let upper = b1 + b2 * 0x100 + b3 * 0x1_0000;
    let top = b2 + b3 * 0x100;
    assert(value == upper * 0x100 + b0);
    assert(value % 0x100 == b0 && value / 0x100 == upper);
    assert(value == top * 0x1_0000 + (b0 + b1 * 0x100));
    assert(value / 0x1_0000 == top);
    assert(upper % 0x100 == b1);
    assert(top % 0x100 == b2);
    assert(value == b3 * 0x100_0000 + (b0 + b1 * 0x100 + b2 * 0x1_0000));
    assert(value / 0x100_0000 == b3);
    assert(le_bytes(le_u32(b0, b1, b2, b3)) =~= seq![b0, b1, b2, b3]);
}

/// Bodies are short: every message fits a packet once framed.
pub proof fn lemma_bodies_fit(request: Host2Target, response: Target2Host)
    ensures
        request_body(request).len() == 1,
        response_body(response).len() == 1 || response_body(response).len() == 13,
        request_frame(request).len() <= MAX_SIZE,
        response_frame(response).len() <= MAX_SIZE,
{
    lemma_stuffed_len(request_body(request));
    lemma_stuffed_len(response_body(response));
}

/// Reading the body of a request gives the request back, and nothing but the
/// body of a request reads as that request.
pub proof fn lemma_request_body_round_trip(message: Host2Target, body: Seq<u8>)
    ensures
        parsed_request(request_body(message)) == Some(message),
        parsed_request(body) == Some(message) ==> body == request_body(message),
{
}

/// Reading the body of a response gives the response back, and nothing but
/// the body of a response reads as that response.
pub proof fn lemma_response_body_round_trip(message: Target2Host, body: Seq<u8>)
    ensures
        parsed_response(response_body(message)) == Some(message),
        parsed_response(body) == Some(message) ==> body == response_body(message),
{
    match message {
        Target2Host::NotReady => {
            if parsed_response(body) == Some(message) && body != seq![0u8] {
                assert(false);
            }
        },
        Target2Host::Measurement(m) => {
            lemma_le_round_trip(m.id);
            lemma_le_round_trip(m.timestamp);
            lemma_le_round_trip(m.co2);
            let own = response_body(message);
            assert(own.len() == 13);
            assert(own != seq![0u8]);
            if parsed_response(body) == Some(message) {
                assert(body != seq![0u8]);
                lemma_le_bytes_of_le_u32(body[1], body[2], body[3], body[4]);
                lemma_le_bytes_of_le_u32(body[5], body[6], body[7], body[8]);
                lemma_le_bytes_of_le_u32(body[9], body[10], body[11], body[12]);
                assert(body =~= own);
            }
        },
    }
}

/// Decoding the frame of a request gives the request back.
pub proof fn lemma_request_round_trip(message: Host2Target)
    ensures
        decoded_request(request_frame(message)) == Ok::<Host2Target, DecodeError>(message),
{
    lemma_unframed_framed(request_body(message));
}

/// Decoding the frame of a response gives the response back.
pub proof fn lemma_response_round_trip(message: Target2Host)
    ensures
        decoded_response(response_frame(message)) == Ok::<Target2Host, DecodeError>(message),
{
    lemma_bodies_fit(Host2Target::GetLastMeasurement, message);
    lemma_unframed_framed(response_body(message));
    lemma_response_body_round_trip(message, response_body(message));
}

/// Only the frame of a request decodes to that request.
pub proof fn lemma_request_frame_is_unique(frame: Seq<u8>, message: Host2Target)
    requires
        decoded_request(frame) == Ok::<Host2Target, DecodeError>(message),
    ensures
        frame == request_frame(message),
{
    let body = unframed(frame).unwrap();
    lemma_framed_unframed(frame, body);
}

/// Only the frame of a response decodes to that response.
pub proof fn lemma_response_frame_is_unique(frame: Seq<u8>, message: Target2Host)
    requires
        decoded_response(frame) == Ok::<Target2Host, DecodeError>(message),
    ensures
        frame == response_frame(message),
{
    let body = unframed(frame).unwrap();
    lemma_framed_unframed(frame, body);
    lemma_response_body_round_trip(message, body);
}

/// The frame of a message ends with the delimiter and holds no other zero
/// byte.
pub proof fn lemma_frames_hold_one_delimiter(request: Host2Target, response: Target2Host)
    ensures
        request_frame(request).last() == DELIMITER,
        response_frame(response).last() == DELIMITER,
        forall|i: int|
            0 <= i < request_frame(request).len() - 1 ==> request_frame(request)[i] != DELIMITER,
        forall|i: int|
            0 <= i < response_frame(response).len() - 1 ==> response_frame(response)[i]
                != DELIMITER,
{
    lemma_bodies_fit(request, response);
    assert forall|i: int| 0 <= i < request_frame(request).len() - 1 implies request_frame(
        request,
    )[i] != DELIMITER by {
        lemma_stuffed_has_no_zero(request_body(request), i);
    }
    assert forall|i: int| 0 <= i < response_frame(response).len() - 1 implies response_frame(
        response,
    )[i] != DELIMITER by {
        lemma_stuffed_has_no_zero(response_body(response), i);
    }
}

fn push_le(packet: &mut Packet, value: u32)
    requires
        old(packet)@.len() + 4 <= MAX_SIZE,
    ensures
        final(packet)@ == old(packet)@ + le_bytes(value),
{
    packet.push((value % 0x100) as u8);
    packet.push((value / 0x100 % 0x100) as u8);
    packet.push((value / 0x1_0000 % 0x100) as u8);
    packet.push((value / 0x100_0000) as u8);
    assert(packet@ =~= old(packet)@ + le_bytes(value));
}

fn u32_from_le_bytes(b0: u8, b1: u8, b2: u8, b3: u8) -> (value: u32)
    ensures
        value == le_u32(b0, b1, b2, b3),
{
    (b0 as u32) + (b1 as u32) * 0x100 + (b2 as u32) * 0x1_0000 + (b3 as u32) * 0x100_0000
}

/// Writes the body of a request.
pub fn serialize_request(message: &Host2Target) -> (body: Packet)
    ensures
        body@ == request_body(*message),
{
    let mut body = Packet::new();
    match message {
        Host2Target::GetLastMeasurement => {
            body.push(0);
        },
    }
    assert(body@ =~= request_body(*message));
    body
}

/// Writes the body of a response.
pub fn serialize_response(message: &Target2Host) -> (body: Packet)
    ensures
        body@ == response_body(*message),
{
    let mut body = Packet::new();
    match message {
        Target2Host::NotReady => {
            body.push(0);
        },
        Target2Host::Measurement(m) => {
            body.push(1);
            push_le(&mut body, m.id);
            push_le(&mut body, m.timestamp);
            push_le(&mut body, m.co2);
        },
    }
    assert(body@ =~= response_body(*message));
    body
}

/// Reads a body as a request.
pub fn deserialize_request(body: &[u8]) -> (message: Option<Host2Target>)
    ensures
        message == parsed_request(body@),
{
    if body.len() == 1 && body[0] == 0 {
        assert(body@ =~= seq![0u8]);
        Some(Host2Target::GetLastMeasurement)
    } else {
        None
    }
}

/// Reads a body as a response.
pub fn deserialize_response(body: &[u8]) -> (message: Option<Target2Host>)
    ensures
        message == parsed_response(body@),
{
    if body.len() == 1 && body[0] == 0 {
        assert(body@ =~= seq![0u8]);
        Some(Target2Host::NotReady)
    } else if body.len() == 13 && body[0] == 1 {
        Some(
            Target2Host::Measurement(
                Measurement {
                    id: u32_from_le_bytes(body[1], body[2], body[3], body[4]),
                    timestamp: u32_from_le_bytes(body[5], body[6], body[7], body[8]),
                    co2: u32_from_le_bytes(body[9], body[10], body[11], body[12]),
                },
            ),
        )
    } else {
        None
    }
}

/// Encodes a request as a frame.
pub fn encode_request(message: &Host2Target) -> (frame: Packet)
    ensures
        frame@ == request_frame(*message),
{
    let body = serialize_request(message);
    frame_bounded(body.as_slice())
}

/// Encodes a response as a frame.
pub fn encode_response(message: &Target2Host) -> (frame: Packet)
    ensures
        frame@ == response_frame(*message),
{
    let body = serialize_response(message);
    frame_bounded(body.as_slice())
}

/// Decodes a stuffed body, as it stands before the delimiter, as a request.
pub fn decode_request_body(stuffed_body: &[u8]) -> (message: Result<Host2Target, DecodeError>)
    ensures
        message == request_in(stuffed_body@),
{
    match unstuff(stuffed_body) {
        None => Err(DecodeError::BadFraming),
        Some(body) => match deserialize_request(body.as_slice()) {
            None => Err(DecodeError::BadMessage),
            Some(message) => Ok(message),
        },
    }
}

/// Decodes a frame as a request.
pub fn decode_request(frame: &[u8]) -> (message: Result<Host2Target, DecodeError>)
    ensures
        message == decoded_request(frame@),
{
    match unframe(frame) {
        None => Err(DecodeError::BadFraming),
        Some(body) => match deserialize_request(body.as_slice()) {
            None => Err(DecodeError::BadMessage),
            Some(message) => Ok(message),
        },
    }
}

/// Decodes a frame as a response.
pub fn decode_response(frame: &[u8]) -> (message: Result<Target2Host, DecodeError>)
    ensures
        message == decoded_response(frame@),
{
    match unframe(frame) {
        None => Err(DecodeError::BadFraming),
        Some(body) => match deserialize_response(body.as_slice()) {
            None => Err(DecodeError::BadMessage),
            Some(message) => Ok(message),
        },
    }
}

} // verus!
