//! The command server: it takes the serial line's bytes one at a time, puts
//! frames together, and answers each request from the measurement store.

use crate::codec::{
    decode_request_body, encode_response, request_body, request_frame, request_in,
    response_frame, DecodeError,
};
use crate::framing::{
    lemma_stuffed_has_no_zero, lemma_stuffed_len, lemma_unstuffed_stuffed, stuffed, DELIMITER,
};
use crate::messages::{Host2Target, Measurement, Target2Host};
use crate::packet::Packet;
use crate::store::MeasurementStore;
use vstd::prelude::*;

verus! {

/// How many bytes of a frame the server keeps while it waits for the
/// delimiter.
pub const RX_CAPACITY: usize = 64;

/// `heapless::Vec`, a vector of fixed capacity that lives in place.
#[verifier::external_type_specification]
#[verifier::external_body]
#[verifier::reject_recursive_types(T)]
pub struct ExHeaplessVec<T, const N: usize>(heapless::Vec<T, N>);

/// The bytes that a receive buffer holds, oldest first.
pub uninterp spec fn buffered(buffer: heapless::Vec<u8, 64>) -> Seq<u8>;

/// `heapless::Vec::new`. Trusted: the new buffer holds nothing.
#[verifier::external_body]
fn rx_new() -> (buffer: heapless::Vec<u8, 64>)
    ensures
        buffered(buffer) == Seq::<u8>::empty(),
{
    heapless::Vec::new()
}

/// `heapless::Vec::push`. Trusted: while fewer bytes are held than the
/// capacity, the byte is appended; otherwise the buffer stays as it is and
/// the byte comes back.
#[verifier::external_body]
fn rx_push(buffer: &mut heapless::Vec<u8, 64>, byte: u8) -> (pushed: Result<(), u8>)
    ensures
        match pushed {
            Ok(_) => buffered(*old(buffer)).len() < RX_CAPACITY && buffered(*final(buffer))
                == buffered(*old(buffer)).push(byte),
            Err(back) => back == byte && buffered(*old(buffer)).len() >= RX_CAPACITY && buffered(
                *final(buffer),
            ) == buffered(*old(buffer)),
        },
{
    buffer.push(byte)
}

/// `heapless::Vec::clear`. Trusted: nothing is held afterwards.
#[verifier::external_body]
fn rx_clear(buffer: &mut heapless::Vec<u8, 64>)
    ensures
        buffered(*final(buffer)) == Seq::<u8>::empty(),
{
    buffer.clear()
}

/// `heapless::Vec::as_slice`. Trusted: the slice is what the buffer holds.
#[verifier::external_body]
fn rx_as_slice(buffer: &heapless::Vec<u8, 64>) -> (bytes: &[u8])
    ensures
        bytes@ == buffered(*buffer),
{
    buffer.as_slice()
}

/// The response to `request` when the store holds `snapshot`.
pub open spec fn response_to(request: Host2Target, snapshot: Option<Measurement>) -> Target2Host {
    match request {
        Host2Target::GetLastMeasurement => match snapshot {
            Some(measurement) => Target2Host::Measurement(measurement),
            None => Target2Host::NotReady,
        },
    }
}

/// Answers `request` from `store`.
pub fn respond(request: Host2Target, store: &MeasurementStore) -> (response: Target2Host)
    ensures
        response == response_to(request, store@),
{
    match request {
        Host2Target::GetLastMeasurement => match store.read_snapshot() {
            Some(measurement) => Target2Host::Measurement(measurement),
            None => Target2Host::NotReady,
        },
    }
}

/// What the server has of the frame that is under way.
pub struct Receiving {
    /// The bytes kept since the last delimiter.
    pub buffer: Seq<u8>,
    /// Whether the frame has outgrown the buffer.
    pub overflowed: bool,
}

/// How the server reacted to a byte.
#[derive(Clone, Copy, Debug)]
pub enum Reaction {
    /// The byte was kept; the frame is not complete.
    Pending,
    /// The frame under way is too long for the buffer. Its bytes are dropped
    /// up to the next delimiter.
    Overflow,
    /// A frame was complete but could not be read. Nothing is to be sent.
    Discarded(DecodeError),
    /// A request was answered: the frame is to be sent.
    Reply(Packet),
}

/// A reaction, with the bytes of the frame in place of the packet.
pub enum ReactionView {
    Pending,
    Overflow,
    Discarded(DecodeError),
    Reply(Seq<u8>),
}

impl View for Reaction {
    type V = ReactionView;

    open spec fn view(&self) -> ReactionView {
        match *self {
            Reaction::Pending => ReactionView::Pending,
            Reaction::Overflow => ReactionView::Overflow,
            Reaction::Discarded(error) => ReactionView::Discarded(error),
            Reaction::Reply(frame) => ReactionView::Reply(frame@),
        }
    }
}

/// The state in which no frame is under way.
pub open spec fn idle() -> Receiving {
    Receiving { buffer: Seq::empty(), overflowed: false }
}

/// What the server has of the frame under way once `byte` has arrived. The
/// delimiter always leaves it idle.
pub open spec fn receiving_after(before: Receiving, byte: u8) -> Receiving {
    if byte == DELIMITER {
        idle()
    } else if before.overflowed || before.buffer.len() >= RX_CAPACITY {
        Receiving { buffer: before.buffer, overflowed: true }
    } else {
        Receiving { buffer: before.buffer.push(byte), overflowed: false }
    }
}

/// How the server reacts to `byte` while the store holds `snapshot`.
pub open spec fn reaction_to(
    before: Receiving,
    byte: u8,
    snapshot: Option<Measurement>,
) -> ReactionView {
    if byte == DELIMITER {
        if before.overflowed {
            ReactionView::Discarded(DecodeError::BadFraming)
        } else {
            match request_in(before.buffer) {
                Ok(request) => ReactionView::Reply(response_frame(response_to(request, snapshot))),
                Err(error) => ReactionView::Discarded(error),
            }
        }
    } else if before.overflowed || before.buffer.len() >= RX_CAPACITY {
        ReactionView::Overflow
    } else {
        ReactionView::Pending
    }
}

/// The command server.
pub struct CommandServer {
    rx: heapless::Vec<u8, 64>,
    overflowed: bool,
}

impl View for CommandServer {
    type V = Receiving;

    closed spec fn view(&self) -> Receiving {
        Receiving { buffer: buffered(self.rx), overflowed: self.overflowed }
    }
}

impl CommandServer {
    /// A server with no frame under way.
    pub fn new() -> (server: Self)
        ensures
            server@ == idle(),
    {
        CommandServer { rx: rx_new(), overflowed: false }
    }

    /// Takes the next byte of the serial line. Any byte but the delimiter is
    /// kept for later. The delimiter completes a frame: a request is answered
    /// from `store`, anything else is dropped, and either way the server is
    /// idle again.
    pub fn feed(&mut self, byte: u8, store: &MeasurementStore) -> (reaction: Reaction)
        ensures
            final(self)@ == receiving_after(old(self)@, byte),
            reaction@ == reaction_to(old(self)@, byte, store@),
    {
        if byte == DELIMITER {
            let reaction = if self.overflowed {
                Reaction::Discarded(DecodeError::BadFraming)
            } else {
                match decode_request_body(rx_as_slice(&self.rx)) {
                    Ok(request) => Reaction::Reply(encode_response(&respond(request, store))),
                    Err(error) => Reaction::Discarded(error),
                }
            };
            rx_clear(&mut self.rx);
            self.overflowed = false;
            reaction
        } else if self.overflowed {
            Reaction::Overflow
        } else {
            match rx_push(&mut self.rx, byte) {
                Ok(_) => Reaction::Pending,
                Err(_) => {
                    self.overflowed = true;
                    Reaction::Overflow
                },
            }
        }
    }
}

/// What the server has of the frame under way once all of `bytes` have
/// arrived, one after the other.
pub open spec fn receiving_after_all(before: Receiving, bytes: Seq<u8>) -> Receiving
    decreases bytes.len(),
{
    if bytes.len() == 0 {
        before
    } else {
        receiving_after(receiving_after_all(before, bytes.drop_last()), bytes.last())
    }
}

/// How the server reacts to byte number `at` of `bytes`, having been given
/// the bytes before it.
pub open spec fn reaction_at(
    before: Receiving,
    bytes: Seq<u8>,
    at: int,
    snapshot: Option<Measurement>,
) -> ReactionView {
    reaction_to(receiving_after_all(before, bytes.take(at)), bytes[at], snapshot)
}

/// Whether `bytes` holds no delimiter.
pub open spec fn delimiter_free(bytes: Seq<u8>) -> bool {
    forall|i: int| 0 <= i < bytes.len() ==> bytes[i] != DELIMITER
}

proof fn lemma_receiving_run(run: Seq<u8>)
    requires
        delimiter_free(run),
    ensures
        run.len() <= RX_CAPACITY ==> receiving_after_all(idle(), run) == (Receiving {
            buffer: run,
            overflowed: false,
        }),
        run.len() > RX_CAPACITY ==> receiving_after_all(idle(), run).overflowed,
    decreases run.len(),
{
    if run.len() > 0 {
        let front = run.drop_last();
        lemma_receiving_run(front);
        if run.len() <= RX_CAPACITY {
            assert(front.push(run.last()) =~= run);
        }
    } else {
        assert(run =~= Seq::<u8>::empty());
    }
}

/// However the server got where it is, the delimiter leaves it idle.
pub proof fn lemma_delimiter_resets(before: Receiving, bytes: Seq<u8>)
    requires
        bytes.len() > 0,
        bytes.last() == DELIMITER,
    ensures
        receiving_after_all(before, bytes) == idle(),
{
}

/// What becomes of a run of bytes that an idle server is given before a
/// delimiter. While the run arrives the server says nothing: it keeps the
/// bytes, or reports that they no longer fit. At the delimiter the run alone
/// decides: if it is the stuffed body of a request, the reply is the frame of
/// the response to that request, and if it is anything else nothing is sent.
pub proof fn lemma_run_decides_reaction(run: Seq<u8>, snapshot: Option<Measurement>)
    requires
        delimiter_free(run),
    ensures
        forall|at: int|
            0 <= at < run.len() ==> #[trigger] reaction_at(idle(), run, at, snapshot)
                is Pending || reaction_at(idle(), run, at, snapshot) is Overflow,
        reaction_to(receiving_after_all(idle(), run), DELIMITER, snapshot) == match request_in(
            run,
        ) {
            Ok(request) => ReactionView::Reply(response_frame(response_to(request, snapshot))),
            Err(error) => ReactionView::Discarded(error),
        },
{
    lemma_receiving_run(run);
    assert forall|at: int| 0 <= at < run.len() implies #[trigger] reaction_at(
        idle(),
        run,
        at,
        snapshot,
    ) is Pending || reaction_at(idle(), run, at, snapshot) is Overflow by {
        assert(run[at] != DELIMITER);
    }
}

/// An idle server that is given the frame of a request stays silent up to
/// the delimiter and replies there with the frame of the response: the
/// measurement that the store holds, or `NotReady` while it holds none.
pub proof fn lemma_request_is_answered(request: Host2Target, snapshot: Option<Measurement>)
    ensures
        forall|at: int|
            0 <= at < request_frame(request).len() - 1 ==> #[trigger] reaction_at(
                idle(),
                request_frame(request),
                at,
                snapshot,
            ) is Pending,
        reaction_at(idle(), request_frame(request), request_frame(request).len() - 1, snapshot)
            == ReactionView::Reply(response_frame(response_to(request, snapshot))),
        response_to(request, snapshot) == match snapshot {
            Some(measurement) => Target2Host::Measurement(measurement),
            None => Target2Host::NotReady,
        },
        receiving_after_all(idle(), request_frame(request)) == idle(),
{
    let frame = request_frame(request);
    let run = stuffed(request_body(request));
    lemma_stuffed_len(request_body(request));
    assert(frame.take(frame.len() - 1) =~= run);
    assert forall|i: int| 0 <= i < run.len() implies run[i] != DELIMITER by {
        lemma_stuffed_has_no_zero(request_body(request), i);
    }
    lemma_unstuffed_stuffed(request_body(request));
    lemma_run_decides_reaction(run, snapshot);
    assert forall|at: int| 0 <= at < frame.len() - 1 implies #[trigger] reaction_at(
        idle(),
        frame,
        at,
        snapshot,
    ) is Pending by {
        let front = frame.take(at);
        assert(front =~= run.take(at));
        assert forall|i: int| 0 <= i < front.len() implies front[i] != DELIMITER by {
            assert(front[i] == run[i]);
        }
        lemma_receiving_run(front);
    }
}

/// An idle server that is given a run of bytes which is not the stuffed body
/// of a request, and then the delimiter, sends nothing and is idle again.
pub proof fn lemma_malformed_frame_is_dropped(run: Seq<u8>, snapshot: Option<Measurement>)
    requires
        delimiter_free(run),
        request_in(run) is Err,
    ensures
        forall|at: int|
            0 <= at <= run.len() ==> !(#[trigger] reaction_at(
                idle(),
                run.push(DELIMITER),
                at,
                snapshot,
            ) is Reply),
        receiving_after_all(idle(), run.push(DELIMITER)) == idle(),
{
    let bytes = run.push(DELIMITER);
    lemma_run_decides_reaction(run, snapshot);
    assert forall|at: int| 0 <= at <= run.len() implies !(#[trigger] reaction_at(
        idle(),
        bytes,
        at,
        snapshot,
    ) is Reply) by {
        if at < run.len() {
            assert(bytes[at] != DELIMITER);
        } else {
            assert(bytes.take(at) =~= run);
        }
    }
}

} // verus!
