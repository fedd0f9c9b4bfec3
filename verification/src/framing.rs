//! Frames: a body with its zero bytes stuffed away, closed by one zero byte.
//!
//! A body is cut at its zero bytes into runs. Each run is sent behind a code
//! byte that holds the length of the run plus one, and the zero bytes
//! themselves are not sent: a code byte that is followed by more bytes stands
//! for the zero that ended its run.

use crate::packet::Packet;
use vstd::prelude::*;

verus! {

/// The longest body that fits a packet once it is framed.
pub const MAX_BODY: usize = 62;

/// The byte that ends every frame and occurs nowhere else in it.
pub const DELIMITER: u8 = 0;

/// How many bytes of `body` come before its first zero byte.
pub open spec fn run_length(body: Seq<u8>) -> nat
    decreases body.len(),
{
    if body.len() == 0 || body[0] == 0 {
        0
    } else {
        1 + run_length(body.skip(1))
    }
}

/// The body with its zero bytes stuffed away.
pub open spec fn stuffed(body: Seq<u8>) -> Seq<u8>
    decreases body.len(),
{
    let run = run_length(body) as int;
    if run >= body.len() {
        seq![(run + 1) as u8] + body
    } else {
        seq![(run + 1) as u8] + body.take(run) + stuffed(body.skip(run + 1))
    }
}

/// The frame that carries `body`.
pub open spec fn framed(body: Seq<u8>) -> Seq<u8> {
    stuffed(body).push(DELIMITER)
}

/// `tail` with `head` put before it, where there is a tail.
pub open spec fn prepended(head: Seq<u8>, tail: Option<Seq<u8>>) -> Option<Seq<u8>> {
    match tail {
        Some(rest) => Some(head + rest),
        None => None,
    }
}

/// Reads `bytes` as code bytes and runs: each code byte must be followed by
/// one byte less than it says, none of them zero, and stands for a zero byte
/// itself unless it is the last one.
pub open spec fn unstuffed_runs(bytes: Seq<u8>) -> Option<Seq<u8>>
    decreases bytes.len(),
{
    if bytes.len() == 0 {
        None
    } else {
        let code = bytes[0] as int;
        if code == 0 || code > bytes.len() {
            None
        } else {
            let run = bytes.subrange(1, code);
            if run_length(run) < run.len() {
                None
            } else if code == bytes.len() {
                Some(run)
            } else {
                prepended(run.push(0), unstuffed_runs(bytes.skip(code)))
            }
        }
    }
}

/// The body that the stuffed bytes `bytes` stand for, if they stand for one
/// of at most [`MAX_BODY`] bytes.
pub open spec fn unstuffed(bytes: Seq<u8>) -> Option<Seq<u8>> {
    if bytes.len() <= MAX_BODY + 1 {
        unstuffed_runs(bytes)
    } else {
        None
    }
}

/// The body that `frame` carries, if it is a frame.
pub open spec fn unframed(frame: Seq<u8>) -> Option<Seq<u8>> {
    if frame.len() > 0 && frame.last() == DELIMITER {
        unstuffed(frame.drop_last())
    } else {
        None
    }
}

proof fn lemma_run_length(body: Seq<u8>)
    ensures
        run_length(body) <= body.len(),
        forall|i: int| 0 <= i < run_length(body) ==> body[i] != 0,
        run_length(body) < body.len() ==> body[run_length(body) as int] == 0,
    decreases body.len(),
{
    if body.len() > 0 && body[0] != 0 {
        let rest = body.skip(1);
        lemma_run_length(rest);
        assert forall|i: int| 0 <= i < run_length(body) implies body[i] != 0 by {
            if i > 0 {
                assert(body[i] == rest[i - 1]);
            }
        }
        if run_length(body) < body.len() {
            assert(body[run_length(body) as int] == rest[run_length(rest) as int]);
        }
    }
}

proof fn lemma_run_ends_at(body: Seq<u8>, end: int)
    requires
        0 <= end <= body.len(),
        forall|i: int| 0 <= i < end ==> body[i] != 0,
        end < body.len() ==> body[end] == 0,
    ensures
        run_length(body) == end,
    decreases body.len(),
{
    if end > 0 {
        let rest = body.skip(1);
        assert forall|i: int| 0 <= i < end - 1 implies rest[i] != 0 by {
            assert(rest[i] == body[i + 1]);
        }
        lemma_run_ends_at(rest, end - 1);
    }
}

/// Stuffing adds exactly one byte.
pub proof fn lemma_stuffed_len(body: Seq<u8>)
    ensures
        stuffed(body).len() == body.len() + 1,
    decreases body.len(),
{
    lemma_run_length(body);
    let run = run_length(body) as int;
    if run < body.len() {
        lemma_stuffed_len(body.skip(run + 1));
    }
}

/// No zero byte is left in a stuffed body.
pub proof fn lemma_stuffed_has_no_zero(body: Seq<u8>, i: int)
    requires
        body.len() <= MAX_BODY,
        0 <= i < stuffed(body).len(),
    ensures
        stuffed(body)[i] != 0,
    decreases body.len(),
{
    lemma_run_length(body);
    lemma_stuffed_len(body);
    let run = run_length(body) as int;
    if run < body.len() {
        let rest = body.skip(run + 1);
        lemma_stuffed_len(rest);
        if i > run {
            lemma_stuffed_has_no_zero(rest, i - run - 1);
        }
    }
}

proof fn lemma_runs_of_stuffed(body: Seq<u8>)
    requires
        body.len() <= MAX_BODY,
    ensures
        unstuffed_runs(stuffed(body)) == Some(body),
    decreases body.len(),
{
    lemma_run_length(body);
    lemma_stuffed_len(body);
    let run = run_length(body) as int;
    let bytes = stuffed(body);
    let code = run + 1;
    assert(bytes[0] == code);
    if run >= body.len() {
        assert(bytes.subrange(1, code) =~= body);
    } else {
        let rest = body.skip(run + 1);
        let head = body.take(run);
        lemma_stuffed_len(rest);
        assert(bytes.subrange(1, code) =~= head);
        lemma_run_ends_at(head, run);
        assert(bytes.skip(code) =~= stuffed(rest));
        lemma_runs_of_stuffed(rest);
        assert(head.push(0) + rest =~= body);
    }
}

proof fn lemma_stuffed_of_runs(bytes: Seq<u8>, body: Seq<u8>)
    requires
        unstuffed_runs(bytes) == Some(body),
    ensures
        stuffed(body) == bytes,
    decreases bytes.len(),
{
    let code = bytes[0] as int;
    let run = bytes.subrange(1, code);
    lemma_run_length(run);
    if code == bytes.len() {
        assert(stuffed(body) =~= bytes);
    } else {
        let rest = unstuffed_runs(bytes.skip(code)).unwrap();
        lemma_stuffed_of_runs(bytes.skip(code), rest);
        assert(body == run.push(0) + rest);
        lemma_run_ends_at(body, code - 1);
        assert(body.take(code - 1) =~= run);
        assert(body.skip(code) =~= rest);
        assert(stuffed(body) =~= bytes);
    }
}

/// Unstuffing undoes stuffing.
pub proof fn lemma_unstuffed_stuffed(body: Seq<u8>)
    requires
        body.len() <= MAX_BODY,
    ensures
        unstuffed(stuffed(body)) == Some(body),
{
    lemma_stuffed_len(body);
    lemma_runs_of_stuffed(body);
}

/// Only the stuffed form of a body unstuffs to that body.
pub proof fn lemma_stuffed_unstuffed(bytes: Seq<u8>, body: Seq<u8>)
    requires
        unstuffed(bytes) == Some(body),
    ensures
        body.len() <= MAX_BODY,
        stuffed(body) == bytes,
{
    lemma_stuffed_of_runs(bytes, body);
    lemma_stuffed_len(body);
}

/// Opening a frame gives back the body that was framed.
pub proof fn lemma_unframed_framed(body: Seq<u8>)
    requires
        body.len() <= MAX_BODY,
    ensures
        unframed(framed(body)) == Some(body),
{
    assert(framed(body).drop_last() =~= stuffed(body));
    lemma_unstuffed_stuffed(body);
}

/// Only the frame of a body opens to that body.
pub proof fn lemma_framed_unframed(frame: Seq<u8>, body: Seq<u8>)
    requires
        unframed(frame) == Some(body),
    ensures
        body.len() <= MAX_BODY,
        framed(body) == frame,
{
    lemma_stuffed_unstuffed(frame.drop_last(), body);
    assert(frame.drop_last().push(DELIMITER) =~= frame);
}

/// The delimiter is the last byte of a frame and occurs nowhere before it.
pub proof fn lemma_framed_ends_at_first_zero(body: Seq<u8>)
    requires
        body.len() <= MAX_BODY,
    ensures
        framed(body).len() == body.len() + 2,
        framed(body).last() == DELIMITER,
        forall|i: int| 0 <= i < framed(body).len() - 1 ==> framed(body)[i] != DELIMITER,
{
    lemma_stuffed_len(body);
    assert forall|i: int| 0 <= i < framed(body).len() - 1 implies framed(body)[i]
        != DELIMITER by {
        lemma_stuffed_has_no_zero(body, i);
    }
}

/// Frames `body`: stuffs its zero bytes away and closes it with the
/// delimiter. A body longer than [`MAX_BODY`] fits no packet and gives
/// `None`.
pub fn frame(body: &[u8]) -> (frame: Option<Packet>)
    ensures
        frame is Some <==> body@.len() <= MAX_BODY,
        frame matches Some(packet) ==> packet@ == framed(body@),
{
    if body.len() > MAX_BODY {
        None
    } else {
        Some(frame_bounded(body))
    }
}

/// Frames a body that is known to fit.
pub(crate) fn frame_bounded(body: &[u8]) -> (frame: Packet)
    requires
        body@.len() <= MAX_BODY,
    ensures
        frame@ == framed(body@),
{
    let n = body.len();
    let mut out = Packet::new();
    out.push(0);
    let mut code_at: usize = 0;
    let mut i: usize = 0;
    proof {
        assert(body@.skip(0) =~= body@);
        assert(out@.take(0) + stuffed(body@) =~= stuffed(body@));
    }
    while i < n
        invariant
            n == body@.len(),
            n <= MAX_BODY,
            code_at <= i <= n,
            out@.len() == i + 1,
            stuffed(body@) == out@.take(code_at as int) + stuffed(body@.skip(code_at as int)),
            out@.subrange(code_at + 1, i + 1) == body@.subrange(code_at as int, i as int),
            forall|k: int| code_at <= k < i ==> body@[k] != 0,
        decreases n - i,
    {
        let byte = body[i];
        if byte == 0 {
            let ghost before = out@;
            let ghost tail = body@.skip(code_at as int);
            out.set(code_at, (i - code_at + 1) as u8);
            out.push(0);
            proof {
                assert forall|k: int| 0 <= k < i - code_at implies tail[k] != 0 by {
                    assert(tail[k] == body@[code_at + k]);
                }
                lemma_run_ends_at(tail, i - code_at);
                assert(tail.take(i - code_at) =~= body@.subrange(code_at as int, i as int));
                assert(tail.skip(i - code_at + 1) =~= body@.skip(i + 1));
                assert(out@.take(i + 1) =~= before.take(code_at as int) + seq![
                    (i - code_at + 1) as u8,
                ] + before.subrange(code_at + 1, i + 1));
            }
            code_at = i + 1;
            assert(out@.subrange(code_at + 1, i + 2) =~= body@.subrange(
                code_at as int,
                i + 1,
            ));
        } else {
            let ghost before = out@;
            out.push(byte);
            assert(out@.take(code_at as int) =~= before.take(code_at as int));
            assert(out@.subrange(code_at + 1, i + 2) =~= body@.subrange(
                code_at as int,
                i + 1,
            ));
        }
        i += 1;
    }
    let ghost before = out@;
    let ghost tail = body@.skip(code_at as int);
    out.set(code_at, (n - code_at + 1) as u8);
    proof {
        assert forall|k: int| 0 <= k < n - code_at implies tail[k] != 0 by {
            assert(tail[k] == body@[code_at + k]);
        }
        lemma_run_ends_at(tail, n - code_at);
        assert(tail =~= body@.subrange(code_at as int, n as int));
        assert(out@ =~= before.take(code_at as int) + seq![(n - code_at + 1) as u8]
            + before.subrange(code_at + 1, n + 1));
        assert(out@ == stuffed(body@));
    }
    out.push(DELIMITER);
    out
}

fn unstuff_bounded(bytes: &[u8]) -> (body: Option<Packet>)
    requires
        0 < bytes@.len() <= MAX_BODY + 1,
    ensures
        match body {
            Some(packet) => unstuffed_runs(bytes@) == Some(packet@),
            None => unstuffed_runs(bytes@) is None,
        },
{
    let n = bytes.len();
    let mut out = Packet::new();
    let mut at: usize = 0;
    proof {
        assert(bytes@.skip(0) =~= bytes@);
        let whole = unstuffed_runs(bytes@);
        if whole is Some {
            assert(out@ + whole.unwrap() =~= whole.unwrap());
        }
    }
    loop
        invariant
            n == bytes@.len(),
            n <= MAX_BODY + 1,
            at < n,
            out@.len() <= at,
            unstuffed_runs(bytes@) == prepended(out@, unstuffed_runs(bytes@.skip(at as int))),
        decreases n - at,
    {
        let ghost rest = bytes@.skip(at as int);
        let ghost done = out@;
        let code = bytes[at] as usize;
        assert(rest[0] == bytes@[at as int]);
        if code == 0 || code > n - at {
            return None;
        }
        let end = at + code;
        let mut j = at + 1;
        while j < end
            invariant
                n == bytes@.len(),
                n <= MAX_BODY + 1,
                at < j <= end <= n,
                rest == bytes@.skip(at as int),
                code == rest[0],
                end == at + code,
                out@ == done + bytes@.subrange(at + 1, j as int),
                done.len() <= at,
                forall|k: int| at < k < j ==> bytes@[k] != 0,
                unstuffed_runs(bytes@) == prepended(done, unstuffed_runs(rest)),
            decreases end - j,
        {
            if bytes[j] == 0 {
                proof {
                    let run = rest.subrange(1, code as int);
                    lemma_run_length(run);
                    assert(run[j - at - 1] == bytes@[j as int]);
                }
                return None;
            }
            out.push(bytes[j]);
            assert(out@ =~= done + bytes@.subrange(at + 1, j + 1));
            j += 1;
        }
        proof {
            let run = rest.subrange(1, code as int);
            assert(run =~= bytes@.subrange(at + 1, end as int));
            assert forall|k: int| 0 <= k < run.len() implies run[k] != 0 by {
                assert(run[k] == bytes@[at + 1 + k]);
            }
            lemma_run_ends_at(run, run.len() as int);
        }
        if end == n {
            return Some(out);
        }
        out.push(0);
        proof {
            let run = rest.subrange(1, code as int);
            assert(rest.skip(code as int) =~= bytes@.skip(end as int));
            let tail = unstuffed_runs(bytes@.skip(end as int));
            assert(out@ =~= done + run.push(0));
            if tail is Some {
                assert(done + (run.push(0) + tail.unwrap()) =~= out@ + tail.unwrap());
            }
        }
        at = end;
    }
}

/// Undoes the stuffing of `bytes`.
pub fn unstuff(bytes: &[u8]) -> (body: Option<Packet>)
    ensures
        match body {
            Some(packet) => unstuffed(bytes@) == Some(packet@),
            None => unstuffed(bytes@) is None,
        },
{
    let n = bytes.len();
    if n == 0 || n > MAX_BODY + 1 {
        return None;
    }
    unstuff_bounded(bytes)
}

/// Opens a frame.
pub fn unframe(frame: &[u8]) -> (body: Option<Packet>)
    ensures
        match body {
            Some(packet) => unframed(frame@) == Some(packet@),
            None => unframed(frame@) is None,
        },
{
    let n = frame.len();
    if n == 0 || frame[n - 1] != DELIMITER {
        return None;
    }
    let stuffed_part = vstd::slice::slice_subrange(frame, 0, n - 1);
    assert(stuffed_part@ =~= frame@.drop_last());
    unstuff(stuffed_part)
}

} // verus!
