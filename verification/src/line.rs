//! What arrives at the other end of the serial line.
//!
//! A message is received in as many reads as the serial port happens to need for it.
//! The statements in this module are about all the reads together.
use vstd::prelude::*;

verus! {

use crate::cobs::{cobs_decoded, cobs_encoded, is_terminated, zero_index};
use crate::cobs::{law_decoding_undoes_encoding, law_encoding_bound_is_reached};
use crate::cobs::lemma_encoded_bound_monotonic;
use crate::cobs::{lemma_zero_index, lemma_zero_index_skips};
use crate::error::{ErrorView, SerialErrorView};
use crate::packets::{encode_packets, law_parse_returns_the_encoded_packets, lengths_fit, payload_result};
use crate::protocol::{buffer_size, decoded_result, is_incomplete};
use crate::protocol::{may_start_message, message_size, preamble, read_step, sync_offset, synchronized};
use crate::protocol::{ReadStep, PREAMBLE_SIZE};

/// The concatenation of the bytes of all reads.
pub open spec fn joined(reads: Seq<Seq<u8>>) -> Seq<u8>
    decreases reads.len(),
{
    if reads.len() == 0 {
        Seq::empty()
    } else {
        reads.first() + joined(reads.drop_first())
    }
}

/// What comes of a number of reads.
pub enum ReadOutcome {
    /// The message is not complete. These bytes are pending.
    Waiting(Seq<u8>),
    /// The message is received or given up.
    Done(Result<Seq<Seq<u8>>, ErrorView>),
}

/// The outcome when the receive buffer is full.
pub open spec fn buffer_full(max_payload_size: usize) -> ReadOutcome {
    ReadOutcome::Done(Err(ErrorView::BufferFull { max_payload_size }))
}

/// What comes of the given reads, when the bytes in `pending` were kept from earlier reads.
///
/// Before each read the receive buffer must have space.
pub open spec fn read_all(max_payload_size: usize, pending: Seq<u8>, reads: Seq<Seq<u8>>) -> ReadOutcome
    decreases reads.len(),
{
    if pending.len() >= buffer_size(max_payload_size) {
        buffer_full(max_payload_size)
    } else if reads.len() == 0 {
        ReadOutcome::Waiting(pending)
    } else {
        match read_step(max_payload_size, pending, reads.first()) {
            ReadStep::More(kept) => read_all(max_payload_size, kept, reads.drop_first()),
            ReadStep::Done(result) => ReadOutcome::Done(result),
        }
    }
}

/// Each read that is made gives at least one byte, and no more bytes than there is space for.
pub open spec fn reads_fit(max_payload_size: usize, pending: Seq<u8>, reads: Seq<Seq<u8>>) -> bool
    decreases reads.len(),
{
    reads.len() == 0 || pending.len() >= buffer_size(max_payload_size) || {
        &&& 0 < reads.first().len() <= buffer_size(max_payload_size) - pending.len()
        &&& read_step(max_payload_size, pending, reads.first()) matches ReadStep::More(kept) ==> reads_fit(
            max_payload_size,
            kept,
            reads.drop_first(),
        )
    }
}

/// The preamble is somewhere in the bytes.
pub open spec fn holds_preamble(bytes: Seq<u8>) -> bool {
    exists|i: int|
        0 <= i <= bytes.len() - PREAMBLE_SIZE && #[trigger] bytes.subrange(i, i + PREAMBLE_SIZE)
            == preamble()
}

/// The bytes on the line: garbage, a message, and whatever comes after it.
pub open spec fn on_the_line(garbage: Seq<u8>, stuffed: Seq<u8>, trailing: Seq<u8>) -> Seq<u8> {
    garbage + preamble() + stuffed + trailing
}

/// Whoever receives this message receives this payload.
///
/// Whatever garbage without a preamble comes before the message, whatever comes after it,
/// and whatever portions it arrives in:
/// if the payload is no larger than the maximum payload size, the outcome is that of the payload,
/// and otherwise the message is refused as too large.
pub open spec fn is_received_as(message: Seq<u8>, payload: Seq<u8>) -> bool {
    forall|
        max_payload_size: usize,
        garbage: Seq<u8>,
        trailing: Seq<u8>,
        reads: Seq<Seq<u8>>,
    |
        #![trigger read_all(max_payload_size, Seq::empty(), reads), garbage + message + trailing]
        {
            &&& !holds_preamble(garbage)
            &&& joined(reads) == garbage + message + trailing
            &&& reads_fit(max_payload_size, Seq::empty(), reads)
        } ==> read_all(max_payload_size, Seq::empty(), reads) == (if payload.len()
            <= max_payload_size {
            ReadOutcome::Done(payload_result(payload))
        } else {
            buffer_full(max_payload_size)
        })
}

/// What comes of the bytes of a stream from the `n`-th on, read one at a time.
spec fn read_bytes(max_payload_size: usize, stream: Seq<u8>, n: int) -> ReadOutcome
    decreases stream.len() - n,
{
    let kept = synchronized(stream.take(n));
    match message_size(kept) {
        Some(size) => ReadOutcome::Done(
            decoded_result(
                max_payload_size,
                cobs_decoded(kept.subrange(PREAMBLE_SIZE as int, size)),
            ),
        ),
        None => if kept.len() >= buffer_size(max_payload_size) {
            buffer_full(max_payload_size)
        } else if n >= stream.len() {
            ReadOutcome::Waiting(kept)
        } else {
            read_bytes(max_payload_size, stream, n + 1)
        },
    }
}

/// The synchronisation offset is the first place where a message may start.
proof fn lemma_sync_offset(bytes: Seq<u8>)
    ensures
        sync_offset(bytes) <= bytes.len(),
        may_start_message(synchronized(bytes)),
        forall|i: int| 0 <= i < sync_offset(bytes) ==> !may_start_message(#[trigger] bytes.skip(i)),
    decreases bytes.len(),
{
    if bytes.len() == 0 || may_start_message(bytes) {
        assert(bytes.skip(0) =~= bytes);
    } else {
        let rest = bytes.skip(1);
        lemma_sync_offset(rest);
        assert(rest.skip(sync_offset(rest) as int) =~= bytes.skip(sync_offset(bytes) as int));
        assert forall|i: int| 0 <= i < sync_offset(bytes) implies !may_start_message(
            #[trigger] bytes.skip(i),
        ) by {
            if i == 0 {
                assert(bytes.skip(0) =~= bytes);
            } else {
                assert(rest.skip(i - 1) =~= bytes.skip(i));
            }
        }
    }
}

/// Only the first place where a message may start is the synchronisation offset.
proof fn lemma_sync_offset_is(bytes: Seq<u8>, offset: int)
    requires
        0 <= offset <= bytes.len(),
        may_start_message(bytes.skip(offset)),
        forall|i: int| 0 <= i < offset ==> !may_start_message(#[trigger] bytes.skip(i)),
    ensures
        sync_offset(bytes) == offset,
{
    lemma_sync_offset(bytes);
    if sync_offset(bytes) < offset {
        assert(!may_start_message(bytes.skip(sync_offset(bytes) as int)));
    } else if sync_offset(bytes) > offset {
        assert(!may_start_message(bytes.skip(offset)));
    }
}

/// Garbage can be discarded at any time.
proof fn lemma_synchronized_append(bytes: Seq<u8>, more: Seq<u8>)
    ensures
        synchronized(synchronized(bytes) + more) == synchronized(bytes + more),
    decreases bytes.len(),
{
    if bytes.len() == 0 || may_start_message(bytes) {
        assert(synchronized(bytes) =~= bytes);
    } else {
        let rest = bytes.skip(1);
        lemma_synchronized_append(rest, more);
        let bad = choose|i: int|
            0 <= i < bytes.len() && i < PREAMBLE_SIZE && bytes[i] != preamble()[i];
        assert((bytes + more)[bad] != preamble()[bad]);
        assert((bytes + more).skip(1) =~= rest + more);
        lemma_sync_offset(rest);
        lemma_sync_offset(rest + more);
        assert(synchronized(bytes) =~= synchronized(rest));
        assert(synchronized(bytes + more) =~= synchronized(rest + more));
    }
}

/// Once the whole preamble is there, nothing is discarded any more.
proof fn lemma_synchronized_stays(bytes: Seq<u8>, more: Seq<u8>)
    requires
        synchronized(bytes).len() >= PREAMBLE_SIZE,
    ensures
        synchronized(bytes + more) == synchronized(bytes) + more,
{
    lemma_synchronized_append(bytes, more);
    lemma_sync_offset(bytes);
    let kept = synchronized(bytes);
    assert(may_start_message(kept + more));
    assert((kept + more).skip(0) =~= kept + more);
}

/// Each byte adds at most one byte to the message.
proof fn lemma_synchronized_grows_slowly(bytes: Seq<u8>, more: Seq<u8>)
    ensures
        synchronized(bytes + more).len() <= synchronized(bytes).len() + more.len(),
{
    lemma_synchronized_append(bytes, more);
    lemma_sync_offset(synchronized(bytes) + more);
}

/// Bytes after the end of a message do not change the message.
proof fn lemma_message_stays(bytes: Seq<u8>, more: Seq<u8>)
    requires
        message_size(bytes) is Some,
    ensures
        message_size(bytes + more) == message_size(bytes),
        message_size(bytes)->0 > PREAMBLE_SIZE,
        message_size(bytes)->0 <= bytes.len(),
        (bytes + more).subrange(PREAMBLE_SIZE as int, message_size(bytes)->0) == bytes.subrange(
            PREAMBLE_SIZE as int,
            message_size(bytes)->0,
        ),
{
    let from = PREAMBLE_SIZE as int;
    lemma_zero_index(bytes, from);
    let zero = zero_index(bytes, from);
    assert forall|i: int| from <= i < zero implies (bytes + more)[i] != 0 by {
        assert(bytes[i] != 0);
    }
    lemma_zero_index_skips(bytes + more, from, zero);
    assert((bytes + more)[zero] == 0);
    assert((bytes + more).subrange(from, zero + 1) =~= bytes.subrange(from, zero + 1));
}

/// Reading a few bytes at once comes to the same as reading them one at a time.
proof fn lemma_read_together(max_payload_size: usize, stream: Seq<u8>, n: int, m: int)
    requires
        0 <= n <= m <= stream.len(),
        message_size(synchronized(stream.take(n))) is None,
        synchronized(stream.take(n)).len() + (m - n) <= buffer_size(max_payload_size),
    ensures
        read_bytes(max_payload_size, stream, n) == read_bytes(max_payload_size, stream, m),
    decreases m - n,
{
    reveal_with_fuel(read_bytes, 2);
    if n < m {
        let more = stream.subrange(n, n + 1);
        assert(stream.take(n) + more =~= stream.take(n + 1));
        lemma_synchronized_grows_slowly(stream.take(n), more);
        let next = synchronized(stream.take(n + 1));
        if message_size(next) is Some {
            let rest = stream.subrange(n + 1, m);
            lemma_message_stays(next, rest);
            assert(stream.take(n + 1) + rest =~= stream.take(m));
            lemma_synchronized_stays(stream.take(n + 1), rest);
        } else {
            lemma_read_together(max_payload_size, stream, n + 1, m);
        }
    }
}

/// The outcome of reads that fit is that of reading the bytes one at a time.
proof fn lemma_read_all(max_payload_size: usize, stream: Seq<u8>, n: int, reads: Seq<Seq<u8>>)
    requires
        0 <= n <= stream.len(),
        message_size(synchronized(stream.take(n))) is None,
        stream.skip(n) == joined(reads),
        reads_fit(max_payload_size, synchronized(stream.take(n)), reads),
    ensures
        read_all(max_payload_size, synchronized(stream.take(n)), reads) == read_bytes(
            max_payload_size,
            stream,
            n,
        ),
    decreases reads.len(),
{
    let pending = synchronized(stream.take(n));
    if pending.len() >= buffer_size(max_payload_size) {
    } else if reads.len() == 0 {
        assert(stream.skip(n).len() == 0);
    } else {
        let bytes = reads.first();
        let m = n + bytes.len();
        assert(stream.skip(n) == bytes + joined(reads.drop_first()));
        assert(stream.skip(n).len() == stream.len() - n);
        assert(stream.skip(n).take(bytes.len() as int) =~= bytes);
        assert(stream.take(n) + bytes =~= stream.take(m));
        lemma_synchronized_append(stream.take(n), bytes);
        lemma_read_together(max_payload_size, stream, n, m);
        if message_size(synchronized(stream.take(m))) is None {
            assert(stream.skip(m) =~= joined(reads.drop_first())) by {
                assert(stream.skip(m) =~= stream.skip(n).skip(bytes.len() as int));
            }
            lemma_read_all(max_payload_size, stream, m, reads.drop_first());
        }
    }
}

/// The outcome of reads that fit is that of reading the bytes of the stream one at a time.
proof fn lemma_read_stream(max_payload_size: usize, reads: Seq<Seq<u8>>)
    requires
        reads_fit(max_payload_size, Seq::empty(), reads),
    ensures
        read_all(max_payload_size, Seq::empty(), reads) == read_bytes(
            max_payload_size,
            joined(reads),
            0,
        ),
{
    let stream = joined(reads);
    assert(synchronized(stream.take(0)) =~= Seq::empty());
    assert(stream.skip(0) =~= stream);
    lemma_read_all(max_payload_size, stream, 0, reads);
}

/// How the bytes arrive makes no difference:
/// when the same bytes come in other portions, the outcome is the same.
pub proof fn law_portions_do_not_matter(max_payload_size: usize, a: Seq<Seq<u8>>, b: Seq<Seq<u8>>)
    requires
        joined(a) == joined(b),
        reads_fit(max_payload_size, Seq::empty(), a),
        reads_fit(max_payload_size, Seq::empty(), b),
    ensures
        read_all(max_payload_size, Seq::empty(), a) == read_all(max_payload_size, Seq::empty(), b),
{
    lemma_read_stream(max_payload_size, a);
    lemma_read_stream(max_payload_size, b);
}

/// While only garbage has arrived, at most the first three bytes of the preamble are kept.
proof fn lemma_garbage_is_dropped(garbage: Seq<u8>)
    requires
        !holds_preamble(garbage),
    ensures
        synchronized(garbage).len() < PREAMBLE_SIZE,
{
    lemma_sync_offset(garbage);
    let kept = synchronized(garbage);
    if kept.len() >= PREAMBLE_SIZE {
        let i = sync_offset(garbage) as int;
        assert(garbage.subrange(i, i + PREAMBLE_SIZE) =~= preamble()) by {
            assert forall|k: int| 0 <= k < PREAMBLE_SIZE implies garbage[i + k] == preamble()[k] by {
                assert(kept[k] == garbage[i + k]);
            }
        }
    }
}

/// As soon as the first byte of the preamble has arrived after garbage, the reader has found the message.
proof fn lemma_message_is_found(garbage: Seq<u8>, message: Seq<u8>)
    requires
        !holds_preamble(garbage),
        message.len() > 0,
        may_start_message(message),
    ensures
        synchronized(garbage + message) == message,
{
    let bytes = garbage + message;
    assert(bytes.skip(garbage.len() as int) =~= message);
    assert(message[0] == preamble()[0]);
    assert forall|i: int| 0 <= i < garbage.len() implies !may_start_message(
        #[trigger] bytes.skip(i),
    ) by {
        let rest = bytes.skip(i);
        let gap = garbage.len() - i;
        if may_start_message(rest) {
            if gap < PREAMBLE_SIZE {
                assert(rest[gap] == message[0]);
                assert(rest[gap] == preamble()[gap]);
            } else {
                assert(garbage.subrange(i, i + PREAMBLE_SIZE) =~= preamble()) by {
                    assert forall|k: int| 0 <= k < PREAMBLE_SIZE implies garbage[i + k]
                        == preamble()[k] by {
                        assert(rest[k] == garbage[i + k]);
                    }
                }
            }
        }
    }
    lemma_sync_offset_is(bytes, garbage.len() as int);
}

/// What the reader has kept after `n` bytes of garbage, a message and more,
/// as long as the end of the message has not arrived.
proof fn lemma_before_the_end(garbage: Seq<u8>, stuffed: Seq<u8>, trailing: Seq<u8>, n: int)
    requires
        !holds_preamble(garbage),
        is_terminated(stuffed),
        0 <= n < garbage.len() + PREAMBLE_SIZE + stuffed.len(),
    ensures
        ({
            let stream = on_the_line(garbage, stuffed, trailing);
            let kept = synchronized(stream.take(n));
            &&& message_size(kept) is None
            &&& n <= garbage.len() ==> kept.len() < PREAMBLE_SIZE
            &&& n > garbage.len() ==> kept.len() == n - garbage.len()
        }),
{
    let stream = on_the_line(garbage, stuffed, trailing);
    let kept = synchronized(stream.take(n));
    let from = PREAMBLE_SIZE as int;
    if n <= garbage.len() {
        let part = garbage.take(n);
        assert(stream.take(n) =~= part);
        assert(!holds_preamble(part)) by {
            if holds_preamble(part) {
                let i = choose|i: int|
                    0 <= i <= part.len() - PREAMBLE_SIZE && #[trigger] part.subrange(
                        i,
                        i + PREAMBLE_SIZE,
                    ) == preamble();
                assert(garbage.subrange(i, i + PREAMBLE_SIZE) =~= part.subrange(
                    i,
                    i + PREAMBLE_SIZE,
                ));
            }
        }
        lemma_garbage_is_dropped(part);
        lemma_zero_index(kept, from);
    } else {
        let message = preamble() + stuffed + trailing;
        let part = message.take(n - garbage.len());
        assert(stream.take(n) =~= garbage + part);
        lemma_message_is_found(garbage, part);
        lemma_zero_index(part, from);
        if part.len() > from {
            assert forall|i: int| from <= i < part.len() implies part[i] != 0 by {
                assert(part[i] == stuffed[i - from]);
            }
        }
    }
}

/// What the reader has when the end of the message has arrived.
proof fn lemma_at_the_end(garbage: Seq<u8>, stuffed: Seq<u8>, trailing: Seq<u8>)
    requires
        !holds_preamble(garbage),
        is_terminated(stuffed),
    ensures
        ({
            let stream = on_the_line(garbage, stuffed, trailing);
            let kept = synchronized(
                stream.take((garbage.len() + PREAMBLE_SIZE + stuffed.len()) as int),
            );
            &&& message_size(kept) == Some((PREAMBLE_SIZE + stuffed.len()) as int)
            &&& kept.subrange(PREAMBLE_SIZE as int, (PREAMBLE_SIZE + stuffed.len()) as int)
                == stuffed
        }),
{
    let stream = on_the_line(garbage, stuffed, trailing);
    let message = preamble() + stuffed;
    let from = PREAMBLE_SIZE as int;
    let zero = from + stuffed.len() - 1;
    assert(stream.take((garbage.len() + from + stuffed.len()) as int) =~= garbage + message);
    lemma_message_is_found(garbage, message);
    assert forall|i: int| from <= i < zero implies message[i] != 0 by {
        assert(message[i] == stuffed[i - from]);
    }
    lemma_zero_index_skips(message, from, zero);
    assert(message[zero] == stuffed.last());
    assert(message.subrange(from, zero + 1) =~= stuffed);
}

/// Reading on up to the end of a message that fits in the receive buffer.
proof fn lemma_read_to_the_end(
    max_payload_size: usize,
    garbage: Seq<u8>,
    stuffed: Seq<u8>,
    trailing: Seq<u8>,
    n: int,
)
    requires
        !holds_preamble(garbage),
        is_terminated(stuffed),
        PREAMBLE_SIZE + stuffed.len() <= buffer_size(max_payload_size),
        0 <= n <= garbage.len() + PREAMBLE_SIZE + stuffed.len(),
    ensures
        read_bytes(max_payload_size, on_the_line(garbage, stuffed, trailing), n)
            == ReadOutcome::Done(decoded_result(max_payload_size, cobs_decoded(stuffed))),
    decreases garbage.len() + PREAMBLE_SIZE + stuffed.len() - n,
{
    if n == garbage.len() + PREAMBLE_SIZE + stuffed.len() {
        lemma_at_the_end(garbage, stuffed, trailing);
    } else {
        lemma_before_the_end(garbage, stuffed, trailing, n);
        lemma_read_to_the_end(max_payload_size, garbage, stuffed, trailing, n + 1);
    }
}

/// Reading on until a message that does not fit in the receive buffer has filled it.
proof fn lemma_read_until_full(
    max_payload_size: usize,
    garbage: Seq<u8>,
    stuffed: Seq<u8>,
    trailing: Seq<u8>,
    n: int,
)
    requires
        !holds_preamble(garbage),
        is_terminated(stuffed),
        PREAMBLE_SIZE + stuffed.len() > buffer_size(max_payload_size),
        0 <= n <= garbage.len() + buffer_size(max_payload_size),
    ensures
        read_bytes(max_payload_size, on_the_line(garbage, stuffed, trailing), n) == buffer_full(
            max_payload_size,
        ),
    decreases garbage.len() + buffer_size(max_payload_size) - n,
{
    lemma_before_the_end(garbage, stuffed, trailing, n);
    if n < garbage.len() + buffer_size(max_payload_size) {
        lemma_read_until_full(max_payload_size, garbage, stuffed, trailing, n + 1);
    }
}

/// The message with a payload of up to the maximum payload size always fits in the receive buffer.
pub proof fn law_payload_fits(max_payload_size: usize, payload: Seq<u8>)
    requires
        payload.len() <= max_payload_size,
    ensures
        PREAMBLE_SIZE + cobs_encoded(payload).len() <= buffer_size(max_payload_size),
{
    law_decoding_undoes_encoding(payload);
    lemma_encoded_bound_monotonic(payload.len(), max_payload_size as nat);
}

/// A read gives back what was sent.
///
/// When the message with a payload of up to the maximum payload size arrives, the outcome is that of the payload,
/// whatever portions it arrives in, whatever garbage without a preamble comes before it,
/// and whatever comes after it.
pub proof fn law_read_returns_what_was_sent(
    max_payload_size: usize,
    payload: Seq<u8>,
    garbage: Seq<u8>,
    trailing: Seq<u8>,
    reads: Seq<Seq<u8>>,
)
    requires
        payload.len() <= max_payload_size,
        !holds_preamble(garbage),
        joined(reads) == on_the_line(garbage, cobs_encoded(payload), trailing),
        reads_fit(max_payload_size, Seq::empty(), reads),
    ensures
        read_all(max_payload_size, Seq::empty(), reads) == ReadOutcome::Done(
            payload_result(payload),
        ),
{
    law_decoding_undoes_encoding(payload);
    law_payload_fits(max_payload_size, payload);
    lemma_read_stream(max_payload_size, reads);
    lemma_read_to_the_end(max_payload_size, garbage, cobs_encoded(payload), trailing, 0);
}

/// The packets that one side puts in a message are the packets that the other side takes out of it,
/// if they take no more than the maximum payload size.
pub proof fn law_packets_arrive(
    max_payload_size: usize,
    packets: Seq<Seq<u8>>,
    garbage: Seq<u8>,
    trailing: Seq<u8>,
    reads: Seq<Seq<u8>>,
)
    requires
        lengths_fit(packets),
        encode_packets(packets).len() <= max_payload_size,
        !holds_preamble(garbage),
        joined(reads) == on_the_line(garbage, cobs_encoded(encode_packets(packets)), trailing),
        reads_fit(max_payload_size, Seq::empty(), reads),
    ensures
        read_all(max_payload_size, Seq::empty(), reads) == ReadOutcome::Done(Ok(packets)),
{
    law_read_returns_what_was_sent(
        max_payload_size,
        encode_packets(packets),
        garbage,
        trailing,
        reads,
    );
    law_parse_returns_the_encoded_packets(packets);
}

/// A payload that is larger than the maximum payload size is refused as too large,
/// whether or not its message fits in the receive buffer.
pub proof fn law_oversized_payload_is_refused(
    max_payload_size: usize,
    payload: Seq<u8>,
    garbage: Seq<u8>,
    trailing: Seq<u8>,
    reads: Seq<Seq<u8>>,
)
    requires
        payload.len() > max_payload_size,
        !holds_preamble(garbage),
        joined(reads) == on_the_line(garbage, cobs_encoded(payload), trailing),
        reads_fit(max_payload_size, Seq::empty(), reads),
    ensures
        read_all(max_payload_size, Seq::empty(), reads) == buffer_full(max_payload_size),
{
    let stuffed = cobs_encoded(payload);
    law_decoding_undoes_encoding(payload);
    lemma_read_stream(max_payload_size, reads);
    if PREAMBLE_SIZE + stuffed.len() <= buffer_size(max_payload_size) {
        lemma_read_to_the_end(max_payload_size, garbage, stuffed, trailing, 0);
    } else {
        lemma_read_until_full(max_payload_size, garbage, stuffed, trailing, 0);
    }
}

/// The message with a payload is received as that payload.
pub proof fn law_message_is_received_as_its_payload(payload: Seq<u8>)
    ensures
        is_received_as(preamble() + cobs_encoded(payload), payload),
{
    let stuffed = cobs_encoded(payload);
    let message = preamble() + stuffed;
    assert forall|
        max_payload_size: usize,
        garbage: Seq<u8>,
        trailing: Seq<u8>,
        reads: Seq<Seq<u8>>,
    |
        #![trigger read_all(max_payload_size, Seq::empty(), reads), garbage + message + trailing]
        {
            &&& !holds_preamble(garbage)
            &&& joined(reads) == garbage + message + trailing
            &&& reads_fit(max_payload_size, Seq::empty(), reads)
        } implies read_all(max_payload_size, Seq::empty(), reads) == (if payload.len()
        <= max_payload_size {
        ReadOutcome::Done(payload_result(payload))
    } else {
        buffer_full(max_payload_size)
    }) by {
        assert(garbage + message + trailing =~= on_the_line(garbage, stuffed, trailing));
        if payload.len() <= max_payload_size {
            law_read_returns_what_was_sent(max_payload_size, payload, garbage, trailing, reads);
        } else {
            law_oversized_payload_is_refused(max_payload_size, payload, garbage, trailing, reads);
        }
    }
}

/// The bytes that a reader keeps are always those of an incomplete message that fits in the receive buffer.
pub proof fn law_kept_bytes_are_incomplete(max_payload_size: usize, pending: Seq<u8>, bytes: Seq<u8>)
    requires
        is_incomplete(pending),
        pending.len() + bytes.len() <= buffer_size(max_payload_size),
    ensures
        read_step(max_payload_size, pending, bytes) matches ReadStep::More(kept) ==> {
            &&& is_incomplete(kept)
            &&& kept.len() <= buffer_size(max_payload_size)
        },
{
    lemma_sync_offset(pending + bytes);
}

/// What the reader has kept after `n` bytes of garbage, a preamble and more bytes,
/// as long as there was no zero byte after the preamble.
proof fn lemma_without_an_end(garbage: Seq<u8>, tail: Seq<u8>, n: int)
    requires
        !holds_preamble(garbage),
        0 <= n <= garbage.len() + PREAMBLE_SIZE + tail.len(),
        forall|i: int| 0 <= i < n - garbage.len() - PREAMBLE_SIZE ==> tail[i] != 0,
    ensures
        ({
            let kept = synchronized((garbage + preamble() + tail).take(n));
            &&& message_size(kept) is None
            &&& n <= garbage.len() ==> kept.len() < PREAMBLE_SIZE
            &&& n > garbage.len() ==> kept == (preamble() + tail).take(n - garbage.len())
        }),
{
    let count = n - garbage.len() - PREAMBLE_SIZE;
    let shown = if count > 0 {
        tail.take(count)
    } else {
        Seq::empty()
    };
    let stuffed = shown.push(0u8);
    lemma_before_the_end(garbage, stuffed, Seq::empty(), n);
    let part = (garbage + preamble() + tail).take(n);
    assert(on_the_line(garbage, stuffed, Seq::empty()).take(n) =~= part);
    if n > garbage.len() {
        let message = (preamble() + tail).take(n - garbage.len());
        assert(part =~= garbage + message);
        lemma_message_is_found(garbage, message);
    }
}

/// Reading on as long as there was no zero byte after the preamble, until the buffer is full or the bytes end.
proof fn lemma_read_without_an_end(max_payload_size: usize, garbage: Seq<u8>, tail: Seq<u8>, n: int)
    requires
        !holds_preamble(garbage),
        forall|i: int|
            0 <= i < tail.len() && i < buffer_size(max_payload_size) - PREAMBLE_SIZE ==> tail[i] != 0,
        0 <= n <= garbage.len() + PREAMBLE_SIZE + tail.len(),
        n <= garbage.len() + buffer_size(max_payload_size),
    ensures
        read_bytes(max_payload_size, garbage + preamble() + tail, n) == if PREAMBLE_SIZE + tail.len()
            >= buffer_size(max_payload_size) {
            buffer_full(max_payload_size)
        } else {
            ReadOutcome::Waiting(preamble() + tail)
        },
    decreases garbage.len() + PREAMBLE_SIZE + tail.len() - n,
{
    lemma_without_an_end(garbage, tail, n);
    let kept = synchronized((garbage + preamble() + tail).take(n));
    if kept.len() >= buffer_size(max_payload_size) {
    } else if n == garbage.len() + PREAMBLE_SIZE + tail.len() {
        assert((preamble() + tail).take(n - garbage.len()) =~= preamble() + tail);
    } else {
        lemma_read_without_an_end(max_payload_size, garbage, tail, n + 1);
    }
}

/// A message without an end is awaited as long as it may still fit in the receive buffer,
/// with nothing of it lost, and refused as too large when it has filled the buffer.
pub proof fn law_message_without_an_end(
    max_payload_size: usize,
    garbage: Seq<u8>,
    tail: Seq<u8>,
    reads: Seq<Seq<u8>>,
)
    requires
        !holds_preamble(garbage),
        forall|i: int|
            0 <= i < tail.len() && i < buffer_size(max_payload_size) - PREAMBLE_SIZE ==> tail[i] != 0,
        joined(reads) == garbage + preamble() + tail,
        reads_fit(max_payload_size, Seq::empty(), reads),
    ensures
        PREAMBLE_SIZE + tail.len() < buffer_size(max_payload_size) ==> read_all(
            max_payload_size,
            Seq::empty(),
            reads,
        ) == ReadOutcome::Waiting(preamble() + tail),
        PREAMBLE_SIZE + tail.len() >= buffer_size(max_payload_size) ==> read_all(
            max_payload_size,
            Seq::empty(),
            reads,
        ) == buffer_full(max_payload_size),
{
    lemma_read_stream(max_payload_size, reads);
    lemma_read_without_an_end(max_payload_size, garbage, tail, 0);
}

/// Reading on as long as only garbage arrives.
proof fn lemma_read_garbage(max_payload_size: usize, garbage: Seq<u8>, n: int)
    requires
        !holds_preamble(garbage),
        0 <= n <= garbage.len(),
    ensures
        read_bytes(max_payload_size, garbage, n) is Waiting,
        read_bytes(max_payload_size, garbage, n)->Waiting_0.len() < PREAMBLE_SIZE,
    decreases garbage.len() - n,
{
    lemma_without_an_end(garbage, Seq::empty(), n);
    assert((garbage + preamble() + Seq::empty()).take(n) =~= garbage.take(n));
    if n < garbage.len() {
        lemma_read_garbage(max_payload_size, garbage, n + 1);
    }
}

/// Garbage alone, however much of it, fills no buffer and ends no wait:
/// no more than a part of a preamble is kept of it.
pub proof fn law_garbage_is_skipped(max_payload_size: usize, reads: Seq<Seq<u8>>)
    requires
        !holds_preamble(joined(reads)),
        reads_fit(max_payload_size, Seq::empty(), reads),
    ensures
        read_all(max_payload_size, Seq::empty(), reads) matches ReadOutcome::Waiting(kept)
            && kept.len() < PREAMBLE_SIZE,
{
    lemma_read_stream(max_payload_size, reads);
    lemma_read_garbage(max_payload_size, joined(reads), 0);
}

/// Whatever comes between a preamble and the next zero byte is taken for an encoded payload, if it fits:
/// the message is refused as damaged if it can not be decoded, as too large if more comes of it than is allowed,
/// and otherwise the outcome is that of the decoded payload.
pub proof fn law_any_message_is_answered(
    max_payload_size: usize,
    garbage: Seq<u8>,
    stuffed: Seq<u8>,
    trailing: Seq<u8>,
    reads: Seq<Seq<u8>>,
)
    requires
        !holds_preamble(garbage),
        is_terminated(stuffed),
        PREAMBLE_SIZE + stuffed.len() <= buffer_size(max_payload_size),
        joined(reads) == on_the_line(garbage, stuffed, trailing),
        reads_fit(max_payload_size, Seq::empty(), reads),
    ensures
        cobs_decoded(stuffed) is None ==> read_all(max_payload_size, Seq::empty(), reads)
            == ReadOutcome::Done(
            Err(ErrorView::InvalidMessagePayload { reason: "incomplete COBS payload"@ }),
        ),
        cobs_decoded(stuffed) matches Some(payload) ==> read_all(
            max_payload_size,
            Seq::empty(),
            reads,
        ) == ReadOutcome::Done(
            if payload.len() > max_payload_size {
                Err(ErrorView::BufferFull { max_payload_size })
            } else {
                payload_result(payload)
            },
        ),
{
    lemma_read_stream(max_payload_size, reads);
    lemma_read_to_the_end(max_payload_size, garbage, stuffed, trailing, 0);
}

/// A read that gives no bytes means that the serial port is gone, whatever was received before.
pub proof fn law_read_of_no_bytes_is_a_failure(max_payload_size: usize, pending: Seq<u8>)
    ensures
        read_step(max_payload_size, pending, Seq::empty()) == ReadStep::Done(
            Err(ErrorView::SerialPort(SerialErrorView::UnexpectedEof)),
        ),
{
}

/// The receive buffer is no larger than needed:
/// a payload of the maximum payload size without a zero byte fills it with its message.
pub proof fn law_receive_buffer_is_filled(max_payload_size: usize, payload: Seq<u8>)
    requires
        payload.len() == max_payload_size,
        forall|i: int| 0 <= i < payload.len() ==> payload[i] != 0,
    ensures
        (preamble() + cobs_encoded(payload)).len() == buffer_size(max_payload_size),
{
    law_encoding_bound_is_reached(payload);
}

/// A message may start where the preamble stands, or where the bytes end within one.
pub proof fn law_messages_start_with_the_preamble(bytes: Seq<u8>)
    ensures
        bytes.len() >= 4 ==> (may_start_message(bytes) <==> bytes.take(4) == seq![
            0x00u8,
            0xFFu8,
            0xFFu8,
            0x01u8,
        ]),
        bytes.len() < 4 ==> (may_start_message(bytes) <==> bytes == seq![
            0x00u8,
            0xFFu8,
            0xFFu8,
            0x01u8,
        ].take(bytes.len() as int)),
{
    let start = seq![0x00u8, 0xFFu8, 0xFFu8, 0x01u8];
    if bytes.len() >= 4 {
        if may_start_message(bytes) {
            assert(bytes.take(4) =~= start);
        } else if bytes.take(4) == start {
            assert forall|i: int| 0 <= i < 4 implies bytes[i] == start[i] by {
                assert(bytes[i] == bytes.take(4)[i]);
            }
        }
    } else {
        let part = start.take(bytes.len() as int);
        if may_start_message(bytes) {
            assert(bytes =~= part);
        } else if bytes == part {
            assert forall|i: int| 0 <= i < bytes.len() implies bytes[i] == start[i] by {
                assert(bytes[i] == part[i]);
            }
        }
    }
}

} // verus!
