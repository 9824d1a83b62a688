//! Messages on the serial line: framing, synchronisation and size limits.
//!
//! | Field           | Size (bytes) | Description                    |
//! |-----------------|--------------|--------------------------------|
//! | Preamble        | 4            | `0x00`, `0xFF`, `0xFF`, `0x01` |
//! | Payload         | Variable     | COBS encoded payload           |
//!
//! The COBS encoding ends at its only zero byte, which marks the end of the message.
use vstd::pervasive::unreached;
use vstd::prelude::*;
use vstd::slice::slice_subrange;

use crate::cobs::{cobs_decode, cobs_encode, CobsFailure};
use crate::error::{Error, SerialError};
use crate::packets::Packets;

verus! {

use crate::cobs::{cobs_decoded, cobs_encoded, encoded_bound, is_encodable_len, is_stuffed};
use crate::cobs::{law_decoding_undoes_encoding, lemma_zero_index, lemma_zero_index_skips, zero_index};
use crate::error::{ErrorView, SerialErrorView};
use crate::line::{is_received_as, law_message_is_received_as_its_payload, law_payload_fits};
use crate::packets::{packets_result, payload_result};

/// The bytes at the start of each message.
pub const PREAMBLE: [u8; 4] = [0x00, 0xFF, 0xFF, 0x01];

/// The size in bytes of the preamble.
pub const PREAMBLE_SIZE: usize = 4;

/// The bytes at the start of each message.
pub open spec fn preamble() -> Seq<u8> {
    seq![0x00u8, 0xFFu8, 0xFFu8, 0x01u8]
}

/// The bytes may be the start of a message:
/// they start with the preamble, or they are shorter than it and agree with it.
pub open spec fn may_start_message(bytes: Seq<u8>) -> bool {
    forall|i: int| 0 <= i < bytes.len() && i < PREAMBLE_SIZE ==> bytes[i] == preamble()[i]
}

/// The number of bytes in front of the first place where a message may start.
pub open spec fn sync_offset(bytes: Seq<u8>) -> nat
    decreases bytes.len(),
{
    if bytes.len() == 0 || may_start_message(bytes) {
        0
    } else {
        1 + sync_offset(bytes.skip(1))
    }
}

/// The bytes from the first place on where a message may start.
pub open spec fn synchronized(bytes: Seq<u8>) -> Seq<u8> {
    bytes.skip(sync_offset(bytes) as int)
}

/// The number of bytes of the message at the start of the given bytes, if its end is there.
pub open spec fn message_size(bytes: Seq<u8>) -> Option<int> {
    let zero = zero_index(bytes, PREAMBLE_SIZE as int);
    if zero < bytes.len() {
        Some(zero + 1)
    } else {
        None
    }
}

/// What comes of a message whose stuffed payload was decoded with the given outcome.
///
/// A payload that is larger than the maximum payload size is refused, whatever is in it.
pub open spec fn decoded_result(max_payload_size: usize, decoded: Option<Seq<u8>>) -> Result<
    Seq<Seq<u8>>,
    ErrorView,
> {
    match decoded {
        Some(payload) => if payload.len() > max_payload_size {
            Err(ErrorView::BufferFull { max_payload_size })
        } else {
            payload_result(payload)
        },
        None => Err(ErrorView::InvalidMessagePayload { reason: "incomplete COBS payload"@ }),
    }
}

/// What comes of a read from the serial port.
pub enum ReadStep {
    /// The message is not complete. These are the bytes to keep.
    More(Seq<u8>),
    /// The message is received or given up.
    Done(Result<Seq<Seq<u8>>, ErrorView>),
}

/// What comes of a read of `bytes` when the bytes in `pending` were kept from earlier reads.
///
/// Garbage in front of the preamble is discarded, and so are bytes after the end of the message.
pub open spec fn read_step(max_payload_size: usize, pending: Seq<u8>, bytes: Seq<u8>) -> ReadStep {
    if bytes.len() == 0 {
        ReadStep::Done(Err(ErrorView::SerialPort(SerialErrorView::UnexpectedEof)))
    } else {
        let kept = synchronized(pending + bytes);
        match message_size(kept) {
            None => ReadStep::More(kept),
            Some(size) => ReadStep::Done(
                decoded_result(
                    max_payload_size,
                    cobs_decoded(kept.subrange(PREAMBLE_SIZE as int, size)),
                ),
            ),
        }
    }
}

/// The size of the receive buffer for the given maximum payload size:
/// enough space for the preamble and the encoding of any payload of that size.
pub open spec fn buffer_size(max_payload_size: usize) -> nat {
    PREAMBLE_SIZE as nat + encoded_bound(max_payload_size as nat)
}

/// Scan a buffer for a (possible) start of the preamble.
pub fn scan_preamble_start(input: &[u8]) -> (offset: usize)
    ensures
        offset == sync_offset(input@),
        offset <= input@.len(),
        may_start_message(input@.skip(offset as int)),
        forall|i: int| 0 <= i < offset ==> !may_start_message(#[trigger] input@.skip(i)),
{
    let mut i: usize = 0;
    assert(input@.skip(0) =~= input@);
    while i < input.len()
        invariant
            i <= input@.len(),
            sync_offset(input@) == i + sync_offset(input@.skip(i as int)),
            forall|j: int| 0 <= j < i ==> !may_start_message(#[trigger] input@.skip(j)),
        decreases input@.len() - i,
    {
        let ghost rest = input@.skip(i as int);
        let mut k: usize = 0;
        while k < PREAMBLE_SIZE && k < input.len() - i && input[i + k] == PREAMBLE[k]
            invariant
                i < input@.len(),
                k <= PREAMBLE_SIZE,
                k <= input@.len() - i,
                rest == input@.skip(i as int),
                forall|j: int| 0 <= j < k ==> rest[j] == preamble()[j],
            decreases PREAMBLE_SIZE - k,
        {
            assert(rest[k as int] == input@[i + k]);
            k += 1;
        }
        if k == PREAMBLE_SIZE || k == input.len() - i {
            return i;
        }
        assert(rest[k as int] != preamble()[k as int]);
        assert(rest.skip(1) =~= input@.skip(i + 1));
        i += 1;
    }
    assert(input@.skip(i as int) =~= Seq::empty());
    input.len()
}

/// Put the preamble in front of a stuffed payload.
pub fn frame(stuffed: &[u8]) -> (message: Vec<u8>)
    ensures
        message@ == preamble() + stuffed@,
{
    let mut message: Vec<u8> = Vec::new();
    message.extend_from_slice(&PREAMBLE);
    message.extend_from_slice(stuffed);
    assert(message@ =~= preamble() + stuffed@);
    message
}

/// Make the message with the given payload.
pub fn encode_message(packets: &[u8], max_payload_size: usize) -> (result: Result<Vec<u8>, Error>)
    requires
        packets@.len() <= max_payload_size ==> is_encodable_len(packets@.len()),
    ensures
        packets@.len() <= max_payload_size ==> {
            &&& result matches Ok(message)
            &&& message@ == preamble() + cobs_encoded(packets@)
            &&& is_stuffed(packets@, cobs_encoded(packets@))
            &&& is_received_as(message@, packets@)
            &&& message@.len() <= buffer_size(max_payload_size)
        },
        packets@.len() > max_payload_size ==> {
            &&& result matches Err(error)
            &&& error@ == (ErrorView::MessagePayloadTooLarge {
                actual: packets@.len() as usize,
                max_payload_size,
            })
        },
{
    if packets.len() > max_payload_size {
        return Err(Error::MessagePayloadTooLarge { actual: packets.len(), max_payload_size });
    }
    let stuffed = cobs_encode(packets);
    proof {
        law_decoding_undoes_encoding(packets@);
        law_message_is_received_as_its_payload(packets@);
        law_payload_fits(max_payload_size, packets@);
    }
    Ok(frame(stuffed.as_slice()))
}

/// Take the packets out of a payload that was decoded with the given outcome.
///
/// The payload of a received message ends at its first zero byte, so it can not have been corrupt.
pub fn finish_message(decoded: Result<Vec<u8>, CobsFailure>, max_payload_size: usize) -> (result:
    Result<Packets, Error>)
    requires
        decoded is Err ==> decoded->Err_0 == CobsFailure::Truncated,
    ensures
        packets_result(result) == decoded_result(
            max_payload_size,
            match decoded {
                Ok(payload) => Some(payload@),
                Err(_) => None,
            },
        ),
{
    match decoded {
        Ok(payload) => {
            if payload.len() > max_payload_size {
                return Err(Error::BufferFull { max_payload_size });
            }
            Packets::from_payload(payload)
        },
        Err(CobsFailure::Truncated) => Err(
            Error::InvalidMessagePayload { reason: "incomplete COBS payload" },
        ),
        Err(CobsFailure::Corrupt) => unreached(),
    }
}

/// What a reader knows of the message that it is receiving.
pub struct ReaderState {
    /// The bytes of the message so far.
    pub pending: Seq<u8>,
    /// The maximum payload size that the reader was made for.
    pub max_payload_size: usize,
}

/// The bytes of an incomplete message: it may start there, and its end is not there.
pub open spec fn is_incomplete(pending: Seq<u8>) -> bool {
    &&& may_start_message(pending)
    &&& message_size(pending) is None
}

/// Receives a message from the serial port, a few bytes at a time.
///
/// As long as there is space, read up to that many bytes from the serial port and hand them over.
pub struct MessageReader {
    pending: Vec<u8>,
    capacity: usize,
    max_payload_size: usize,
}

impl View for MessageReader {
    type V = ReaderState;

    closed spec fn view(&self) -> ReaderState {
        ReaderState { pending: self.pending@, max_payload_size: self.max_payload_size }
    }
}

impl MessageReader {
    /// The bytes so far are those of an incomplete message, and they fit in the buffer.
    pub closed spec fn is_valid(&self) -> bool {
        &&& self.capacity == buffer_size(self.max_payload_size)
        &&& self.pending@.len() <= self.capacity
        &&& is_incomplete(self.pending@)
    }

    /// Start to receive a message.
    pub fn new(max_payload_size: usize) -> (reader: Self)
        requires
            is_encodable_len(max_payload_size as nat),
        ensures
            reader.is_valid(),
            reader@ == (ReaderState { pending: Seq::empty(), max_payload_size }),
    {
        let capacity: usize = PREAMBLE_SIZE + corncobs::max_encoded_len(max_payload_size);
        let reader = MessageReader { pending: Vec::new(), capacity, max_payload_size };
        assert(reader.pending@ =~= Seq::empty());
        reader
    }

    /// The number of bytes that can be read into the receive buffer, or `None` if it is full.
    pub fn space(&self) -> (space: Option<usize>)
        requires
            self.is_valid(),
        ensures
            self@.pending.len() <= buffer_size(self@.max_payload_size),
            space is None <==> self@.pending.len() == buffer_size(self@.max_payload_size),
            space matches Some(space) ==> space == buffer_size(self@.max_payload_size)
                - self@.pending.len(),
    {
        if self.pending.len() == self.capacity {
            None
        } else {
            Some(self.capacity - self.pending.len())
        }
    }

    /// The error to give up with when the receive buffer is full or the payload is too large.
    ///
    /// The input buffer of the serial port is discarded first, which may fail itself.
    pub fn overflow(&self, discarded: Result<(), SerialError>) -> (error: Error)
        ensures
            error@ == match discarded {
                Ok(()) => ErrorView::BufferFull { max_payload_size: self@.max_payload_size },
                Err(failure) => ErrorView::SerialPort(failure@),
            },
    {
        match discarded {
            Ok(()) => Error::BufferFull { max_payload_size: self.max_payload_size },
            Err(failure) => Error::SerialPort(failure),
        }
    }

    /// Process bytes that were read from the serial port.
    ///
    /// Gives the packets of the message or the reason to give up,
    /// or `None` if more bytes have to be read.
    /// When it gives something, the reader is ready for the next message.
    pub fn receive(&mut self, bytes: &[u8]) -> (result: Option<Result<Packets, Error>>)
        requires
            old(self).is_valid(),
            old(self)@.pending.len() + bytes@.len() <= buffer_size(old(self)@.max_payload_size),
        ensures
            final(self).is_valid(),
            final(self)@.max_payload_size == old(self)@.max_payload_size,
            match read_step(old(self)@.max_payload_size, old(self)@.pending, bytes@) {
                ReadStep::More(kept) => {
                    &&& result is None
                    &&& final(self)@.pending == kept
                },
                ReadStep::Done(outcome) => {
                    &&& result matches Some(received)
                    &&& packets_result(received) == outcome
                    &&& final(self)@.pending == Seq::<u8>::empty()
                },
            },
    {
        let ghost before = self.pending@;
        if bytes.len() == 0 {
            self.pending = Vec::new();
            assert(self.pending@ =~= Seq::empty());
            return Some(Err(Error::SerialPort(SerialError::UnexpectedEof)));
        }
        self.pending.extend_from_slice(bytes);
        assert(self.pending@ =~= before + bytes@);
        let offset: usize = scan_preamble_start(self.pending.as_slice());
        if offset != 0 {
            self.pending = self.pending.split_off(offset);
        }
        let ghost kept = synchronized(before + bytes@);
        assert(self.pending@ =~= kept);

        // Without a full message after removing garbage, more bytes have to be read.
        if self.pending.len() <= PREAMBLE_SIZE {
            return None;
        }
        // Bytes that were there before this read hold no end of the message.
        let mut end: usize = PREAMBLE_SIZE;
        if self.pending.len() > bytes.len() && self.pending.len() - bytes.len() > PREAMBLE_SIZE {
            end = self.pending.len() - bytes.len();
            proof {
                lemma_zero_index(before, PREAMBLE_SIZE as int);
                assert forall|i: int| PREAMBLE_SIZE <= i < end implies kept[i] != 0 by {
                    assert(kept[i] == before[i + offset]);
                }
            }
        }
        proof {
            lemma_zero_index_skips(kept, PREAMBLE_SIZE as int, end as int);
        }
        while end < self.pending.len() && self.pending[end] != 0
            invariant
                PREAMBLE_SIZE <= end <= kept.len(),
                self.pending@ == kept,
                zero_index(kept, PREAMBLE_SIZE as int) == zero_index(kept, end as int),
            decreases kept.len() - end,
        {
            end += 1;
        }
        if end == self.pending.len() {
            return None;
        }
        let decoded = cobs_decode(
            slice_subrange(self.pending.as_slice(), PREAMBLE_SIZE, end + 1),
        );
        self.pending = Vec::new();
        assert(self.pending@ =~= Seq::empty());
        Some(finish_message(decoded, self.max_payload_size))
    }
}

/// Sends a message over the serial port, as many bytes at a time as the port accepts.
pub struct MessageWriter {
    message: Vec<u8>,
    sent: usize,
}

impl View for MessageWriter {
    type V = Seq<u8>;

    /// The bytes that are left to send.
    closed spec fn view(&self) -> Seq<u8> {
        self.message@.skip(self.sent as int)
    }
}

impl MessageWriter {
    /// No more bytes were sent than there are in the message.
    pub closed spec fn is_valid(&self) -> bool {
        self.sent <= self.message@.len()
    }

    /// Start to send the message with the given payload.
    pub fn new(packets: &[u8], max_payload_size: usize) -> (result: Result<Self, Error>)
        requires
            packets@.len() <= max_payload_size ==> is_encodable_len(packets@.len()),
        ensures
            packets@.len() <= max_payload_size ==> {
                &&& result matches Ok(writer)
                &&& writer.is_valid()
                &&& writer@ == preamble() + cobs_encoded(packets@)
                &&& is_stuffed(packets@, cobs_encoded(packets@))
                &&& is_received_as(writer@, packets@)
                &&& writer@.len() <= buffer_size(max_payload_size)
            },
            packets@.len() > max_payload_size ==> {
                &&& result matches Err(error)
                &&& error@ == (ErrorView::MessagePayloadTooLarge {
                    actual: packets@.len() as usize,
                    max_payload_size,
                })
            },
    {
        match encode_message(packets, max_payload_size) {
            Ok(message) => {
                let writer = MessageWriter { message, sent: 0 };
                assert(writer@ =~= writer.message@);
                Ok(writer)
            },
            Err(error) => Err(error),
        }
    }

    /// The bytes that are left to send. None are left when the whole message is sent.
    pub fn remaining(&self) -> (bytes: &[u8])
        requires
            self.is_valid(),
        ensures
            bytes@ == self@,
    {
        slice_subrange(self.message.as_slice(), self.sent, self.message.len())
    }

    /// Process the number of bytes that the serial port accepted.
    pub fn advance(&mut self, written: usize) -> (result: Result<(), Error>)
        requires
            old(self).is_valid(),
            written <= old(self)@.len(),
        ensures
            final(self).is_valid(),
            final(self)@ == old(self)@.skip(written as int),
            written > 0 ==> result is Ok,
            written == 0 ==> {
                &&& result matches Err(error)
                &&& error@ == ErrorView::SerialPort(SerialErrorView::UnexpectedEof)
            },
    {
        if written == 0 {
            assert(self@ =~= self@.skip(0));
            return Err(Error::SerialPort(SerialError::UnexpectedEof));
        }
        assert(self.sent + written <= self.message.len());
        self.sent = self.sent + written;
        assert(self@ =~= old(self)@.skip(written as int));
        Ok(())
    }
}

/// The bytes that the serial port takes from the message in writes that accept the given numbers of bytes.
pub open spec fn written_bytes(message: Seq<u8>, writes: Seq<int>) -> Seq<u8>
    decreases writes.len(),
{
    if writes.len() == 0 {
        Seq::empty()
    } else {
        message.take(writes.first()) + written_bytes(
            message.skip(writes.first()),
            writes.drop_first(),
        )
    }
}

/// What is left of the message after writes that accept the given numbers of bytes.
pub open spec fn unwritten_bytes(message: Seq<u8>, writes: Seq<int>) -> Seq<u8>
    decreases writes.len(),
{
    if writes.len() == 0 {
        message
    } else {
        unwritten_bytes(message.skip(writes.first()), writes.drop_first())
    }
}

/// Each write accepts at least one byte, and no more bytes than are left.
pub open spec fn writes_fit(message: Seq<u8>, writes: Seq<int>) -> bool
    decreases writes.len(),
{
    writes.len() == 0 || {
        &&& 0 < writes.first() <= message.len()
        &&& writes_fit(message.skip(writes.first()), writes.drop_first())
    }
}

/// Partial writes put the bytes of the message on the line, in order and each of them once:
/// what was written and what is left make up the message at any time.
pub proof fn law_partial_writes_keep_the_message(message: Seq<u8>, writes: Seq<int>)
    requires
        writes_fit(message, writes),
    ensures
        written_bytes(message, writes) + unwritten_bytes(message, writes) == message,
    decreases writes.len(),
{
    if writes.len() == 0 {
        assert(written_bytes(message, writes) + message =~= message);
    } else {
        let rest = message.skip(writes.first());
        law_partial_writes_keep_the_message(rest, writes.drop_first());
        assert(written_bytes(message, writes) + unwritten_bytes(message, writes) =~= message.take(
            writes.first(),
        ) + (written_bytes(rest, writes.drop_first()) + unwritten_bytes(
            rest,
            writes.drop_first(),
        )));
        assert(message.take(writes.first()) + rest =~= message);
    }
}

} // verus!
