//! Byte stuffing, as done by the `corncobs` crate.
use vstd::prelude::*;

verus! {

/// The largest number of bytes that the COBS encoding of `raw_len` bytes can take,
/// including the terminating zero byte.
pub open spec fn encoded_bound(raw_len: nat) -> nat {
    raw_len + (if raw_len == 0 { 1 } else { (raw_len + 253) / 254 }) + 1
}

/// A payload of this many bytes can be encoded in memory.
pub open spec fn is_encodable_len(raw_len: nat) -> bool {
    encoded_bound(raw_len) <= isize::MAX
}

/// The index of the first zero byte at or after `from`, or the number of bytes if there is none.
pub open spec fn zero_index(bytes: Seq<u8>, from: int) -> int
    decreases bytes.len() - from,
{
    if from >= bytes.len() {
        bytes.len() as int
    } else if bytes[from] == 0 {
        from
    } else {
        zero_index(bytes, from + 1)
    }
}

/// The number of bytes in the first run of the given bytes:
/// those in front of the first zero byte, but no more than fit in a run.
pub open spec fn run_len(bytes: Seq<u8>) -> nat {
    let zero = zero_index(bytes, 0) as nat;
    if zero < 254 {
        zero
    } else {
        254
    }
}

/// The COBS encoding of the given bytes.
///
/// They are cut into runs without a zero byte.
/// In front of each run stands its size plus one, and a zero byte stands at the end.
/// The zero byte after a run is left out.
/// After a run of the maximum size the next run follows directly, without a zero byte between them.
pub open spec fn cobs_encoded(bytes: Seq<u8>) -> Seq<u8>
    decreases bytes.len(),
{
    let n = run_len(bytes) as int;
    let run = seq![(n + 1) as u8] + bytes.take(n);
    if n >= bytes.len() {
        run + seq![0u8]
    } else if n == 254 {
        run + cobs_encoded(bytes.skip(254))
    } else {
        run + cobs_encoded(bytes.skip(n + 1))
    }
}

/// The bytes that the given runs stand for, or `None` if a run or the terminating zero byte is missing.
///
/// A run is a byte that says where the next run starts, and the bytes up to there.
/// There is a zero byte between two runs, unless the first of them is of the maximum size.
/// `after_zero` says whether there is one in front of the first of the given runs.
pub open spec fn decoded_runs(bytes: Seq<u8>, after_zero: bool) -> Option<Seq<u8>>
    decreases bytes.len(),
{
    if bytes.len() == 0 || bytes.len() < bytes[0] {
        None
    } else if bytes[0] == 0 {
        Some(Seq::empty())
    } else {
        let size = bytes[0] as int;
        let zero = if after_zero { seq![0u8] } else { Seq::empty() };
        match decoded_runs(bytes.skip(size), size != 255) {
            Some(rest) => Some(zero + bytes.subrange(1, size) + rest),
            None => None,
        }
    }
}

/// The bytes whose COBS encoding is given, up to its terminating zero byte, or `None` if part of it is missing.
pub open spec fn cobs_decoded(bytes: Seq<u8>) -> Option<Seq<u8>> {
    decoded_runs(bytes, false)
}

/// The last byte is zero, and it is the only zero byte.
pub open spec fn is_terminated(stuffed: Seq<u8>) -> bool {
    &&& stuffed.len() > 0
    &&& stuffed.last() == 0
    &&& forall|i: int| 0 <= i < stuffed.len() - 1 ==> stuffed[i] != 0
}

/// `stuffed` is a COBS encoding of `payload`:
/// it ends at its only zero byte, its size is within the bounds of the encoding, and it decodes to `payload`.
pub open spec fn is_stuffed(payload: Seq<u8>, stuffed: Seq<u8>) -> bool {
    &&& is_terminated(stuffed)
    &&& payload.len() + 2 <= stuffed.len() <= encoded_bound(payload.len())
    &&& cobs_decoded(stuffed) == Some(payload)
}

/// Why a sequence of bytes could not be decoded.
#[derive(Debug, Clone, Copy, PartialEq, Eq, Structural)]
pub enum CobsFailure {
    /// The input ended before the last run or the terminating zero byte.
    Truncated,
    /// The input has a zero byte in an unexpected place.
    Corrupt,
}

/// `corncobs::max_encoded_len` computes the bound on the size of an encoding,
/// where the additions that it makes do not overflow.
pub assume_specification[ corncobs::max_encoded_len ](raw_len: usize) -> (len: usize)
    requires
        raw_len + 253 <= usize::MAX,
        encoded_bound(raw_len as nat) <= usize::MAX,
    ensures
        len == encoded_bound(raw_len as nat),
;

/// Calls `corncobs::encode` with an empty output vector.
///
/// It encodes run by run, and ends the encoding with a zero byte.
#[verifier::external_body]
pub(crate) fn cobs_encode(bytes: &[u8]) -> (stuffed: Vec<u8>)
    requires
        is_encodable_len(bytes@.len()),
    ensures
        stuffed@ == cobs_encoded(bytes@),
{
    let mut stuffed = Vec::new();
    corncobs::encode(bytes, &mut stuffed);
    stuffed
}

/// Calls `corncobs::decode` with an empty output vector.
///
/// It decodes run by run up to the first zero byte in the place of a run,
/// and fails if the bytes end before that.
/// The only failure that this decoder reports is `CobsError::Truncated`.
#[verifier::external_body]
pub(crate) fn cobs_decode(bytes: &[u8]) -> (decoded: Result<Vec<u8>, CobsFailure>)
    ensures
        decoded matches Ok(data) ==> cobs_decoded(bytes@) == Some(data@),
        decoded is Err ==> cobs_decoded(bytes@) is None,
        decoded is Err ==> decoded->Err_0 == CobsFailure::Truncated,
{
    let mut data = Vec::new();
    match corncobs::decode(bytes, &mut data) {
        Ok(()) => Ok(data),
        Err(corncobs::CobsError::Truncated) => Err(CobsFailure::Truncated),
        Err(corncobs::CobsError::Corrupt) => Err(CobsFailure::Corrupt),
    }
}

/// Whether payloads of up to `raw_len` bytes can be encoded in memory.
pub fn can_encode(raw_len: usize) -> (yes: bool)
    ensures
        yes == is_encodable_len(raw_len as nat),
{
    let limit: usize = isize::MAX as usize;
    if raw_len > limit - 255 {
        return false;
    }
    corncobs::max_encoded_len(raw_len) <= limit
}

/// A larger payload has a larger encoding bound.
pub proof fn lemma_encoded_bound_monotonic(a: nat, b: nat)
    requires
        a <= b,
    ensures
        encoded_bound(a) <= encoded_bound(b),
{
}

/// Decoding undoes encoding, whether or not there is a zero byte in front of the first run.
proof fn lemma_decoded_runs(bytes: Seq<u8>, after_zero: bool)
    ensures
        decoded_runs(cobs_encoded(bytes), after_zero) == Some(
            (if after_zero {
                seq![0u8]
            } else {
                Seq::empty()
            }) + bytes,
        ),
    decreases bytes.len(),
{
    lemma_zero_index(bytes, 0);
    let n = run_len(bytes) as int;
    let stuffed = cobs_encoded(bytes);
    let zero = if after_zero {
        seq![0u8]
    } else {
        Seq::empty()
    };
    let rest = stuffed.skip(n + 1);
    assert(stuffed.subrange(1, n + 1) =~= bytes.take(n));
    if n >= bytes.len() {
        assert(rest =~= seq![0u8]);
        assert(zero + bytes.take(n) + Seq::empty() =~= zero + bytes);
    } else if n == 254 {
        assert(rest =~= cobs_encoded(bytes.skip(254)));
        lemma_decoded_runs(bytes.skip(254), false);
        assert(zero + bytes.take(254) + (Seq::empty() + bytes.skip(254)) =~= zero + bytes);
    } else {
        assert(rest =~= cobs_encoded(bytes.skip(n + 1)));
        lemma_decoded_runs(bytes.skip(n + 1), true);
        assert(zero + bytes.take(n) + (seq![0u8] + bytes.skip(n + 1)) =~= zero + bytes);
    }
}

/// The encoding ends at its only zero byte, and its size is within the bounds.
proof fn lemma_encoding_shape(bytes: Seq<u8>)
    ensures
        is_terminated(cobs_encoded(bytes)),
        bytes.len() + 2 <= cobs_encoded(bytes).len() <= encoded_bound(bytes.len()),
    decreases bytes.len(),
{
    lemma_zero_index(bytes, 0);
    let n = run_len(bytes) as int;
    let run = seq![(n + 1) as u8] + bytes.take(n);
    assert forall|i: int| 0 <= i < run.len() implies run[i] != 0 by {
        if i > 0 {
            assert(run[i] == bytes[i - 1]);
        }
    }
    if n < bytes.len() {
        let rest = if n == 254 {
            bytes.skip(254)
        } else {
            bytes.skip(n + 1)
        };
        lemma_encoding_shape(rest);
        let stuffed = cobs_encoded(rest);
        assert(cobs_encoded(bytes) == run + stuffed);
        assert forall|i: int| 0 <= i < (run + stuffed).len() - 1 implies (run + stuffed)[i] != 0 by {
            if i >= run.len() {
                assert((run + stuffed)[i] == stuffed[i - run.len()]);
            }
        }
    }
}

/// An encoding ends at its only zero byte, its size is within the bounds, and decoding it gives the input back.
pub proof fn law_decoding_undoes_encoding(bytes: Seq<u8>)
    ensures
        is_stuffed(bytes, cobs_encoded(bytes)),
{
    lemma_encoding_shape(bytes);
    lemma_decoded_runs(bytes, false);
    assert(Seq::empty() + bytes =~= bytes);
}

/// The first zero byte is where it is said to be.
pub proof fn lemma_zero_index(bytes: Seq<u8>, from: int)
    requires
        0 <= from,
    ensures
        from < bytes.len() ==> from <= zero_index(bytes, from) <= bytes.len(),
        from >= bytes.len() ==> zero_index(bytes, from) == bytes.len(),
        zero_index(bytes, from) < bytes.len() ==> bytes[zero_index(bytes, from)] == 0,
        forall|i: int| from <= i < zero_index(bytes, from) ==> bytes[i] != 0,
    decreases bytes.len() - from,
{
    if from < bytes.len() && bytes[from] != 0 {
        lemma_zero_index(bytes, from + 1);
    }
}

/// The search for a zero byte can start after bytes that are not zero.
pub proof fn lemma_zero_index_skips(bytes: Seq<u8>, from: int, to: int)
    requires
        0 <= from <= to <= bytes.len(),
        forall|i: int| from <= i < to ==> bytes[i] != 0,
    ensures
        zero_index(bytes, from) == zero_index(bytes, to),
    decreases to - from,
{
    if from < to {
        lemma_zero_index_skips(bytes, from + 1, to);
    }
}

/// The bound on the size of an encoding is reached: by bytes without a zero byte among them.
pub proof fn law_encoding_bound_is_reached(bytes: Seq<u8>)
    requires
        forall|i: int| 0 <= i < bytes.len() ==> bytes[i] != 0,
    ensures
        cobs_encoded(bytes).len() == encoded_bound(bytes.len()),
    decreases bytes.len(),
{
    lemma_zero_index(bytes, 0);
    if bytes.len() > 254 {
        law_encoding_bound_is_reached(bytes.skip(254));
    }
}

/// A payload can be encoded in memory exactly if the largest encoding of its size is no larger than
/// anything in memory can be: that of bytes without a zero byte among them.
pub proof fn law_encodable_is_what_fits_in_memory(bytes: Seq<u8>)
    requires
        forall|i: int| 0 <= i < bytes.len() ==> bytes[i] != 0,
    ensures
        is_encodable_len(bytes.len()) <==> cobs_encoded(bytes).len() <= isize::MAX,
{
    law_encoding_bound_is_reached(bytes);
}

} // verus!
