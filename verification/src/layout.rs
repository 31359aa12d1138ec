//! The binary layout of a stored record.
//!
//! A record is written as a schema tag, the proof's length as a 32-bit
//! little-endian number, the proof bytes, the event type, and the timestamp as
//! a 64-bit little-endian number in two's complement. A slot reserves room for
//! the longest record; the bytes behind the record carry no meaning.

use vstd::prelude::*;
use vstd::slice::{slice_subrange, slice_to_vec};
use crate::bytes::{
    le_bytes_u32, le_bytes_u64, le_value_u32, le_value_u64, lemma_le_u32_bytes_of_value,
    lemma_le_u32_round_trip, lemma_le_u64_bytes_of_value, lemma_le_u64_round_trip,
    lemma_sign_round_trip, push_bytes, push_le_u32, push_le_u64, read_le_u32, read_le_u64,
    same_bytes, signed_of, to_signed, to_unsigned, unsigned_of,
};
use crate::error::SubmissionError;

verus! {

/// Bytes taken by the schema tag that opens every record.
pub const SCHEMA_TAG_LEN: usize = 8;

/// Bytes taken by the length prefix of the proof.
pub const LENGTH_PREFIX_LEN: usize = 4;

/// The longest proof a record can hold.
pub const MAX_PROOF_LEN: usize = 512;

/// Bytes taken by the event type.
pub const EVENT_TYPE_LEN: usize = 1;

/// Bytes taken by the timestamp.
pub const TIMESTAMP_LEN: usize = 8;

/// Bytes a record takes besides its proof: tag, length prefix, event type, timestamp.
pub const RECORD_OVERHEAD: usize = SCHEMA_TAG_LEN + LENGTH_PREFIX_LEN + EVENT_TYPE_LEN
    + TIMESTAMP_LEN;

/// Bytes reserved for a slot: room for a record with the longest proof.
pub const SLOT_CAPACITY: usize = SCHEMA_TAG_LEN + LENGTH_PREFIX_LEN + MAX_PROOF_LEN
    + EVENT_TYPE_LEN + TIMESTAMP_LEN;

/// The tag that marks storage as holding a proof record.
pub const SCHEMA_TAG: [u8; 8] = [237, 59, 155, 172, 204, 117, 87, 44];

/// One stored record: an opaque proof, its classification, and the time it was written.
#[derive(Clone, Debug, PartialEq, Eq)]
pub struct ProofRecord {
    /// The proof bytes, stored as given and never interpreted.
    pub proof: Vec<u8>,
    /// Classification code chosen by the application.
    pub event_type: u8,
    /// Seconds since the epoch at which the record was written.
    pub timestamp: i64,
}

/// The mathematical value of a [`ProofRecord`].
#[verifier::ext_equal]
pub struct RecordView {
    pub proof: Seq<u8>,
    pub event_type: u8,
    pub timestamp: i64,
}

impl View for ProofRecord {
    type V = RecordView;

    open spec fn view(&self) -> RecordView {
        RecordView { proof: self.proof@, event_type: self.event_type, timestamp: self.timestamp }
    }
}

impl RecordView {
    /// The record a fresh slot holds: no proof, event type 0, timestamp 0.
    pub open spec fn empty() -> RecordView {
        RecordView { proof: Seq::empty(), event_type: 0, timestamp: 0 }
    }

    /// Whether the proof is within the layout's limit, so that the record can be stored.
    pub open spec fn fits(self) -> bool {
        self.proof.len() <= MAX_PROOF_LEN
    }
}

/// The bytes that spell `record`: tag, proof length, proof, event type, timestamp.
pub open spec fn encoded(record: RecordView) -> Seq<u8> {
    SCHEMA_TAG@ + le_bytes_u32(record.proof.len() as u32) + record.proof + seq![
        record.event_type,
    ] + le_bytes_u64(to_unsigned(record.timestamp))
}

/// Whether `bytes` begin with the encoding of the storable record `record`.
pub open spec fn spells(bytes: Seq<u8>, record: RecordView) -> bool {
    record.fits() && encoded(record).is_prefix_of(bytes)
}

/// The record that `bytes` begin with, if they begin with one.
///
/// No two records are spelled by the same bytes
/// ([`lemma_spelled_record_unique`]), so this names at most one record.
pub open spec fn decoded(bytes: Seq<u8>) -> Option<RecordView> {
    if exists|record: RecordView| spells(bytes, record) {
        Some(choose|record: RecordView| spells(bytes, record))
    } else {
        None
    }
}

/// The record read field by field from `bytes`, where every field is present.
spec fn parsed(bytes: Seq<u8>) -> Option<RecordView> {
    if bytes.len() < SCHEMA_TAG_LEN + LENGTH_PREFIX_LEN {
        None
    } else if bytes.subrange(0, 8) != SCHEMA_TAG@ {
        None
    } else {
        let n = le_value_u32(bytes.subrange(8, 12));
        if n > MAX_PROOF_LEN || bytes.len() < RECORD_OVERHEAD + n {
            None
        } else {
            Some(
                RecordView {
                    proof: bytes.subrange(12, 12 + n),
                    event_type: bytes[12 + n],
                    timestamp: to_signed(le_value_u64(bytes.subrange(13 + n, 21 + n)) as u64),
                },
            )
        }
    }
}

/// Where each field of a storable record lies in its encoding.
pub proof fn lemma_encoded_fields(record: RecordView)
    requires
        record.fits(),
    ensures
        encoded(record).len() == RECORD_OVERHEAD + record.proof.len(),
        encoded(record).len() <= SLOT_CAPACITY,
        encoded(record).subrange(0, 8) == SCHEMA_TAG@,
        encoded(record).subrange(8, 12) == le_bytes_u32(record.proof.len() as u32),
        encoded(record).subrange(12, 12 + record.proof.len() as int) == record.proof,
        encoded(record)[12 + record.proof.len() as int] == record.event_type,
        encoded(record).subrange(
            13 + record.proof.len() as int,
            21 + record.proof.len() as int,
        ) == le_bytes_u64(to_unsigned(record.timestamp)),
{
    let n = record.proof.len() as int;
    let e = encoded(record);
    lemma_le_u32_round_trip(n as u32);
    lemma_le_u64_round_trip(to_unsigned(record.timestamp));
    assert(e.subrange(0, 8) =~= SCHEMA_TAG@);
    assert(e.subrange(8, 12) =~= le_bytes_u32(n as u32));
    assert(e.subrange(12, 12 + n) =~= record.proof);
    assert(e.subrange(13 + n, 21 + n) =~= le_bytes_u64(to_unsigned(record.timestamp)));
}

/// Reading field by field the bytes that spell a record gives that record back.
proof fn lemma_parsed_of_spelled(bytes: Seq<u8>, record: RecordView)
    requires
        spells(bytes, record),
    ensures
        parsed(bytes) == Some(record),
{
    let n = record.proof.len() as int;
    let e = encoded(record);
    lemma_encoded_fields(record);
    lemma_le_u32_round_trip(n as u32);
    lemma_le_u64_round_trip(to_unsigned(record.timestamp));
    lemma_sign_round_trip(record.timestamp, 0);
    assert(bytes.subrange(0, 8) =~= e.subrange(0, 8));
    assert(bytes.subrange(8, 12) =~= e.subrange(8, 12));
    assert(bytes.subrange(12, 12 + n) =~= e.subrange(12, 12 + n));
    assert(bytes[12 + n] == e[12 + n]);
    assert(bytes.subrange(13 + n, 21 + n) =~= e.subrange(13 + n, 21 + n));
    assert(parsed(bytes).unwrap() =~= record);
}

/// Bytes from which a record can be read field by field begin with that record's encoding.
proof fn lemma_spelled_of_parsed(bytes: Seq<u8>)
    requires
        parsed(bytes) is Some,
    ensures
        spells(bytes, parsed(bytes).unwrap()),
{
    let record = parsed(bytes).unwrap();
    let n = record.proof.len() as int;
    let e = encoded(record);
    lemma_encoded_fields(record);
    lemma_le_u32_bytes_of_value(bytes.subrange(8, 12));
    lemma_le_u64_bytes_of_value(bytes.subrange(13 + n, 21 + n));
    lemma_sign_round_trip(0, le_value_u64(bytes.subrange(13 + n, 21 + n)) as u64);
    assert forall|i: int| 0 <= i < e.len() implies e[i] == bytes[i] by {
        if i < 8 {
            assert(e[i] == e.subrange(0, 8)[i]);
            assert(bytes[i] == bytes.subrange(0, 8)[i]);
        } else if i < 12 {
            assert(e[i] == e.subrange(8, 12)[i - 8]);
            assert(bytes[i] == bytes.subrange(8, 12)[i - 8]);
        } else if i < 12 + n {
            assert(e[i] == e.subrange(12, 12 + n)[i - 12]);
        } else if i == 12 + n {
        } else {
            assert(e[i] == e.subrange(13 + n, 21 + n)[i - 13 - n]);
            assert(bytes[i] == bytes.subrange(13 + n, 21 + n)[i - 13 - n]);
        }
    }
}

/// No byte string begins with the encodings of two different records.
pub proof fn lemma_spelled_record_unique(bytes: Seq<u8>, first: RecordView, second: RecordView)
    requires
        spells(bytes, first),
        spells(bytes, second),
    ensures
        first == second,
{
    lemma_parsed_of_spelled(bytes, first);
    lemma_parsed_of_spelled(bytes, second);
}

/// Decoding is reading field by field: the two agree on every byte string.
proof fn lemma_decoded_is_parsed(bytes: Seq<u8>)
    ensures
        decoded(bytes) == parsed(bytes),
{
    if exists|record: RecordView| spells(bytes, record) {
        let record = choose|record: RecordView| spells(bytes, record);
        lemma_parsed_of_spelled(bytes, record);
    } else {
        if parsed(bytes) is Some {
            lemma_spelled_of_parsed(bytes);
        }
    }
}

/// Round trip: decoding the encoding of a storable record gives the record
/// back, whatever bytes follow the encoding.
pub proof fn lemma_decode_encode(record: RecordView, rest: Seq<u8>)
    requires
        record.fits(),
    ensures
        decoded(encoded(record)) == Some(record),
        decoded(encoded(record) + rest) == Some(record),
{
    assert(encoded(record).is_prefix_of(encoded(record)));
    assert(encoded(record).is_prefix_of(encoded(record) + rest));
    lemma_parsed_of_spelled(encoded(record), record);
    lemma_parsed_of_spelled(encoded(record) + rest, record);
    lemma_decoded_is_parsed(encoded(record));
    lemma_decoded_is_parsed(encoded(record) + rest);
}

/// What decodes to a record begins with that record's encoding, and the record is storable.
pub proof fn lemma_encode_decode(bytes: Seq<u8>)
    requires
        decoded(bytes) is Some,
    ensures
        decoded(bytes).unwrap().fits(),
        encoded(decoded(bytes).unwrap()).is_prefix_of(bytes),
{
    lemma_decoded_is_parsed(bytes);
    lemma_spelled_of_parsed(bytes);
}

impl ProofRecord {
    /// The record a fresh slot holds: no proof, event type 0, timestamp 0.
    pub fn empty() -> (record: ProofRecord)
        ensures
            record@ == RecordView::empty(),
    {
        ProofRecord { proof: Vec::new(), event_type: 0, timestamp: 0 }
    }
}

/// Writes `record` in the stored layout.
///
/// Fails with `PayloadTooLarge`, and only then, when the proof is longer than
/// [`MAX_PROOF_LEN`]. What it writes, [`decode`] reads back as `record`.
pub fn encode(record: &ProofRecord) -> (result: Result<Vec<u8>, SubmissionError>)
    ensures
        match result {
            Ok(bytes) => {
                &&& record@.fits()
                &&& bytes@ == encoded(record@)
                &&& bytes@.len() == RECORD_OVERHEAD + record@.proof.len()
                &&& decoded(bytes@) == Some(record@)
            },
            Err(error) => !record@.fits() && error == SubmissionError::PayloadTooLarge,
        },
{
    if record.proof.len() > MAX_PROOF_LEN {
        return Err(SubmissionError::PayloadTooLarge);
    }
    proof {
        lemma_encoded_fields(record@);
        lemma_decode_encode(record@, Seq::empty());
    }
    let mut out: Vec<u8> = Vec::new();
    push_bytes(&mut out, &SCHEMA_TAG);
    push_le_u32(&mut out, record.proof.len() as u32);
    push_bytes(&mut out, record.proof.as_slice());
    out.push(record.event_type);
    push_le_u64(&mut out, unsigned_of(record.timestamp));
    assert(out@ =~= encoded(record@));
    Ok(out)
}

/// Reads the record that `bytes` begin with; bytes behind it are ignored.
///
/// Fails with `CorruptRecord`, and only then, when `bytes` do not begin with
/// the encoding of a record: the tag is missing or wrong, the declared proof
/// length is over the limit, or the fields are cut short.
pub fn decode(bytes: &[u8]) -> (result: Result<ProofRecord, SubmissionError>)
    ensures
        match result {
            Ok(record) => decoded(bytes@) == Some(record@),
            Err(error) => error == SubmissionError::CorruptRecord && decoded(bytes@) is None,
        },
{
    proof {
        lemma_decoded_is_parsed(bytes@);
    }
    if bytes.len() < SCHEMA_TAG_LEN + LENGTH_PREFIX_LEN {
        return Err(SubmissionError::CorruptRecord);
    }
    if !same_bytes(slice_subrange(bytes, 0, SCHEMA_TAG_LEN), &SCHEMA_TAG) {
        return Err(SubmissionError::CorruptRecord);
    }
    let declared: u32 = read_le_u32(bytes, SCHEMA_TAG_LEN);
    if declared > MAX_PROOF_LEN as u32 {
        return Err(SubmissionError::CorruptRecord);
    }
    let proof_len: usize = declared as usize;
    if bytes.len() < RECORD_OVERHEAD + proof_len {
        return Err(SubmissionError::CorruptRecord);
    }
    let proof_start: usize = SCHEMA_TAG_LEN + LENGTH_PREFIX_LEN;
    let proof_end: usize = proof_start + proof_len;
    let proof: Vec<u8> = slice_to_vec(slice_subrange(bytes, proof_start, proof_end));
    let event_type: u8 = bytes[proof_end];
    let timestamp: i64 = signed_of(read_le_u64(bytes, proof_end + EVENT_TYPE_LEN));
    Ok(ProofRecord { proof, event_type, timestamp })
}

} // verus!
