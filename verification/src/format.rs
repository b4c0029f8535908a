//! The trace file format, as mathematics: which bytes a sequence of records
//! is stored as, and what reading a bounded number of records from a byte
//! sequence yields.

use crate::entry::{lemma_decode_encode, lemma_encode_decode, lemma_encode_len, TraceEntry};
use crate::error::TraceError;
use vstd::prelude::*;

verus! {

/// The bytes of a trace that holds `records` in order: byte `i` of the file is
/// byte `i % 24` of record `i / 24`.
pub open spec fn encode_records(records: Seq<TraceEntry>) -> Seq<u8> {
    Seq::new((24 * records.len()) as nat, |i: int| records[i / 24].spec_encode()[i % 24])
}

/// The 24-byte chunk number `index` of `bytes`, counted from 0.
pub open spec fn chunk(bytes: Seq<u8>, index: int) -> Seq<u8> {
    bytes.subrange(24 * index, 24 * index + 24)
}

/// The records that the first `count` chunks of `bytes` store.
pub open spec fn decode_records(bytes: Seq<u8>, count: nat) -> Seq<TraceEntry>
    recommends
        24 * count <= bytes.len(),
{
    Seq::new(count, |k: int| TraceEntry::spec_decode(chunk(bytes, k)))
}

/// How many whole records `bytes` holds.
pub open spec fn whole_records(bytes: Seq<u8>) -> nat {
    bytes.len() / 24
}

/// How many bytes follow the last whole record of `bytes`: 0 to 23.
pub open spec fn trailing_bytes(bytes: Seq<u8>) -> nat {
    bytes.len() % 24
}

/// What reading at most `max_entries` records from the start of `source`
/// yields.
///
/// Chunks are taken one after the other. Once `max_entries` of them were
/// whole, reading stops, whatever follows. An end of input on a record
/// boundary stops it too. An end of input inside a chunk is an error.
pub open spec fn read_outcome(source: Seq<u8>, max_entries: nat) -> Result<
    Seq<TraceEntry>,
    TraceError,
> {
    if max_entries <= whole_records(source) {
        Ok(decode_records(source, max_entries))
    } else if trailing_bytes(source) == 0 {
        Ok(decode_records(source, whole_records(source)))
    } else {
        Err(
            TraceError::TruncatedRecord {
                complete: whole_records(source) as usize,
                trailing: trailing_bytes(source) as usize,
            },
        )
    }
}

/// `records.len()` records are stored in exactly 24 times as many bytes.
pub proof fn lemma_encoded_len(records: Seq<TraceEntry>)
    ensures
        encode_records(records).len() == 24 * records.len(),
{
}

/// Nothing stands between the records of a trace: chunk `index` is the
/// encoding of record `index`.
pub proof fn lemma_encoded_chunk(records: Seq<TraceEntry>, index: int)
    requires
        0 <= index < records.len(),
    ensures
        chunk(encode_records(records), index) == records[index].spec_encode(),
{
    lemma_encode_len(records[index]);
}

/// A trace of two runs of records is the trace of the first followed by the
/// trace of the second.
pub proof fn lemma_encode_concat(first: Seq<TraceEntry>, second: Seq<TraceEntry>)
    ensures
        encode_records(first + second) == encode_records(first) + encode_records(second),
{
}

/// A trace of one record is that record's 24 bytes.
pub proof fn lemma_encode_single(entry: TraceEntry)
    ensures
        encode_records(seq![entry]) == entry.spec_encode(),
{
    lemma_encode_len(entry);
}

/// The first `count` chunks of a trace decode to its first `count` records.
pub proof fn lemma_decode_encoded(records: Seq<TraceEntry>, count: nat)
    requires
        count <= records.len(),
    ensures
        decode_records(encode_records(records), count) == records.take(count as int),
{
    assert forall|k: int| 0 <= k < count implies #[trigger] decode_records(
        encode_records(records),
        count,
    )[k] == records[k] by {
        lemma_encoded_chunk(records, k);
        lemma_decode_encode(records[k]);
    }
}

/// Bytes that hold whole records only are the trace of the records they
/// decode to.
pub proof fn lemma_encode_decoded(bytes: Seq<u8>)
    requires
        trailing_bytes(bytes) == 0,
    ensures
        encode_records(decode_records(bytes, whole_records(bytes))) == bytes,
{
    let records = decode_records(bytes, whole_records(bytes));
    assert forall|i: int| 0 <= i < bytes.len() implies #[trigger] encode_records(records)[i]
        == bytes[i] by {
        let k = i / 24;
        lemma_encode_decode(chunk(bytes, k));
    }
}

/// Round trip: reading a trace of `records` with a bound of at least their
/// number yields `records`, in the same order.
pub proof fn lemma_round_trip(records: Seq<TraceEntry>, max_entries: nat)
    requires
        max_entries >= records.len(),
    ensures
        read_outcome(encode_records(records), max_entries) == Ok::<Seq<TraceEntry>, TraceError>(
            records,
        ),
{
    lemma_decode_encoded(records, records.len());
    assert(records.take(records.len() as int) =~= records);
}

/// Appending: a sink that took `first` and then `second` reads back as
/// `first` followed by `second`, given a bound of at least their number.
pub proof fn lemma_append_round_trip(
    first: Seq<TraceEntry>,
    second: Seq<TraceEntry>,
    max_entries: nat,
)
    requires
        max_entries >= first.len() + second.len(),
    ensures
        read_outcome(encode_records(first) + encode_records(second), max_entries) == Ok::<
            Seq<TraceEntry>,
            TraceError,
        >(first + second),
{
    lemma_encode_concat(first, second);
    lemma_round_trip(first + second, max_entries);
}

/// Bounded read: from a source of at least `max_entries` whole records,
/// exactly `max_entries` records are read, and they are those of its first
/// `24 * max_entries` bytes. What follows those bytes has no part in the
/// result.
pub proof fn lemma_bounded_read(source: Seq<u8>, max_entries: nat)
    requires
        whole_records(source) >= max_entries,
    ensures
        read_outcome(source, max_entries) == Ok::<Seq<TraceEntry>, TraceError>(
            decode_records(source, max_entries),
        ),
        decode_records(source, max_entries).len() == max_entries,
        read_outcome(source, max_entries) == read_outcome(
            source.subrange(0, 24 * max_entries as int),
            max_entries,
        ),
{
    let prefix = source.subrange(0, 24 * max_entries as int);
    assert forall|k: int| 0 <= k < max_entries implies chunk(prefix, k) =~= chunk(source, k) by {
    }
    assert(decode_records(prefix, max_entries) =~= decode_records(source, max_entries));
}

/// Clean short file: from a source of fewer than `max_entries` whole records
/// and nothing after them, all its records are read, with no error.
pub proof fn lemma_clean_short_read(source: Seq<u8>, max_entries: nat)
    requires
        trailing_bytes(source) == 0,
        whole_records(source) < max_entries,
    ensures
        read_outcome(source, max_entries) == Ok::<Seq<TraceEntry>, TraceError>(
            decode_records(source, whole_records(source)),
        ),
        decode_records(source, whole_records(source)).len() == whole_records(source),
        encode_records(decode_records(source, whole_records(source))) == source,
{
    lemma_encode_decoded(source);
}

/// Truncated file: where the last record was cut short and the bound lets the
/// reading get that far, the outcome is an error that tells how many records
/// were whole and how many bytes were left over. No record is made up from
/// the leftover bytes.
pub proof fn lemma_truncated_read(source: Seq<u8>, max_entries: nat)
    requires
        trailing_bytes(source) != 0,
        whole_records(source) < max_entries,
    ensures
        read_outcome(source, max_entries) == Err::<Seq<TraceEntry>, TraceError>(
            TraceError::TruncatedRecord {
                complete: whole_records(source) as usize,
                trailing: trailing_bytes(source) as usize,
            },
        ),
        0 < trailing_bytes(source) < 24,
{
}

} // verus!
