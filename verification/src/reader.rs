//! Decoding a trace chunk by chunk.
//!
//! A [`TraceReader`] holds what was decoded so far and decides what happens
//! next. Its caller owns the source: while the reader wants a chunk, the
//! caller tries to get the next 24 bytes and tells the reader how many of
//! them were there before the input ended.

use crate::entry::TraceEntry;
use crate::error::TraceError;
use crate::format::{chunk, decode_records, read_outcome, whole_records};
use vstd::prelude::*;

verus! {

/// What a reader is between two chunks.
#[verifier::ext_equal]
pub struct ReaderModel {
    /// How many records may be read at most.
    pub limit: nat,
    /// The records decoded so far, in the order of the source.
    pub records: Seq<TraceEntry>,
    /// Whether the input has ended, on a record boundary or inside a record.
    pub closed: bool,
}

impl ReaderModel {
    /// A reader that has seen nothing yet.
    pub open spec fn start(limit: nat) -> ReaderModel {
        ReaderModel { limit, records: Seq::empty(), closed: false }
    }

    /// A reader never holds more records than its limit.
    pub open spec fn wf(self) -> bool {
        self.records.len() <= self.limit
    }

    /// Whether another chunk is to be read: the input has not ended and the
    /// limit is not reached.
    pub open spec fn wants_chunk(self) -> bool {
        !self.closed && self.records.len() < self.limit
    }

    /// The reader after a chunk of which `filled` bytes were there: all 24,
    /// and the chunk is one more record; fewer, and the input has ended. A
    /// reader that wants no chunk stays as it is.
    pub open spec fn accept(self, chunk: Seq<u8>, filled: nat) -> ReaderModel {
        if !self.wants_chunk() {
            self
        } else if filled >= 24 {
            ReaderModel { records: self.records.push(TraceEntry::spec_decode(chunk)), ..self }
        } else {
            ReaderModel { closed: true, ..self }
        }
    }

    /// Whether a chunk of which `filled` bytes were there is in order: an end
    /// of input after 1 to 23 bytes of a wanted chunk is a record cut short.
    pub open spec fn verdict(self, filled: nat) -> Result<(), TraceError> {
        if self.wants_chunk() && 0 < filled < 24 {
            Err(
                TraceError::TruncatedRecord {
                    complete: self.records.len() as usize,
                    trailing: filled as usize,
                },
            )
        } else {
            Ok(())
        }
    }

    /// What comes of handing the reader the chunks of `rest`, one after the
    /// other, for as long as it wants one.
    pub open spec fn drain(self, rest: Seq<u8>) -> Result<Seq<TraceEntry>, TraceError>
        decreases rest.len(),
    {
        if !self.wants_chunk() {
            Ok(self.records)
        } else if rest.len() >= 24 {
            self.accept(rest.subrange(0, 24), 24).drain(rest.skip(24))
        } else {
            match self.verdict(rest.len()) {
                Ok(_) => Ok(self.accept(rest, rest.len()).records),
                Err(e) => Err(e),
            }
        }
    }
}

/// Whatever chunk it is handed, a reader keeps its limit and stays within it,
/// and one that wants no chunk is left as it is: once the limit is reached or
/// the input has ended, nothing more is read.
pub proof fn lemma_accept_keeps_wf(reader: ReaderModel, chunk: Seq<u8>, filled: nat)
    requires
        reader.wf(),
    ensures
        reader.accept(chunk, filled).wf(),
        reader.accept(chunk, filled).limit == reader.limit,
        !reader.wants_chunk() ==> reader.accept(chunk, filled) == reader,
        !reader.wants_chunk() ==> !reader.accept(chunk, filled).wants_chunk(),
{
}

/// A reader that holds the first records of `source` and is handed the rest
/// of it ends with what the format says of `source`.
proof fn lemma_drain_from(reader: ReaderModel, source: Seq<u8>)
    requires
        !reader.closed,
        reader.records.len() <= whole_records(source),
        reader.records.len() <= reader.limit,
        reader.records == decode_records(source, reader.records.len()),
    ensures
        reader.drain(source.skip(24 * reader.records.len() as int)) == read_outcome(
            source,
            reader.limit,
        ),
    decreases source.len() - 24 * reader.records.len(),
{
    let done = reader.records.len();
    let rest = source.skip(24 * done as int);
    if reader.wants_chunk() && rest.len() >= 24 {
        let next = reader.accept(rest.subrange(0, 24), 24);
        assert(rest.subrange(0, 24) =~= chunk(source, done as int));
        assert(next.records =~= decode_records(source, done + 1));
        assert(rest.skip(24) =~= source.skip(24 * next.records.len() as int));
        lemma_drain_from(next, source);
    }
}

/// Driving a fresh reader over the chunks of `source` yields what the format
/// says that reading at most `max_entries` records from `source` yields.
pub proof fn lemma_drain_is_read_outcome(source: Seq<u8>, max_entries: nat)
    ensures
        ReaderModel::start(max_entries).drain(source) == read_outcome(source, max_entries),
{
    let reader = ReaderModel::start(max_entries);
    assert(reader.records =~= decode_records(source, 0));
    assert(source.skip(0) =~= source);
    lemma_drain_from(reader, source);
}

/// A trace decoder that is fed one chunk at a time.
pub struct TraceReader {
    /// How many more records may be read.
    remaining: usize,
    entries: Vec<TraceEntry>,
    closed: bool,
}

impl View for TraceReader {
    type V = ReaderModel;

    closed spec fn view(&self) -> ReaderModel {
        ReaderModel {
            limit: self.entries@.len() + self.remaining as nat,
            records: self.entries@,
            closed: self.closed,
        }
    }
}

impl TraceReader {
    /// A reader that will decode at most `max_entries` records.
    pub fn new(max_entries: usize) -> (reader: TraceReader)
        ensures
            reader@ == ReaderModel::start(max_entries as nat),
    {
        TraceReader { remaining: max_entries, entries: Vec::new(), closed: false }
    }

    /// Every reader is within its limit.
    pub proof fn lemma_within_limit(&self)
        ensures
            self@.wf(),
    {
    }

    /// Whether the caller is to read another chunk. Once this is false it
    /// stays false: no chunk beyond the limit is ever asked for.
    pub fn wants_chunk(&self) -> (wanted: bool)
        ensures
            wanted == self@.wants_chunk(),
            self@.wf(),
    {
        !self.closed && self.remaining > 0
    }

    /// Takes the outcome of one attempt to read a 24-byte chunk: `filled` is
    /// how many bytes of it were there before the input ended, and `chunk`
    /// holds them. With all 24 (a larger count is taken for 24) the chunk is
    /// decoded and kept. With none the trace has ended cleanly. With 1 to 23
    /// the last record was cut short: that is the error, and no record is
    /// made of those bytes. A reader that wants no chunk ignores the call.
    pub fn accept(&mut self, chunk: &[u8; 24], filled: usize) -> (verdict: Result<(), TraceError>)
        ensures
            final(self)@ == old(self)@.accept(chunk@, filled as nat),
            verdict == old(self)@.verdict(filled as nat),
            final(self)@.wf(),
    {
        if self.closed || self.remaining == 0 {
            Ok(())
        } else if filled >= 24 {
            self.entries.push(TraceEntry::decode(chunk));
            self.remaining = self.remaining - 1;
            Ok(())
        } else {
            self.closed = true;
            if filled == 0 {
                Ok(())
            } else {
                Err(TraceError::TruncatedRecord { complete: self.entries.len(), trailing: filled })
            }
        }
    }

    /// The records decoded so far, in the order of the source.
    pub fn into_entries(self) -> (entries: Vec<TraceEntry>)
        ensures
            entries@ == self@.records,
            entries@.len() <= self@.limit,
    {
        self.entries
    }
}

} // verus!
