//! Writing a run of records to a byte sink and reading records back from a
//! byte source.

use crate::entry::TraceEntry;
use crate::error::TraceError;
use crate::format::{encode_records, lemma_encode_concat, lemma_encode_single, read_outcome};
use crate::reader::{lemma_drain_is_read_outcome, TraceReader};
use vstd::prelude::*;

verus! {

/// Appends the 24 bytes of one record to `sink`.
fn append_record(sink: &mut Vec<u8>, bytes: &[u8; 24])
    ensures
        final(sink)@ == old(sink)@ + bytes@,
{
    let ghost before = sink@;
    let mut index: usize = 0;
    while index < 24
        invariant
            index <= 24,
            sink@ == before + bytes@.take(index as int),
        decreases 24 - index,
    {
        sink.push(bytes[index]);
        index = index + 1;
    }
}

/// Copies the next chunk of `source`, from `offset` on, into `chunk`, and
/// tells how many bytes of it were there: 24, or fewer where the source ends
/// first. The bytes of `chunk` past that number are left as they were.
fn next_chunk(source: &[u8], offset: usize, chunk: &mut [u8; 24]) -> (filled: usize)
    requires
        offset <= source@.len(),
    ensures
        filled <= 24,
        filled == if source@.len() - offset >= 24 {
            24
        } else {
            source@.len() - offset
        },
        final(chunk)@.take(filled as int) == source@.subrange(offset as int, offset + filled),
{
    let left = source.len() - offset;
    let wanted: usize = if left >= 24 {
        24
    } else {
        left
    };
    let mut filled: usize = 0;
    while filled < wanted
        invariant
            filled <= wanted <= 24,
            offset + wanted <= source@.len() == source.len(),
            chunk@.take(filled as int) == source@.subrange(offset as int, offset + filled),
        decreases wanted - filled,
    {
        chunk[filled] = source[offset + filled];
        filled = filled + 1;
    }
    filled
}

/// Appends `entries` to `sink`, each as its 24 bytes, in order, with nothing
/// before, between or after them. What `sink` held stays in front.
pub fn write_trace(sink: &mut Vec<u8>, entries: &[TraceEntry])
    ensures
        final(sink)@ == old(sink)@ + encode_records(entries@),
        final(sink)@.len() == old(sink)@.len() + 24 * entries@.len(),
{
    let ghost before = sink@;
    let mut index: usize = 0;
    while index < entries.len()
        invariant
            index <= entries@.len(),
            sink@ == before + encode_records(entries@.take(index as int)),
        decreases entries@.len() - index,
    {
        let bytes = entries[index].encode();
        append_record(sink, &bytes);
        proof {
            let written = entries@.take(index as int);
            lemma_encode_single(entries@[index as int]);
            lemma_encode_concat(written, seq![entries@[index as int]]);
        }
        index = index + 1;
    }
}

/// Reads at most `max_entries` records from the start of `source`.
///
/// Reading stops after `max_entries` records, or where the source ends on a
/// record boundary, and yields the records read. Where the source ends inside
/// a record that the bound would have let in, the trace is torn and the
/// result is [`TraceError::TruncatedRecord`].
pub fn read_trace(source: &[u8], max_entries: usize) -> (result: Result<
    Vec<TraceEntry>,
    TraceError,
>)
    ensures
        match result {
            Ok(entries) => read_outcome(source@, max_entries as nat) == Ok::<
                Seq<TraceEntry>,
                TraceError,
            >(entries@),
            Err(fault) => read_outcome(source@, max_entries as nat) == Err::<
                Seq<TraceEntry>,
                TraceError,
            >(fault),
        },
{
    let mut reader = TraceReader::new(max_entries);
    let mut offset: usize = 0;
    let mut chunk = [0u8; 24];
    proof {
        lemma_drain_is_read_outcome(source@, max_entries as nat);
        assert(source@.skip(0) =~= source@);
    }
    while reader.wants_chunk()
        invariant
            offset <= source@.len() == source.len(),
            reader@.wf(),
            reader@.drain(source@.skip(offset as int)) == read_outcome(
                source@,
                max_entries as nat,
            ),
        decreases
                reader@.limit - reader@.records.len() + if reader@.closed {
                    0int
                } else {
                    1int
                },
    {
        let ghost rest = source@.skip(offset as int);
        let filled = next_chunk(source, offset, &mut chunk);
        proof {
            if filled == 24 {
                assert(chunk@ =~= rest.subrange(0, 24));
                assert(rest.skip(24) =~= source@.skip(offset + 24));
            }
        }
        match reader.accept(&chunk, filled) {
            Ok(_) => {},
            Err(fault) => {
                return Err(fault);
            },
        }
        offset = offset + filled;
    }
    Ok(reader.into_entries())
}

} // verus!
