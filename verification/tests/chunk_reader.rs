use cache_trace::{TraceEntry, TraceError, TraceReader};

fn first() -> TraceEntry {
    TraceEntry { timestamp: 1234567890, obj_id: 1, obj_size: 1024, next_access_vtime: 1234567900 }
}

fn second() -> TraceEntry {
    TraceEntry { timestamp: 1234567891, obj_id: 2, obj_size: 2048, next_access_vtime: -1 }
}

#[test]
fn fresh_reader_wants_a_chunk_unless_the_limit_is_zero() {
    assert!(TraceReader::new(1).wants_chunk());
    assert!(TraceReader::new(usize::MAX).wants_chunk());
    assert!(!TraceReader::new(0).wants_chunk());
    assert_eq!(TraceReader::new(0).into_entries(), vec![]);
}

#[test]
fn whole_chunks_become_records_in_order() {
    let mut reader = TraceReader::new(10);
    assert_eq!(reader.accept(&first().encode(), 24), Ok(()));
    assert!(reader.wants_chunk());
    assert_eq!(reader.accept(&second().encode(), 24), Ok(()));
    assert!(reader.wants_chunk());
    assert_eq!(reader.into_entries(), vec![first(), second()]);
}

#[test]
fn reader_stops_asking_at_its_limit() {
    let mut reader = TraceReader::new(2);
    assert_eq!(reader.accept(&first().encode(), 24), Ok(()));
    assert!(reader.wants_chunk());
    assert_eq!(reader.accept(&second().encode(), 24), Ok(()));
    assert!(!reader.wants_chunk());
    assert_eq!(reader.accept(&first().encode(), 24), Ok(()));
    assert!(!reader.wants_chunk());
    assert_eq!(reader.into_entries(), vec![first(), second()]);
}

#[test]
fn empty_chunk_ends_the_trace_cleanly() {
    let mut reader = TraceReader::new(10);
    assert_eq!(reader.accept(&first().encode(), 24), Ok(()));
    assert_eq!(reader.accept(&[0u8; 24], 0), Ok(()));
    assert!(!reader.wants_chunk());
    assert_eq!(reader.into_entries(), vec![first()]);
}

#[test]
fn partial_chunk_is_a_truncated_record() {
    let mut reader = TraceReader::new(10);
    assert_eq!(reader.accept(&first().encode(), 24), Ok(()));
    assert_eq!(
        reader.accept(&second().encode(), 10),
        Err(TraceError::TruncatedRecord { complete: 1, trailing: 10 })
    );
    assert!(!reader.wants_chunk());
    assert_eq!(reader.into_entries(), vec![first()]);
}

#[test]
fn every_partial_length_is_truncation() {
    for filled in 1..24usize {
        let mut reader = TraceReader::new(3);
        assert_eq!(
            reader.accept(&first().encode(), filled),
            Err(TraceError::TruncatedRecord { complete: 0, trailing: filled })
        );
        assert_eq!(reader.into_entries(), vec![]);
    }
}

#[test]
fn closed_reader_ignores_further_chunks() {
    let mut reader = TraceReader::new(10);
    assert_eq!(reader.accept(&[0u8; 24], 0), Ok(()));
    assert_eq!(reader.accept(&first().encode(), 24), Ok(()));
    assert_eq!(reader.accept(&first().encode(), 5), Ok(()));
    assert!(!reader.wants_chunk());
    assert_eq!(reader.into_entries(), vec![]);
}

#[test]
fn driving_the_reader_by_hand_matches_read_trace() {
    let mut sink = Vec::new();
    cache_trace::write_trace(&mut sink, &[first(), second(), first()]);
    sink.truncate(60);
    for limit in 0..5usize {
        let mut reader = TraceReader::new(limit);
        let mut offset = 0;
        let mut fault = None;
        while reader.wants_chunk() {
            let filled = (sink.len() - offset).min(24);
            let mut chunk = [0u8; 24];
            chunk[..filled].copy_from_slice(&sink[offset..offset + filled]);
            offset += filled;
            if let Err(e) = reader.accept(&chunk, filled) {
                fault = Some(e);
            }
        }
        let by_hand = match fault {
            Some(e) => Err(e),
            None => Ok(reader.into_entries()),
        };
        assert_eq!(by_hand, cache_trace::read_trace(&sink, limit));
    }
}
