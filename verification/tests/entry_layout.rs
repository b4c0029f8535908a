use cache_trace::entry::{TraceEntry, RECORD_SIZE};

fn sample() -> TraceEntry {
    TraceEntry { timestamp: 1234567890, obj_id: 1, obj_size: 1024, next_access_vtime: 1234567900 }
}

#[test]
fn size_in_bytes_is_24() {
    assert_eq!(TraceEntry::size_in_bytes(), 24);
    assert_eq!(RECORD_SIZE, 24);
}

#[test]
fn encode_gives_exact_bytes() {
    let bytes = sample().encode();
    let expected: [u8; 24] = [
        0xd2, 0x02, 0x96, 0x49, // timestamp
        0x01, 0x00, 0x00, 0x00, 0x00, 0x00, 0x00, 0x00, // obj_id
        0x00, 0x04, 0x00, 0x00, // obj_size
        0xdc, 0x02, 0x96, 0x49, 0x00, 0x00, 0x00, 0x00, // next_access_vtime
    ];
    assert_eq!(bytes, expected);
}

#[test]
fn encode_has_no_padding_and_fixed_offsets() {
    let entry = TraceEntry {
        timestamp: 0x0403_0201,
        obj_id: 0x0c0b_0a09_0807_0605,
        obj_size: 0x100f_0e0d,
        next_access_vtime: 0x1817_1615_1413_1211,
    };
    let bytes = entry.encode();
    assert_eq!(bytes.len(), 24);
    for (index, byte) in bytes.iter().enumerate() {
        assert_eq!(*byte as usize, index + 1);
    }
}

#[test]
fn encode_agrees_with_std_little_endian() {
    let entry = TraceEntry {
        timestamp: 0xdead_beef,
        obj_id: 0x0123_4567_89ab_cdef,
        obj_size: 77,
        next_access_vtime: -1234567890123,
    };
    let bytes = entry.encode();
    assert_eq!(bytes[0..4], entry.timestamp.to_le_bytes());
    assert_eq!(bytes[4..12], entry.obj_id.to_le_bytes());
    assert_eq!(bytes[12..16], entry.obj_size.to_le_bytes());
    assert_eq!(bytes[16..24], entry.next_access_vtime.to_le_bytes());
}

#[test]
fn decode_reads_each_field_at_its_offset() {
    let bytes: [u8; 24] = [
        0xd3, 0x02, 0x96, 0x49, 0x02, 0x00, 0x00, 0x00, 0x00, 0x00, 0x00, 0x00, 0x00, 0x08, 0x00,
        0x00, 0xff, 0xff, 0xff, 0xff, 0xff, 0xff, 0xff, 0xff,
    ];
    let entry = TraceEntry::decode(&bytes);
    assert_eq!(
        entry,
        TraceEntry { timestamp: 1234567891, obj_id: 2, obj_size: 2048, next_access_vtime: -1 }
    );
}

#[test]
fn decode_undoes_encode() {
    let entry = sample();
    assert_eq!(TraceEntry::decode(&entry.encode()), entry);
}

#[test]
fn decode_undoes_encode_at_the_extremes() {
    let extremes = [
        TraceEntry { timestamp: 0, obj_id: 0, obj_size: 0, next_access_vtime: 0 },
        TraceEntry {
            timestamp: u32::MAX,
            obj_id: u64::MAX,
            obj_size: u32::MAX,
            next_access_vtime: i64::MAX,
        },
        TraceEntry { timestamp: 1, obj_id: 1, obj_size: 1, next_access_vtime: i64::MIN },
        TraceEntry { timestamp: 255, obj_id: 256, obj_size: 65536, next_access_vtime: -256 },
    ];
    for entry in extremes {
        assert_eq!(TraceEntry::decode(&entry.encode()), entry);
    }
}

#[test]
fn encode_undoes_decode_on_any_bytes() {
    let mut bytes = [0u8; 24];
    let mut seed: u32 = 0x9e37_79b9;
    for _ in 0..200 {
        for byte in bytes.iter_mut() {
            seed = seed.wrapping_mul(1_664_525).wrapping_add(1_013_904_223);
            *byte = (seed >> 24) as u8;
        }
        assert_eq!(TraceEntry::decode(&bytes).encode(), bytes);
    }
    assert_eq!(TraceEntry::decode(&[0xff; 24]).encode(), [0xff; 24]);
    assert_eq!(TraceEntry::decode(&[0x00; 24]).encode(), [0x00; 24]);
}

#[test]
fn sentinel_is_stored_as_all_ones() {
    let entry = TraceEntry { timestamp: 7, obj_id: 9, obj_size: 11, next_access_vtime: -1 };
    let bytes = entry.encode();
    assert_eq!(bytes[16..24], [0xff; 8]);
    assert_eq!(TraceEntry::decode(&bytes).next_access_vtime, -1);
}

#[test]
fn most_negative_vtime_sets_only_the_top_bit() {
    let entry = TraceEntry { timestamp: 0, obj_id: 0, obj_size: 0, next_access_vtime: i64::MIN };
    let bytes = entry.encode();
    assert_eq!(bytes[16..24], [0, 0, 0, 0, 0, 0, 0, 0x80]);
    assert_eq!(TraceEntry::decode(&bytes).next_access_vtime, i64::MIN);
}

#[test]
fn entries_compare_by_their_fields() {
    let entry = sample();
    let copy = entry;
    assert_eq!(entry, copy);
    assert_ne!(entry, TraceEntry { obj_id: 2, ..entry });
}
