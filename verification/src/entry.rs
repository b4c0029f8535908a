//! The trace record and its 24-byte layout.
//!
//! | bytes    | field               | stored as                         |
//! |----------|---------------------|-----------------------------------|
//! | 0..4     | `timestamp`         | unsigned, little-endian           |
//! | 4..12    | `obj_id`            | unsigned, little-endian           |
//! | 12..16   | `obj_size`          | unsigned, little-endian           |
//! | 16..24   | `next_access_vtime` | two's complement, little-endian   |
//!
//! There is no padding between or after the fields.

use crate::little_endian::{
    from_twos_complement, le_digits, le_value, lemma_byte_range_of_fields, lemma_digits_of_value,
    lemma_from_twos_complement_inverse, lemma_le_digits_len, lemma_le_value_bound,
    lemma_twos_complement_inverse, lemma_value_of_digits, load_le, store_le, to_signed,
    to_unsigned, twos_complement,
};
use vstd::prelude::*;

verus! {

/// The width of one record on disk, in bytes.
pub const RECORD_SIZE: usize = 24;

/// One cache-access event.
#[derive(Debug, Clone, Copy, PartialEq, Eq, Structural)]
pub struct TraceEntry {
    /// When the access happened.
    pub timestamp: u32,
    /// Which object was accessed.
    pub obj_id: u64,
    /// The size of that object.
    pub obj_size: u32,
    /// The virtual time of the next access to the same object, or -1 where
    /// there is none.
    pub next_access_vtime: i64,
}

impl TraceEntry {
    /// The 24 bytes that store this record.
    pub open spec fn spec_encode(self) -> Seq<u8> {
        le_digits(self.timestamp as nat, 4) + le_digits(self.obj_id as nat, 8) + le_digits(
            self.obj_size as nat,
            4,
        ) + le_digits(twos_complement(self.next_access_vtime), 8)
    }

    /// The record that 24 bytes store.
    pub open spec fn spec_decode(bytes: Seq<u8>) -> TraceEntry
        recommends
            bytes.len() == 24,
    {
        TraceEntry {
            timestamp: le_value(bytes.subrange(0, 4)) as u32,
            obj_id: le_value(bytes.subrange(4, 12)) as u64,
            obj_size: le_value(bytes.subrange(12, 16)) as u32,
            next_access_vtime: from_twos_complement(le_value(bytes.subrange(16, 24))),
        }
    }

    /// The width of every record on disk: 24 bytes.
    pub fn size_in_bytes() -> (size: usize)
        ensures
            size == 24,
            size == RECORD_SIZE,
    {
        RECORD_SIZE
    }

    /// Lays the record out in its 24 bytes.
    pub fn encode(&self) -> (bytes: [u8; 24])
        ensures
            bytes@ == self.spec_encode(),
    {
        let mut bytes = [0u8; 24];
        store_le(&mut bytes, 0, 4, self.timestamp as u64);
        store_le(&mut bytes, 4, 8, self.obj_id);
        store_le(&mut bytes, 12, 4, self.obj_size as u64);
        store_le(&mut bytes, 16, 8, to_unsigned(self.next_access_vtime));
        proof {
            lemma_le_digits_len(self.timestamp as nat, 4);
            lemma_le_digits_len(self.obj_id as nat, 8);
            lemma_le_digits_len(self.obj_size as nat, 4);
            lemma_le_digits_len(twos_complement(self.next_access_vtime), 8);
        }
        bytes
    }

    /// Reads a record back from its 24 bytes. Every 24 bytes are some record.
    pub fn decode(bytes: &[u8; 24]) -> (entry: TraceEntry)
        ensures
            entry == Self::spec_decode(bytes@),
    {
        proof {
            lemma_byte_range_of_fields();
            lemma_le_value_bound(bytes@.subrange(0, 4));
            lemma_le_value_bound(bytes@.subrange(12, 16));
        }
        TraceEntry {
            timestamp: load_le(bytes, 0, 4) as u32,
            obj_id: load_le(bytes, 4, 8),
            obj_size: load_le(bytes, 12, 4) as u32,
            next_access_vtime: to_signed(load_le(bytes, 16, 8)),
        }
    }
}

/// A record is stored in exactly 24 bytes.
pub proof fn lemma_encode_len(entry: TraceEntry)
    ensures
        entry.spec_encode().len() == 24,
{
    lemma_le_digits_len(entry.timestamp as nat, 4);
    lemma_le_digits_len(entry.obj_id as nat, 8);
    lemma_le_digits_len(entry.obj_size as nat, 4);
    lemma_le_digits_len(twos_complement(entry.next_access_vtime), 8);
}

/// Decoding what a record was encoded to gives the record back, whatever its
/// field values.
pub proof fn lemma_decode_encode(entry: TraceEntry)
    ensures
        TraceEntry::spec_decode(entry.spec_encode()) == entry,
{
    let bytes = entry.spec_encode();
    let timestamp = le_digits(entry.timestamp as nat, 4);
    let obj_id = le_digits(entry.obj_id as nat, 8);
    let obj_size = le_digits(entry.obj_size as nat, 4);
    let next_access = le_digits(twos_complement(entry.next_access_vtime), 8);
    lemma_le_digits_len(entry.timestamp as nat, 4);
    lemma_le_digits_len(entry.obj_id as nat, 8);
    lemma_le_digits_len(entry.obj_size as nat, 4);
    lemma_le_digits_len(twos_complement(entry.next_access_vtime), 8);
    assert(bytes.subrange(0, 4) =~= timestamp);
    assert(bytes.subrange(4, 12) =~= obj_id);
    assert(bytes.subrange(12, 16) =~= obj_size);
    assert(bytes.subrange(16, 24) =~= next_access);
    lemma_byte_range_of_fields();
    lemma_twos_complement_inverse(entry.next_access_vtime);
    lemma_value_of_digits(entry.timestamp as nat, 4);
    lemma_value_of_digits(entry.obj_id as nat, 8);
    lemma_value_of_digits(entry.obj_size as nat, 4);
    lemma_value_of_digits(twos_complement(entry.next_access_vtime), 8);
}

/// Encoding what 24 bytes decode to gives the same 24 bytes back: every bit
/// pattern is a record, and no two patterns are the same record.
pub proof fn lemma_encode_decode(bytes: Seq<u8>)
    requires
        bytes.len() == 24,
    ensures
        TraceEntry::spec_decode(bytes).spec_encode() == bytes,
{
    lemma_byte_range_of_fields();
    lemma_le_value_bound(bytes.subrange(0, 4));
    lemma_le_value_bound(bytes.subrange(4, 12));
    lemma_le_value_bound(bytes.subrange(12, 16));
    lemma_le_value_bound(bytes.subrange(16, 24));
    lemma_from_twos_complement_inverse(le_value(bytes.subrange(16, 24)));
    lemma_digits_of_value(bytes.subrange(0, 4));
    lemma_digits_of_value(bytes.subrange(4, 12));
    lemma_digits_of_value(bytes.subrange(12, 16));
    lemma_digits_of_value(bytes.subrange(16, 24));
}

} // verus!
