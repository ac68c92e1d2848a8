use std::sync::Arc;

use doc_store::doc_indexes::{DocIndex, DocIndexes, DocIndexesBuilder, DocIndexesError};

fn entries() -> (DocIndex, DocIndex, DocIndex) {
    let a = DocIndex { document_id: 0, attribute: 3, attribute_index: 11 };
    let b = DocIndex { document_id: 1, attribute: 4, attribute_index: 21 };
    let c = DocIndex { document_id: 2, attribute: 8, attribute_index: 2 };
    (a, b, c)
}

#[test]
fn serialize_deserialize() {
    let (a, b, c) = entries();

    let mut builder = DocIndexesBuilder::memory();

    builder.insert(&[a]);
    builder.insert(&[a, b, c]);
    builder.insert(&[a, c]);

    let bytes = builder.into_inner();
    let docs = DocIndexes::from_bytes(bytes).unwrap();

    assert_eq!(docs.get(0).unwrap(), &[a]);
    assert_eq!(docs.get(1).unwrap(), &[a, b, c]);
    assert_eq!(docs.get(2).unwrap(), &[a, c]);
}

#[test]
fn get_past_last_term_is_none() {
    let (a, b, c) = entries();
    let mut builder = DocIndexesBuilder::memory();
    builder.insert(&[a]);
    builder.insert(&[a, b, c]);
    builder.insert(&[a, c]);
    let docs = DocIndexes::from_bytes(builder.into_inner()).unwrap();
    assert!(docs.get(3).is_none());
    assert!(docs.get(u64::MAX).is_none());
}

#[test]
fn layout_is_entries_ranges_trailer() {
    let (a, _, _) = entries();
    let mut builder = DocIndexesBuilder::memory();
    builder.insert(&[a]);
    let bytes = builder.into_inner();
    assert_eq!(bytes.len(), 14 + 16 + 8);
    // entry: document id, attribute, position, little-endian
    assert_eq!(&bytes[0..14], &[0, 0, 0, 0, 0, 0, 0, 0, 3, 0, 11, 0, 0, 0]);
    // range [0, 1)
    assert_eq!(&bytes[14..30], &[0, 0, 0, 0, 0, 0, 0, 0, 1, 0, 0, 0, 0, 0, 0, 0]);
    // trailer: ranges segment is 16 bytes
    assert_eq!(&bytes[30..38], &[16, 0, 0, 0, 0, 0, 0, 0]);
}

#[test]
fn empty_build_loads_with_no_terms() {
    let bytes = DocIndexesBuilder::memory().into_inner();
    assert_eq!(bytes, vec![0, 0, 0, 0, 0, 0, 0, 0]);
    let docs = DocIndexes::from_bytes(bytes).unwrap();
    assert!(docs.get(0).is_none());
    assert!(docs.get(1).is_none());
}

#[test]
fn single_empty_list() {
    let mut builder = DocIndexesBuilder::memory();
    builder.insert(&[]);
    let docs = DocIndexes::from_bytes(builder.into_inner()).unwrap();
    assert_eq!(docs.get(0).unwrap(), Vec::<DocIndex>::new());
    assert!(docs.get(1).is_none());
}

#[test]
fn finish_consumes_builder() {
    let (a, _, _) = entries();
    let mut builder = DocIndexesBuilder::new(Vec::new());
    builder.insert(&[a]);
    builder.finish();
}

#[test]
fn short_buffer_is_rejected() {
    let r = DocIndexes::from_bytes(vec![1, 2, 3]);
    assert_eq!(r.err(), Some(DocIndexesError::MissingTrailer));
}

#[test]
fn oversized_ranges_length_is_rejected() {
    let r = DocIndexes::from_bytes(vec![17, 0, 0, 0, 0, 0, 0, 0]);
    assert_eq!(r.err(), Some(DocIndexesError::RangesTooLong));
}

#[test]
fn misaligned_segment_is_rejected() {
    let mut bytes = vec![0u8; 5];
    bytes.extend_from_slice(&[0, 0, 0, 0, 0, 0, 0, 0]);
    let r = DocIndexes::from_bytes(bytes);
    assert_eq!(r.err(), Some(DocIndexesError::MisalignedSegment));
}

#[test]
fn range_past_entries_is_rejected() {
    let mut bytes = Vec::new();
    bytes.extend_from_slice(&[0, 0, 0, 0, 0, 0, 0, 0, 2, 0, 0, 0, 0, 0, 0, 0]);
    bytes.extend_from_slice(&[16, 0, 0, 0, 0, 0, 0, 0]);
    let r = DocIndexes::from_bytes(bytes);
    assert_eq!(r.err(), Some(DocIndexesError::RangeOutOfBounds));
}

#[test]
fn shared_window_reads_embedded_store() {
    let (a, b, _) = entries();
    let mut builder = DocIndexesBuilder::memory();
    builder.insert(&[b]);
    builder.insert(&[a, b]);
    let store = builder.into_inner();
    let len = store.len();
    let mut blob = vec![9u8, 9, 9];
    blob.extend_from_slice(&store);
    blob.extend_from_slice(&[7, 7]);
    let shared = Arc::new(blob);
    let docs = DocIndexes::from_shared_bytes(shared.clone(), 3, len).unwrap();
    assert_eq!(docs.get(0).unwrap(), &[b]);
    assert_eq!(docs.get(1).unwrap(), &[a, b]);
    assert!(docs.get(2).is_none());
}

#[test]
fn parts_round_trip() {
    let (a, b, c) = entries();
    let mut builder = DocIndexesBuilder::memory();
    builder.insert(&[a, c]);
    builder.insert(&[b]);
    let bytes = builder.into_inner();
    let docs = DocIndexes::from_bytes(bytes.clone()).unwrap();
    let (ranges, indexes) = docs.to_parts();
    assert_eq!(indexes, bytes[0..42].to_vec());
    assert_eq!(ranges, bytes[42..74].to_vec());
    let back = DocIndexes::from_parts(ranges, indexes).unwrap();
    assert_eq!(back.get(0).unwrap(), &[a, c]);
    assert_eq!(back.get(1).unwrap(), &[b]);
    assert!(back.get(2).is_none());
}

#[test]
fn parts_are_checked() {
    assert_eq!(DocIndexes::from_parts(vec![0; 15], vec![]).err(), Some(DocIndexesError::MisalignedSegment));
    let mut ranges = vec![0u8; 8];
    ranges.extend_from_slice(&[1, 0, 0, 0, 0, 0, 0, 0]);
    assert_eq!(DocIndexes::from_parts(ranges, vec![]).err(), Some(DocIndexesError::RangeOutOfBounds));
}

#[test]
fn single_empty_insert_bytes() {
    let mut builder = DocIndexesBuilder::memory();
    builder.insert(&[]);
    let mut expected = vec![0u8; 16];
    expected.extend_from_slice(&16u64.to_le_bytes());
    assert_eq!(builder.into_inner(), expected);
}

#[test]
fn new_keeps_writer_prefix() {
    let builder = DocIndexesBuilder::new(vec![5, 6]);
    assert_eq!(builder.into_inner(), vec![5, 6, 0, 0, 0, 0, 0, 0, 0, 0]);
}
