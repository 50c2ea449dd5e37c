use bytes::Bytes;
use upload_engine::chunk::{chunk_at, partition};

fn payload(len: usize) -> Bytes {
    let mut v: Vec<u8> = Vec::with_capacity(len);
    let mut i: usize = 0;
    while i < len {
        v.push((i % 251) as u8);
        i += 1;
    }
    Bytes::from(v)
}

#[test]
fn million_bytes_make_four_chunks() {
    let data = payload(1_000_000);
    let chunks = partition(&data, 327_680);
    let sizes: Vec<usize> = chunks.iter().map(|c| c.payload.len()).collect();
    assert_eq!(sizes, vec![327680, 327680, 327680, 16960]);
    let ranges: Vec<(usize, usize)> = chunks.iter().map(|c| (c.start, c.end)).collect();
    assert_eq!(
        ranges,
        vec![(0, 327679), (327680, 655359), (655360, 983039), (983040, 999999)]
    );
    for c in chunks.iter() {
        assert_eq!(c.total, 1_000_000);
    }
}

#[test]
fn chunk_at_copies_the_range() {
    let data = payload(10);
    let c = chunk_at(&data, 4, 4);
    assert_eq!(c.start, 4);
    assert_eq!(c.end, 7);
    assert_eq!(c.total, 10);
    assert_eq!(&c.payload[..], &data[4..8]);
}

#[test]
fn partition_of_empty_payload_is_empty() {
    let chunks = partition(&Bytes::new(), 4);
    assert_eq!(chunks.len(), 0);
}

#[test]
fn partition_of_exact_multiple_has_full_last_chunk() {
    let data = payload(12);
    let chunks = partition(&data, 4);
    assert_eq!(chunks.len(), 3);
    assert_eq!((chunks[2].start, chunks[2].end), (8, 11));
    assert_eq!(chunks[2].payload.len(), 4);
}

#[test]
fn partition_with_factor_beyond_payload_is_one_chunk() {
    let data = payload(5);
    let chunks = partition(&data, 327_680);
    assert_eq!(chunks.len(), 1);
    assert_eq!((chunks[0].start, chunks[0].end, chunks[0].total), (0, 4, 5));
    assert_eq!(&chunks[0].payload[..], &data[..]);
}

#[test]
fn partition_joins_back_to_the_payload() {
    let data = payload(1000);
    let chunks = partition(&data, 7);
    assert_eq!(chunks.len(), 143);
    let mut joined: Vec<u8> = Vec::new();
    for c in chunks.iter() {
        joined.extend_from_slice(&c.payload);
    }
    assert_eq!(&joined[..], &data[..]);
}

#[test]
fn copy_range_copies_only_the_range() {
    let data = payload(10);
    let part = upload_engine::buffer::copy_range(&data, 2, 5);
    assert_eq!(&part[..], &[2u8, 3, 4][..]);
}
