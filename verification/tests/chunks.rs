use gimmeurl::chunks::{chunk_count, chunk_list, chunk_span, ChunkSpan, CHUNK_SIZE};

#[test]
fn chunk_counts() {
    assert_eq!(CHUNK_SIZE, 262_144);
    assert_eq!(chunk_count(0), 1);
    assert_eq!(chunk_count(1), 1);
    assert_eq!(chunk_count(262_144), 1);
    assert_eq!(chunk_count(262_145), 2);
    assert_eq!(chunk_count(10 * 262_144), 10);
    assert_eq!(chunk_count(10 * 262_144 + 1), 11);
}

#[test]
fn chunk_count_is_kept_in_32_bits() {
    assert_eq!(chunk_count(0xffff_ffff * 262_144), 0xffff_ffff);
    // 2^32 chunks: the count wraps to zero and is announced as one.
    assert_eq!(chunk_count(0x1_0000_0000 * 262_144), 1);
    assert_eq!(chunk_count(0x1_0000_0001 * 262_144), 1);
    assert_eq!(chunk_count(0x1_0000_0002 * 262_144), 2);
}

#[test]
fn chunk_lists() {
    assert_eq!(chunk_list(0), Vec::<u32>::new());
    assert_eq!(chunk_list(1), vec![0]);
    assert_eq!(chunk_list(4), vec![0, 1, 2, 3]);
}

#[test]
fn chunk_spans() {
    assert_eq!(chunk_span(600_000, 0), Some(ChunkSpan { offset: 0, size: 262_144 }));
    assert_eq!(chunk_span(600_000, 1), Some(ChunkSpan { offset: 262_144, size: 262_144 }));
    assert_eq!(chunk_span(600_000, 2), Some(ChunkSpan { offset: 524_288, size: 75_712 }));
    assert_eq!(chunk_span(600_000, 3), None);
    assert_eq!(chunk_span(524_288, 1), Some(ChunkSpan { offset: 262_144, size: 262_144 }));
    assert_eq!(chunk_span(524_288, 2), None);
    assert_eq!(chunk_span(600_000, u32::MAX), None);
}

#[test]
fn empty_file_has_one_empty_chunk() {
    assert_eq!(chunk_span(0, 0), Some(ChunkSpan { offset: 0, size: 0 }));
    assert_eq!(chunk_span(0, 1), None);
}

#[test]
fn chunks_put_together_are_the_file() {
    let data: Vec<u8> = (0..700_001u32).map(|i| (i % 251) as u8).collect();
    let mut got: Vec<u8> = Vec::new();
    for i in 0..chunk_count(data.len() as u64) {
        let span = chunk_span(data.len() as u64, i).unwrap();
        let from = span.offset as usize;
        got.extend_from_slice(&data[from..from + span.size as usize]);
    }
    assert_eq!(got, data);
}

#[test]
fn each_byte_is_in_one_chunk() {
    let size = 600_000u64;
    for position in [0u64, 262_143, 262_144, 524_287, 524_288, 599_999] {
        let homes: Vec<u32> = (0..chunk_count(size))
            .filter(|&i| {
                let s = chunk_span(size, i).unwrap();
                s.offset <= position && position < s.offset + s.size
            })
            .collect();
        assert_eq!(homes, vec![(position / 262_144) as u32]);
    }
}
