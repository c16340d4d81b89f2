use streampager::cache::{assemble, block_range, single_block_slice};

/// The blocks of "HERE IS SOME DATA" with a block size of four.
fn blocks() -> Vec<Vec<u8>> {
    b"HERE IS SOME DATA".chunks(4).map(|c| c.to_vec()).collect()
}

fn read_range(start: usize, end: usize) -> Vec<u8> {
    let b = blocks();
    let (first, last) = block_range(start, end, 4);
    if first == last {
        let empty = Vec::new();
        single_block_slice(b.get(first).unwrap_or(&empty), start, end, 4)
    } else {
        let part: Vec<Vec<u8>> = (first..=last).map(|i| b.get(i).cloned().unwrap_or_default()).collect();
        assemble(&part, first, 4, start, end)
    }
}

#[test]
fn cached_blocks_read_like_the_file() {
    assert_eq!(read_range(0, 4).as_slice(), b"HERE");
    assert_eq!(read_range(5, 7).as_slice(), b"IS");
    assert_eq!(read_range(3, 9).as_slice(), b"E IS S");
    assert_eq!(read_range(0, 17).as_slice(), b"HERE IS SOME DATA");
    assert_eq!(read_range(0, 20).as_slice(), b"HERE IS SOME DATA\0\0\0");
}

#[test]
fn short_blocks_read_as_zeros() {
    let part = vec![b"ab".to_vec(), b"cdef".to_vec()];
    assert_eq!(assemble(&part, 1, 4, 4, 12), b"ab\0\0cdef".to_vec());
    assert_eq!(block_range(4, 12, 4), (1, 2));
}

#[test]
fn short_single_block_reads_as_zeros() {
    assert_eq!(single_block_slice(b"ab", 0, 4, 4), b"ab\0\0".to_vec());
    assert_eq!(single_block_slice(b"abcd", 5, 7, 4), b"bc".to_vec());
    assert_eq!(read_range(16, 19), b"A\0\0".to_vec());
}
