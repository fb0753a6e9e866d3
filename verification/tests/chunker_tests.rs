use soundlight::chunker::Chunker;

#[test]
fn a_batch_of_one_and_a_half_chunks_yields_one_chunk_and_buffers_the_rest() {
    let mut chunker = Chunker::new(4);
    let chunks = chunker.feed(&vec![1, 2, 3, 4, 5, 6]);
    assert_eq!(chunks, vec![vec![1, 2, 3, 4]]);
    // The half chunk stays buffered: the next short batch completes a chunk
    // sooner than a fresh chunker would.
    let chunks = chunker.feed(&vec![7, 8]);
    assert_eq!(chunks, vec![vec![5, 6, 7, 8]]);
    let mut fresh = Chunker::new(4);
    assert_eq!(fresh.feed(&vec![7, 8]), Vec::<Vec<i32>>::new());
}

#[test]
fn a_large_batch_yields_every_whole_chunk_oldest_first() {
    let mut chunker = Chunker::new(3);
    let chunks = chunker.feed(&vec![1, 2, 3, 4, 5, 6, 7, 8, 9, 10]);
    assert_eq!(chunks, vec![vec![1, 2, 3], vec![4, 5, 6], vec![7, 8, 9]]);
    assert_eq!(chunker.buffer, vec![10]);
}

#[test]
fn short_batches_accumulate_until_a_chunk_fills() {
    let mut chunker = Chunker::new(4);
    assert_eq!(chunker.feed(&vec![1]), Vec::<Vec<i32>>::new());
    assert_eq!(chunker.feed(&vec![2, 3]), Vec::<Vec<i32>>::new());
    assert_eq!(chunker.feed(&vec![4, 5]), vec![vec![1, 2, 3, 4]]);
    assert_eq!(chunker.buffer, vec![5]);
}

#[test]
fn an_empty_batch_yields_nothing() {
    let mut chunker = Chunker::new(4);
    assert_eq!(chunker.feed(&Vec::new()), Vec::<Vec<i32>>::new());
    assert_eq!(chunker.buffer.len(), 0);
}

#[test]
fn an_exact_multiple_leaves_an_empty_buffer() {
    let mut chunker = Chunker::new(2);
    let chunks = chunker.feed(&vec![1, 2, 3, 4]);
    assert_eq!(chunks, vec![vec![1, 2], vec![3, 4]]);
    assert_eq!(chunker.buffer.len(), 0);
}
