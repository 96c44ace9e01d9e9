use fly_common::io::chunk_slice;

#[test]
fn test_chunk_slice() {
    let items = vec![1, 2, 3, 4, 5, 6, 7];
    let chunks: Vec<_> = chunk_slice(&items, 3);
    assert_eq!(chunks.len(), 3);
    assert_eq!(chunks[0], &[1, 2, 3]);
    assert_eq!(chunks[1], &[4, 5, 6]);
    assert_eq!(chunks[2], &[7]);
}

#[test]
fn chunks_rejoin_to_the_items() {
    let items: Vec<u32> = (0..23).collect();
    let chunks = chunk_slice(&items, 5);
    assert_eq!(chunks.len(), 5);
    let joined: Vec<u32> = chunks.iter().flat_map(|c| c.iter().copied()).collect();
    assert_eq!(joined, items);
    assert!(chunks[..4].iter().all(|c| c.len() == 5));
    assert_eq!(chunks[4].len(), 3);
}

#[test]
fn chunking_edge_cases() {
    let empty: Vec<u8> = Vec::new();
    assert!(chunk_slice(&empty, 4).is_empty());
    let items = vec!['a', 'b'];
    assert_eq!(chunk_slice(&items, 2), vec![&['a', 'b'][..]]);
    assert_eq!(chunk_slice(&items, 10).len(), 1);
    assert_eq!(chunk_slice(&items, 1), vec![&['a'][..], &['b'][..]]);
}
