use pastepoint::{FileReassembler, ServerError};

#[test]
fn reassembles_chunks_in_index_order() {
    let mut r = FileReassembler::new(3);
    assert_eq!(r.add_chunk(2, b"ef".to_vec()), Ok(()));
    assert_eq!(r.add_chunk(0, b"ab".to_vec()), Ok(()));
    assert!(!r.is_complete());
    assert_eq!(r.add_chunk(1, b"cd".to_vec()), Ok(()));
    assert!(r.is_complete());
    assert_eq!(r.reassemble(), Ok(b"abcdef".to_vec()));
}

#[test]
fn chunk_index_past_total_is_refused() {
    let mut r = FileReassembler::new(2);
    assert_eq!(r.add_chunk(2, b"x".to_vec()), Err(ServerError::IndexOutOfBounds));
    assert_eq!(r.add_chunk(usize::MAX, b"x".to_vec()), Err(ServerError::IndexOutOfBounds));
    assert!(!r.is_complete());
}

#[test]
fn missing_chunk_blocks_reassembly() {
    let mut r = FileReassembler::new(3);
    r.add_chunk(0, b"a".to_vec()).unwrap();
    r.add_chunk(2, b"c".to_vec()).unwrap();
    assert_eq!(r.reassemble(), Err(ServerError::ChunkMissing));
}

#[test]
fn repeated_index_keeps_the_last_chunk() {
    let mut r = FileReassembler::new(2);
    r.add_chunk(0, b"old".to_vec()).unwrap();
    r.add_chunk(0, b"new".to_vec()).unwrap();
    assert!(!r.is_complete());
    r.add_chunk(1, b"!".to_vec()).unwrap();
    assert_eq!(r.reassemble(), Ok(b"new!".to_vec()));
}

#[test]
fn empty_upload_is_complete_and_empty() {
    let r = FileReassembler::new(0);
    assert!(r.is_complete());
    assert_eq!(r.reassemble(), Ok(Vec::new()));
    assert_eq!(r.total_chunks(), 0);
}

#[test]
fn in_order_delivery_concatenates() {
    let parts: Vec<Vec<u8>> = vec![b"He".to_vec(), b"llo".to_vec(), Vec::new(), b", world".to_vec()];
    let mut r = FileReassembler::new(parts.len());
    for (i, p) in parts.iter().enumerate() {
        r.add_chunk(i, p.clone()).unwrap();
    }
    assert_eq!(r.reassemble(), Ok(b"Hello, world".to_vec()));
}

#[test]
fn complete_only_once_every_index_arrived() {
    let mut r = FileReassembler::new(3);
    for &i in &[1usize, 1, 2] {
        r.add_chunk(i, vec![i as u8]).unwrap();
        assert!(!r.is_complete());
        assert_eq!(r.reassemble(), Err(ServerError::ChunkMissing));
    }
    r.add_chunk(0, vec![0]).unwrap();
    assert!(r.is_complete());
    assert_eq!(r.reassemble(), Ok(vec![0, 1, 2]));
}
