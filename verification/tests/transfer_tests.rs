use nodp2p::transfer::{safe_file_name, FALLBACK_FILE_NAME};
use nodp2p::peer::PeerId;
use nodp2p::transfer::{split_into_chunks, write_chunk, ChunkOutcome, IncomingTransfers, CHUNK_SIZE};

#[test]
fn split_sizes_and_flags() {
    assert_eq!(split_into_chunks(&[]).len(), 0);
    let one = split_into_chunks(&[1, 2, 3]);
    assert_eq!(one.len(), 1);
    assert!(one[0].is_last);
    assert_eq!(one[0].data, vec![1, 2, 3]);
    let data = vec![5u8; 2 * CHUNK_SIZE];
    let two = split_into_chunks(&data);
    assert_eq!(two.len(), 2);
    assert!(!two[0].is_last && two[1].is_last);
    assert_eq!(two[1].offset, CHUNK_SIZE as u64);
    let joined: Vec<u8> = two.iter().flat_map(|c| c.data.clone()).collect();
    assert_eq!(joined, data);
}

#[test]
fn write_chunk_overwrites_extends_and_pads() {
    let mut b = vec![1, 2, 3];
    write_chunk(&mut b, 1, &[9]);
    assert_eq!(b, vec![1, 9, 3]);
    write_chunk(&mut b, 2, &[7, 8]);
    assert_eq!(b, vec![1, 9, 7, 8]);
    write_chunk(&mut b, 6, &[4]);
    assert_eq!(b, vec![1, 9, 7, 8, 0, 0, 4]);
}

#[test]
fn incoming_transfer_lifecycle() {
    let p = PeerId::from_bytes(vec![1, 2]);
    let mut t = IncomingTransfers::new();
    assert!(matches!(t.receive(&p, 1, 0, &[1], false), ChunkOutcome::Unknown));
    t.begin(PeerId::from_bytes(vec![1, 2]), 1, "f".to_string(), 3);
    assert!(matches!(t.receive(&p, 1, 0, &[1, 2, 3, 4], false), ChunkOutcome::Rejected));
    assert!(matches!(t.receive(&p, 1, 0, &[1, 2], false), ChunkOutcome::Stored { received: 2, total: 3, completed: None }));
    match t.receive(&p, 1, 2, &[3], true) {
        ChunkOutcome::Stored { received: 3, total: 3, completed: Some((name, data)) } => {
            assert_eq!(name, "f");
            assert_eq!(data, vec![1, 2, 3]);
        }
        other => panic!("unexpected {:?}", other),
    }
    assert!(matches!(t.receive(&p, 1, 0, &[1], false), ChunkOutcome::Unknown));
}

#[test]
fn saved_names_stay_in_the_directory() {
    assert_eq!(safe_file_name("doc.pdf"), "doc.pdf");
    assert_eq!(safe_file_name("/etc/passwd"), "passwd");
    assert_eq!(safe_file_name("..\\..\\x.txt"), "x.txt");
    assert_eq!(safe_file_name("a/.."), FALLBACK_FILE_NAME);
    assert_eq!(safe_file_name("dir/"), FALLBACK_FILE_NAME);
    assert_eq!(safe_file_name(""), FALLBACK_FILE_NAME);
}
