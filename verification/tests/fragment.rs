use openworld::transport::fragment::{split_to_fragments, FragmentWriter, TlsFragmentConfig};

#[test]
fn test_split_small_data() {
    let data = vec![0u8; 5];
    let frags = split_to_fragments(&data, 10, 50);
    assert_eq!(frags.len(), 1);
    assert_eq!(frags[0].len(), 5);
}

#[test]
fn test_split_exact_boundary() {
    let data = vec![0u8; 100];
    let frags = split_to_fragments(&data, 100, 100);
    assert_eq!(frags.len(), 1);
    assert_eq!(frags[0].len(), 100);
}

#[test]
fn split_rejoins_and_respects_sizes() {
    let data: Vec<u8> = (0..200u32).map(|i| (i % 251) as u8).collect();
    let frags = split_to_fragments(&data, 10, 50);
    assert!(frags.len() >= 4);
    let joined: Vec<u8> = frags.iter().flatten().copied().collect();
    assert_eq!(joined, data);
    for (i, f) in frags.iter().enumerate() {
        assert!(!f.is_empty() && f.len() <= 50);
        if i + 1 < frags.len() {
            assert!(f.len() >= 10);
        }
    }
}

#[test]
fn split_zero_minimum_means_one() {
    let data = vec![7u8; 3];
    let frags = split_to_fragments(&data, 0, 0);
    assert_eq!(frags, vec![vec![7u8], vec![7u8], vec![7u8]]);
}

#[test]
fn writer_sends_the_whole_write() {
    let mut w = FragmentWriter::new(TlsFragmentConfig { min_length: 2, max_length: 3 });
    assert!(!w.passthrough());
    let data: Vec<u8> = (1..=10u8).collect();
    w.start_write(&data);
    assert!(w.has_pending());
    let mut sent = Vec::new();
    while let Some(chunk) = w.next_chunk() {
        // the stream takes one byte at a time
        sent.push(chunk[0]);
        w.advance(1);
    }
    assert_eq!(sent, data);
    w.finish();
    assert!(!w.has_pending());
    for _ in 0..4 {
        w.start_write(&[1, 2]);
        w.finish();
    }
    assert!(w.passthrough());
}
