use openworld::transport::grpc::{encode_frame, frame_for_capacity, GrpcDecoder};

#[test]
fn grpc_frame_encode() {
    let frame = encode_frame("hello".as_bytes());
    assert_eq!(frame.len(), 10);
    assert_eq!(frame[0], 0x00);
    assert_eq!(u32::from_be_bytes([frame[1], frame[2], frame[3], frame[4]]), 5);
    assert_eq!(&frame[5..], "hello".as_bytes());
}

#[test]
fn grpc_frame_decode() {
    let mut d = GrpcDecoder::new();
    d.feed(&encode_frame("world".as_bytes()));
    assert!(d.recv_buf.len() >= 5);
    assert!(d.try_decode_frame());
    assert_eq!(d.read_out(64), "world".as_bytes().to_vec());
    assert!(d.recv_buf.is_empty());
}

#[test]
fn grpc_frame_decode_partial() {
    let mut d = GrpcDecoder::new();
    d.feed(&[0x00, 0x00, 0x00, 0x00, 0x0A]);
    d.feed("hel".as_bytes());
    let len = u32::from_be_bytes([d.recv_buf[1], d.recv_buf[2], d.recv_buf[3], d.recv_buf[4]]) as usize;
    assert_eq!(len, 10);
    assert!(!d.try_decode_frame());
    assert_eq!(d.recv_buf.len(), 8);
}

#[test]
fn grpc_frame_decode_multiple() {
    let mut d = GrpcDecoder::new();
    d.feed(&[0x00, 0x00, 0x00, 0x00, 0x03]);
    d.feed("abc".as_bytes());
    d.feed(&[0x00, 0x00, 0x00, 0x00, 0x02]);
    d.feed("de".as_bytes());
    assert!(d.try_decode_frame());
    assert_eq!(d.read_out(100), "abc".as_bytes().to_vec());
    assert!(d.try_decode_frame());
    assert_eq!(d.read_out(100), "de".as_bytes().to_vec());
    assert!(!d.try_decode_frame());
}

#[test]
fn grpc_read_out_in_pieces() {
    let mut d = GrpcDecoder::new();
    d.feed(&encode_frame(&[1, 2, 3, 4, 5]));
    assert!(d.try_decode_frame());
    assert_eq!(d.read_out(2), vec![1u8, 2]);
    assert_eq!(d.read_out(2), vec![3u8, 4]);
    assert_eq!(d.read_out(2), vec![5u8]);
    assert_eq!(d.read_out(2), Vec::<u8>::new());
}

#[test]
fn grpc_frame_for_capacity_limits() {
    assert!(frame_for_capacity(&[1, 2, 3], 5).is_none());
    let (f, n) = frame_for_capacity(&[1, 2, 3], 7).unwrap();
    assert_eq!(n, 2);
    assert_eq!(f, vec![0u8, 0, 0, 0, 2, 1, 2]);
    let (f, n) = frame_for_capacity(&[1, 2, 3], 100).unwrap();
    assert_eq!(n, 3);
    assert_eq!(f, vec![0u8, 0, 0, 0, 3, 1, 2, 3]);
}
