use openworld::outbound::hysteria2::{
    build_tcp_request, decode_varint_from_buf, encode_varint, parse_tcp_response,
    tcp_response_ok,
};

#[test]
fn hysteria2_varint_roundtrip() {
    for v in [0u64, 63, 64, 16383, 16384, 1073741823, 1073741824, (1u64 << 62) - 1] {
        let enc = encode_varint(v);
        assert_eq!(decode_varint_from_buf(&enc).unwrap(), (v, enc.len()));
    }
}

#[test]
fn hysteria2_varint_errors() {
    assert!(decode_varint_from_buf(&[]).is_err());
    assert!(decode_varint_from_buf(&[0x80, 0, 0]).is_err());
}

#[test]
fn hysteria2_tcp_request_layout() {
    let req = build_tcp_request("example.com:443", &[7, 7]);
    assert_eq!(&req[..2], &[0x44, 0x01]);
    assert_eq!(req[2], 15);
    assert_eq!(&req[3..18], b"example.com:443");
    assert_eq!(req[18], 2);
    assert_eq!(&req[19..], &[7, 7]);
}

#[test]
fn hysteria2_tcp_response_parse() {
    let data = [0x01, 0x03, b'b', b'a', b'd', 0x01, 0xaa, 0xee];
    let (status, msg, used) = parse_tcp_response(&data).unwrap();
    assert_eq!(status, 1);
    assert_eq!(msg, b"bad".to_vec());
    assert_eq!(used, 7);
    assert!(!tcp_response_ok(status));
    assert!(parse_tcp_response(&data[..4]).is_none());
}
