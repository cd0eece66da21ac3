use base64::Engine;
use openworld::outbound::masque::{
    encode_route_advertisement, IpRoute,
    allocate_port, contains_subsequence, decode_base64, decode_ip_datagram, decode_varint,
    encode_capsule, encode_ip_datagram, encode_varint, CapsuleType, VirtualDevice,
};

#[test]
fn test_varint_roundtrip() {
    let test_values = [0u64, 1, 63, 64, 16383, 16384, 0x3fff_ffff, 0x4000_0000];
    for val in test_values {
        let mut buf = Vec::new();
        encode_varint(val, &mut buf);
        let mut slice = buf.as_slice();
        let decoded = decode_varint(&mut slice).unwrap();
        assert_eq!(val, decoded, "varint roundtrip failed for {}", val);
    }
}

#[test]
fn test_encode_ip_datagram() {
    let ip_packet = [0x45, 0x00, 0x00, 0x3c];
    let datagram = encode_ip_datagram(&ip_packet);
    let (ctx, payload) = decode_ip_datagram(&datagram).unwrap();
    assert_eq!(ctx, 0);
    assert_eq!(payload, &ip_packet);
}

#[test]
fn test_varint_edge_cases() {
    let mut buf = Vec::new();
    encode_varint(63, &mut buf);
    assert_eq!(buf.len(), 1);

    buf.clear();
    encode_varint(64, &mut buf);
    assert_eq!(buf.len(), 2);
}

#[test]
fn test_virtual_device() {
    let mut dev = VirtualDevice::new(1500);
    assert!(dev.take_packet().is_none());
    dev.inject_packet(vec![1, 2, 3]);
    assert_eq!(dev.rx_queue.len(), 1);
}

#[test]
fn test_port_allocation() {
    let mut next: u16 = 49152;
    let p1 = allocate_port(&mut next);
    let p2 = allocate_port(&mut next);
    assert_ne!(p1, p2);
    assert!(p1 >= 49152);
}

#[test]
fn test_decode_base64() {
    let data = vec![1u8, 2, 3, 4, 5];
    let b64 = base64::engine::general_purpose::STANDARD.encode(&data);
    let decoded = decode_base64(&b64).unwrap();
    assert_eq!(decoded, data);
}

#[test]
fn test_contains_subsequence() {
    assert!(contains_subsequence(b"hello world", b"world"));
    assert!(!contains_subsequence(b"hello", b"world"));
    assert!(contains_subsequence(b"abc", b""));
}

// Own tests.

#[test]
fn varint_encodings_exact() {
    let mut buf = Vec::new();
    encode_varint(0x3fff_ffff, &mut buf);
    assert_eq!(buf, vec![0xbf, 0xff, 0xff, 0xff]);
    buf.clear();
    encode_varint(0x4000_0000, &mut buf);
    assert_eq!(buf, vec![0xc0, 0, 0, 0, 0x40, 0, 0, 0]);
}

#[test]
fn decode_varint_short_buffer_untouched() {
    let data = [0x40u8];
    let mut slice: &[u8] = &data;
    assert!(decode_varint(&mut slice).is_err());
    assert_eq!(slice.len(), 1);
    let empty: [u8; 0] = [];
    assert!(decode_ip_datagram(&empty).is_err());
}

#[test]
fn port_allocation_wraps() {
    let mut next: u16 = 0;
    assert_eq!(allocate_port(&mut next), 49152);
    assert_eq!(next, 49153);
    let mut last: u16 = 0xffff;
    assert_eq!(allocate_port(&mut last), 0xffff);
    assert_eq!(last, 0);
}

#[test]
fn capsule_route_advertisement_header() {
    let mut buf = Vec::new();
    encode_capsule(CapsuleType::RouteAdvertisement.value(), &[9, 9], &mut buf);
    assert_eq!(buf, vec![0x03, 0x02, 9, 9]);
}

#[test]
fn decode_base64_rejects_garbage() {
    assert!(decode_base64("!!").is_err());
}

#[test]
fn test_route_advertisement() {
    let routes = vec![IpRoute::all_ipv4(), IpRoute::all_ipv6()];
    let buf = encode_route_advertisement(&routes);
    assert!(!buf.is_empty());
    assert_eq!(buf[0], 0x03);
    // payload: 1 + (2 + 4) * 2 for IPv4, 1 + (2 + 16) * 2 for IPv6 = 13 + 37 = 50
    assert_eq!(buf[1], 50);
    assert_eq!(buf.len(), 2 + 50);
    assert_eq!(&buf[2..15], &[0u8, 0, 4, 0, 0, 0, 0, 0, 4, 255, 255, 255, 255]);
}
