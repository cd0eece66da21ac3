use openworld::address::{Address, IpAddr};
use openworld::config::{OutboundConfig, OutboundSettings};
use openworld::outbound::trojan::protocol::{
    encode_trojan_addr, hex_encode, parse_udp_frame, password_hash, request_bytes, udp_frame_bytes, CMD_CONNECT,
};
use openworld::outbound::trojan::TrojanOutbound;
use openworld::transport::StreamTransport;

#[test]
fn test_password_hash() {
    let hash = password_hash("password123");
    assert_eq!(hash.len(), 56);
}

#[test]
fn test_password_hash_deterministic() {
    assert_eq!(password_hash("test"), password_hash("test"));
}

#[test]
fn password_hash_known_value() {
    // SHA-224 of the empty string
    assert_eq!(password_hash(""), "d14a028c2a3a2bc9476102bb288234c415a2b01f828ea62ac5b3e42f");
}

#[test]
fn hex_encode_lower_case() {
    assert_eq!(hex_encode(&[0x00, 0xab, 0x7f]), "00ab7f");
}

#[test]
fn test_encode_trojan_addr_ipv4() {
    let encoded = encode_trojan_addr(&Address::Ip(IpAddr::V4([1, 2, 3, 4]), 443));
    assert_eq!(encoded[0], 0x01);
    assert_eq!(&encoded[1..5], &[1, 2, 3, 4]);
    assert_eq!(&encoded[5..7], &443u16.to_be_bytes());
}

#[test]
fn test_encode_trojan_addr_domain() {
    let encoded = encode_trojan_addr(&Address::Domain("example.com".to_string(), 443));
    assert_eq!(encoded[0], 0x03);
    assert_eq!(encoded[1], 11);
    assert_eq!(&encoded[2..13], b"example.com");
    assert_eq!(&encoded[13..15], &443u16.to_be_bytes());
}

#[test]
fn test_encode_trojan_addr_ipv6() {
    let mut v6 = [0u8; 16];
    v6[15] = 1;
    let encoded = encode_trojan_addr(&Address::Ip(IpAddr::V6(v6), 8080));
    assert_eq!(encoded[0], 0x04);
    assert_eq!(encoded.len(), 1 + 16 + 2);
}

#[test]
fn request_layout() {
    let r = request_bytes("abc", &Address::Domain("x.y".to_string(), 80), CMD_CONNECT);
    assert_eq!(r, b"abc\r\n\x01\x03\x03x.y\x00\x50\r\n".to_vec());
}

#[test]
fn trojan_udp_frame_roundtrip() {
    let addr = Address::Domain("dns.example".to_string(), 53);
    let frame = udp_frame_bytes(&addr, b"query");
    let (a, payload, n) = parse_udp_frame(&frame).unwrap();
    assert_eq!(payload, b"query");
    assert_eq!(n, frame.len());
    match a {
        Address::Domain(d, p) => {
            assert_eq!(d, "dns.example");
            assert_eq!(p, 53);
        },
        _ => panic!("expected domain"),
    }
    assert!(parse_udp_frame(&frame[..frame.len() - 1]).is_none());
}

#[test]
fn trojan_outbound_defaults_to_tls() {
    let config = OutboundConfig {
        tag: "trojan".to_string(),
        protocol: "trojan".to_string(),
        settings: OutboundSettings {
            address: Some("server.example".to_string()),
            port: Some(443),
            password: Some("pw".to_string()),
            ..Default::default()
        },
    };
    let o = TrojanOutbound::new(&config).unwrap();
    assert_eq!(o.tag(), "trojan");
    assert_eq!(o.password_hash, password_hash("pw"));
    match &o.transport {
        StreamTransport::Tls(t) => assert_eq!(t.sni, "server.example"),
        _ => panic!("expected TLS"),
    }
}

#[test]
fn trojan_outbound_needs_password() {
    let config = OutboundConfig {
        tag: "trojan".to_string(),
        protocol: "trojan".to_string(),
        settings: OutboundSettings { address: Some("s".to_string()), port: Some(1), ..Default::default() },
    };
    assert!(TrojanOutbound::new(&config).is_err());
}
