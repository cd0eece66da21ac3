use openworld::address::{Address, IpAddr};
use openworld::netaddr::{ipv4_to_string, ipv6_to_string, parse_ipv4, parse_ipv6};
use openworld::outbound::tuic::{
    compute_tuic_token, parse_packet_datagram, parse_uuid_bytes, AuthenticateFrame, CongestionControl, ConnectFrame,
    PacketFrame, TuicAddrType, TuicCommand, TUIC_VERSION,
};

#[test]
fn tuic_command_from_byte() {
    assert_eq!(TuicCommand::from_byte(0x00), Some(TuicCommand::Authenticate));
    assert_eq!(TuicCommand::from_byte(0x01), Some(TuicCommand::Connect));
    assert_eq!(TuicCommand::from_byte(0x02), Some(TuicCommand::Packet));
    assert_eq!(TuicCommand::from_byte(0x03), Some(TuicCommand::Dissociate));
    assert_eq!(TuicCommand::from_byte(0x04), Some(TuicCommand::Heartbeat));
    assert_eq!(TuicCommand::from_byte(0xFF), None);
}

#[test]
fn authenticate_frame_encode_decode() {
    let uuid = [1u8; 16];
    let token = vec![0xAA, 0xBB, 0xCC];
    let frame = AuthenticateFrame { uuid, token: token.clone() };
    let encoded = frame.encode();
    assert_eq!(encoded[0], 0x00);
    let decoded = AuthenticateFrame::decode(&encoded).unwrap();
    assert_eq!(decoded.uuid, uuid);
    assert_eq!(decoded.token, token);
}

#[test]
fn authenticate_frame_too_short() {
    assert!(AuthenticateFrame::decode(&[0u8; 10]).is_err());
}

#[test]
fn connect_frame_domain() {
    let frame = ConnectFrame { addr_type: TuicAddrType::Domain, address: "example.com".to_string(), port: 443 };
    let encoded = frame.encode();
    assert_eq!(encoded[0], 0x01);
    assert_eq!(encoded[1], 0x00);
    assert_eq!(encoded[2], 11);
}

#[test]
fn connect_frame_ipv4() {
    let addr = Address::Ip(IpAddr::V4([1, 2, 3, 4]), 80);
    let frame = ConnectFrame::from_address(&addr);
    assert_eq!(frame.addr_type, TuicAddrType::Ipv4);
    assert_eq!(frame.port, 80);
    assert_eq!(frame.address, "1.2.3.4");
    let encoded = frame.encode();
    assert_eq!(encoded[0], 0x01);
    assert_eq!(encoded, vec![0x01, 0x01, 1, 2, 3, 4, 0, 80]);
}

#[test]
fn connect_frame_ipv6() {
    let mut loopback = [0u8; 16];
    loopback[15] = 1;
    let addr = Address::Ip(IpAddr::V6(loopback), 53);
    let frame = ConnectFrame::from_address(&addr);
    assert_eq!(frame.addr_type, TuicAddrType::Ipv6);
    assert_eq!(frame.port, 53);
    assert_eq!(frame.address, "::1");
    let encoded = frame.encode();
    assert_eq!(encoded.len(), 1 + 1 + 16 + 2);
    assert_eq!(&encoded[2..18], &loopback);
}

#[test]
fn packet_frame_encode() {
    let addr = Address::Domain("dns.google".to_string(), 53);
    let frame = PacketFrame::new_single(1, &addr, b"query");
    let encoded = frame.encode();
    assert_eq!(encoded[0], 0x02);
    assert_eq!(frame.frag_id, 0);
    assert_eq!(frame.frag_total, 1);
    assert_eq!(frame.size, 5);
}

#[test]
fn congestion_control_from_str() {
    assert_eq!(CongestionControl::from_str("bbr"), CongestionControl::Bbr);
    assert_eq!(CongestionControl::from_str("BBR"), CongestionControl::Bbr);
    assert_eq!(CongestionControl::from_str("new_reno"), CongestionControl::NewReno);
    assert_eq!(CongestionControl::from_str("newreno"), CongestionControl::NewReno);
    assert_eq!(CongestionControl::from_str("cubic"), CongestionControl::Cubic);
    assert_eq!(CongestionControl::from_str("unknown"), CongestionControl::Cubic);
}

#[test]
fn compute_token_deterministic() {
    let uuid = [0xAA; 16];
    let t1 = compute_tuic_token(&uuid, "password");
    let t2 = compute_tuic_token(&uuid, "password");
    assert_eq!(t1, t2);
    assert_eq!(t1.len(), 32);
}

#[test]
fn compute_token_different_passwords() {
    let uuid = [0xBB; 16];
    let t1 = compute_tuic_token(&uuid, "pass1");
    let t2 = compute_tuic_token(&uuid, "pass2");
    assert_ne!(t1, t2);
}

#[test]
fn parse_uuid_valid() {
    let uuid = parse_uuid_bytes("550e8400-e29b-41d4-a716-446655440000").unwrap();
    assert_eq!(uuid.len(), 16);
}

#[test]
fn parse_uuid_invalid() {
    assert!(parse_uuid_bytes("not-a-uuid").is_err());
}

#[test]
fn tuic_version_is_5() {
    assert_eq!(TUIC_VERSION, 0x05);
}

#[test]
fn packet_datagram_parsing() {
    let frame = PacketFrame::new_single(7, &Address::Ip(IpAddr::V4([9, 9, 9, 9]), 53), b"abc");
    let bytes = frame.encode();
    let (addr, payload) = parse_packet_datagram(&bytes, 7).unwrap();
    match addr {
        Address::Ip(IpAddr::V4(o), p) => {
            assert_eq!(o, [9, 9, 9, 9]);
            assert_eq!(p, 53);
        }
        _ => panic!("expected an IPv4 source"),
    }
    assert_eq!(payload, b"abc".to_vec());
    assert!(parse_packet_datagram(&bytes, 8).is_none());
}

#[test]
fn ip_text_forms() {
    let mut loopback = [0u8; 16];
    loopback[15] = 1;
    let cases: Vec<([u8; 16], &str)> = vec![
        ([0; 16], "::"),
        (loopback, "::1"),
        ([0x20, 0x01, 0x0d, 0xb8, 0, 0, 0, 0, 0, 1, 0, 0, 0, 0, 0, 1], "2001:db8::1:0:0:1"),
        ([0x20, 0x01, 0x0d, 0xb8, 0, 1, 0, 0, 0, 0, 0, 0, 0, 1, 0, 0], "2001:db8:1::1:0"),
        ([0, 0, 0, 0, 0, 0, 0, 0, 0, 0, 0xff, 0xff, 192, 168, 1, 1], "::ffff:192.168.1.1"),
        ([0, 0, 0, 0, 0, 0, 0, 0, 0, 0, 0, 0, 10, 0, 0, 1], "::a00:1"),
        ([0xfe, 0x80, 0, 0, 0, 0, 0, 0, 0x12, 0x34, 0, 0, 0, 0, 0xab, 0xcd], "fe80::1234:0:0:abcd"),
        ([0, 1, 0, 2, 0, 3, 0, 4, 0, 5, 0, 6, 0, 7, 0, 8], "1:2:3:4:5:6:7:8"),
    ];
    for (a, text) in cases {
        assert_eq!(ipv6_to_string(a), text);
        assert_eq!(parse_ipv6(text), Some(a), "{}", text);
    }
    let mut one = [0u8; 16];
    one[1] = 1;
    assert_eq!(parse_ipv6("1::"), Some(one));
    assert_eq!(parse_ipv6("1:2:3:4:5:6:1.2.3.4"), Some([0, 1, 0, 2, 0, 3, 0, 4, 0, 5, 0, 6, 1, 2, 3, 4]));
    assert_eq!(parse_ipv6("a::b:c"), Some([0, 0xa, 0, 0, 0, 0, 0, 0, 0, 0, 0, 0, 0, 0xb, 0, 0xc]));
    assert_eq!(parse_ipv6("ABCD::1"), Some([0xab, 0xcd, 0, 0, 0, 0, 0, 0, 0, 0, 0, 0, 0, 0, 0, 1]));
    for text in ["1:2:3:4:5:6:7:8:9", ":::", "1::2::3", "12345::", "1.2.3.4::", "::1.2.3", "", ":1::"] {
        assert_eq!(parse_ipv6(text), None, "{}", text);
    }
    assert_eq!(ipv4_to_string([192, 168, 0, 10]), "192.168.0.10");
    assert_eq!(parse_ipv4("10.0.0.255"), Some([10, 0, 0, 255]));
    for text in ["256.1.1.1", "01.2.3.4", "1.2.3", "1.2.3.4.5", "1..2.3", " 1.2.3.4"] {
        assert_eq!(parse_ipv4(text), None, "{}", text);
    }
}
