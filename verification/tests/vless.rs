use openworld::address::{Address, IpAddr};
use openworld::config::{OutboundConfig, OutboundSettings, TlsConfig};
use openworld::outbound::vless::protocol::{
    check_response_version, check_udp_frame_len, encode_addons, request_bytes, udp_frame, CMD_TCP, CMD_UDP,
};
use openworld::outbound::vless::reality::{base64_decode, parse_hex, parse_public_key};
use openworld::outbound::vless::vision::{
    calculate_padding, contains_bytes, is_tls_application_data, padding_len_with, VisionStream,
    COMMAND_PADDING_CONTINUE, COMMAND_PADDING_DIRECT, PADDING_HEADER_SIZE, UUID_SIZE,
};
use openworld::outbound::vless::{VlessOutbound, XRV};
use openworld::transport::StreamTransport;

const UUID: [u8; 16] = [
    0x55, 0x0e, 0x84, 0x00, 0xe2, 0x9b, 0x41, 0xd4, 0xa7, 0x16, 0x44, 0x66, 0x55, 0x44, 0x00, 0x00,
];

#[test]
fn encode_addons_none() {
    assert!(encode_addons(None).is_empty());
    assert!(encode_addons(Some("")).is_empty());
}

#[test]
fn encode_addons_vision() {
    let result = encode_addons(Some("xtls-rprx-vision"));
    assert_eq!(result[0], 0x0A);
    assert_eq!(result[1], 16);
    assert_eq!(&result[2..], b"xtls-rprx-vision");
}

#[test]
fn write_request_ipv4() {
    let target = Address::Ip(IpAddr::V4([1, 2, 3, 4]), 443);
    let buf = request_bytes(&UUID, &target, None, CMD_TCP);
    assert_eq!(buf[0], 0x00);
    assert_eq!(&buf[1..17], &UUID);
    assert_eq!(buf[17], 0x00);
    assert_eq!(buf[18], 0x01);
    assert_eq!(u16::from_be_bytes([buf[19], buf[20]]), 443);
    assert_eq!(buf[21], 0x01);
    assert_eq!(&buf[22..26], &[1, 2, 3, 4]);
}

#[test]
fn write_request_udp_command() {
    let target = Address::Ip(IpAddr::V4([8, 8, 8, 8]), 53);
    let buf = request_bytes(&UUID, &target, None, CMD_UDP);
    assert_eq!(buf[18], 0x02);
}

#[test]
fn write_request_domain() {
    let target = Address::Domain("example.com".to_string(), 443);
    let buf = request_bytes(&UUID, &target, None, CMD_TCP);
    assert_eq!(buf[17], 0x00);
    assert_eq!(buf[18], 0x01);
    assert_eq!(buf[21], 0x02);
    assert_eq!(buf[22], 11);
    assert_eq!(&buf[23..], b"example.com");
}

#[test]
fn write_request_ipv6() {
    let mut v6 = [0u8; 16];
    v6[15] = 1;
    let target = Address::Ip(IpAddr::V6(v6), 443);
    let buf = request_bytes(&UUID, &target, None, CMD_TCP);
    assert_eq!(buf[17], 0x00);
    assert_eq!(buf[21], 0x03);
    assert_eq!(buf.len(), 22 + 16);
}

#[test]
fn write_request_with_vision_flow() {
    let target = Address::Ip(IpAddr::V4([1, 2, 3, 4]), 443);
    let buf = request_bytes(&UUID, &target, Some("xtls-rprx-vision"), CMD_TCP);
    assert_eq!(buf[0], 0x00);
    assert_eq!(&buf[1..17], &UUID);
    let addons_len = buf[17] as usize;
    assert!(addons_len > 0);
    let addons = &buf[18..18 + addons_len];
    assert_eq!(addons[0], 0x0A);
    assert_eq!(addons[1], 16);
    assert_eq!(&addons[2..], b"xtls-rprx-vision");
    assert_eq!(buf[18 + addons_len], 0x01);
}

#[test]
fn udp_frame_roundtrip() {
    let payload = b"hello UDP world";
    let frame = udp_frame(payload);
    let len = check_udp_frame_len(u16::from_be_bytes([frame[0], frame[1]])).unwrap();
    assert_eq!(&frame[2..2 + len], payload);
}

#[test]
fn udp_frame_zero_length_refused() {
    assert!(check_udp_frame_len(0).is_err());
}

#[test]
fn read_response_versions() {
    assert!(check_response_version(0x00).is_ok());
    assert!(check_response_version(0x01).is_err());
}

#[test]
fn test_parse_hex() {
    assert_eq!(parse_hex("0a1b2c").unwrap(), vec![0x0a, 0x1b, 0x2c]);
    assert_eq!(parse_hex("").unwrap(), Vec::<u8>::new());
    assert!(parse_hex("0g").is_err());
    assert!(parse_hex("0").is_err());
}

#[test]
fn parse_hex_accepts_plus_sign_and_upper_case() {
    assert_eq!(parse_hex("+fAB").unwrap(), vec![0x0f, 0xab]);
    assert!(parse_hex("é").is_err());
}

#[test]
fn test_base64_decode() {
    assert_eq!(base64_decode("aGVsbG8=").unwrap(), b"hello");
    assert_eq!(base64_decode("aGVsbG8").unwrap(), b"hello");
}

#[test]
fn base64_decode_url_safe_and_spaces() {
    assert_eq!(base64_decode("-_8=").unwrap(), vec![0xfb, 0xff]);
    assert_eq!(base64_decode("aGVs\nbG8=").unwrap(), b"hello");
    assert!(base64_decode("aGV*").is_err());
}

#[test]
fn test_parse_public_key() {
    let key = parse_public_key("AAAAAAAAAAAAAAAAAAAAAAAAAAAAAAAAAAAAAAAAAAA=").unwrap();
    assert_eq!(key, [0u8; 32]);
}

#[test]
fn parse_public_key_wrong_length() {
    assert!(parse_public_key("aGVsbG8=").is_err());
}

#[test]
fn test_is_tls_application_data() {
    assert!(is_tls_application_data(&[0x17, 0x03, 0x03, 0x00, 0x20]));
    assert!(!is_tls_application_data(&[0x16, 0x03, 0x03, 0x00, 0x20]));
    assert!(!is_tls_application_data(&[0x17, 0x03]));
}

#[test]
fn test_contains_bytes() {
    assert!(contains_bytes(&[1, 2, 3, 4, 5], &[2, 3, 4]));
    assert!(!contains_bytes(&[1, 2, 3, 4, 5], &[2, 4]));
    assert!(contains_bytes(&[0x00, 0x2b, 0x00, 0x02, 0x03, 0x04], &[0x00, 0x2b, 0x00, 0x02, 0x03, 0x04]));
}

#[test]
fn test_calculate_padding_long() {
    let padding = calculate_padding(100, true);
    assert!(padding > 0);
    assert!(padding < 2048);
}

#[test]
fn test_calculate_padding_short() {
    assert!(calculate_padding(100, false) < 256);
}

#[test]
fn test_calculate_padding_large_content() {
    assert!(calculate_padding(1500, true) < 256);
}

#[test]
fn padding_exact_values() {
    assert_eq!(padding_len_with(100, true, 10), 810);
    assert_eq!(padding_len_with(100, false, 10), 10);
    assert_eq!(padding_len_with(2020, false, 200), 7);
    assert_eq!(padding_len_with(3000, false, 200), 0);
}

fn vless_config(flow: Option<&str>) -> OutboundConfig {
    OutboundConfig {
        tag: "vless-out".to_string(),
        protocol: "vless".to_string(),
        settings: OutboundSettings {
            address: Some("server.example.com".to_string()),
            port: Some(443),
            uuid: Some("550e8400-e29b-41d4-a716-446655440000".to_string()),
            flow: flow.map(|f| f.to_string()),
            security: Some("tls".to_string()),
            ..Default::default()
        },
    }
}

#[test]
fn vless_outbound_tls_defaults() {
    let o = VlessOutbound::new(&vless_config(Some(XRV))).unwrap();
    assert_eq!(o.tag(), "vless-out");
    assert_eq!(o.uuid, UUID);
    match &o.transport {
        StreamTransport::Tls(t) => {
            assert_eq!(t.sni, "server.example.com");
            let plan = t.static_plan.as_ref().unwrap();
            assert_eq!(plan.alpn, Some(vec!["h2".to_string(), "http/1.1".to_string()]));
        },
        _ => panic!("expected TLS"),
    }
}

#[test]
fn vless_outbound_bad_flow() {
    assert!(VlessOutbound::new(&vless_config(Some("xtls-rprx-direct"))).is_err());
}

#[test]
fn vless_outbound_reality() {
    let mut c = vless_config(None);
    c.settings.tls = Some(TlsConfig {
        enabled: true,
        security: "reality".to_string(),
        public_key: Some("AAAAAAAAAAAAAAAAAAAAAAAAAAAAAAAAAAAAAAAAAAA=".to_string()),
        short_id: Some("0a1b".to_string()),
        ..Default::default()
    });
    let o = VlessOutbound::new(&c).unwrap();
    match &o.transport {
        StreamTransport::Reality(r) => {
            assert_eq!(r.reality_config.short_id, vec![0x0a, 0x1b]);
            assert_eq!(r.reality_config.server_name, "server.example.com");
        },
        _ => panic!("expected Reality"),
    }
}

#[test]
fn test_build_padded_frame_first_packet() {
    let uuid = [7u8; 16];
    let mut stream = VisionStream::new(uuid);
    let frame = stream.build_padded_frame(b"hello");
    assert_eq!(&frame[..UUID_SIZE], &uuid);
    assert_eq!(frame[UUID_SIZE], COMMAND_PADDING_CONTINUE);
    let content_len = u16::from_be_bytes([frame[UUID_SIZE + 1], frame[UUID_SIZE + 2]]);
    assert_eq!(content_len, 5);
    let padding_len = u16::from_be_bytes([frame[UUID_SIZE + 3], frame[UUID_SIZE + 4]]);
    assert_eq!(&frame[UUID_SIZE + 5..UUID_SIZE + 5 + 5], b"hello");
    assert_eq!(frame.len(), UUID_SIZE + PADDING_HEADER_SIZE + 5 + padding_len as usize);
}

#[test]
fn test_build_padded_frame_second_packet() {
    let mut stream = VisionStream::new([9u8; 16]);
    let _ = stream.build_padded_frame(b"first");
    let frame = stream.build_padded_frame(b"second");
    assert_eq!(frame[0], COMMAND_PADDING_CONTINUE);
    let content_len = u16::from_be_bytes([frame[1], frame[2]]);
    assert_eq!(content_len, 6);
}

#[test]
fn test_build_padded_frame_tls_app_data() {
    let mut stream = VisionStream::new([1u8; 16]);
    stream.enable_xtls = true;
    stream.write_first_packet = false;
    let data = [0x17, 0x03, 0x03, 0x00, 0x20, 0x00, 0x00, 0x00];
    let frame = stream.build_padded_frame(&data);
    assert_eq!(frame[0], COMMAND_PADDING_DIRECT);
    assert!(!stream.write_padding_active);
}

#[test]
fn test_unpad_roundtrip() {
    let uuid = [0x42u8; 16];
    let mut writer = VisionStream::new(uuid);
    let original = b"test data for roundtrip";
    let padded = writer.build_padded_frame(original);
    let mut reader = VisionStream::new(uuid);
    reader.read_buf.extend_from_slice(&padded);
    let unpadded = reader.unpad_data();
    assert_eq!(&unpadded[..], original);
}

#[test]
fn test_unpad_multiple_frames() {
    let uuid = [0x43u8; 16];
    let mut writer = VisionStream::new(uuid);
    let frame1 = writer.build_padded_frame(b"first");
    let frame2 = writer.build_padded_frame(b"second");
    let mut reader = VisionStream::new(uuid);
    reader.read_buf.extend_from_slice(&frame1);
    reader.read_buf.extend_from_slice(&frame2);
    let unpadded = reader.unpad_data();
    assert!(unpadded.len() >= b"first".len());
    assert_eq!(unpadded, b"firstsecond".to_vec());
}

#[test]
fn test_unpad_passes_unpadded_data_through() {
    let mut reader = VisionStream::new([5u8; 16]);
    reader.read_buf.extend_from_slice(b"plain bytes");
    assert_eq!(reader.unpad_data(), b"plain bytes".to_vec());
    assert!(!reader.read_state.within_padding);
}

#[test]
fn test_filter_tls_server_hello() {
    let mut stream = VisionStream::new([3u8; 16]);
    let mut data = vec![0u8; 50];
    data[0] = 0x16;
    data[1] = 0x03;
    data[2] = 0x03;
    data[3] = 0x01;
    data[4] = 0x00;
    data[5] = 0x02;
    stream.filter_tls(&data);
    assert!(stream.remaining_server_hello > 0);
    assert_eq!(stream.remaining_server_hello, 261 - 50);
    assert_eq!(stream.packets_filtered, 7);
}
