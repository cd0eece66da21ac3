use openworld::config::{TlsConfig, TransportConfig};
use openworld::address::Address;
use openworld::transport::anytls::{payload_written, AnyTlsTransport, FrameAction, FrameType, frame_action};
use openworld::transport::brutal::BrutalControllerFactory;
use openworld::transport::ech::base64::decode_config;
use openworld::transport::ech::{ech_settings_from, parse_ech_config_base64, EchSettings};
use openworld::transport::fingerprint::FingerprintType;
use openworld::transport::grpc::GrpcTransport;
use openworld::transport::h2::H2Transport;
use openworld::transport::httpupgrade::HttpUpgradeTransport;
use openworld::transport::reality::RealityTransport;
use openworld::transport::shadowtls::{extract_server_random, frame_app_record, sign_client_hello, ShadowTlsTransport};
use openworld::transport::tcp::TcpTransport;
use openworld::transport::tls::TlsTransport;
use openworld::transport::ws::WsTransport;
use openworld::transport::{build_transport, StreamTransport};

#[test]
fn frame_encoding() {
    let frame = AnyTlsTransport::encode_frame(FrameType::Data, b"hello");
    assert_eq!(frame[0], 0x00);
    assert_eq!(u16::from_be_bytes([frame[1], frame[2]]), 5);
    assert_eq!(&frame[3..], b"hello");
}

#[test]
fn frame_type_conversion() {
    assert_eq!(FrameType::try_from(0x00).unwrap(), FrameType::Data);
    assert_eq!(FrameType::try_from(0x01).unwrap(), FrameType::Padding);
    assert_eq!(FrameType::try_from(0x04).unwrap(), FrameType::Auth);
    assert!(FrameType::try_from(0xFF).is_err());
}

#[test]
fn auth_token_deterministic() {
    let transport = AnyTlsTransport::new("test.com".to_string(), 443, "password123".to_string(), false, None, None);
    let t1 = transport.compute_auth_token();
    let t2 = transport.compute_auth_token();
    assert_eq!(t1, t2);
    assert_eq!(t1.len(), 32);
}

#[test]
fn transport_creation() {
    let transport = AnyTlsTransport::new("server.example.com".to_string(), 443, "my-password".to_string(), true, None, None);
    assert_eq!(transport.server_addr, "server.example.com");
    assert_eq!(transport.server_port, 443);
    assert!(transport.padding);
}

#[test]
fn anytls_frame_actions() {
    assert_eq!(frame_action(&[], 10), FrameAction::Eof);
    assert_eq!(frame_action(&[0, 1], 10), FrameAction::PassThrough);
    assert_eq!(frame_action(&[0, 0, 0], 10), FrameAction::Nothing);
    assert_eq!(frame_action(&[0, 0, 5], 10), FrameAction::ReadPayload(5));
    assert_eq!(frame_action(&[0, 1, 0], 10), FrameAction::ReadPayload(10));
    assert_eq!(frame_action(&[1, 0, 5], 10), FrameAction::Retry);
}

#[test]
fn brutal_factory_mbps() {
    let factory = BrutalControllerFactory::new(100);
    assert_eq!(factory.send_bps(), 100 * 125_000);
}

#[test]
fn brutal_factory_from_bps() {
    let factory = BrutalControllerFactory::from_bps(12_500_000);
    assert_eq!(factory.send_bps(), 12_500_000);
}

#[test]
fn brutal_factory_saturates() {
    assert_eq!(BrutalControllerFactory::new(u64::MAX).send_bps(), u64::MAX);
}

#[test]
fn test_ech_settings_default() {
    let settings = EchSettings::default();
    assert!(!settings.is_enabled());
    assert!(settings.config_list.is_none());
    assert!(!settings.grease);
}

#[test]
fn test_ech_settings_grease_enabled() {
    let settings = EchSettings { grease: true, ..Default::default() };
    assert!(settings.is_enabled());
}

#[test]
fn test_ech_settings_config_enabled() {
    let settings = EchSettings { config_list: Some(vec![0x00, 0x01]), ..Default::default() };
    assert!(settings.is_enabled());
}

#[test]
fn test_parse_ech_config_base64() {
    let bytes = parse_ech_config_base64("aGVsbG8=").unwrap();
    assert_eq!(bytes, b"hello");
}

#[test]
fn test_parse_ech_config_base64_url_safe() {
    let bytes = parse_ech_config_base64("aGVsbG8").unwrap();
    assert_eq!(bytes, b"hello");
}

#[test]
fn ech_decode_trims_white_space() {
    assert_eq!(decode_config("  aGVsbG8=\n").unwrap(), b"hello");
    assert!(decode_config("aGV$").is_err());
}

#[test]
fn ech_settings_priorities() {
    let manual = TlsConfig { ech_config: Some("aGVsbG8=".to_string()), ech_auto: true, ..Default::default() };
    let s = ech_settings_from(&manual, Some(vec![9])).unwrap();
    assert_eq!(s.config_list, Some(b"hello".to_vec()));
    let auto = TlsConfig { ech_auto: true, ech_grease: true, ..Default::default() };
    let s = ech_settings_from(&auto, Some(vec![9])).unwrap();
    assert_eq!(s.config_list, Some(vec![9]));
    assert!(s.grease);
    let off = TlsConfig::default();
    assert!(ech_settings_from(&off, Some(vec![9])).unwrap().config_list.is_none());
    let bad = TlsConfig { ech_config: Some("!!".to_string()), ..Default::default() };
    assert!(ech_settings_from(&bad, None).is_err());
}

#[test]
fn test_fingerprint_type_from_str() {
    assert_eq!(FingerprintType::from_str("chrome"), FingerprintType::Chrome);
    assert_eq!(FingerprintType::from_str("Chrome"), FingerprintType::Chrome);
    assert_eq!(FingerprintType::from_str("firefox"), FingerprintType::Firefox);
    assert_eq!(FingerprintType::from_str("safari"), FingerprintType::Safari);
    assert_eq!(FingerprintType::from_str("edge"), FingerprintType::Edge);
    assert_eq!(FingerprintType::from_str("ios"), FingerprintType::Ios);
    assert_eq!(FingerprintType::from_str("android"), FingerprintType::Android);
    assert_eq!(FingerprintType::from_str("random"), FingerprintType::Random);
    assert_eq!(FingerprintType::from_str("unknown"), FingerprintType::RustlsDefault);
}

#[test]
fn fingerprint_randomized_alias() {
    assert_eq!(FingerprintType::from_str("RANDOMIZED"), FingerprintType::Random);
}

#[test]
fn httpupgrade_transport_creation() {
    let tc = TransportConfig {
        transport_type: "httpupgrade".to_string(),
        path: Some("/tunnel".to_string()),
        host: Some("cdn.example.com".to_string()),
        ..Default::default()
    };
    let transport = HttpUpgradeTransport::new("1.2.3.4".to_string(), 443, &tc, None, None);
    assert_eq!(transport.path, "/tunnel");
    assert_eq!(transport.host.as_deref(), Some("cdn.example.com"));
    assert_eq!(transport.server_port, 443);
}

#[test]
fn httpupgrade_default_path() {
    let tc = TransportConfig::default();
    let transport = HttpUpgradeTransport::new("1.2.3.4".to_string(), 443, &tc, None, None);
    assert_eq!(transport.path, "/");
}

#[test]
fn h2_and_grpc_defaults() {
    let h2 = H2Transport::new("srv".to_string(), 443, None, None, None, None);
    assert_eq!(h2.path, "/");
    assert_eq!(h2.host, "srv");
    let g = GrpcTransport::new("srv".to_string(), 443, None, Some("h".to_string()), None);
    assert_eq!(g.service_name, "GunService");
    assert_eq!(g.host, "h");
}

#[test]
fn ws_defaults() {
    let ws = WsTransport::new("srv".to_string(), 80, &TransportConfig::default(), None);
    assert_eq!(ws.path, "/");
    assert!(ws.host.is_none());
}

#[test]
fn test_sign_client_hello_rejects_non_tls() {
    let data = vec![0x00, 0x03, 0x03, 0x00, 0x05, 0x01, 0x02, 0x03, 0x04, 0x05];
    assert!(sign_client_hello(&data, "test").is_err());
}

#[test]
fn sign_client_hello_signs_session_id() {
    let mut data = vec![0u8; 120];
    data[0] = 0x16;
    data[5] = 0x01;
    data[43] = 32;
    for i in 72..76 {
        data[i] = 0xEE;
    }
    let signed = sign_client_hello(&data, "pw").unwrap();
    assert_eq!(signed.len(), data.len());
    assert_eq!(&signed[..72], &data[..72]);
    assert_eq!(&signed[76..], &data[76..]);
    assert_ne!(&signed[72..76], &[0xEE; 4]);
    // the signature ignores what the four bytes held
    data[72] = 0;
    assert_eq!(sign_client_hello(&data, "pw").unwrap(), signed);
}

#[test]
fn test_extract_server_random() {
    let mut payload = vec![0u8; 100];
    payload[0] = 0x02;
    payload[3] = 90;
    payload[4] = 0x03;
    payload[5] = 0x03;
    for i in 0..32 {
        payload[6 + i] = (i + 1) as u8;
    }
    let random = extract_server_random(&payload).unwrap();
    for i in 0..32 {
        assert_eq!(random[i], (i + 1) as u8);
    }
}

#[test]
fn test_extract_server_random_wrong_type() {
    let mut payload = vec![0u8; 50];
    payload[0] = 0x01;
    payload[3] = 10;
    payload[4] = 0x03;
    payload[5] = 0x03;
    assert!(extract_server_random(&payload).is_none());
}

#[test]
fn test_transport_creation() {
    let t = ShadowTlsTransport::new("1.2.3.4".to_string(), 443, "secret".to_string(), "example.com".to_string(), None);
    assert_eq!(t.server_addr, "1.2.3.4");
    assert_eq!(t.password, "secret");
    assert_eq!(t.sni, "example.com");
}

#[test]
fn shadowtls_app_record() {
    let r = frame_app_record(&[1, 2, 3, 4], b"xy");
    assert_eq!(r, vec![0x17, 0x03, 0x03, 0x00, 0x06, 1, 2, 3, 4, b'x', b'y']);
}

#[test]
fn build_transport_kinds() {
    let tls = TlsConfig::default();
    let tcp = build_transport("srv", 1, &TransportConfig::default(), &tls).unwrap();
    assert!(matches!(tcp, StreamTransport::Tcp(_)));
    let ws = TransportConfig { transport_type: "ws".to_string(), ..Default::default() };
    assert!(matches!(build_transport("srv", 1, &ws, &tls).unwrap(), StreamTransport::Ws(_)));
    let st = TransportConfig { transport_type: "shadow-tls".to_string(), ..Default::default() };
    match build_transport("srv", 1, &st, &tls).unwrap() {
        StreamTransport::ShadowTls(t) => {
            assert_eq!(t.sni, "srv");
            assert_eq!(t.password, "");
        },
        _ => panic!("expected ShadowTLS"),
    }
    let bad = TransportConfig { transport_type: "quic".to_string(), ..Default::default() };
    assert!(build_transport("srv", 1, &bad, &tls).is_err());
    let on = TlsConfig { enabled: true, ..Default::default() };
    assert!(matches!(build_transport("srv", 1, &TransportConfig::default(), &on).unwrap(), StreamTransport::Tls(_)));
}

#[test]
fn tls_transport_plan() {
    let cfg = TlsConfig { enabled: true, fingerprint: Some("Firefox".to_string()), ..Default::default() };
    let t = TlsTransport::new("srv".to_string(), 443, &cfg, None).unwrap();
    assert_eq!(t.sni, "srv");
    assert_eq!(t.static_plan.as_ref().unwrap().fingerprint, FingerprintType::Firefox);
    let auto = TlsConfig { enabled: true, ech_auto: true, ..Default::default() };
    assert!(TlsTransport::new("srv".to_string(), 443, &auto, None).unwrap().static_plan.is_none());
}

#[test]
fn reality_transport_needs_key() {
    let cfg = TlsConfig { security: "reality".to_string(), ..Default::default() };
    assert!(RealityTransport::new("srv".to_string(), 443, &cfg, None).is_err());
    let ok = TlsConfig {
        security: "reality".to_string(),
        public_key: Some("AAAAAAAAAAAAAAAAAAAAAAAAAAAAAAAAAAAAAAAAAAA=".to_string()),
        server_name: Some("name".to_string()),
        ..Default::default()
    };
    let r = RealityTransport::new("srv".to_string(), 443, &ok, None).unwrap();
    assert_eq!(r.sni, "name");
    assert!(r.reality_config.short_id.is_empty());
}

#[test]
fn tcp_transport_fields() {
    let t = TcpTransport::new("a".to_string(), 9, None);
    assert_eq!(t.server_addr, "a");
    assert_eq!(t.server_port, 9);
}

#[test]
fn padding_frame_generation() {
    let f1 = AnyTlsTransport::generate_padding_frame();
    let f2 = AnyTlsTransport::generate_padding_frame();
    assert_eq!(f1[0], 0x01);
    assert_eq!(f2[0], 0x01);
    let len1 = u16::from_be_bytes([f1[1], f1[2]]) as usize;
    let len2 = u16::from_be_bytes([f2[1], f2[2]]) as usize;
    assert!(len1 >= 32 && len1 <= 512);
    assert!(len2 >= 32 && len2 <= 512);
    assert_eq!(f1.len(), 3 + len1);
}

#[test]
fn anytls_open_frame_and_written() {
    let f = AnyTlsTransport::open_frame(&Address::Domain("a.b".to_string(), 80));
    assert_eq!(f, vec![0x02u8, 0, 6, b'a', b'.', b'b', b':', b'8', b'0']);
    assert_eq!(payload_written(2, 10), 0);
    assert_eq!(payload_written(8, 10), 5);
    assert_eq!(payload_written(20, 10), 10);
}

#[test]
fn build_transport_carries_endpoints() {
    let tls = TlsConfig::default();
    let h2 = TransportConfig {
        transport_type: "h2".to_string(),
        path: Some("/p".to_string()),
        host: Some("h.example".to_string()),
        ..Default::default()
    };
    match build_transport("srv", 1, &h2, &tls).unwrap() {
        StreamTransport::H2(t) => {
            assert_eq!(t.path, "/p");
            assert_eq!(t.host, "h.example");
        },
        _ => panic!("expected h2"),
    }
    let grpc = TransportConfig {
        transport_type: "grpc".to_string(),
        service_name: Some("Svc".to_string()),
        ..Default::default()
    };
    match build_transport("srv", 1, &grpc, &tls).unwrap() {
        StreamTransport::Grpc(t) => {
            assert_eq!(t.service_name, "Svc");
            assert_eq!(t.host, "srv");
        },
        _ => panic!("expected grpc"),
    }
    let ws = TransportConfig {
        transport_type: "ws".to_string(),
        host: Some("w.example".to_string()),
        ..Default::default()
    };
    match build_transport("srv", 1, &ws, &tls).unwrap() {
        StreamTransport::Ws(t) => {
            assert_eq!(t.path, "/");
            assert_eq!(t.host.as_deref(), Some("w.example"));
        },
        _ => panic!("expected ws"),
    }
    let on = TlsConfig { enabled: true, sni: Some("n.example".to_string()), ..Default::default() };
    match build_transport("srv", 1, &TransportConfig::default(), &on).unwrap() {
        StreamTransport::Tls(t) => assert_eq!(t.sni, "n.example"),
        _ => panic!("expected tls"),
    }
}
