use base64::Engine;
use openworld::config::{OutboundConfig, OutboundSettings};
use openworld::outbound::chain::{health_step, ChainHealthResult, HealthAction, HopResult};
use openworld::outbound::hysteria2::hysteria2_settings;
use openworld::outbound::masque::{decode_base64, masque_settings, DEFAULT_CONNECT_SNI, DEFAULT_CONNECT_URI};

fn ob(protocol: &str, settings: OutboundSettings) -> OutboundConfig {
    OutboundConfig { tag: "t".to_string(), protocol: protocol.to_string(), settings }
}

fn masque_base() -> OutboundSettings {
    OutboundSettings {
        address: Some("m.example".to_string()),
        port: Some(443),
        private_key: Some("PEM".to_string()),
        public_key: Some(base64::engine::general_purpose::STANDARD.encode([1u8, 2, 3])),
        ..Default::default()
    }
}

#[test]
fn masque_settings_defaults() {
    let m = masque_settings(&ob("masque", masque_base())).unwrap();
    assert_eq!(m.server, "m.example");
    assert_eq!(m.port, 443);
    assert_eq!(m.private_key_pem, "PEM");
    assert_eq!(m.public_key_der, vec![1u8, 2, 3]);
    assert_eq!(m.local_ipv4, None);
    assert_eq!(m.local_ipv6, None);
    assert_eq!(m.uri, DEFAULT_CONNECT_URI);
    assert_eq!(m.sni, DEFAULT_CONNECT_SNI);
    assert_eq!(m.mtu, 1280);
    assert_eq!(m.congestion, "cubic");
    assert!(m.udp);
}

#[test]
fn masque_settings_local_addresses() {
    let mut s = masque_base();
    s.local_address = Some("172.16.0.2/32".to_string());
    s.mtu = Some(1400);
    s.sni = Some("x.example".to_string());
    s.congestion_control = Some("bbr".to_string());
    let m = masque_settings(&ob("masque", s)).unwrap();
    assert_eq!(m.local_ipv4, Some([172, 16, 0, 2]));
    assert_eq!(m.local_ipv6, None);
    assert_eq!(m.mtu, 1400);
    assert_eq!(m.sni, "x.example");
    assert_eq!(m.congestion, "bbr");

    let mut s = masque_base();
    s.local_address = Some("fd01::2/128".to_string());
    let m = masque_settings(&ob("masque", s)).unwrap();
    assert_eq!(m.local_ipv4, None);
    let mut want = [0u8; 16];
    want[0] = 0xfd;
    want[1] = 0x01;
    want[15] = 2;
    assert_eq!(m.local_ipv6, Some(want));
}

#[test]
fn masque_settings_errors() {
    let mut s = masque_base();
    s.address = None;
    assert_eq!(masque_settings(&ob("masque", s)).err(), Some("masque: address is required"));
    let mut s = masque_base();
    s.port = None;
    assert_eq!(masque_settings(&ob("masque", s)).err(), Some("masque: port is required"));
    let mut s = masque_base();
    s.private_key = None;
    assert_eq!(masque_settings(&ob("masque", s)).err(), Some("masque: private-key is required"));
    let mut s = masque_base();
    s.public_key = None;
    assert_eq!(masque_settings(&ob("masque", s)).err(), Some("masque: public-key is required"));
    let mut s = masque_base();
    s.public_key = Some("not base64!".to_string());
    assert_eq!(masque_settings(&ob("masque", s)).err(), Some("Failed to decode base64"));
}

#[test]
fn decode_base64_refuses_url_alphabet() {
    assert!(decode_base64("ab-_").is_err());
    assert!(decode_base64("YWJj").is_ok());
}

#[test]
fn hysteria2_settings_defaults_and_brutal() {
    let s = OutboundSettings {
        address: Some("h.example".to_string()),
        port: Some(8443),
        password: Some("pw".to_string()),
        ..Default::default()
    };
    let h = hysteria2_settings(&ob("hysteria2", s)).unwrap();
    assert_eq!(h.sni, "h.example");
    assert_eq!(h.up_mbps, 0);
    assert_eq!(h.down_mbps, 0);
    assert_eq!(h.brutal_mbps, None);
    assert!(!h.allow_insecure);

    let s = OutboundSettings {
        address: Some("h.example".to_string()),
        port: Some(8443),
        password: Some("pw".to_string()),
        sni: Some("s.example".to_string()),
        up_mbps: Some(50),
        down_mbps: Some(100),
        allow_insecure: true,
        ..Default::default()
    };
    let h = hysteria2_settings(&ob("hysteria2", s)).unwrap();
    assert_eq!(h.sni, "s.example");
    assert_eq!(h.brutal_mbps, Some(50));
    assert_eq!(h.down_mbps, 100);
    assert!(h.allow_insecure);
}

#[test]
fn hysteria2_settings_errors() {
    let s = OutboundSettings { port: Some(1), password: Some("p".to_string()), ..Default::default() };
    assert_eq!(hysteria2_settings(&ob("hysteria2", s)).err(), Some("hysteria2: address is required"));
    let s = OutboundSettings { address: Some("a".to_string()), password: Some("p".to_string()), ..Default::default() };
    assert_eq!(hysteria2_settings(&ob("hysteria2", s)).err(), Some("hysteria2: port is required"));
    let s = OutboundSettings { address: Some("a".to_string()), port: Some(1), ..Default::default() };
    assert_eq!(hysteria2_settings(&ob("hysteria2", s)).err(), Some("hysteria2: password is required"));
}

#[test]
fn health_check_stops_at_first_failed_hop() {
    let mut done = Vec::new();
    assert_eq!(health_step(&mut done, HopResult::from_latency("a".to_string(), Some(10)), 3), HealthAction::CheckNext);
    assert_eq!(health_step(&mut done, HopResult::from_latency("b".to_string(), None), 3), HealthAction::Finish);
    assert_eq!(done.len(), 2);
    let r = ChainHealthResult::from_hops("c".to_string(), done);
    assert!(!r.healthy);
    assert_eq!(r.total_latency, None);
}

#[test]
fn health_check_all_hops_healthy() {
    let mut done = Vec::new();
    assert_eq!(health_step(&mut done, HopResult::from_latency("a".to_string(), Some(10)), 2), HealthAction::CheckNext);
    assert_eq!(health_step(&mut done, HopResult::from_latency("b".to_string(), Some(5)), 2), HealthAction::Finish);
    let r = ChainHealthResult::from_hops("c".to_string(), done);
    assert!(r.healthy);
    assert_eq!(r.total_latency, Some(15));
}
