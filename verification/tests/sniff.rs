use openworld::sniff::{
    detect_protocol, is_bittorrent, is_dtls, is_http_request, is_stun, parse_http_host,
    parse_quic_sni, parse_tls_sni, sniff, BiDirectionalRateLimiter, SniffOverrideStrategy,
    SniffResult, TfoConfig,
};

/// A minimal TLS ClientHello carrying only an SNI extension.
fn build_test_client_hello(sni: &[u8]) -> Vec<u8> {
    let mut sni_ext = Vec::new();
    let name_entry_len = 1 + 2 + sni.len();
    sni_ext.extend_from_slice(&(name_entry_len as u16).to_be_bytes());
    sni_ext.push(0x00);
    sni_ext.extend_from_slice(&(sni.len() as u16).to_be_bytes());
    sni_ext.extend_from_slice(sni);

    let mut extensions = Vec::new();
    extensions.extend_from_slice(&[0x00, 0x00]);
    extensions.extend_from_slice(&(sni_ext.len() as u16).to_be_bytes());
    extensions.extend_from_slice(&sni_ext);

    let mut body = Vec::new();
    body.extend_from_slice(&[0x03, 0x03]);
    body.extend_from_slice(&[0u8; 32]);
    body.push(0x00);
    body.extend_from_slice(&[0x00, 0x02, 0x00, 0xff]);
    body.push(0x01);
    body.push(0x00);
    body.extend_from_slice(&(extensions.len() as u16).to_be_bytes());
    body.extend_from_slice(&extensions);

    let mut handshake = Vec::new();
    handshake.push(0x01);
    let body_len = body.len();
    handshake.push(((body_len >> 16) & 0xff) as u8);
    handshake.push(((body_len >> 8) & 0xff) as u8);
    handshake.push((body_len & 0xff) as u8);
    handshake.extend_from_slice(&body);

    let mut record = Vec::new();
    record.push(0x16);
    record.extend_from_slice(&[0x03, 0x01]);
    record.extend_from_slice(&(handshake.len() as u16).to_be_bytes());
    record.extend_from_slice(&handshake);
    record
}

#[test]
fn tls_client_hello_sni() {
    let sni = b"example.com";
    let client_hello = build_test_client_hello(sni);
    let result = parse_tls_sni(&client_hello);
    assert_eq!(result, Some("example.com".to_string()));
}

#[test]
fn tls_no_sni() {
    assert_eq!(parse_tls_sni(&[0x16, 0x03, 0x01]), None);
}

#[test]
fn tls_not_handshake() {
    assert_eq!(parse_tls_sni(&[0x17, 0x03, 0x01, 0x00, 0x01, 0x00]), None);
}

#[test]
fn http_host_get() {
    let data = b"GET / HTTP/1.1\r\nHost: example.com\r\nConnection: close\r\n\r\n";
    assert_eq!(parse_http_host(data), Some("example.com".to_string()));
}

#[test]
fn http_host_with_port() {
    let data = b"GET /path HTTP/1.1\r\nHost: example.com:8080\r\nConnection: close\r\n\r\n";
    assert_eq!(parse_http_host(data), Some("example.com".to_string()));
}

#[test]
fn http_host_post() {
    let data = b"POST /api HTTP/1.1\r\nhost: api.example.com\r\n\r\n";
    assert_eq!(parse_http_host(data), Some("api.example.com".to_string()));
}

#[test]
fn http_not_http() {
    let data = b"\x16\x03\x01binary data";
    assert_eq!(parse_http_host(data), None);
}

#[test]
fn sniff_tls_prefers_over_http() {
    let hello = build_test_client_hello(b"tls.example.com");
    assert_eq!(sniff(&hello), Some("tls.example.com".to_string()));
}

#[test]
fn sniff_http_fallback() {
    let data = b"GET / HTTP/1.1\r\nHost: http.example.com\r\n\r\n";
    assert_eq!(sniff(data), Some("http.example.com".to_string()));
}

#[test]
fn sniff_unknown() {
    assert_eq!(sniff(b"random binary data"), None);
}

#[test]
fn detect_bittorrent_handshake() {
    let mut data = vec![19u8];
    data.extend_from_slice(b"BitTorrent protocol");
    data.extend_from_slice(&[0u8; 48]);
    assert_eq!(detect_protocol(&data), Some("bittorrent"));
    assert!(is_bittorrent(&data));
}

#[test]
fn detect_bittorrent_dht() {
    let data = b"d1:ad2:id20:abcdefghij0123456789e1:q4:ping1:t2:aa1:y1:qe";
    assert!(is_bittorrent(data));
}

#[test]
fn detect_stun_binding_request() {
    let mut data = vec![0u8; 20];
    data[0] = 0x00;
    data[1] = 0x01;
    data[2] = 0x00;
    data[3] = 0x00;
    data[4] = 0x21;
    data[5] = 0x12;
    data[6] = 0xA4;
    data[7] = 0x42;
    assert_eq!(detect_protocol(&data), Some("stun"));
    assert!(is_stun(&data));
}

#[test]
fn detect_stun_no_magic_cookie() {
    let data = vec![
        0x00, 0x01, 0x00, 0x00, 0x00, 0x00, 0x00, 0x00, 0x00, 0x00, 0x00, 0x00, 0x00, 0x00,
        0x00, 0x00, 0x00, 0x00, 0x00, 0x00,
    ];
    assert!(!is_stun(&data));
}

#[test]
fn detect_dtls_client_hello() {
    let mut data = vec![0u8; 20];
    data[0] = 0x16;
    data[1] = 0xFE;
    data[2] = 0xFD;
    assert_eq!(detect_protocol(&data), Some("dtls"));
    assert!(is_dtls(&data));
}

#[test]
fn detect_dtls_1_0() {
    let mut data = vec![0u8; 20];
    data[0] = 0x16;
    data[1] = 0xFE;
    data[2] = 0xFF;
    assert!(is_dtls(&data));
}

#[test]
fn detect_dtls_not_handshake() {
    let mut data = vec![0u8; 20];
    data[0] = 0x17;
    data[1] = 0xFE;
    data[2] = 0xFD;
    assert!(!is_dtls(&data));
}

#[test]
fn detect_http_request() {
    assert_eq!(detect_protocol(b"GET / HTTP/1.1\r\n"), Some("http"));
    assert_eq!(detect_protocol(b"POST /api HTTP/1.1\r\n"), Some("http"));
    assert!(is_http_request(b"GET /"));
    assert!(!is_http_request(b"INVALID"));
}

#[test]
fn detect_tls_protocol() {
    let hello = build_test_client_hello(b"example.com");
    assert_eq!(detect_protocol(&hello), Some("tls"));
}

#[test]
fn detect_unknown_protocol() {
    assert_eq!(detect_protocol(b"random junk"), None);
}

#[test]
fn sniff_override_strategy_from_str() {
    assert_eq!(SniffOverrideStrategy::from_str("full"), SniffOverrideStrategy::Full);
    assert_eq!(SniffOverrideStrategy::from_str("override"), SniffOverrideStrategy::Full);
    assert_eq!(SniffOverrideStrategy::from_str("domain-only"), SniffOverrideStrategy::DomainOnly);
    assert_eq!(SniffOverrideStrategy::from_str("domain"), SniffOverrideStrategy::DomainOnly);
    assert_eq!(SniffOverrideStrategy::from_str("port-only"), SniffOverrideStrategy::PortOnly);
    assert_eq!(SniffOverrideStrategy::from_str("route-only"), SniffOverrideStrategy::RouteOnly);
    assert_eq!(SniffOverrideStrategy::from_str("none"), SniffOverrideStrategy::RouteOnly);
    assert_eq!(SniffOverrideStrategy::from_str("unknown"), SniffOverrideStrategy::Full);
}

#[test]
fn sniff_override_strategy_as_str() {
    assert_eq!(SniffOverrideStrategy::Full.as_str(), "full");
    assert_eq!(SniffOverrideStrategy::DomainOnly.as_str(), "domain-only");
    assert_eq!(SniffOverrideStrategy::PortOnly.as_str(), "port-only");
    assert_eq!(SniffOverrideStrategy::RouteOnly.as_str(), "route-only");
}

#[test]
fn sniff_result_from_tls_data() {
    let hello = build_test_client_hello(b"example.com");
    let result = SniffResult::from_data(&hello);
    assert_eq!(result.domain.as_deref(), Some("example.com"));
    assert_eq!(result.protocol, Some("tls"));
    assert_eq!(result.inferred_port, Some(443));
}

#[test]
fn sniff_result_from_http_data() {
    let data = b"GET / HTTP/1.1\r\nHost: http.example.com\r\n\r\n";
    let result = SniffResult::from_data(data);
    assert_eq!(result.domain.as_deref(), Some("http.example.com"));
    assert_eq!(result.protocol, Some("http"));
    assert_eq!(result.inferred_port, Some(80));
}

#[test]
fn sniff_result_from_unknown_data() {
    let result = SniffResult::from_data(b"random binary data");
    assert!(result.domain.is_none());
    assert!(result.protocol.is_none());
    assert!(result.inferred_port.is_none());
}

fn sniffed() -> SniffResult {
    SniffResult {
        domain: Some("sniffed.com".to_string()),
        protocol: Some("tls"),
        inferred_port: Some(443),
    }
}

#[test]
fn sniff_result_apply_full_override() {
    let result = sniffed();
    let (host, port) = result.apply_override(SniffOverrideStrategy::Full, "1.2.3.4", 8080);
    assert_eq!(host, "sniffed.com");
    assert_eq!(port, 443);
}

#[test]
fn sniff_result_apply_domain_only() {
    let result = sniffed();
    let (host, port) = result.apply_override(SniffOverrideStrategy::DomainOnly, "1.2.3.4", 8080);
    assert_eq!(host, "sniffed.com");
    assert_eq!(port, 8080);
}

#[test]
fn sniff_result_apply_port_only() {
    let result = sniffed();
    let (host, port) = result.apply_override(SniffOverrideStrategy::PortOnly, "1.2.3.4", 8080);
    assert_eq!(host, "1.2.3.4");
    assert_eq!(port, 443);
}

#[test]
fn sniff_result_apply_route_only() {
    let result = sniffed();
    let (host, port) = result.apply_override(SniffOverrideStrategy::RouteOnly, "1.2.3.4", 8080);
    assert_eq!(host, "1.2.3.4");
    assert_eq!(port, 8080);
}

#[test]
fn sniff_result_apply_no_domain() {
    let result = SniffResult { domain: None, protocol: None, inferred_port: None };
    let (host, port) = result.apply_override(SniffOverrideStrategy::Full, "1.2.3.4", 8080);
    assert_eq!(host, "1.2.3.4");
    assert_eq!(port, 8080);
}

#[test]
fn tfo_config_default() {
    let config = TfoConfig::default();
    assert!(!config.enabled);
    assert_eq!(config.queue_len, 5);
}

#[test]
fn tfo_config_disabled_no_options() {
    let config = TfoConfig::new(false);
    assert!(config.socket_options().is_empty());
}

#[test]
fn tfo_config_enabled_has_options() {
    let config = TfoConfig::new(true);
    let opts = config.socket_options();
    assert!(!opts.is_empty());
}

#[test]
fn bidirectional_rate_limiter_creation() {
    let limiter = BiDirectionalRateLimiter::new(1000, 2000);
    assert_eq!(limiter.upload_max_rate(), 1000);
    assert_eq!(limiter.download_max_rate(), 2000);
}

#[test]
fn bidirectional_rate_limiter_consume_upload() {
    let mut limiter = BiDirectionalRateLimiter::new(1000, 2000);
    let consumed = limiter.try_consume_upload(500);
    assert_eq!(consumed, 500);
    assert!(limiter.upload_available() <= 500);
}

#[test]
fn bidirectional_rate_limiter_consume_download() {
    let mut limiter = BiDirectionalRateLimiter::new(1000, 2000);
    let consumed = limiter.try_consume_download(500);
    assert_eq!(consumed, 500);
    assert!(limiter.download_available() <= 1500);
}

#[test]
fn bidirectional_rate_limiter_independent() {
    let mut limiter = BiDirectionalRateLimiter::new(1000, 2000);
    limiter.try_consume_upload(500);
    let download = limiter.try_consume_download(2000);
    assert_eq!(download, 2000);
}

// Own tests.

#[test]
fn tls_sni_non_utf8_name_is_none() {
    let hello = build_test_client_hello(&[0xff, 0xfe, 0x2e]);
    assert_eq!(parse_tls_sni(&hello), None);
}

#[test]
fn http_host_non_numeric_port_is_kept() {
    let data = b"GET / HTTP/1.1\r\nHost:  [::1]:ab \r\n\r\n";
    assert_eq!(parse_http_host(data), Some("[::1]:ab".to_string()));
}

#[test]
fn http_host_last_line_without_newline() {
    let data = b"CONNECT x HTTP/1.1\r\nHost: tail.example:443";
    assert_eq!(parse_http_host(data), Some("tail.example".to_string()));
}

#[test]
fn http_host_empty_name_skipped() {
    let data = b"GET / HTTP/1.1\r\nHost: :80\r\nhost: second.example\r\n";
    assert_eq!(parse_http_host(data), Some("second.example".to_string()));
}

#[test]
fn quic_initial_sni_found() {
    let hello = build_test_client_hello(b"quic.example.com");
    let mut packet = vec![0xc0, 0x00, 0x00, 0x00, 0x01];
    packet.extend_from_slice(&hello[5..]);
    packet.extend_from_slice(&[0u8; 40]);
    assert_eq!(parse_quic_sni(&packet), Some("quic.example.com".to_string()));
}

#[test]
fn detect_ssh_protocol() {
    assert_eq!(detect_protocol(b"SSH-2.0-OpenSSH"), Some("ssh"));
}
