use openworld::config::TransportConfig;
use openworld::transport::httpupgrade::{
    check_status_line, is_blank_line, parse_status_code, push_line_byte, HttpUpgradeTransport, LineStep, UpgradeError,
};

#[test]
fn httpupgrade_request_layout() {
    let tc = TransportConfig {
        transport_type: "httpupgrade".to_string(),
        path: Some("/proxy".to_string()),
        headers: Some(vec![("X-A".to_string(), "1".to_string())]),
        ..Default::default()
    };
    let t = HttpUpgradeTransport::new("127.0.0.1".to_string(), 443, &tc, None, None);
    assert_eq!(t.effective_host(), "127.0.0.1");
    let req = String::from_utf8(t.upgrade_request("a2V5")).unwrap();
    assert_eq!(
        req,
        "GET /proxy HTTP/1.1\r\nHost: 127.0.0.1\r\nConnection: Upgrade\r\nUpgrade: websocket\r\nSec-WebSocket-Version: 13\r\nSec-WebSocket-Key: a2V5\r\nX-A: 1\r\n\r\n"
    );
    assert!(req.starts_with("GET /proxy HTTP/1.1"));
    assert!(req.contains("Connection: Upgrade"));
    assert!(req.contains("Upgrade: websocket"));
    assert!(req.contains("Sec-WebSocket-Key:"));
}

#[test]
fn httpupgrade_status_codes() {
    assert_eq!(parse_status_code("HTTP/1.1 101 Switching Protocols\r\n"), Some(101));
    assert_eq!(parse_status_code("  HTTP/1.1\t+200 OK"), Some(200));
    assert_eq!(parse_status_code("HTTP/1.1"), None);
    assert_eq!(parse_status_code("HTTP/1.1 70000 X"), None);
    assert_eq!(parse_status_code("HTTP/1.1 1o1 X"), None);
    assert_eq!(parse_status_code("HTTP/1.1 + X"), None);
    assert_eq!(check_status_line("HTTP/1.1 101 Switching Protocols\r\n"), Ok(()));
    assert_eq!(check_status_line("HTTP/1.1 403 Forbidden\r\n"), Err(UpgradeError::NotSwitching(403)));
    assert_eq!(check_status_line("garbage"), Err(UpgradeError::InvalidResponse));
}

#[test]
fn httpupgrade_head_lines() {
    assert!(is_blank_line("\r\n"));
    assert!(!is_blank_line("Upgrade: websocket\r\n"));
    let mut line = Vec::new();
    assert_eq!(push_line_byte(&mut line, b'a'), LineStep::More);
    assert_eq!(push_line_byte(&mut line, b'\n'), LineStep::Done);
    let mut long = vec![b'x'; 8192];
    assert_eq!(push_line_byte(&mut long, b'y'), LineStep::TooLong);
}
