use openworld::address::{Address, IpAddr};
use openworld::config::{OutboundConfig, OutboundSettings};
use openworld::outbound::naive::{generate_padding, NaiveOutbound};
use openworld::outbound::http::{
    check_connect_head, check_connect_status, connect_request, ends_with_blank_line, first_line_of, HttpOutbound,
};

#[test]
fn http_connect_request_plain() {
    let r = connect_request(&Address::Domain("example.com".to_string(), 443), &None, &None);
    assert_eq!(String::from_utf8(r).unwrap(), "CONNECT example.com:443 HTTP/1.1\r\nHost: example.com:443\r\n\r\n");
}

#[test]
fn http_connect_request_ip_forms() {
    let r = connect_request(&Address::Ip(IpAddr::V4([1, 2, 3, 4]), 80), &None, &None);
    assert_eq!(String::from_utf8(r).unwrap(), "CONNECT 1.2.3.4:80 HTTP/1.1\r\nHost: 1.2.3.4:80\r\n\r\n");
    let mut v6 = [0u8; 16];
    v6[15] = 1;
    let r = connect_request(&Address::Ip(IpAddr::V6(v6), 8080), &None, &None);
    assert_eq!(String::from_utf8(r).unwrap(), "CONNECT [::1]:8080 HTTP/1.1\r\nHost: [::1]:8080\r\n\r\n");
}

#[test]
fn http_connect_request_with_credentials() {
    let config = OutboundConfig {
        tag: "h".to_string(),
        protocol: "http".to_string(),
        settings: OutboundSettings {
            address: Some("proxy".to_string()),
            port: Some(8080),
            uuid: Some("user".to_string()),
            password: Some("pass".to_string()),
            ..Default::default()
        },
    };
    let h = HttpOutbound::new(&config).unwrap();
    let r = h.connect_request(&Address::Domain("a.b".to_string(), 1));
    // base64("user:pass") == "dXNlcjpwYXNz"
    assert_eq!(
        String::from_utf8(r).unwrap(),
        "CONNECT a.b:1 HTTP/1.1\r\nHost: a.b:1\r\nProxy-Authorization: Basic dXNlcjpwYXNz\r\n\r\n"
    );
}

#[test]
fn http_connect_status_and_head() {
    assert!(check_connect_status("HTTP/1.1 200 Connection established\r\n").is_ok());
    assert_eq!(check_connect_status("HTTP/1.1 407 Auth\r\n"), Err("http proxy CONNECT failed"));
    assert_eq!(check_connect_status("nonsense"), Err("http proxy: invalid response"));
    assert_eq!(first_line_of("HTTP/1.1 200 OK\r\nA: b\r\n\r\n"), "HTTP/1.1 200 OK");
    assert_eq!(first_line_of("single"), "single");
    assert!(ends_with_blank_line("HTTP/1.1 200 OK\r\n\r\n".as_bytes()));
    assert!(!ends_with_blank_line("HTTP/1.1 200 OK\r\n".as_bytes()));
    assert!(check_connect_head("HTTP/1.1 200 OK\r\n\r\n".as_bytes()).is_ok());
    assert!(check_connect_head("HTTP/1.1\r\n200 OK\r\n\r\n".as_bytes()).is_err());
}

#[test]
fn naive_connect_pieces() {
    let config = OutboundConfig {
        tag: "naive".to_string(),
        protocol: "naive".to_string(),
        settings: OutboundSettings {
            address: Some("server".to_string()),
            uuid: Some("user".to_string()),
            password: Some("pass".to_string()),
            ..Default::default()
        },
    };
    let n = NaiveOutbound::new(&config).unwrap();
    assert_eq!(n.connect_target(&Address::Domain("x.y".to_string(), 443)), "x.y:443".as_bytes().to_vec());
    assert_eq!(n.proxy_authorization(), Some("Basic dXNlcjpwYXNz".as_bytes().to_vec()));
    let anon = NaiveOutbound::new(&OutboundConfig {
        tag: "n".to_string(),
        protocol: "naive".to_string(),
        settings: OutboundSettings { address: Some("server".to_string()), ..Default::default() },
    })
    .unwrap();
    assert_eq!(anon.proxy_authorization(), None);
    for _ in 0..20 {
        let p = generate_padding();
        assert!(p.len() >= 16 && p.len() <= 256);
        assert!(p.bytes().all(|c| c.is_ascii_lowercase()));
    }
}
