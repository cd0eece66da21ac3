use openworld::address::{Address, IpAddr};
use openworld::outbound::socks5::{
    auth_request, bind_addr_len, check_auth_reply, check_reply_head, connect_request, decode_udp_packet,
    encode_udp_packet, method_choice, parse_bind_addr, reply_reason, AuthChoice,
};
use openworld::outbound::tor::{check_connect_reply, check_method_reply, connect_request as tor_connect_request, domain_skip, BindSkip};

#[test]
fn socks5_method_choice_cases() {
    assert_eq!(method_choice([5, 0], false), Ok(AuthChoice::NoAuth));
    assert_eq!(method_choice([5, 2], true), Ok(AuthChoice::UserPass));
    assert_eq!(method_choice([5, 0xFF], true), Err("socks5: server rejected all authentication methods"));
    assert_eq!(method_choice([5, 1], true), Err("socks5: unsupported auth method selected"));
    assert_eq!(method_choice([4, 0], true), Err("socks5: server returned unsupported version"));
}

#[test]
fn socks5_auth_request_layout() {
    let r = auth_request("admin", "secret");
    let mut want = vec![1u8, 5];
    want.extend_from_slice("admin".as_bytes());
    want.push(6);
    want.extend_from_slice("secret".as_bytes());
    assert_eq!(r, want);
    assert!(check_auth_reply([1, 0]).is_ok());
    assert!(check_auth_reply([1, 1]).is_err());
}

#[test]
fn socks5_connect_request_domain() {
    let r = connect_request(1, &Address::Domain("example.com".to_string(), 80));
    let mut want = vec![5u8, 1, 0, 3, 11];
    want.extend_from_slice("example.com".as_bytes());
    want.extend_from_slice(&[0, 80]);
    assert_eq!(r, want);
}

#[test]
fn socks5_connect_request_ipv4() {
    let r = connect_request(3, &Address::Ip(IpAddr::V4([0, 0, 0, 0]), 0));
    assert_eq!(r, vec![5u8, 3, 0, 1, 0, 0, 0, 0, 0, 0]);
}

#[test]
fn socks5_reply_head() {
    assert!(check_reply_head([5, 0, 0]).is_ok());
    assert_eq!(check_reply_head([4, 0, 0]), Err("socks5: invalid reply version"));
    assert_eq!(check_reply_head([5, 5, 0]), Err("connection refused"));
    assert_eq!(reply_reason(9), "unknown error");
    assert_eq!(reply_reason(6), "TTL expired");
}

#[test]
fn socks5_bind_address_forms() {
    assert_eq!(bind_addr_len(1), Some(6));
    assert_eq!(bind_addr_len(4), Some(18));
    assert_eq!(bind_addr_len(3), None);
    match parse_bind_addr(1, &[127, 0, 0, 1, 0x00, 0x50]).unwrap() {
        Address::Ip(IpAddr::V4(o), p) => {
            assert_eq!(o, [127, 0, 0, 1]);
            assert_eq!(p, 80);
        }
        _ => panic!("expected an IPv4 address"),
    }
    let mut body = vec![3u8];
    body.extend_from_slice("a.b".as_bytes());
    body.extend_from_slice(&[0x01, 0xBB]);
    match parse_bind_addr(3, &body).unwrap() {
        Address::Domain(d, p) => {
            assert_eq!(d, "a.b");
            assert_eq!(p, 443);
        }
        _ => panic!("expected a domain"),
    }
    assert!(parse_bind_addr(2, &[0; 8]).is_err());
    assert!(parse_bind_addr(4, &[0; 10]).is_err());
}

#[test]
fn socks5_udp_roundtrip() {
    let addr = Address::Ip(IpAddr::V4([8, 8, 8, 8]), 53);
    let frame = encode_udp_packet(&addr, &[9, 9, 9]);
    assert_eq!(frame, vec![0u8, 0, 0, 1, 8, 8, 8, 8, 0, 53, 9, 9, 9]);
    let (a, payload) = decode_udp_packet(&frame).unwrap();
    match a {
        Address::Ip(IpAddr::V4(o), p) => {
            assert_eq!(o, [8, 8, 8, 8]);
            assert_eq!(p, 53);
        }
        _ => panic!("expected an IPv4 address"),
    }
    assert_eq!(payload, vec![9u8, 9, 9]);
}

#[test]
fn socks5_udp_drops_fragments_and_short() {
    assert!(decode_udp_packet(&[0, 0, 0]).is_none());
    assert!(decode_udp_packet(&[0, 0, 1, 1, 8, 8, 8, 8, 0, 53]).is_none());
    assert!(decode_udp_packet(&[0, 0, 0, 9, 1, 2]).is_none());
}

#[test]
fn tor_handshake_decisions() {
    assert!(check_method_reply([5, 0]).is_ok());
    assert!(check_method_reply([5, 2]).is_err());
    assert!(check_method_reply([4, 0]).is_err());
    assert_eq!(check_connect_reply([5, 0, 0, 1]), Ok(BindSkip::Fixed(6)));
    assert_eq!(check_connect_reply([5, 0, 0, 4]), Ok(BindSkip::Fixed(18)));
    assert_eq!(check_connect_reply([5, 0, 0, 3]), Ok(BindSkip::DomainThenLen));
    assert_eq!(check_connect_reply([5, 0, 0, 7]), Ok(BindSkip::Fixed(0)));
    assert!(check_connect_reply([5, 1, 0, 1]).is_err());
    assert_eq!(domain_skip(11), 13);
    let r = tor_connect_request(&Address::Ip(IpAddr::V4([1, 2, 3, 4]), 443));
    assert_eq!(r, vec![5u8, 1, 0, 1, 1, 2, 3, 4, 1, 187]);
}
