use openworld::address::{Address, IpAddr};
use openworld::config::{OutboundConfig, OutboundSettings};
use openworld::outbound::http::HttpOutbound;
use openworld::outbound::hysteria_v1::{HysteriaV1Outbound, HYSTERIA_V1_CMD_TCP, HYSTERIA_V1_VERSION};
use openworld::outbound::naive::NaiveOutbound;
use openworld::outbound::reject::{BlackholeOutbound, RejectOutbound};
use openworld::outbound::socks5::Socks5Outbound;
use openworld::outbound::ssh::{SshAuthMethod, SshOutbound, SSH_CLIENT_VERSION};
use openworld::outbound::tor::TorOutbound;

#[test]
fn http_outbound_creation() {
    let config = OutboundConfig {
        tag: "http-out".to_string(),
        protocol: "http".to_string(),
        settings: OutboundSettings {
            address: Some("proxy.example.com".to_string()),
            port: Some(8080),
            ..Default::default()
        },
    };
    let outbound = HttpOutbound::new(&config).unwrap();
    assert_eq!(outbound.tag(), "http-out");
    assert_eq!(outbound.server_port, 8080);
}

#[test]
fn http_outbound_missing_address_fails() {
    let config = OutboundConfig {
        tag: "http-out".to_string(),
        protocol: "http".to_string(),
        settings: OutboundSettings { port: Some(8080), ..Default::default() },
    };
    assert!(HttpOutbound::new(&config).is_err());
}

#[test]
fn http_outbound_with_auth() {
    let config = OutboundConfig {
        tag: "http-auth".to_string(),
        protocol: "http".to_string(),
        settings: OutboundSettings {
            address: Some("proxy.example.com".to_string()),
            port: Some(8080),
            uuid: Some("user".to_string()),
            password: Some("pass".to_string()),
            ..Default::default()
        },
    };
    let outbound = HttpOutbound::new(&config).unwrap();
    assert!(outbound.username.is_some());
    assert!(outbound.password.is_some());
}

#[test]
fn hysteria_v1_creation() {
    let config = OutboundConfig {
        tag: "hy-v1".to_string(),
        protocol: "hysteria".to_string(),
        settings: OutboundSettings {
            address: Some("server.example.com".to_string()),
            port: Some(36712),
            password: Some("test-auth".to_string()),
            ..Default::default()
        },
    };
    let outbound = HysteriaV1Outbound::new(&config).unwrap();
    assert_eq!(outbound.tag(), "hy-v1");
    assert_eq!(outbound.server_port, 36712);
    assert_eq!(outbound.auth_str, "test-auth");
}

#[test]
fn auth_request_encoding() {
    let outbound = HysteriaV1Outbound {
        tag: "test".to_string(),
        server_addr: "test.com".to_string(),
        server_port: 443,
        auth_str: "hello".to_string(),
        obfs: None,
        obfs_password: None,
        up_mbps: 100,
        down_mbps: 200,
        sni: "test.com".to_string(),
        allow_insecure: false,
    };
    let auth = outbound.build_auth_request();
    assert_eq!(auth[0], HYSTERIA_V1_VERSION);
    let up = u32::from_be_bytes([auth[1], auth[2], auth[3], auth[4]]);
    let down = u32::from_be_bytes([auth[5], auth[6], auth[7], auth[8]]);
    assert_eq!(up, 100);
    assert_eq!(down, 200);
    let auth_len = u16::from_be_bytes([auth[9], auth[10]]) as usize;
    assert_eq!(auth_len, 5);
    assert_eq!(&auth[11..16], b"hello");
}

#[test]
fn auth_response_ok() {
    assert!(HysteriaV1Outbound::parse_auth_response(&[0x00]).unwrap());
}

#[test]
fn auth_response_fail() {
    let resp = HysteriaV1Outbound::parse_auth_response(&[0x01, b'n', b'o']);
    assert!(resp.is_err());
}

#[test]
fn tcp_request_domain() {
    let addr = Address::Domain("example.com".to_string(), 443);
    let req = HysteriaV1Outbound::encode_tcp_request(&addr);
    assert_eq!(req[0], HYSTERIA_V1_CMD_TCP);
    assert_eq!(req[1], 0x03);
    assert_eq!(req[2], 11);
}

#[test]
fn obfs_roundtrip() {
    let original = vec![0x01, 0x02, 0x03, 0x04];
    let mut data = original.clone();
    HysteriaV1Outbound::apply_obfs(&mut data, "key");
    assert_ne!(data, original);
    HysteriaV1Outbound::apply_obfs(&mut data, "key");
    assert_eq!(data, original);
}

#[test]
fn missing_address_fails() {
    let config = OutboundConfig {
        tag: "hy-v1".to_string(),
        protocol: "hysteria".to_string(),
        settings: OutboundSettings::default(),
    };
    assert!(HysteriaV1Outbound::new(&config).is_err());
}

#[test]
fn naive_outbound_creation() {
    let config = OutboundConfig {
        tag: "naive-out".to_string(),
        protocol: "naive".to_string(),
        settings: OutboundSettings {
            address: Some("server.example.com".to_string()),
            port: Some(443),
            uuid: Some("user".to_string()),
            password: Some("pass".to_string()),
            ..Default::default()
        },
    };
    let outbound = NaiveOutbound::new(&config).unwrap();
    assert_eq!(outbound.tag(), "naive-out");
    assert_eq!(outbound.server_port, 443);
    assert_eq!(outbound.username, "user");
    assert_eq!(outbound.password, "pass");
}

#[test]
fn naive_outbound_default_port() {
    let config = OutboundConfig {
        tag: "naive".to_string(),
        protocol: "naive".to_string(),
        settings: OutboundSettings {
            address: Some("server.example.com".to_string()),
            ..Default::default()
        },
    };
    let outbound = NaiveOutbound::new(&config).unwrap();
    assert_eq!(outbound.server_port, 443);
}

#[test]
fn naive_outbound_missing_address() {
    let config = OutboundConfig {
        tag: "naive".to_string(),
        protocol: "naive".to_string(),
        settings: OutboundSettings::default(),
    };
    assert!(NaiveOutbound::new(&config).is_err());
}

#[test]
fn socks5_outbound_creation() {
    let config = OutboundConfig {
        tag: "socks5-out".to_string(),
        protocol: "socks5".to_string(),
        settings: OutboundSettings {
            address: Some("proxy.example.com".to_string()),
            port: Some(1080),
            ..Default::default()
        },
    };
    let outbound = Socks5Outbound::new(&config).unwrap();
    assert_eq!(outbound.tag(), "socks5-out");
    assert_eq!(outbound.server_port, 1080);
    assert!(outbound.username.is_none());
}

#[test]
fn socks5_outbound_with_auth() {
    let config = OutboundConfig {
        tag: "socks5-auth".to_string(),
        protocol: "socks5".to_string(),
        settings: OutboundSettings {
            address: Some("proxy.example.com".to_string()),
            port: Some(1080),
            username: Some("user".to_string()),
            password: Some("pass".to_string()),
            ..Default::default()
        },
    };
    let outbound = Socks5Outbound::new(&config).unwrap();
    assert_eq!(outbound.username.as_deref(), Some("user"));
    assert_eq!(outbound.password.as_deref(), Some("pass"));
}

#[test]
fn socks5_outbound_missing_address() {
    let config = OutboundConfig {
        tag: "bad".to_string(),
        protocol: "socks5".to_string(),
        settings: OutboundSettings::default(),
    };
    assert!(Socks5Outbound::new(&config).is_err());
}

#[test]
fn socks5_outbound_uuid_fallback_username() {
    let config = OutboundConfig {
        tag: "socks5-uuid".to_string(),
        protocol: "socks5".to_string(),
        settings: OutboundSettings {
            address: Some("proxy.example.com".to_string()),
            port: Some(1080),
            uuid: Some("user-as-uuid".to_string()),
            password: Some("pass".to_string()),
            ..Default::default()
        },
    };
    let outbound = Socks5Outbound::new(&config).unwrap();
    assert_eq!(outbound.username.as_deref(), Some("user-as-uuid"));
}

#[test]
fn ssh_outbound_creation() {
    let config = OutboundConfig {
        tag: "ssh-test".to_string(),
        protocol: "ssh".to_string(),
        settings: OutboundSettings {
            address: Some("example.com".to_string()),
            port: Some(22),
            username: Some("admin".to_string()),
            password: Some("secret".to_string()),
            ..Default::default()
        },
    };
    let outbound = SshOutbound::new(&config).unwrap();
    assert_eq!(outbound.tag(), "ssh-test");
    assert_eq!(outbound.server(), ("example.com", 22));
    assert_eq!(outbound.username(), "admin");
    match outbound.auth_method() {
        SshAuthMethod::Password(pw) => assert_eq!(pw, "secret"),
        _ => panic!("expected password auth"),
    }
}

#[test]
fn ssh_outbound_default_port() {
    let config = OutboundConfig {
        tag: "ssh-test".to_string(),
        protocol: "ssh".to_string(),
        settings: OutboundSettings {
            address: Some("example.com".to_string()),
            ..Default::default()
        },
    };
    let outbound = SshOutbound::new(&config).unwrap();
    assert_eq!(outbound.server().1, 22);
    assert_eq!(outbound.username(), "root");
}

#[test]
fn ssh_outbound_missing_address() {
    let config = OutboundConfig {
        tag: "ssh-test".to_string(),
        protocol: "ssh".to_string(),
        settings: OutboundSettings::default(),
    };
    assert!(SshOutbound::new(&config).is_err());
}

#[test]
fn ssh_auth_method_none() {
    let config = OutboundConfig {
        tag: "ssh-test".to_string(),
        protocol: "ssh".to_string(),
        settings: OutboundSettings {
            address: Some("host.com".to_string()),
            ..Default::default()
        },
    };
    let outbound = SshOutbound::new(&config).unwrap();
    match outbound.auth_method() {
        SshAuthMethod::NoAuth => {}
        _ => panic!("expected none auth"),
    }
}

#[test]
fn ssh_client_version_string() {
    assert!(SSH_CLIENT_VERSION.starts_with("SSH-2.0"));
}

#[test]
fn tor_outbound_creation_default_port() {
    let config = OutboundConfig {
        tag: "tor".to_string(),
        protocol: "tor".to_string(),
        settings: OutboundSettings::default(),
    };
    let outbound = TorOutbound::new(&config).unwrap();
    assert_eq!(outbound.tag(), "tor");
    assert_eq!(outbound.socks_host, "127.0.0.1");
    assert_eq!(outbound.socks_port, 9050);
}

#[test]
fn tor_outbound_creation_custom_port() {
    let config = OutboundConfig {
        tag: "tor-custom".to_string(),
        protocol: "tor".to_string(),
        settings: OutboundSettings {
            address: Some("192.168.1.1".to_string()),
            socks_port: Some(9150),
            ..Default::default()
        },
    };
    let outbound = TorOutbound::new(&config).unwrap();
    assert_eq!(outbound.socks_host, "192.168.1.1");
    assert_eq!(outbound.socks_port, 9150);
}

#[test]
fn tor_socks5_address_building() {
    let config = OutboundConfig {
        tag: "tor-addr".to_string(),
        protocol: "tor".to_string(),
        settings: OutboundSettings { socks_port: Some(9050), ..Default::default() },
    };
    let outbound = TorOutbound::new(&config).unwrap();
    assert_eq!(outbound.socks_port, 9050);
}

// Own tests.

#[test]
fn ssh_private_key_auth() {
    let config = OutboundConfig {
        tag: "k".to_string(),
        protocol: "ssh".to_string(),
        settings: OutboundSettings {
            address: Some("h".to_string()),
            private_key: Some("/key".to_string()),
            private_key_passphrase: Some("pp".to_string()),
            ..Default::default()
        },
    };
    match SshOutbound::new(&config).unwrap().auth_method() {
        SshAuthMethod::PrivateKey { key_path, passphrase } => {
            assert_eq!(key_path, "/key");
            assert_eq!(passphrase.as_deref(), Some("pp"));
        }
        _ => panic!("expected key auth"),
    }
}

#[test]
fn socks5_greeting_bytes() {
    let mut config = OutboundConfig {
        tag: "s".to_string(),
        protocol: "socks5".to_string(),
        settings: OutboundSettings {
            address: Some("h".to_string()),
            port: Some(1),
            ..Default::default()
        },
    };
    assert_eq!(Socks5Outbound::new(&config).unwrap().greeting(), vec![5, 1, 0]);
    config.settings.username = Some("u".to_string());
    config.settings.password = Some("p".to_string());
    assert_eq!(Socks5Outbound::new(&config).unwrap().greeting(), vec![5, 2, 0, 2]);
}

#[test]
fn hysteria_v1_ip_request_and_defaults() {
    let req = HysteriaV1Outbound::encode_tcp_request(&Address::Ip(IpAddr::V4([1, 2, 3, 4]), 80));
    assert_eq!(req, vec![0x01, 0x01, 1, 2, 3, 4, 0, 80]);
    let config = OutboundConfig {
        tag: "h".to_string(),
        protocol: "hysteria".to_string(),
        settings: OutboundSettings {
            address: Some("srv".to_string()),
            port: Some(1),
            uuid: Some("u".to_string()),
            ..Default::default()
        },
    };
    let o = HysteriaV1Outbound::new(&config).unwrap();
    assert_eq!(o.auth_str, "u");
    assert_eq!((o.up_mbps, o.down_mbps), (100, 200));
    assert_eq!(o.sni, "srv");
}

#[test]
fn obfs_empty_key_keeps_data() {
    let mut data = vec![9u8, 8];
    HysteriaV1Outbound::apply_obfs(&mut data, "");
    assert_eq!(data, vec![9, 8]);
}

#[test]
fn reject_and_blackhole_tags() {
    assert_eq!(RejectOutbound::new("r".to_string()).tag(), "r");
    assert_eq!(BlackholeOutbound::new("b".to_string()).tag(), "b");
}
