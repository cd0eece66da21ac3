use openworld::address::{Address, IpAddr};
use openworld::config::{OutboundConfig, OutboundSettings};
use openworld::outbound::shadowsocks::crypto::{derive_subkey, evp_bytes_to_key, AeadCipher, CipherKind};
use openworld::outbound::shadowsocks::{
    aead_frame, build_sip003_command, parse_plugin_options, parse_udp_response, udp_request, AeadStream, ShadowsocksOutbound,
};

#[test]
fn cipher_kind_parse() {
    assert_eq!(CipherKind::from_str("aes-128-gcm").unwrap(), CipherKind::Aes128Gcm);
    assert_eq!(CipherKind::from_str("aes-256-gcm").unwrap(), CipherKind::Aes256Gcm);
    assert_eq!(CipherKind::from_str("chacha20-ietf-poly1305").unwrap(), CipherKind::ChaCha20Poly1305);
    assert_eq!(CipherKind::from_str("chacha20-poly1305").unwrap(), CipherKind::ChaCha20Poly1305);
    assert!(CipherKind::from_str("unknown").is_err());
}

#[test]
fn cipher_kind_case_insensitive() {
    assert_eq!(CipherKind::from_str("AES-256-GCM").unwrap(), CipherKind::Aes256Gcm);
}

#[test]
fn cipher_kind_lengths() {
    assert_eq!(CipherKind::Aes128Gcm.key_len(), 16);
    assert_eq!(CipherKind::Aes256Gcm.key_len(), 32);
    assert_eq!(CipherKind::ChaCha20Poly1305.key_len(), 32);
    assert_eq!(CipherKind::Aes128Gcm.salt_len(), 16);
    assert_eq!(CipherKind::Aes256Gcm.salt_len(), 32);
    assert_eq!(CipherKind::Aes128Gcm.tag_len(), 16);
    assert_eq!(CipherKind::Aes256Gcm.tag_len(), 16);
    assert_eq!(CipherKind::ChaCha20Poly1305.tag_len(), 16);
}

#[test]
fn evp_bytes_to_key_known_vector() {
    let key = evp_bytes_to_key(b"test", 16);
    assert_eq!(key.len(), 16);
    assert_eq!(key, [0x09, 0x8f, 0x6b, 0xcd, 0x46, 0x21, 0xd3, 0x73, 0xca, 0xde, 0x4e, 0x83, 0x26, 0x27, 0xb4, 0xf6]);
}

#[test]
fn evp_bytes_to_key_32() {
    let key = evp_bytes_to_key(b"password", 32);
    assert_eq!(key.len(), 32);
    assert_eq!(&key[..16], &evp_bytes_to_key(b"password", 16)[..]);
}

#[test]
fn derive_subkey_valid() {
    let subkey = derive_subkey(&[0u8; 32], &[1u8; 32], 32).unwrap();
    assert_eq!(subkey.len(), 32);
    assert!(derive_subkey(&[0u8; 32], &[1u8; 32], 6000).is_err());
}

#[test]
fn aead_encrypt_decrypt_roundtrip_aes128() {
    let subkey = vec![0x42u8; 16];
    let mut enc = AeadCipher::new(CipherKind::Aes128Gcm, subkey.clone());
    let mut dec = AeadCipher::new(CipherKind::Aes128Gcm, subkey);
    let plaintext = b"hello world";
    let ciphertext = enc.encrypt(plaintext).unwrap();
    assert_eq!(ciphertext.len(), plaintext.len() + 16);
    assert_eq!(&dec.decrypt(&ciphertext).unwrap(), plaintext);
}

#[test]
fn aead_encrypt_decrypt_roundtrip_aes256() {
    let subkey = vec![0x42u8; 32];
    let mut enc = AeadCipher::new(CipherKind::Aes256Gcm, subkey.clone());
    let mut dec = AeadCipher::new(CipherKind::Aes256Gcm, subkey);
    let ciphertext = enc.encrypt(b"hello world 256").unwrap();
    assert_eq!(&dec.decrypt(&ciphertext).unwrap(), b"hello world 256");
}

#[test]
fn aead_encrypt_decrypt_roundtrip_chacha() {
    let subkey = vec![0x42u8; 32];
    let mut enc = AeadCipher::new(CipherKind::ChaCha20Poly1305, subkey.clone());
    let mut dec = AeadCipher::new(CipherKind::ChaCha20Poly1305, subkey);
    let ciphertext = enc.encrypt(b"hello chacha").unwrap();
    assert_eq!(&dec.decrypt(&ciphertext).unwrap(), b"hello chacha");
}

#[test]
fn aead_nonce_increments() {
    let mut cipher = AeadCipher::new(CipherKind::Aes128Gcm, vec![0x42u8; 16]);
    assert_eq!(cipher.nonce, 0);
    cipher.encrypt(b"a").unwrap();
    assert_eq!(cipher.nonce, 1);
    cipher.encrypt(b"b").unwrap();
    assert_eq!(cipher.nonce, 2);
    assert_eq!(cipher.nonce_bytes(), [2, 0, 0, 0, 0, 0, 0, 0, 0, 0, 0, 0]);
}

#[test]
fn aead_decrypt_too_short() {
    let mut cipher = AeadCipher::new(CipherKind::Aes128Gcm, vec![0x42u8; 16]);
    assert!(cipher.decrypt(&[0u8; 10]).is_err());
    assert_eq!(cipher.nonce, 0);
}

#[test]
fn parse_plugin_options_empty() {
    assert!(parse_plugin_options(None).is_empty());
    assert!(parse_plugin_options(Some("   ")).is_empty());
}

#[test]
fn parse_plugin_options_words() {
    assert_eq!(parse_plugin_options(Some("--fast-open --mode websocket")), vec!["--fast-open", "--mode", "websocket"]);
    assert_eq!(parse_plugin_options(Some("\t a\u{3000}b ")), vec!["a", "b"]);
}

fn ss_config(method: &str) -> OutboundConfig {
    OutboundConfig {
        tag: "ss".to_string(),
        protocol: "shadowsocks".to_string(),
        settings: OutboundSettings {
            address: Some("1.2.3.4".to_string()),
            port: Some(8388),
            password: Some("test".to_string()),
            method: Some(method.to_string()),
            ..Default::default()
        },
    }
}

#[test]
fn shadowsocks_outbound_new() {
    let o = ShadowsocksOutbound::new(&ss_config("aes-128-gcm")).unwrap();
    assert_eq!(o.tag(), "ss");
    assert_eq!(o.key, evp_bytes_to_key(b"test", 16));
    assert!(ShadowsocksOutbound::new(&ss_config("rc4-md5")).is_err());
    let mut c = ss_config("aes-128-gcm");
    c.settings.identity_key = Some("abc".to_string());
    assert!(ShadowsocksOutbound::new(&c).is_err());
}

#[test]
fn aead_stream_reads_what_frame_writes() {
    let key = evp_bytes_to_key(b"pw", 16);
    let salt = [7u8; 16];
    // the "server" seals with the subkey of its salt
    let subkey = derive_subkey(&key, &salt, 16).unwrap();
    let mut server = AeadCipher::new(CipherKind::Aes128Gcm, subkey);
    let mut wire = salt.to_vec();
    wire.extend(aead_frame(&mut server, b"payload one").unwrap());
    wire.extend(aead_frame(&mut server, b"two").unwrap());
    let enc = AeadCipher::new(CipherKind::Aes128Gcm, vec![1u8; 16]);
    let mut stream = AeadStream::new(enc, CipherKind::Aes128Gcm, key);
    let mut pos = 0;
    let mut got = Vec::new();
    while pos < wire.len() {
        let n = stream.wanted().min(wire.len() - pos).min(5);
        stream.feed(&wire[pos..pos + n]).unwrap();
        pos += n;
        got.extend(stream.take_buffered(usize::MAX));
    }
    assert_eq!(got, b"payload onetwo".to_vec());
}

#[test]
fn aead_stream_eof_is_error() {
    let stream = AeadStream::new(AeadCipher::new(CipherKind::Aes128Gcm, vec![1u8; 16]), CipherKind::Aes128Gcm, vec![2u8; 16]);
    assert_eq!(stream.eof_error(), "connection closed while reading salt");
}

#[test]
fn udp_request_roundtrip() {
    let key = evp_bytes_to_key(b"pw", 32);
    let addr = Address::Ip(IpAddr::V4([8, 8, 8, 8]), 53);
    let pkt = udp_request(CipherKind::ChaCha20Poly1305, &key, &[3u8; 32], &addr, b"query").unwrap();
    let (a, data) = parse_udp_response(CipherKind::ChaCha20Poly1305, &key, &pkt).unwrap();
    assert_eq!(data, b"query");
    match a {
        Address::Ip(IpAddr::V4(o), p) => {
            assert_eq!(o, [8, 8, 8, 8]);
            assert_eq!(p, 53);
        },
        _ => panic!("expected IPv4"),
    }
    assert!(parse_udp_response(CipherKind::ChaCha20Poly1305, &key, &pkt[..10]).is_err());
}

fn env_of(cmd: &openworld::outbound::shadowsocks::Sip003Command, key: &str) -> Option<String> {
    cmd.envs.iter().find(|(k, _)| k == key).map(|(_, v)| v.clone())
}

#[test]
fn sip003_command_sets_required_envs() {
    let cmd = build_sip003_command(
        "plugin-bin",
        Some("mode=websocket;host=example.com"),
        "1.2.3.4",
        8388,
        "127.0.0.1",
        32001,
    );
    assert_eq!(env_of(&cmd, "SS_REMOTE_HOST").as_deref(), Some("1.2.3.4"));
    assert_eq!(env_of(&cmd, "SS_REMOTE_PORT").as_deref(), Some("8388"));
    assert_eq!(env_of(&cmd, "SS_LOCAL_HOST").as_deref(), Some("127.0.0.1"));
    assert_eq!(env_of(&cmd, "SS_LOCAL_PORT").as_deref(), Some("32001"));
    assert_eq!(env_of(&cmd, "SS_PLUGIN_OPTIONS").as_deref(), Some("mode=websocket;host=example.com"));
    assert_eq!(cmd.program, "plugin-bin");
}

#[test]
fn sip003_command_defaults_empty_plugin_options() {
    let cmd = build_sip003_command("plugin-bin", None, "1.1.1.1", 443, "127.0.0.1", 10000);
    assert_eq!(env_of(&cmd, "SS_PLUGIN_OPTIONS").as_deref(), Some(""));
}

#[test]
fn sip003_command_parses_plugin_options_into_args() {
    let cmd = build_sip003_command("plugin-bin", Some("--fast-open --mode websocket"), "8.8.8.8", 8388, "127.0.0.1", 20000);
    assert_eq!(cmd.args, vec!["--fast-open", "--mode", "websocket"]);
}

#[test]
fn shadowsocks_opening_bytes() {
    let o = ShadowsocksOutbound::new(&ss_config("aes-128-gcm")).unwrap();
    let salt = [7u8; 16];
    let target = Address::Ip(IpAddr::V4([1, 2, 3, 4]), 80);
    let (bytes, enc) = o.opening_with(&salt, &target).unwrap();
    let subkey = derive_subkey(&o.key, &salt, 16).unwrap();
    let mut c = AeadCipher::new(CipherKind::Aes128Gcm, subkey);
    let frame = aead_frame(&mut c, &[1, 1, 2, 3, 4, 0, 80]).unwrap();
    let mut want = salt.to_vec();
    want.extend_from_slice(&frame);
    assert_eq!(bytes, want);
    assert_eq!(enc.nonce_bytes(), c.nonce_bytes());
    let (rand_bytes, _) = o.opening(&target).unwrap();
    assert_eq!(rand_bytes.len(), bytes.len());
}

#[test]
fn shadowsocks_udp_response_roundtrip() {
    let key = evp_bytes_to_key(b"test", 16);
    let addr = Address::Ip(IpAddr::V4([9, 9, 9, 9]), 53);
    let req = udp_request(CipherKind::Aes128Gcm, &key, &[5u8; 16], &addr, &[1, 2, 3]).unwrap();
    let (a, data) = parse_udp_response(CipherKind::Aes128Gcm, &key, &req).unwrap();
    assert_eq!(data, vec![1u8, 2, 3]);
    match a {
        Address::Ip(IpAddr::V4(o), p) => {
            assert_eq!(o, [9, 9, 9, 9]);
            assert_eq!(p, 53);
        }
        _ => panic!("expected an IPv4 address"),
    }
    let mut bad = req.clone();
    let last = bad.len() - 1;
    bad[last] ^= 1;
    assert!(parse_udp_response(CipherKind::Aes128Gcm, &key, &bad).is_err());
}
