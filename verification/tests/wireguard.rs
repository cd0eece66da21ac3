use base64::Engine;
use openworld::address::IpAddr;
use openworld::config::{OutboundConfig, OutboundSettings, WireGuardPeerConfig};
use openworld::outbound::wireguard::noise::{
    aead_decrypt, aead_encrypt, create_handshake_init, create_handshake_init_with, decrypt_transport,
    encrypt_transport, generate_keypair, hash, hmac_hash, kdf1, kdf2, kdf3, mac1, parse_base64_key,
    parse_handshake_resp, tai64n_at, tai64n_now, TransportKeys, WireGuardKeys, MSG_TYPE_HANDSHAKE_INIT,
};
use openworld::outbound::wireguard::{IpNet, WireGuardOutbound};

fn make_test_keypair() -> (String, String) {
    let (secret, public) = generate_keypair();
    let enc = base64::engine::general_purpose::STANDARD;
    (enc.encode(secret), enc.encode(public))
}

fn wg_config(tag: &str, settings: OutboundSettings) -> OutboundConfig {
    OutboundConfig { tag: tag.to_string(), protocol: "wireguard".to_string(), settings }
}

#[test]
fn hash_deterministic() {
    let h1 = hash(b"test data");
    let h2 = hash(b"test data");
    assert_eq!(h1, h2);
    assert_ne!(h1, [0u8; 32]);
}

#[test]
fn hmac_hash_deterministic() {
    let key = [0x11u8; 32];
    let h1 = hmac_hash(&key, b"input");
    let h2 = hmac_hash(&key, b"input");
    assert_eq!(h1, h2);
}

#[test]
fn kdf2_produces_two_different_keys() {
    let key = [0x22u8; 32];
    let (k1, k2) = kdf2(&key, b"input data");
    assert_ne!(k1, k2);
    assert_ne!(k1, [0u8; 32]);
}

#[test]
fn kdf3_produces_three_different_keys() {
    let key = [0x33u8; 32];
    let (k1, k2, k3) = kdf3(&key, b"input data");
    assert_ne!(k1, k2);
    assert_ne!(k2, k3);
    assert_ne!(k1, k3);
}

#[test]
fn kdf_chain_prefixes_agree() {
    let key = [0x33u8; 32];
    let k = kdf1(&key, b"input data");
    let (a, b) = kdf2(&key, b"input data");
    let (c, d, _) = kdf3(&key, b"input data");
    assert_eq!(k, a);
    assert_eq!(a, c);
    assert_eq!(b, d);
}

#[test]
fn aead_encrypt_decrypt_roundtrip() {
    let key = [0x44u8; 32];
    let plaintext = b"hello wireguard";
    let aad = b"additional data";
    let encrypted = aead_encrypt(&key, 0, plaintext, aad).unwrap();
    let decrypted = aead_decrypt(&key, 0, &encrypted, aad).unwrap();
    assert_eq!(&decrypted, plaintext);
}

#[test]
fn aead_decrypt_wrong_key_fails() {
    let key1 = [0x44u8; 32];
    let key2 = [0x55u8; 32];
    let encrypted = aead_encrypt(&key1, 0, b"test", b"").unwrap();
    assert!(aead_decrypt(&key2, 0, &encrypted, b"").is_err());
}

#[test]
fn aead_wrong_counter_fails() {
    let key = [0x44u8; 32];
    let encrypted = aead_encrypt(&key, 7, b"test", b"").unwrap();
    assert_eq!(encrypted.len(), 4 + 16);
    assert!(aead_decrypt(&key, 8, &encrypted, b"").is_err());
    assert_eq!(aead_decrypt(&key, 7, &encrypted, b"").unwrap(), b"test".to_vec());
}

#[test]
fn tai64n_now_nonzero() {
    let ts = tai64n_now().unwrap();
    assert_ne!(ts, [0u8; 12]);
}

#[test]
fn tai64n_of_the_epoch() {
    let ts = tai64n_at(0, 5);
    assert_eq!(ts, [0x40, 0, 0, 0, 0, 0, 0, 0x0a, 0, 0, 0, 5]);
}

#[test]
fn generate_keypair_different_each_time() {
    let (_s1, p1) = generate_keypair();
    let (_s2, p2) = generate_keypair();
    assert_ne!(p1, p2);
}

#[test]
fn parse_base64_key_valid() {
    let (_, public) = generate_keypair();
    let b64 = base64::engine::general_purpose::STANDARD.encode(public);
    let parsed = parse_base64_key(&b64).unwrap();
    assert_eq!(parsed, public);
}

#[test]
fn parse_base64_key_trims_white_space() {
    let b64 = format!("  {}\n", base64::engine::general_purpose::STANDARD.encode([7u8; 32]));
    assert_eq!(parse_base64_key(&b64).unwrap(), [7u8; 32]);
}

#[test]
fn parse_base64_key_invalid_length() {
    let b64 = base64::engine::general_purpose::STANDARD.encode([0u8; 16]);
    assert!(parse_base64_key(&b64).is_err());
}

#[test]
fn parse_base64_key_invalid_text() {
    assert_eq!(parse_base64_key("not base64!"), Err("invalid base64 key"));
    let b64 = base64::engine::general_purpose::STANDARD.encode([0u8; 16]);
    assert_eq!(parse_base64_key(&b64), Err("key must be 32 bytes"));
}

fn test_keys() -> WireGuardKeys {
    let (private_key, public_key) = generate_keypair();
    let (_, peer_public_key) = generate_keypair();
    WireGuardKeys { private_key, public_key, peer_public_key, preshared_key: [0u8; 32] }
}

#[test]
fn handshake_init_creates_valid_message() {
    let keys = test_keys();
    let (msg, ck, h) = create_handshake_init(&keys, 42).unwrap();
    assert_eq!(msg.len(), 148);
    assert_ne!(ck, [0u8; 32]);
    assert_ne!(h, [0u8; 32]);

    let msg_type = u32::from_le_bytes(msg[0..4].try_into().unwrap());
    assert_eq!(msg_type, MSG_TYPE_HANDSHAKE_INIT);

    let sender_idx = u32::from_le_bytes(msg[4..8].try_into().unwrap());
    assert_eq!(sender_idx, 42);
}

#[test]
fn handshake_init_is_determined_by_its_inputs() {
    let keys = test_keys();
    let eph = [9u8; 32];
    let ts = tai64n_at(1_700_000_000, 0);
    let a = create_handshake_init_with(&keys, 7, &eph, &ts);
    let b = create_handshake_init_with(&keys, 7, &eph, &ts);
    assert_eq!(a, b);
    assert_eq!(&a.0[132..148], &[0u8; 16]);
    assert_eq!(&a.0[116..132], &mac1(&keys.peer_public_key, &a.0[..116]));
    let c = create_handshake_init_with(&keys, 7, &[8u8; 32], &ts);
    assert_ne!(a.0, c.0);
}

#[test]
fn handshake_response_checks() {
    let keys = test_keys();
    let ck = [1u8; 32];
    let h = [2u8; 32];
    assert_eq!(parse_handshake_resp(&[0u8; 50], &keys, 1, ck, h).err(), Some("handshake response too short"));
    let mut resp = vec![0u8; 92];
    resp[0] = 1;
    assert_eq!(parse_handshake_resp(&resp, &keys, 1, ck, h).err(), Some("unexpected message type"));
    resp[0] = 2;
    resp[8] = 5;
    assert_eq!(parse_handshake_resp(&resp, &keys, 1, ck, h).err(), Some("sender index mismatch in response"));
    resp[8] = 1;
    assert_eq!(parse_handshake_resp(&resp, &keys, 1, ck, h).err(), Some("aead decrypt failed"));
}

#[test]
fn transport_encrypt_decrypt_roundtrip() {
    let key = [0xAAu8; 32];
    let mut send_keys = TransportKeys {
        send_key: key,
        recv_key: key,
        send_index: 1,
        recv_index: 2,
        send_counter: 0,
        recv_counter: 0,
    };
    let mut recv_keys = TransportKeys {
        send_key: key,
        recv_key: key,
        send_index: 2,
        recv_index: 1,
        send_counter: 0,
        recv_counter: 0,
    };

    let plaintext = b"test ip packet data";
    let msg = encrypt_transport(&mut send_keys, plaintext).unwrap();
    assert!(msg.len() > 16 + plaintext.len());

    let decrypted = decrypt_transport(&mut recv_keys, &msg).unwrap();
    assert_eq!(&decrypted, plaintext);
    assert_eq!(send_keys.send_counter, 1);
}

#[test]
fn transport_message_layout_and_counters() {
    let key = [0x5Au8; 32];
    let mut keys = TransportKeys { send_key: key, recv_key: key, send_index: 3, recv_index: 9, send_counter: 5, recv_counter: 0 };
    let msg = encrypt_transport(&mut keys, b"abc").unwrap();
    assert_eq!(&msg[0..4], &[4, 0, 0, 0]);
    assert_eq!(&msg[4..8], &[9, 0, 0, 0]);
    assert_eq!(&msg[8..16], &[5, 0, 0, 0, 0, 0, 0, 0]);
    assert_eq!(msg.len(), 16 + 3 + 16);
    assert_eq!(keys.send_counter, 6);
    let plain = decrypt_transport(&mut keys, &msg).unwrap();
    assert_eq!(plain, b"abc".to_vec());
    assert_eq!(keys.recv_counter, 6);
    let mut bad = msg.clone();
    bad[0] = 1;
    assert!(decrypt_transport(&mut keys, &bad).is_err());
    assert!(decrypt_transport(&mut keys, &msg[..10]).is_err());
    let mut tampered = msg.clone();
    tampered[17] ^= 1;
    assert!(decrypt_transport(&mut keys, &tampered).is_err());
    assert_eq!(keys.recv_counter, 6);
}

#[test]
fn wireguard_outbound_creation() {
    let (priv_key, _) = make_test_keypair();
    let (_, peer_pub) = make_test_keypair();
    let config = wg_config(
        "wg-test",
        OutboundSettings {
            address: Some("10.0.0.1".to_string()),
            port: Some(51820),
            private_key: Some(priv_key),
            peer_public_key: Some(peer_pub),
            ..Default::default()
        },
    );
    let outbound = WireGuardOutbound::new(&config).unwrap();
    assert_eq!(outbound.tag(), "wg-test");
    assert_eq!(outbound.peers.len(), 1);
    assert_eq!(outbound.mtu, 1420);
    assert_eq!(outbound.peers[0].endpoint, "10.0.0.1:51820");
    assert_eq!(outbound.peers[0].allowed_ips.len(), 2);
}

#[test]
fn wireguard_outbound_default_endpoint() {
    let (priv_key, _) = make_test_keypair();
    let (_, peer_pub) = make_test_keypair();
    let config = wg_config(
        "wg-default",
        OutboundSettings { private_key: Some(priv_key), peer_public_key: Some(peer_pub), ..Default::default() },
    );
    let outbound = WireGuardOutbound::new(&config).unwrap();
    assert_eq!(outbound.peers[0].endpoint, "127.0.0.1:51820");
}

#[test]
fn wireguard_outbound_missing_private_key_fails() {
    let (_, peer_pub) = make_test_keypair();
    let config = wg_config(
        "wg-test",
        OutboundSettings {
            address: Some("10.0.0.1".to_string()),
            port: Some(51820),
            peer_public_key: Some(peer_pub),
            ..Default::default()
        },
    );
    assert!(WireGuardOutbound::new(&config).is_err());
}

#[test]
fn wireguard_outbound_missing_peer_key_fails() {
    let (priv_key, _) = make_test_keypair();
    let config = wg_config(
        "wg-test",
        OutboundSettings {
            address: Some("10.0.0.1".to_string()),
            port: Some(51820),
            private_key: Some(priv_key),
            ..Default::default()
        },
    );
    assert!(WireGuardOutbound::new(&config).is_err());
}

#[test]
fn wireguard_outbound_with_preshared_key() {
    let (priv_key, _) = make_test_keypair();
    let (_, peer_pub) = make_test_keypair();
    let psk = base64::engine::general_purpose::STANDARD.encode([0xABu8; 32]);
    let config = wg_config(
        "wg-psk",
        OutboundSettings {
            address: Some("10.0.0.1".to_string()),
            port: Some(51820),
            private_key: Some(priv_key),
            peer_public_key: Some(peer_pub),
            preshared_key: Some(psk),
            ..Default::default()
        },
    );
    let outbound = WireGuardOutbound::new(&config).unwrap();
    assert_ne!(outbound.peers[0].preshared_key, [0u8; 32]);
}

#[test]
fn wireguard_outbound_custom_mtu() {
    let (priv_key, _) = make_test_keypair();
    let (_, peer_pub) = make_test_keypair();
    let config = wg_config(
        "wg-mtu",
        OutboundSettings {
            address: Some("10.0.0.1".to_string()),
            port: Some(51820),
            private_key: Some(priv_key),
            peer_public_key: Some(peer_pub),
            mtu: Some(1280),
            ..Default::default()
        },
    );
    let outbound = WireGuardOutbound::new(&config).unwrap();
    assert_eq!(outbound.mtu, 1280);
}

fn two_peer_config(priv_key: String, peer1_pub: String, peer2_pub: String) -> OutboundConfig {
    wg_config(
        "wg-multi",
        OutboundSettings {
            private_key: Some(priv_key),
            peers: Some(vec![
                WireGuardPeerConfig {
                    public_key: peer1_pub,
                    endpoint: Some("10.0.0.1:51820".to_string()),
                    allowed_ips: vec!["10.0.0.0/24".to_string()],
                    keepalive: Some(25),
                    preshared_key: None,
                },
                WireGuardPeerConfig {
                    public_key: peer2_pub,
                    endpoint: Some("10.0.1.1:51820".to_string()),
                    allowed_ips: vec!["10.0.1.0/24".to_string()],
                    keepalive: Some(30),
                    preshared_key: None,
                },
            ]),
            ..Default::default()
        },
    )
}

#[test]
fn wireguard_multi_peer_config() {
    let (priv_key, _) = make_test_keypair();
    let (_, peer1_pub) = make_test_keypair();
    let (_, peer2_pub) = make_test_keypair();
    let outbound = WireGuardOutbound::new(&two_peer_config(priv_key, peer1_pub, peer2_pub)).unwrap();
    assert_eq!(outbound.peers.len(), 2);
    assert_eq!(outbound.peers[0].keepalive, Some(25));
    assert_eq!(outbound.peers[1].keepalive, Some(30));
}

#[test]
fn wireguard_peer_selection_by_allowed_ips() {
    let (priv_key, _) = make_test_keypair();
    let (_, peer1_pub) = make_test_keypair();
    let (_, peer2_pub) = make_test_keypair();
    let outbound = WireGuardOutbound::new(&two_peer_config(priv_key, peer1_pub, peer2_pub)).unwrap();

    let peer = outbound.select_peer(&IpAddr::V4([10, 0, 0, 5])).unwrap();
    assert_eq!(peer.endpoint, "10.0.0.1:51820");

    let peer = outbound.select_peer(&IpAddr::V4([10, 0, 1, 5])).unwrap();
    assert_eq!(peer.endpoint, "10.0.1.1:51820");
}

#[test]
fn wireguard_peer_selection_prefers_longest_prefix() {
    let (priv_key, _) = make_test_keypair();
    let (_, p1) = make_test_keypair();
    let (_, p2) = make_test_keypair();
    let config = wg_config(
        "wg-lpm",
        OutboundSettings {
            private_key: Some(priv_key),
            peers: Some(vec![
                WireGuardPeerConfig {
                    public_key: p1,
                    endpoint: None,
                    allowed_ips: vec!["0.0.0.0/0".to_string(), "not a net".to_string()],
                    keepalive: None,
                    preshared_key: None,
                },
                WireGuardPeerConfig {
                    public_key: p2,
                    endpoint: Some("b:1".to_string()),
                    allowed_ips: vec!["192.168.4.0/22".to_string()],
                    keepalive: None,
                    preshared_key: None,
                },
            ]),
            address: Some("h".to_string()),
            port: Some(9),
            ..Default::default()
        },
    );
    let outbound = WireGuardOutbound::new(&config).unwrap();
    assert_eq!(outbound.peers[0].allowed_ips.len(), 1);
    assert_eq!(outbound.peers[0].endpoint, "h:9");
    assert_eq!(outbound.select_peer_index(&IpAddr::V4([192, 168, 7, 1])), Some(1));
    assert_eq!(outbound.select_peer_index(&IpAddr::V4([192, 168, 8, 1])), Some(0));
    assert_eq!(outbound.select_peer_index(&IpAddr::V6([0u8; 16])), Some(0));
}

#[test]
fn ip_net_contains_by_prefix_bits() {
    let net = IpNet { addr: IpAddr::V4([10, 0, 0, 0]), prefix_len: 9 };
    assert!(net.contains(&IpAddr::V4([10, 127, 1, 1])));
    assert!(!net.contains(&IpAddr::V4([10, 128, 1, 1])));
    assert!(!net.contains(&IpAddr::V6([0u8; 16])));
}

#[test]
fn wireguard_keepalive_config() {
    let (priv_key, _) = make_test_keypair();
    let (_, peer_pub) = make_test_keypair();
    let config = wg_config(
        "wg-ka",
        OutboundSettings {
            address: Some("10.0.0.1".to_string()),
            port: Some(51820),
            private_key: Some(priv_key),
            peer_public_key: Some(peer_pub),
            keepalive: Some(25),
            ..Default::default()
        },
    );
    let outbound = WireGuardOutbound::new(&config).unwrap();
    assert_eq!(outbound.peers[0].keepalive, Some(25));
    let keys = outbound.handshake_keys().unwrap();
    assert_eq!(keys.peer_public_key, outbound.peers[0].public_key);
}
