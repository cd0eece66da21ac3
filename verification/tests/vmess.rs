use openworld::address::{Address, IpAddr};
use openworld::config::{OutboundConfig, OutboundSettings, TransportConfig};
use openworld::outbound::vmess::protocol::{
    create_auth_id, create_legacy_auth_id, derive_response_key_iv, encode_legacy_request_header,
    encode_request_header, encode_request_header_with, fnv1a_hash, kdf, parse_response_header,
    uuid_to_cmd_key, SecurityType, ShakeSizeParser, VmessChunkCipher, CMD_TCP, VMESS_AEAD_TAG_LEN,
};
use openworld::outbound::vmess::{VmessAeadStream, VmessOutbound};
use openworld::transport::StreamTransport;

fn vmess_config(uuid: Option<&str>, method: Option<&str>) -> OutboundConfig {
    OutboundConfig {
        tag: "vmess-test".to_string(),
        protocol: "vmess".to_string(),
        settings: OutboundSettings {
            address: Some("1.2.3.4".to_string()),
            port: Some(443),
            uuid: uuid.map(|u| u.to_string()),
            method: method.map(|m| m.to_string()),
            ..Default::default()
        },
    }
}

#[test]
fn security_type_round_trip() {
    assert_eq!(SecurityType::from_str("aes-128-gcm").to_byte(), 0x03);
    assert_eq!(SecurityType::from_str("chacha20-poly1305").to_byte(), 0x04);
    assert_eq!(SecurityType::from_str("none").to_byte(), 0x05);
    assert_eq!(SecurityType::from_str("zero").to_byte(), 0x06);
}

#[test]
fn security_type_unknown_is_aes() {
    assert_eq!(SecurityType::from_str("rot13"), SecurityType::Aes128Gcm);
}

#[test]
fn uuid_to_cmd_key_deterministic() {
    let uuid = [1u8; 16];
    let key1 = uuid_to_cmd_key(&uuid);
    let key2 = uuid_to_cmd_key(&uuid);
    assert_eq!(key1, key2);
    assert_ne!(key1, [0u8; 16]);
}

#[test]
fn auth_id_deterministic() {
    let cmd_key = [0xab; 16];
    let ts = 1700000000u64;
    let id1 = create_auth_id(&cmd_key, ts);
    let id2 = create_auth_id(&cmd_key, ts);
    assert_eq!(id1, id2);
}

#[test]
fn auth_id_depends_on_time() {
    let cmd_key = [0xab; 16];
    assert_ne!(create_auth_id(&cmd_key, 1), create_auth_id(&cmd_key, 2));
}

#[test]
fn fnv1a_known_value() {
    let hash = fnv1a_hash(b"hello");
    assert_ne!(hash, 0);
}

#[test]
fn fnv1a_exact_values() {
    assert_eq!(fnv1a_hash(b""), 0x811c9dc5);
    assert_eq!(fnv1a_hash(b"a"), 0xe40c292c);
    assert_eq!(fnv1a_hash(b"hello"), 0x4f9f2cab);
}

#[test]
fn kdf_produces_32_bytes() {
    let key = [0x11u8; 16];
    let result = kdf(&key, &[b"test path"]);
    assert_eq!(result.len(), 32);
}

#[test]
fn kdf_without_paths_is_key() {
    let key = [0x11u8; 16];
    assert_eq!(kdf(&key, &[]), key.to_vec());
}

#[test]
fn encode_request_header_produces_output() {
    let uuid = [0x55u8; 16];
    let iv = [0xAAu8; 16];
    let key = [0xBBu8; 16];
    let addr = Address::Domain("example.com".to_string(), 443);
    let result = encode_request_header(&uuid, SecurityType::Aes128Gcm, CMD_TCP, &addr, &iv, &key, 0x42);
    assert!(result.is_ok());
    let header = result.unwrap();
    assert!(header.len() > 42);
}

#[test]
fn encode_request_header_with_is_deterministic() {
    let uuid = [0x55u8; 16];
    let iv = [0xAAu8; 16];
    let key = [0xBBu8; 16];
    let addr = Address::Ip(IpAddr::V4([1, 2, 3, 4]), 80);
    let nonce = [7u8; 8];
    let a = encode_request_header_with(&uuid, SecurityType::Aes128Gcm, CMD_TCP, &addr, &iv, &key, 1, 99, &nonce).unwrap();
    let b = encode_request_header_with(&uuid, SecurityType::Aes128Gcm, CMD_TCP, &addr, &iv, &key, 1, 99, &nonce).unwrap();
    assert_eq!(a, b);
    // auth id, sealed length (2 + 16), nonce, then the sealed header
    assert_eq!(&a[..16], &create_auth_id(&uuid_to_cmd_key(&uuid), 99));
    assert_eq!(&a[34..42], &nonce);
    // plain header: 1 + 16 + 16 + 5 + (2 + 1 + 4) + 4 = 49 bytes, sealed: 65
    assert_eq!(a.len(), 42 + 65);
}

#[test]
fn shake_size_parser_deterministic() {
    let nonce = [0xABu8; 16];
    let mut p1 = ShakeSizeParser::new(&nonce);
    let mut p2 = ShakeSizeParser::new(&nonce);
    for _ in 0..100 {
        assert_eq!(p1.next_mask(), p2.next_mask());
    }
}

#[test]
fn shake_size_encode_decode_roundtrip() {
    let nonce = [0xCDu8; 16];
    let mut enc = ShakeSizeParser::new(&nonce);
    let mut dec = ShakeSizeParser::new(&nonce);
    for size in [0u16, 1, 100, 1000, 16384, 65535] {
        let masked = enc.encode_size(size);
        let decoded = dec.decode_size(masked);
        assert_eq!(decoded, size);
    }
}

#[test]
fn shake_parser_wraps_after_buffer() {
    let nonce = [1u8; 4];
    let mut a = ShakeSizeParser::new(&nonce);
    let first = a.next_mask();
    for _ in 1..16384 {
        a.next_mask();
    }
    assert_eq!(a.next_mask(), first);
}

#[test]
fn vmess_chunk_cipher_aes_roundtrip() {
    let key = [0x11u8; 16];
    let iv = [0x22u8; 16];
    let data = b"test payload for vmess chunk";
    let mut enc = VmessChunkCipher::new(SecurityType::Aes128Gcm, &key, &iv);
    let chunk = enc.encrypt_chunk(data).unwrap();
    let mut dec = VmessChunkCipher::new(SecurityType::Aes128Gcm, &key, &iv);
    let len = dec.decode_length([chunk[0], chunk[1]]) as usize;
    assert_eq!(len, data.len() + VMESS_AEAD_TAG_LEN);
    let plain = dec.decrypt_chunk(&chunk[2..2 + len]).unwrap();
    assert_eq!(&plain, data);
}

#[test]
fn vmess_chunk_cipher_encrypt_decrypt_chacha20() {
    let key = [0xCCu8; 16];
    let iv = [0xDDu8; 16];
    let plaintext = b"chacha20 test data 1234";
    let mut enc = VmessChunkCipher::new(SecurityType::Chacha20Poly1305, &key, &iv);
    let chunk = enc.encrypt_chunk(plaintext).unwrap();
    let mut dec = VmessChunkCipher::new(SecurityType::Chacha20Poly1305, &key, &iv);
    let decoded_len = dec.decode_length([chunk[0], chunk[1]]) as usize;
    let decrypted = dec.decrypt_chunk(&chunk[2..2 + decoded_len]).unwrap();
    assert_eq!(&decrypted, plaintext);
}

#[test]
fn vmess_chunk_cipher_none_passthrough() {
    let key = [0x11u8; 16];
    let iv = [0x22u8; 16];
    let plaintext = b"none security passthrough";
    let mut enc = VmessChunkCipher::new(SecurityType::Plain, &key, &iv);
    let chunk = enc.encrypt_chunk(plaintext).unwrap();
    assert_eq!(&chunk[2..], plaintext);
    let mut dec = VmessChunkCipher::new(SecurityType::Plain, &key, &iv);
    let decoded_len = dec.decode_length([chunk[0], chunk[1]]) as usize;
    let decrypted = dec.decrypt_chunk(&chunk[2..2 + decoded_len]).unwrap();
    assert_eq!(&decrypted, plaintext);
}

#[test]
fn vmess_chunk_cipher_multiple_chunks() {
    let key = [0x55u8; 16];
    let iv = [0x66u8; 16];
    let data1 = b"first chunk";
    let data2 = b"second chunk with more data";
    let mut enc = VmessChunkCipher::new(SecurityType::Aes128Gcm, &key, &iv);
    let chunk1 = enc.encrypt_chunk(data1).unwrap();
    let chunk2 = enc.encrypt_chunk(data2).unwrap();
    let mut dec = VmessChunkCipher::new(SecurityType::Aes128Gcm, &key, &iv);
    let len1 = dec.decode_length([chunk1[0], chunk1[1]]) as usize;
    assert_eq!(&dec.decrypt_chunk(&chunk1[2..2 + len1]).unwrap(), data1);
    let len2 = dec.decode_length([chunk2[0], chunk2[1]]) as usize;
    assert_eq!(&dec.decrypt_chunk(&chunk2[2..2 + len2]).unwrap(), data2);
}

#[test]
fn vmess_chunk_tampered_fails() {
    let key = [0x55u8; 16];
    let iv = [0x66u8; 16];
    let mut enc = VmessChunkCipher::new(SecurityType::Aes128Gcm, &key, &iv);
    let mut chunk = enc.encrypt_chunk(b"data").unwrap();
    chunk[3] ^= 1;
    let mut dec = VmessChunkCipher::new(SecurityType::Aes128Gcm, &key, &iv);
    let len = dec.decode_length([chunk[0], chunk[1]]) as usize;
    assert!(dec.decrypt_chunk(&chunk[2..2 + len]).is_err());
}

#[test]
fn derive_response_key_iv_differs() {
    let key = [0x33u8; 16];
    let iv = [0x44u8; 16];
    let (rk, ri) = derive_response_key_iv(&key, &iv);
    assert_ne!(rk, key);
    assert_ne!(ri, iv);
    let (rk2, ri2) = derive_response_key_iv(&key, &iv);
    assert_eq!(rk, rk2);
    assert_eq!(ri, ri2);
}

#[test]
fn parse_response_header_garbage_fails() {
    assert!(parse_response_header(&[0u8; 20], &[1u8; 16], &[2u8; 16], 0x42).is_err());
}

#[test]
fn legacy_auth_id_deterministic() {
    let uuid = [0x55u8; 16];
    let ts = 1700000000u64;
    let id1 = create_legacy_auth_id(&uuid, ts);
    let id2 = create_legacy_auth_id(&uuid, ts);
    assert_eq!(id1, id2);
    assert_ne!(id1, [0u8; 16]);
}

#[test]
fn legacy_auth_id_differs_from_aead() {
    let uuid = [0x55u8; 16];
    let cmd_key = uuid_to_cmd_key(&uuid);
    let ts = 1700000000u64;
    assert_ne!(create_legacy_auth_id(&uuid, ts), create_auth_id(&cmd_key, ts));
}

#[test]
fn encode_legacy_header_produces_output() {
    let uuid = [0x55u8; 16];
    let iv = [0xAAu8; 16];
    let key = [0xBBu8; 16];
    let addr = Address::Domain("example.com".to_string(), 443);
    let result = encode_legacy_request_header(&uuid, 64, SecurityType::Aes128Gcm, CMD_TCP, &addr, &iv, &key, 0x42);
    assert!(result.is_ok());
    let header = result.unwrap();
    assert!(header.len() > 16);
    // version byte right after the auth id, then the body IV
    assert_eq!(header[16], 1);
    assert_eq!(&header[17..33], &iv);
}

#[test]
fn vmess_outbound_creation() {
    let config = vmess_config(Some("550e8400-e29b-41d4-a716-446655440000"), Some("aes-128-gcm"));
    let outbound = VmessOutbound::new(&config).unwrap();
    assert_eq!(outbound.tag(), "vmess-test");
    assert_eq!(outbound.security, SecurityType::Aes128Gcm);
    assert!(matches!(outbound.transport, StreamTransport::Tcp(_)));
}

#[test]
fn vmess_outbound_missing_uuid_fails() {
    let config = vmess_config(None, None);
    assert!(VmessOutbound::new(&config).is_err());
}

#[test]
fn vmess_outbound_bad_uuid_fails() {
    let config = vmess_config(Some("not-a-uuid"), None);
    assert!(VmessOutbound::new(&config).is_err());
}

#[test]
fn vmess_outbound_default_security() {
    let config = vmess_config(Some("550e8400-e29b-41d4-a716-446655440000"), None);
    let outbound = VmessOutbound::new(&config).unwrap();
    assert_eq!(outbound.security, SecurityType::Aes128Gcm);
    assert_eq!(outbound.uuid[0], 0x55);
}

#[test]
fn vmess_outbound_unknown_transport_fails() {
    let mut config = vmess_config(Some("550e8400-e29b-41d4-a716-446655440000"), None);
    config.settings.transport = Some(TransportConfig { transport_type: "carrier-pigeon".to_string(), ..Default::default() });
    assert!(VmessOutbound::new(&config).is_err());
}

#[test]
fn vmess_stream_feed_roundtrip() {
    let key = [0xAAu8; 16];
    let iv = [0xBBu8; 16];
    let (resp_key, resp_iv) = derive_response_key_iv(&key, &iv);
    let mut writer = VmessAeadStream::new(
        VmessChunkCipher::new(SecurityType::Aes128Gcm, &key, &iv),
        VmessChunkCipher::new(SecurityType::Aes128Gcm, &resp_key, &resp_iv),
        SecurityType::Aes128Gcm,
    );
    let mut reader = VmessAeadStream::new(
        VmessChunkCipher::new(SecurityType::Aes128Gcm, &resp_key, &resp_iv),
        VmessChunkCipher::new(SecurityType::Aes128Gcm, &key, &iv),
        SecurityType::Aes128Gcm,
    );
    let (frame, n) = writer.encode_write(b"hello vmess aead stream!").unwrap();
    assert_eq!(n, 24);
    // feed one byte at a time, as a slow connection would deliver it
    let mut pos = 0;
    while pos < frame.len() {
        let want = reader.wanted();
        let take = want.min(1);
        reader.feed(&frame[pos..pos + take]).unwrap();
        pos += take;
    }
    assert_eq!(reader.take_buffered(100), b"hello vmess aead stream!".to_vec());
    assert!(reader.take_buffered(100).is_empty());
    assert!(reader.on_eof().is_ok());
    assert!(reader.eof);
}

#[test]
fn vmess_stream_truncated_payload() {
    let key = [1u8; 16];
    let iv = [2u8; 16];
    let mut writer = VmessAeadStream::new(
        VmessChunkCipher::new(SecurityType::Plain, &key, &iv),
        VmessChunkCipher::new(SecurityType::Plain, &key, &iv),
        SecurityType::Plain,
    );
    let mut reader = VmessAeadStream::new(
        VmessChunkCipher::new(SecurityType::Plain, &key, &iv),
        VmessChunkCipher::new(SecurityType::Plain, &key, &iv),
        SecurityType::Plain,
    );
    let (frame, _) = writer.encode_write(b"abc").unwrap();
    reader.feed(&frame[..2]).unwrap();
    assert_eq!(reader.wanted(), 3);
    reader.feed(&frame[2..3]).unwrap();
    assert!(reader.on_eof().is_err());
}

#[test]
fn vmess_stream_empty_write() {
    let key = [1u8; 16];
    let iv = [2u8; 16];
    let mut s = VmessAeadStream::new(
        VmessChunkCipher::new(SecurityType::Plain, &key, &iv),
        VmessChunkCipher::new(SecurityType::Plain, &key, &iv),
        SecurityType::Plain,
    );
    let (frame, n) = s.encode_write(b"").unwrap();
    assert!(frame.is_empty());
    assert_eq!(n, 0);
}
