use hmac::Mac;
use openworld::outbound::vless::reality::{
    complete_key_exchange, extract_certificate_signature, extract_ed25519_public_key, injected_random,
    parse_der_tlv, reality_state_with, session_id_plaintext, try_verify_reality_cert, InjectedRandom,
};

type HmacSha512 = hmac::Hmac<sha2::Sha512>;

fn build_synthetic_reality_cert(pub_key: [u8; 32], sig: [u8; 64]) -> Vec<u8> {
    let mut tbs_content = vec![0x06, 0x03, 0x2b, 0x65, 0x70, 0x03, 0x21, 0x00];
    tbs_content.extend_from_slice(&pub_key);
    let mut tbs = vec![0x30, tbs_content.len() as u8];
    tbs.extend_from_slice(&tbs_content);
    let sig_alg = vec![0x30, 0x03, 0x06, 0x01, 0x2a];
    let mut sig_value = vec![0x00];
    sig_value.extend_from_slice(&sig);
    let mut sig_bit_string = vec![0x03, sig_value.len() as u8];
    sig_bit_string.extend_from_slice(&sig_value);
    let total_len = tbs.len() + sig_alg.len() + sig_bit_string.len();
    let mut cert = vec![0x30, total_len as u8];
    cert.extend_from_slice(&tbs);
    cert.extend_from_slice(&sig_alg);
    cert.extend_from_slice(&sig_bit_string);
    cert
}

#[test]
fn test_try_verify_reality_cert_success() {
    let auth_key = [0x33u8; 32];
    let pub_key = [0x55u8; 32];
    let mut mac = <HmacSha512 as Mac>::new_from_slice(&auth_key).unwrap();
    mac.update(&pub_key);
    let expected = mac.finalize().into_bytes();
    let mut sig = [0u8; 64];
    sig.copy_from_slice(&expected);
    let cert = build_synthetic_reality_cert(pub_key, sig);
    assert_eq!(try_verify_reality_cert(&auth_key, &cert), Some(true));
}

#[test]
fn test_try_verify_reality_cert_mismatch() {
    let auth_key = [0x33u8; 32];
    let pub_key = [0x55u8; 32];
    let mut sig = [0xAAu8; 64];
    sig[0] = 0xAB;
    let cert = build_synthetic_reality_cert(pub_key, sig);
    assert_eq!(try_verify_reality_cert(&auth_key, &cert), Some(false));
}

#[test]
fn test_extract_certificate_signature_reject_unused_bits() {
    let pub_key = [0x55u8; 32];
    let sig = [0x11u8; 64];
    let mut cert = build_synthetic_reality_cert(pub_key, sig);
    let pos = cert.windows(2).rposition(|w| w == [0x03, 0x41]).unwrap();
    cert[pos + 2] = 0x01;
    assert!(extract_certificate_signature(&cert).is_none());
}

#[test]
fn reality_cert_parts() {
    let pub_key = [0x42u8; 32];
    let sig = [0x17u8; 64];
    let cert = build_synthetic_reality_cert(pub_key, sig);
    assert_eq!(extract_ed25519_public_key(&cert), Some(pub_key));
    assert_eq!(extract_certificate_signature(&cert), Some(sig.to_vec()));
    assert_eq!(try_verify_reality_cert(&[0u8; 32], &cert[..10]), None);
}

#[test]
fn der_lengths() {
    assert_eq!(parse_der_tlv(&[0x30, 0x02, 1, 2], 0), Some((0x30, 2, 2, 4)));
    assert_eq!(parse_der_tlv(&[0x30, 0x03, 1, 2], 0), None);
    assert_eq!(parse_der_tlv(&[0x04, 0x81, 0x01, 9], 0), Some((0x04, 3, 1, 4)));
    assert_eq!(parse_der_tlv(&[0x04, 0x80, 0x01], 0), None);
    assert_eq!(parse_der_tlv(&[0x04, 0x82, 0x00, 0x01, 7], 0), Some((0x04, 4, 1, 5)));
    assert_eq!(parse_der_tlv(&[0x04], 0), None);
}

#[test]
fn session_id_layout() {
    let p = session_id_plaintext(0x01020304, &[0xaa, 0xbb]);
    let mut want = vec![1u8, 0, 0, 0, 1, 2, 3, 4, 0xaa, 0xbb];
    want.resize(32, 0);
    assert_eq!(p, want);
    let long = session_id_plaintext(0, &[9u8; 12]);
    assert_eq!(&long[8..16], &[9u8; 8]);
    assert_eq!(&long[16..], &[0u8; 16]);
}

#[test]
fn reality_state_derivation() {
    let secret = [7u8; 32];
    let random = [3u8; 32];
    let server_secret = x25519_dalek::StaticSecret::from([9u8; 32]);
    let server_pub = *x25519_dalek::PublicKey::from(&server_secret).as_bytes();
    let st = reality_state_with(secret, random, &server_pub, &[1, 2], 100);
    let shared = x25519_dalek::StaticSecret::from(secret).diffie_hellman(&x25519_dalek::PublicKey::from(server_pub));
    let hk = hkdf::Hkdf::<sha2::Sha256>::new(Some(&random[..20]), shared.as_bytes());
    let mut auth = [0u8; 32];
    hk.expand("REALITY".as_bytes(), &mut auth).unwrap();
    assert_eq!(st.auth_key, auth);
    assert_eq!(st.ecdhe_public, *x25519_dalek::PublicKey::from(&x25519_dalek::StaticSecret::from(secret)).as_bytes());
    assert_ne!(st.session_id, [0u8; 32]);
    assert_eq!(complete_key_exchange(&secret, &server_pub), Some(*shared.as_bytes()));
    assert_eq!(complete_key_exchange(&secret, &server_pub[..31]), None);
}

#[test]
fn random_injection_order() {
    assert_eq!(injected_random(0, 32), InjectedRandom::SessionId);
    assert_eq!(injected_random(1, 32), InjectedRandom::Random);
    assert_eq!(injected_random(2, 32), InjectedRandom::System);
    assert_eq!(injected_random(0, 16), InjectedRandom::System);
}
