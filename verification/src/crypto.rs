//! The hash, MAC, cipher and codec functions of outside crates that the protocols use.
//!
//! Each function of an outside crate is reached through one wrapper here. Where the
//! result takes pages to define (a digest, a cipher text), it is given a name, and the
//! wrapper states that the call returns exactly that name applied to its arguments.

use aes_gcm::aead::Aead;
use aes_gcm::KeyInit;
use base64::Engine;
use hmac::Mac;
use md5::Digest;
use sha3::digest::{ExtendableOutput, Update, XofReader};
use vstd::prelude::*;

verus! {

/// A character of the padded standard base64 alphabet: a letter, a digit, `+`,
/// `/`, or the padding `=`.
pub open spec fn base64_char(c: char) -> bool {
    ('A' <= c <= 'Z') || ('a' <= c <= 'z') || ('0' <= c <= '9') || c == '+' || c == '/' || c == '='
}

/// The bytes that `s` decodes to under padded standard base64, per the `base64` crate.
pub uninterp spec fn base64_standard_decode(s: Seq<char>) -> Option<Seq<u8>>;

/// `base64::engine::general_purpose::STANDARD.decode`: the decoded bytes, or nothing
/// when `s` is not valid padded standard base64. The engine refuses every byte
/// outside the standard alphabet and the padding, so text that decodes holds only
/// those characters.
#[verifier::external_body]
pub fn base64_standard(s: &str) -> (r: Option<Vec<u8>>)
    ensures
        match r {
            Some(v) => base64_standard_decode(s@) == Some(v@),
            None => base64_standard_decode(s@) is None,
        },
        r is Some ==> forall|i: int| 0 <= i < s@.len() ==> base64_char(#[trigger] s@[i]),
{
    base64::engine::general_purpose::STANDARD.decode(s).ok()
}

/// The padded standard base64 text of `data`, per the `base64` crate.
pub uninterp spec fn base64_standard_encoding(data: Seq<u8>) -> Seq<char>;

/// `base64::engine::general_purpose::STANDARD.encode`: text of the standard
/// alphabet with padding, which the same engine decodes back to `data`.
#[verifier::external_body]
pub fn base64_standard_encode(data: &[u8]) -> (r: String)
    ensures
        r@ == base64_standard_encoding(data@),
        base64_standard_decode(r@) == Some(data@),
        forall|i: int| 0 <= i < r@.len() ==> base64_char(#[trigger] r@[i]),
{
    base64::engine::general_purpose::STANDARD.encode(data)
}

/// The MD5 digest of `data`.
pub uninterp spec fn md5_hash(data: Seq<u8>) -> Seq<u8>;

/// `md5::Md5::digest`: the 16-byte MD5 digest of `data`.
#[verifier::external_body]
pub fn md5(data: &[u8]) -> (r: [u8; 16])
    ensures
        r@ == md5_hash(data@),
{
    md5::Md5::digest(data).into()
}

/// The SHA-256 digest of `data`.
pub uninterp spec fn sha256_hash(data: Seq<u8>) -> Seq<u8>;

/// `sha2::Sha256::digest`: the 32-byte SHA-256 digest of `data`.
#[verifier::external_body]
pub fn sha256(data: &[u8]) -> (r: [u8; 32])
    ensures
        r@ == sha256_hash(data@),
{
    sha2::Sha256::digest(data).into()
}

/// The SHA-224 digest of `data`.
pub uninterp spec fn sha224_hash(data: Seq<u8>) -> Seq<u8>;

/// `sha2::Sha224::digest`: the 28-byte SHA-224 digest of `data`.
#[verifier::external_body]
pub fn sha224(data: &[u8]) -> (r: [u8; 28])
    ensures
        r@ == sha224_hash(data@),
{
    sha2::Sha224::digest(data).into()
}

/// HMAC-MD5 of `msg` under `key`.
pub uninterp spec fn hmac_md5_tag(key: Seq<u8>, msg: Seq<u8>) -> Seq<u8>;

/// `hmac::Hmac::<md5::Md5>` keyed with `key` (any length is accepted), fed `msg`,
/// finalized: the 16-byte tag.
#[verifier::external_body]
pub fn hmac_md5(key: &[u8], msg: &[u8]) -> (r: [u8; 16])
    ensures
        r@ == hmac_md5_tag(key@, msg@),
{
    let mut mac = <hmac::Hmac<md5::Md5> as Mac>::new_from_slice(key).unwrap();
    Mac::update(&mut mac, msg);
    mac.finalize().into_bytes().into()
}

/// HMAC-SHA256 of `msg` under `key`.
pub uninterp spec fn hmac_sha256_tag(key: Seq<u8>, msg: Seq<u8>) -> Seq<u8>;

/// `hmac::Hmac::<sha2::Sha256>` keyed with `key` (any length is accepted), fed `msg`,
/// finalized: the 32-byte tag.
#[verifier::external_body]
pub fn hmac_sha256(key: &[u8], msg: &[u8]) -> (r: [u8; 32])
    ensures
        r@ == hmac_sha256_tag(key@, msg@),
{
    let mut mac = <hmac::Hmac<sha2::Sha256> as Mac>::new_from_slice(key).unwrap();
    Mac::update(&mut mac, msg);
    mac.finalize().into_bytes().into()
}

/// The first `n` bytes of the SHAKE128 output stream for `input`.
pub uninterp spec fn shake128_stream(input: Seq<u8>, n: nat) -> Seq<u8>;

/// `sha3::Shake128` fed `input`, its reader read into `n` zero bytes.
#[verifier::external_body]
pub fn shake128(input: &[u8], n: usize) -> (r: Vec<u8>)
    ensures
        r@ == shake128_stream(input@, n as nat),
        r@.len() == n,
{
    let mut hasher = sha3::Shake128::default();
    Update::update(&mut hasher, input);
    let mut reader = hasher.finalize_xof();
    let mut out = vec![0u8; n];
    reader.read(&mut out);
    out
}

/// The largest plaintext, in bytes, that AES-GCM accepts.
pub const AES_GCM_P_MAX: u64 = 0x10_0000_0000;

/// The AES-128-GCM ciphertext with its 16-byte tag appended, of `pt` under `key`
/// and `nonce`, with no associated data.
pub uninterp spec fn aes128gcm_seal(key: Seq<u8>, nonce: Seq<u8>, pt: Seq<u8>) -> Seq<u8>;

/// `aes_gcm::Aes128Gcm::encrypt`: fails only on a plaintext longer than
/// `AES_GCM_P_MAX` bytes; the output is the plaintext's length plus the tag.
#[verifier::external_body]
pub fn aes128gcm_encrypt(key: &[u8; 16], nonce: &[u8; 12], pt: &[u8]) -> (r: Option<Vec<u8>>)
    ensures
        r is None <==> pt@.len() > AES_GCM_P_MAX,
        r matches Some(v) ==> v@ == aes128gcm_seal(key@, nonce@, pt@) && v@.len() == pt@.len() + 16,
{
    let cipher = aes_gcm::Aes128Gcm::new(key.into());
    cipher.encrypt(nonce.into(), pt).ok()
}

/// `aes_gcm::Aes128Gcm::decrypt`: gives back the one plaintext whose
/// sealing is `ct` (sealing under one key and nonce is one-to-one), and nothing where
/// the tag does not verify.
#[verifier::external_body]
pub fn aes128gcm_decrypt(key: &[u8; 16], nonce: &[u8; 12], ct: &[u8]) -> (r: Option<Vec<u8>>)
    ensures
        r matches Some(v) ==> aes128gcm_seal(key@, nonce@, v@) == ct@ && v@.len() + 16 == ct@.len()
            && (forall|p: Seq<u8>| #[trigger] aes128gcm_seal(key@, nonce@, p) == ct@ ==> p == v@),
        r is Some <== (exists|p: Seq<u8>| p.len() <= AES_GCM_P_MAX && #[trigger] aes128gcm_seal(key@, nonce@, p) == ct@),
{
    let cipher = aes_gcm::Aes128Gcm::new(key.into());
    cipher.decrypt(nonce.into(), ct).ok()
}

/// The AES-256-GCM ciphertext with its 16-byte tag appended, of `pt` under `key`
/// and `nonce`, with no associated data.
pub uninterp spec fn aes256gcm_seal(key: Seq<u8>, nonce: Seq<u8>, pt: Seq<u8>) -> Seq<u8>;

/// `aes_gcm::Aes256Gcm::encrypt`: fails only on a plaintext longer than
/// `AES_GCM_P_MAX` bytes; the output is the plaintext's length plus the tag.
#[verifier::external_body]
pub fn aes256gcm_encrypt(key: &[u8; 32], nonce: &[u8; 12], pt: &[u8]) -> (r: Option<Vec<u8>>)
    ensures
        r is None <==> pt@.len() > AES_GCM_P_MAX,
        r matches Some(v) ==> v@ == aes256gcm_seal(key@, nonce@, pt@) && v@.len() == pt@.len() + 16,
{
    let cipher = aes_gcm::Aes256Gcm::new(key.into());
    cipher.encrypt(nonce.into(), pt).ok()
}

/// `aes_gcm::Aes256Gcm::decrypt`: gives back the one plaintext whose
/// sealing is `ct` (sealing under one key and nonce is one-to-one), and nothing where
/// the tag does not verify.
#[verifier::external_body]
pub fn aes256gcm_decrypt(key: &[u8; 32], nonce: &[u8; 12], ct: &[u8]) -> (r: Option<Vec<u8>>)
    ensures
        r matches Some(v) ==> aes256gcm_seal(key@, nonce@, v@) == ct@ && v@.len() + 16 == ct@.len()
            && (forall|p: Seq<u8>| #[trigger] aes256gcm_seal(key@, nonce@, p) == ct@ ==> p == v@),
        r is Some <== (exists|p: Seq<u8>| p.len() <= AES_GCM_P_MAX && #[trigger] aes256gcm_seal(key@, nonce@, p) == ct@),
{
    let cipher = aes_gcm::Aes256Gcm::new(key.into());
    cipher.decrypt(nonce.into(), ct).ok()
}

/// The largest plaintext, in bytes, that ChaCha20-Poly1305 accepts: fewer than
/// `u32::MAX` blocks of 64 bytes.
pub const CHACHA_P_MAX: u64 = 0x3F_FFFF_FFBF;

/// The ChaCha20-Poly1305 ciphertext with its 16-byte tag appended, of `pt` under
/// `key` and `nonce`, authenticating `aad`.
pub uninterp spec fn chacha20poly1305_seal(key: Seq<u8>, nonce: Seq<u8>, aad: Seq<u8>, pt: Seq<u8>) -> Seq<u8>;

/// `chacha20poly1305::ChaCha20Poly1305::encrypt` with `aad` as associated data:
/// fails only on a plaintext longer than `CHACHA_P_MAX` bytes; the output is the
/// plaintext's length plus the tag.
#[verifier::external_body]
pub fn chacha20poly1305_encrypt(key: &[u8; 32], nonce: &[u8; 12], aad: &[u8], pt: &[u8]) -> (r: Option<Vec<u8>>)
    ensures
        r is None <==> pt@.len() > CHACHA_P_MAX,
        r matches Some(v) ==> v@ == chacha20poly1305_seal(key@, nonce@, aad@, pt@) && v@.len() == pt@.len() + 16,
{
    let cipher = chacha20poly1305::ChaCha20Poly1305::new(key.into());
    cipher.encrypt(nonce.into(), chacha20poly1305::aead::Payload { msg: pt, aad }).ok()
}

/// `chacha20poly1305::ChaCha20Poly1305::decrypt` with `aad` as associated data
/// (which, like encryption, refuses more than `CHACHA_P_MAX` bytes of payload):
/// gives back the one plaintext whose sealing is `ct` (sealing under one key, nonce
/// and associated data is one-to-one), and nothing where the tag does not verify.
#[verifier::external_body]
pub fn chacha20poly1305_decrypt(key: &[u8; 32], nonce: &[u8; 12], aad: &[u8], ct: &[u8]) -> (r: Option<Vec<u8>>)
    ensures
        r matches Some(v) ==> chacha20poly1305_seal(key@, nonce@, aad@, v@) == ct@ && v@.len() + 16 == ct@.len()
            && v@.len() <= CHACHA_P_MAX
            && (forall|p: Seq<u8>| #[trigger] chacha20poly1305_seal(key@, nonce@, aad@, p) == ct@ ==> p == v@),
        r is Some <== (exists|p: Seq<u8>| p.len() <= CHACHA_P_MAX && #[trigger] chacha20poly1305_seal(key@, nonce@, aad@, p) == ct@),
{
    let cipher = chacha20poly1305::ChaCha20Poly1305::new(key.into());
    cipher.decrypt(nonce.into(), chacha20poly1305::aead::Payload { msg: ct, aad }).ok()
}

/// `rand::Rng::gen_range` with the inclusive range `lo..=hi` on the thread-local
/// generator: a number in that range.
#[verifier::external_body]
pub fn random_inclusive(lo: u64, hi: u64) -> (r: u64)
    requires
        lo <= hi,
    ensures
        lo <= r <= hi,
{
    rand::Rng::gen_range(&mut rand::thread_rng(), lo..=hi)
}

/// `rand::Rng::fill` on the thread-local generator: `buf` keeps its length and
/// holds random bytes.
#[verifier::external_body]
pub fn fill_random(buf: &mut [u8])
    ensures
        final(buf)@.len() == old(buf)@.len(),
{
    rand::Rng::fill(&mut rand::thread_rng(), buf);
}

/// The 16 bytes of the UUID that `s` spells, in any form that `uuid::Uuid` parses.
pub uninterp spec fn uuid_bytes_of(s: Seq<char>) -> Option<Seq<u8>>;

/// `uuid::Uuid::parse_str` (what `str::parse::<Uuid>` calls): the UUID's bytes, or
/// nothing when `s` is not a UUID.
#[verifier::external_body]
pub fn parse_uuid(s: &str) -> (r: Option<[u8; 16]>)
    ensures
        match r {
            Some(b) => uuid_bytes_of(s@) == Some(b@),
            None => uuid_bytes_of(s@) is None,
        },
{
    match uuid::Uuid::parse_str(s) {
        Ok(u) => Some(*u.as_bytes()),
        Err(_) => None,
    }
}

/// The `len` bytes of output keying material of HKDF-SHA1 with `salt`, input key
/// `ikm` and `info`.
pub uninterp spec fn hkdf_sha1_okm(salt: Seq<u8>, ikm: Seq<u8>, info: Seq<u8>, len: nat) -> Seq<u8>;

/// `hkdf::Hkdf::<sha1::Sha1>::new(Some(salt), ikm)` expanded with `info` into `len`
/// bytes; the expansion fails only above 255 blocks of 20 bytes.
#[verifier::external_body]
pub fn hkdf_sha1(salt: &[u8], ikm: &[u8], info: &[u8], len: usize) -> (r: Option<Vec<u8>>)
    ensures
        r is Some <==> len <= 5100,
        r matches Some(v) ==> v@ == hkdf_sha1_okm(salt@, ikm@, info@, len as nat) && v@.len() == len,
{
    let hk = hkdf::Hkdf::<sha1::Sha1>::new(Some(salt), ikm);
    let mut okm = vec![0u8; len];
    match hk.expand(info, &mut okm) {
        Ok(()) => Some(okm),
        Err(_) => None,
    }
}

/// The `len` bytes of output keying material of HKDF-SHA256 with `salt`, input
/// key `ikm` and `info`.
pub uninterp spec fn hkdf_sha256_okm(salt: Seq<u8>, ikm: Seq<u8>, info: Seq<u8>, len: nat) -> Seq<u8>;

/// `hkdf::Hkdf::<sha2::Sha256>::new(Some(salt), ikm)` expanded with `info` into `len`
/// bytes; the expansion fails only above 255 blocks of 32 bytes.
#[verifier::external_body]
pub fn hkdf_sha256(salt: &[u8], ikm: &[u8], info: &[u8], len: usize) -> (r: Option<Vec<u8>>)
    ensures
        r is Some <==> len <= 8160,
        r matches Some(v) ==> v@ == hkdf_sha256_okm(salt@, ikm@, info@, len as nat) && v@.len() == len,
{
    let hk = hkdf::Hkdf::<sha2::Sha256>::new(Some(salt), ikm);
    let mut okm = vec![0u8; len];
    match hk.expand(info, &mut okm) {
        Ok(()) => Some(okm),
        Err(_) => None,
    }
}

/// The HMAC-SHA512 tag of `msg` under `key`.
pub uninterp spec fn hmac_sha512_tag(key: Seq<u8>, msg: Seq<u8>) -> Seq<u8>;

/// `hmac::Hmac::<sha2::Sha512>` keyed with `key` (HMAC takes a key of any length),
/// fed `msg`, finalized: the 64-byte tag.
#[verifier::external_body]
pub fn hmac_sha512(key: &[u8], msg: &[u8]) -> (r: [u8; 64])
    ensures
        r@ == hmac_sha512_tag(key@, msg@),
{
    let mut m = <hmac::Hmac<sha2::Sha512> as hmac::Mac>::new_from_slice(key).unwrap();
    hmac::Mac::update(&mut m, msg);
    hmac::Mac::finalize(m).into_bytes().into()
}

/// The BLAKE2s-256 digest of `data`.
pub uninterp spec fn blake2s_hash(data: Seq<u8>) -> Seq<u8>;

/// `blake2::Blake2s256::digest`: the 32-byte digest.
#[verifier::external_body]
pub fn blake2s(data: &[u8]) -> (r: [u8; 32])
    ensures
        r@ == blake2s_hash(data@),
{
    blake2::Blake2s256::digest(data).into()
}

/// Keyed BLAKE2s with a 32-byte output.
pub uninterp spec fn blake2s_mac_tag(key: Seq<u8>, data: Seq<u8>) -> Seq<u8>;

/// `blake2::Blake2sMac::<U32>` keyed with `key` (at most 32 bytes, else the
/// constructor fails), fed `data`, finalized.
#[verifier::external_body]
pub fn blake2s_mac(key: &[u8], data: &[u8]) -> (r: [u8; 32])
    requires
        key@.len() <= 32,
    ensures
        r@ == blake2s_mac_tag(key@, data@),
{
    let mut m = <blake2::Blake2sMac<blake2::digest::consts::U32> as blake2::digest::KeyInit>::new_from_slice(key).unwrap();
    blake2::digest::Update::update(&mut m, data);
    blake2::digest::FixedOutput::finalize_fixed(m).into()
}

/// The X25519 public key of a secret (the secret clamped, times the base point).
pub uninterp spec fn x25519_public_of(secret: Seq<u8>) -> Seq<u8>;

/// `x25519_dalek::PublicKey::from(&StaticSecret::from(secret))`.
#[verifier::external_body]
pub fn x25519_public(secret: &[u8; 32]) -> (r: [u8; 32])
    ensures
        r@ == x25519_public_of(secret@),
{
    let s = x25519_dalek::StaticSecret::from(*secret);
    *x25519_dalek::PublicKey::from(&s).as_bytes()
}

/// The X25519 shared secret of a secret and a peer's public key.
pub uninterp spec fn x25519_shared(secret: Seq<u8>, public: Seq<u8>) -> Seq<u8>;

/// `x25519_dalek::StaticSecret::from(secret).diffie_hellman(&PublicKey::from(public))`.
#[verifier::external_body]
pub fn x25519(secret: &[u8; 32], public: &[u8; 32]) -> (r: [u8; 32])
    ensures
        r@ == x25519_shared(secret@, public@),
{
    let s = x25519_dalek::StaticSecret::from(*secret);
    *s.diffie_hellman(&x25519_dalek::PublicKey::from(*public)).as_bytes()
}

} // verus!
