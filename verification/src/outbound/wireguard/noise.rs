//! The Noise IKpsk2 handshake of WireGuard, as the initiator runs it, and the
//! framing and sealing of transport messages.
//!
//! The primitives (BLAKE2s, keyed BLAKE2s, X25519, ChaCha20-Poly1305) are the outside
//! crates' and are named in `crate::crypto`; what this module proves is how the
//! handshake chains them and how the messages are laid out.

use vstd::prelude::*;
use vstd::utf8::encode_utf8;

use crate::address::push_all;
use crate::bytes_util::{lemma_le_len, 
    be_bytes, copy_range, le_bytes, le_value, lemma_le_roundtrip, pow256, push_be, push_le,
    read_le, take12, take16, take32_at,
};
use crate::crypto::{
    base64_standard, base64_standard_decode, blake2s, blake2s_hash, blake2s_mac, blake2s_mac_tag,
    chacha20poly1305_decrypt, chacha20poly1305_encrypt, chacha20poly1305_seal, fill_random,
    x25519, x25519_public, x25519_public_of, x25519_shared, CHACHA_P_MAX,
};
use crate::rate_limit::now_since_epoch;
use crate::text::{trim, trim_str};

verus! {

pub const MSG_TYPE_HANDSHAKE_INIT: u32 = 1;
pub const MSG_TYPE_HANDSHAKE_RESP: u32 = 2;
pub const MSG_TYPE_TRANSPORT: u32 = 4;

/// The TAI64 label of the Unix epoch: `2^62` plus the ten seconds by which TAI was
/// ahead of UTC in 1970.
pub const TAI64_OFFSET: u64 = 4611686018427387914;

/// The protocol name that seeds the chaining key.
pub open spec fn construction() -> Seq<u8> {
    encode_utf8("Noise_IKpsk2_25519_ChaChaPoly_BLAKE2s"@)
}

/// The identifier mixed into the initial hash.
pub open spec fn identifier() -> Seq<u8> {
    encode_utf8("WireGuard v1 zx2c4 Jason@zx2c4.com"@)
}

/// The label of the key of the first MAC.
pub open spec fn label_mac1() -> Seq<u8> {
    encode_utf8("mac1----"@)
}

/// The keys of one side of a tunnel: its own pair, the peer's public key and the
/// preshared key (all zeros when none is configured).
pub struct WireGuardKeys {
    pub private_key: [u8; 32],
    pub public_key: [u8; 32],
    pub peer_public_key: [u8; 32],
    pub preshared_key: [u8; 32],
}

/// The keys, indices and counters of an established session.
pub struct TransportKeys {
    pub send_key: [u8; 32],
    pub recv_key: [u8; 32],
    pub send_index: u32,
    pub recv_index: u32,
    pub send_counter: u64,
    pub recv_counter: u64,
}

/// The first of the keys that HKDF over keyed BLAKE2s derives from `key` and `input`.
pub open spec fn spec_kdf1(key: Seq<u8>, input: Seq<u8>) -> Seq<u8> {
    blake2s_mac_tag(blake2s_mac_tag(key, input), seq![1u8])
}

/// The first two keys derived from `key` and `input`.
pub open spec fn spec_kdf2(key: Seq<u8>, input: Seq<u8>) -> (Seq<u8>, Seq<u8>) {
    let t0 = blake2s_mac_tag(key, input);
    let t1 = blake2s_mac_tag(t0, seq![1u8]);
    (t1, blake2s_mac_tag(t0, t1.push(2u8)))
}

/// The first three keys derived from `key` and `input`.
pub open spec fn spec_kdf3(key: Seq<u8>, input: Seq<u8>) -> (Seq<u8>, Seq<u8>, Seq<u8>) {
    let t0 = blake2s_mac_tag(key, input);
    let t1 = blake2s_mac_tag(t0, seq![1u8]);
    let t2 = blake2s_mac_tag(t0, t1.push(2u8));
    (t1, t2, blake2s_mac_tag(t0, t2.push(3u8)))
}

/// The hash `h` with `data` mixed in.
pub open spec fn spec_mix(h: Seq<u8>, data: Seq<u8>) -> Seq<u8> {
    blake2s_hash(h + data)
}

/// The AEAD nonce of a message counter: four zero bytes, then the counter in
/// little-endian order.
pub open spec fn aead_nonce(counter: u64) -> Seq<u8> {
    seq![0u8, 0u8, 0u8, 0u8] + le_bytes(counter as nat, 8)
}

/// Whether some plaintext that ChaCha20-Poly1305 accepts seals to `ct`.
pub open spec fn aead_opens(key: Seq<u8>, nonce: Seq<u8>, aad: Seq<u8>, ct: Seq<u8>) -> bool {
    exists|p: Seq<u8>| p.len() <= CHACHA_P_MAX && #[trigger] chacha20poly1305_seal(key, nonce, aad, p) == ct
}

/// The first MAC of a handshake message: keyed BLAKE2s under the hash of the label
/// and the peer's public key, cut to 16 bytes.
pub open spec fn spec_mac1(peer_public_key: Seq<u8>, msg: Seq<u8>) -> Seq<u8> {
    blake2s_mac_tag(blake2s_hash(label_mac1() + peer_public_key), msg).subrange(0, 16)
}

/// BLAKE2s-256 of `data`.
pub fn hash(data: &[u8]) -> (r: [u8; 32])
    ensures
        r@ == blake2s_hash(data@),
{
    blake2s(data)
}

/// Keyed BLAKE2s-256; the key has at most 32 bytes.
pub fn mac(key: &[u8], data: &[u8]) -> (r: [u8; 32])
    requires
        key@.len() <= 32,
    ensures
        r@ == blake2s_mac_tag(key@, data@),
{
    blake2s_mac(key, data)
}

/// The keyed hash that the key derivation is built on.
pub fn hmac_hash(key: &[u8], input: &[u8]) -> (r: [u8; 32])
    requires
        key@.len() <= 32,
    ensures
        r@ == blake2s_mac_tag(key@, input@),
{
    mac(key, input)
}

/// `bytes` followed by the byte `b`.
fn with_byte(bytes: &[u8; 32], b: u8) -> (r: Vec<u8>)
    ensures
        r@ == bytes@.push(b),
{
    let mut v: Vec<u8> = Vec::new();
    push_all(&mut v, bytes.as_slice());
    v.push(b);
    proof {
        assert(v@ =~= bytes@.push(b));
    }
    v
}

/// One key derived from `key` and `input`.
pub fn kdf1(key: &[u8], input: &[u8]) -> (r: [u8; 32])
    requires
        key@.len() <= 32,
    ensures
        r@ == spec_kdf1(key@, input@),
{
    let t0 = hmac_hash(key, input);
    let one = [1u8];
    proof {
        assert(one@ =~= seq![1u8]);
    }
    hmac_hash(t0.as_slice(), one.as_slice())
}

/// Two keys derived from `key` and `input`.
pub fn kdf2(key: &[u8], input: &[u8]) -> (r: ([u8; 32], [u8; 32]))
    requires
        key@.len() <= 32,
    ensures
        (r.0@, r.1@) == spec_kdf2(key@, input@),
{
    let t0 = hmac_hash(key, input);
    let one = [1u8];
    proof {
        assert(one@ =~= seq![1u8]);
    }
    let t1 = hmac_hash(t0.as_slice(), one.as_slice());
    let t2_input = with_byte(&t1, 2);
    let t2 = hmac_hash(t0.as_slice(), t2_input.as_slice());
    (t1, t2)
}

/// Three keys derived from `key` and `input`.
pub fn kdf3(key: &[u8], input: &[u8]) -> (r: ([u8; 32], [u8; 32], [u8; 32]))
    requires
        key@.len() <= 32,
    ensures
        (r.0@, r.1@, r.2@) == spec_kdf3(key@, input@),
{
    let t0 = hmac_hash(key, input);
    let one = [1u8];
    proof {
        assert(one@ =~= seq![1u8]);
    }
    let t1 = hmac_hash(t0.as_slice(), one.as_slice());
    let t2_input = with_byte(&t1, 2);
    let t2 = hmac_hash(t0.as_slice(), t2_input.as_slice());
    let t3_input = with_byte(&t2, 3);
    let t3 = hmac_hash(t0.as_slice(), t3_input.as_slice());
    (t1, t2, t3)
}

/// Mixes `data` into the hash `h`.
pub fn mix_hash(h: &mut [u8; 32], data: &[u8])
    ensures
        final(h)@ == spec_mix(old(h)@, data@),
{
    let mut combined: Vec<u8> = Vec::new();
    push_all(&mut combined, h.as_slice());
    push_all(&mut combined, data);
    *h = hash(combined.as_slice());
}

/// The 12-byte nonce of a counter.
fn nonce_of(counter: u64) -> (r: [u8; 12])
    ensures
        r@ == aead_nonce(counter),
{
    let mut v: Vec<u8> = Vec::new();
    v.push(0);
    v.push(0);
    v.push(0);
    v.push(0);
    push_le(&mut v, counter, 8);
    proof {
        lemma_le_roundtrip_len(counter as nat);
        assert(v@ =~= aead_nonce(counter));
    }
    take12(v.as_slice())
}

proof fn lemma_le_roundtrip_len(x: nat)
    requires
        x <= u64::MAX,
    ensures
        le_bytes(x, 8).len() == 8,
{
    reveal_with_fuel(pow256, 9);
    lemma_le_roundtrip(x, 8);
}

/// Seals `plaintext` under `key` with the nonce of `counter`, authenticating `aad`;
/// fails only on a plaintext too long for ChaCha20-Poly1305.
pub fn aead_encrypt(key: &[u8; 32], counter: u64, plaintext: &[u8], aad: &[u8]) -> (r: Result<Vec<u8>, &'static str>)
    ensures
        r is Ok <==> plaintext@.len() <= CHACHA_P_MAX,
        r matches Ok(v) ==> v@ == chacha20poly1305_seal(key@, aead_nonce(counter), aad@, plaintext@)
            && v@.len() == plaintext@.len() + 16,
{
    let nonce = nonce_of(counter);
    match chacha20poly1305_encrypt(key, &nonce, aad, plaintext) {
        Some(v) => Ok(v),
        None => Err("aead encrypt failed"),
    }
}

/// Opens `ciphertext` under `key` with the nonce of `counter`, authenticating `aad`:
/// the one plaintext that seals to it, or an error where the tag does not verify.
pub fn aead_decrypt(key: &[u8; 32], counter: u64, ciphertext: &[u8], aad: &[u8]) -> (r: Result<Vec<u8>, &'static str>)
    ensures
        r is Ok <==> aead_opens(key@, aead_nonce(counter), aad@, ciphertext@),
        r matches Ok(v) ==> chacha20poly1305_seal(key@, aead_nonce(counter), aad@, v@) == ciphertext@
            && v@.len() + 16 == ciphertext@.len()
            && (forall|p: Seq<u8>| #[trigger] chacha20poly1305_seal(key@, aead_nonce(counter), aad@, p) == ciphertext@ ==> p == v@),
{
    let nonce = nonce_of(counter);
    match chacha20poly1305_decrypt(key, &nonce, aad, ciphertext) {
        Some(v) => Ok(v),
        None => Err("aead decrypt failed"),
    }
}

/// The first MAC of a handshake message bound for `peer_public_key`.
pub fn mac1(peer_public_key: &[u8; 32], msg: &[u8]) -> (r: [u8; 16])
    ensures
        r@ == spec_mac1(peer_public_key@, msg@),
{
    let mut label: Vec<u8> = Vec::new();
    push_all(&mut label, "mac1----".as_bytes());
    push_all(&mut label, peer_public_key.as_slice());
    let key = hash(label.as_slice());
    let m = mac(key.as_slice(), msg);
    take16(m.as_slice())
}

/// The TAI64N label of a time `secs` seconds and `nanos` nanoseconds after the Unix
/// epoch: the TAI64 seconds and the nanoseconds, both big-endian.
pub open spec fn tai64n_label(secs: u64, nanos: u32) -> Seq<u8> {
    be_bytes((secs + TAI64_OFFSET) as nat, 8) + be_bytes(nanos as nat, 4)
}

/// The TAI64N timestamp of a time since the Unix epoch.
pub fn tai64n_at(secs: u64, nanos: u32) -> (r: [u8; 12])
    requires
        secs + TAI64_OFFSET <= u64::MAX,
    ensures
        r@ == tai64n_label(secs, nanos),
{
    let mut v: Vec<u8> = Vec::new();
    push_be(&mut v, secs + TAI64_OFFSET, 8);
    push_be(&mut v, nanos as u64, 4);
    proof {
        crate::bytes_util::lemma_be_len((secs + TAI64_OFFSET) as nat, 8);
        crate::bytes_util::lemma_be_len(nanos as nat, 4);
        assert(v@ =~= tai64n_label(secs, nanos));
    }
    take12(v.as_slice())
}

/// The TAI64N timestamp of now; nothing when the clock reads before the Unix epoch
/// (or past the last second that TAI64 can label).
pub fn tai64n_now() -> (r: Option<[u8; 12]>)
    ensures
        r matches Some(ts) ==> exists|s: u64, n: u32| s + TAI64_OFFSET <= u64::MAX && ts@ == #[trigger] tai64n_label(s, n),
{
    match now_since_epoch() {
        Some((secs, nanos)) => {
            if secs <= u64::MAX - TAI64_OFFSET {
                let ts = tai64n_at(secs, nanos);
                Some(ts)
            } else {
                None
            }
        },
        None => None,
    }
}

/// The initial chaining key and hash of every handshake.
pub open spec fn initial_chain_key() -> Seq<u8> {
    blake2s_hash(construction())
}

pub open spec fn initial_hash() -> Seq<u8> {
    blake2s_hash(blake2s_hash(construction()) + identifier())
}

/// The first handshake message of an initiator with secret key `private`, public key
/// `public`, for the peer `peer`, with sender index `index`, ephemeral secret `eph`
/// and timestamp `ts`; with the chaining key and hash that the initiator keeps.
pub open spec fn init_message(
    private: Seq<u8>,
    public: Seq<u8>,
    peer: Seq<u8>,
    index: u32,
    eph: Seq<u8>,
    ts: Seq<u8>,
) -> (Seq<u8>, Seq<u8>, Seq<u8>) {
    let h1 = spec_mix(initial_hash(), peer);
    let e = x25519_public_of(eph);
    let ck1 = spec_kdf1(initial_chain_key(), e);
    let h2 = spec_mix(h1, e);
    let (ck2, k1) = spec_kdf2(ck1, x25519_shared(eph, peer));
    let es = chacha20poly1305_seal(k1, aead_nonce(0), h2, public);
    let h3 = spec_mix(h2, es);
    let (ck3, k2) = spec_kdf2(ck2, x25519_shared(private, peer));
    let et = chacha20poly1305_seal(k2, aead_nonce(0), h3, ts);
    let h4 = spec_mix(h3, et);
    let body = le_bytes(MSG_TYPE_HANDSHAKE_INIT as nat, 4) + le_bytes(index as nat, 4) + e + es + et;
    (body + spec_mac1(peer, body) + Seq::new(16, |i: int| 0u8), ck3, h4)
}

/// The initiation message follows the WireGuard derivation, written out here from
/// the primitives: with the protocol name `C` and identifier `I`,
/// `h0 = HASH(HASH(C) || I)`, `h1 = HASH(h0 || S_pub_r)` (the responder's static
/// key is mixed in first), `h2 = HASH(h1 || E_pub_i)`; the chaining key goes
/// `HASH(C)`, then the KDF over `E_pub_i`, then over `DH(E_priv_i, S_pub_r)` giving
/// `k1`. The message is the type 1 (little-endian), the sender index, `E_pub_i`, and
/// right after it the encrypted static `AEAD(k1, 0, S_pub_i, h2)`, which with a
/// 32-byte ephemeral key is `msg[40..88]`. The hash returned is `h2` mixed with the
/// encrypted static and then with the encrypted timestamp, sealed under the key the
/// KDF gives from `DH(S_priv_i, S_pub_r)` with that hash as associated data.
pub proof fn lemma_init_follows_derivation(
    private: Seq<u8>,
    public: Seq<u8>,
    peer: Seq<u8>,
    index: u32,
    eph: Seq<u8>,
    ts: Seq<u8>,
)
    ensures
        ({
            let m = init_message(private, public, peer, index, eph, ts);
            let c = encode_utf8("Noise_IKpsk2_25519_ChaChaPoly_BLAKE2s"@);
            let ident = encode_utf8("WireGuard v1 zx2c4 Jason@zx2c4.com"@);
            let ck0 = blake2s_hash(c);
            let h0 = blake2s_hash(ck0 + ident);
            let h1 = blake2s_hash(h0 + peer);
            let e = x25519_public_of(eph);
            let h2 = blake2s_hash(h1 + e);
            let t0 = blake2s_mac_tag(ck0, e);
            let ck1 = blake2s_mac_tag(t0, seq![1u8]);
            let u0 = blake2s_mac_tag(ck1, x25519_shared(eph, peer));
            let ck2 = blake2s_mac_tag(u0, seq![1u8]);
            let k1 = blake2s_mac_tag(u0, ck2.push(2u8));
            let zero_nonce = seq![0u8, 0u8, 0u8, 0u8, 0u8, 0u8, 0u8, 0u8, 0u8, 0u8, 0u8, 0u8];
            let es = chacha20poly1305_seal(k1, zero_nonce, h2, public);
            let h3 = blake2s_hash(h2 + es);
            let v0 = blake2s_mac_tag(ck2, x25519_shared(private, peer));
            let ck3 = blake2s_mac_tag(v0, seq![1u8]);
            let k2 = blake2s_mac_tag(v0, ck3.push(2u8));
            let et = chacha20poly1305_seal(k2, zero_nonce, h3, ts);
            &&& m.0.subrange(0, 4) == seq![1u8, 0u8, 0u8, 0u8]
            &&& m.0.subrange(8, 8 + e.len() as int) == e
            &&& m.0.subrange(8 + e.len() as int, 8 + e.len() + es.len() as int) == es
            &&& (e.len() == 32 && es.len() == 48 ==> m.0.subrange(40, 88) == es)
            &&& m.1 == ck3
            &&& m.2 == blake2s_hash(h3 + et)
        }),
{
    reveal_with_fuel(le_bytes, 9);
    let e = x25519_public_of(eph);
    assert(aead_nonce(0) =~= seq![0u8, 0u8, 0u8, 0u8, 0u8, 0u8, 0u8, 0u8, 0u8, 0u8, 0u8, 0u8]);
    assert(le_bytes(MSG_TYPE_HANDSHAKE_INIT as nat, 4) =~= seq![1u8, 0u8, 0u8, 0u8]);
    let li = le_bytes(index as nat, 4);
    assert(li.len() == 4);
    let m = init_message(private, public, peer, index, eph, ts);
    let h1 = spec_mix(initial_hash(), peer);
    let ck1 = spec_kdf1(initial_chain_key(), e);
    let h2 = spec_mix(h1, e);
    let (ck2, k1) = spec_kdf2(ck1, x25519_shared(eph, peer));
    let es = chacha20poly1305_seal(k1, aead_nonce(0), h2, public);
    let h3 = spec_mix(h2, es);
    let (ck3, k2) = spec_kdf2(ck2, x25519_shared(private, peer));
    let et = chacha20poly1305_seal(k2, aead_nonce(0), h3, ts);
    let body = seq![1u8, 0u8, 0u8, 0u8] + li + e + es + et;
    assert(m.0 == body + spec_mac1(peer, body) + Seq::new(16, |i: int| 0u8));
    assert(m.0.subrange(0, 4) =~= seq![1u8, 0u8, 0u8, 0u8]);
    assert(m.0.subrange(8, 8 + e.len() as int) =~= e);
    assert(m.0.subrange(8 + e.len() as int, 8 + e.len() + es.len() as int) =~= es);
}

/// Sealing the 32-byte public key or the 12-byte timestamp cannot fail.
fn seal_small(key: &[u8; 32], plaintext: &[u8], aad: &[u8]) -> (r: Vec<u8>)
    requires
        plaintext@.len() <= 32,
    ensures
        r@ == chacha20poly1305_seal(key@, aead_nonce(0), aad@, plaintext@),
        r@.len() == plaintext@.len() + 16,
{
    match aead_encrypt(key, 0, plaintext, aad) {
        Ok(v) => v,
        Err(_) => {
            proof {
                assert(false);
            }
            Vec::new()
        },
    }
}

/// The first handshake message for the peer of `keys`, made with the ephemeral
/// secret `eph_secret` and the timestamp `timestamp`: 148 bytes, with the chaining
/// key and hash to carry to the response.
pub fn create_handshake_init_with(
    keys: &WireGuardKeys,
    sender_index: u32,
    eph_secret: &[u8; 32],
    timestamp: &[u8; 12],
) -> (r: (Vec<u8>, [u8; 32], [u8; 32]))
    ensures
        (r.0@, r.1@, r.2@) == init_message(
            keys.private_key@,
            keys.public_key@,
            keys.peer_public_key@,
            sender_index,
            eph_secret@,
            timestamp@,
        ),
        r.0@.len() == 148,
{
    let construction = "Noise_IKpsk2_25519_ChaChaPoly_BLAKE2s".as_bytes();
    let ck0 = hash(construction);
    let mut seed: Vec<u8> = Vec::new();
    push_all(&mut seed, ck0.as_slice());
    push_all(&mut seed, "WireGuard v1 zx2c4 Jason@zx2c4.com".as_bytes());
    let mut h = hash(seed.as_slice());

    mix_hash(&mut h, keys.peer_public_key.as_slice());

    let eph_public = x25519_public(eph_secret);
    let ck1 = kdf1(ck0.as_slice(), eph_public.as_slice());
    mix_hash(&mut h, eph_public.as_slice());

    let shared = x25519(eph_secret, &keys.peer_public_key);
    let (ck2, k1) = kdf2(ck1.as_slice(), shared.as_slice());

    let encrypted_static = seal_small(&k1, keys.public_key.as_slice(), h.as_slice());
    mix_hash(&mut h, encrypted_static.as_slice());

    let static_shared = x25519(&keys.private_key, &keys.peer_public_key);
    let (ck3, k2) = kdf2(ck2.as_slice(), static_shared.as_slice());

    let encrypted_timestamp = seal_small(&k2, timestamp.as_slice(), h.as_slice());
    mix_hash(&mut h, encrypted_timestamp.as_slice());

    let mut msg: Vec<u8> = Vec::new();
    push_le(&mut msg, MSG_TYPE_HANDSHAKE_INIT as u64, 4);
    push_le(&mut msg, sender_index as u64, 4);
    push_all(&mut msg, eph_public.as_slice());
    push_all(&mut msg, encrypted_static.as_slice());
    push_all(&mut msg, encrypted_timestamp.as_slice());
    let ghost body = msg@;
    let m1 = mac1(&keys.peer_public_key, msg.as_slice());
    push_all(&mut msg, m1.as_slice());
    let zeros = [0u8; 16];
    push_all(&mut msg, zeros.as_slice());
    proof {
        reveal_with_fuel(pow256, 5);
        lemma_le_roundtrip(MSG_TYPE_HANDSHAKE_INIT as nat, 4);
        lemma_le_roundtrip(sender_index as nat, 4);
        assert(zeros@ =~= Seq::new(16, |i: int| 0u8));
        let spec = init_message(
            keys.private_key@,
            keys.public_key@,
            keys.peer_public_key@,
            sender_index,
            eph_secret@,
            timestamp@,
        );
        assert(body =~= le_bytes(MSG_TYPE_HANDSHAKE_INIT as nat, 4) + le_bytes(sender_index as nat, 4)
            + eph_public@ + encrypted_static@ + encrypted_timestamp@);
        assert(msg@ =~= spec.0);
    }
    (msg, ck3, h)
}

/// The first handshake message for the peer of `keys`, with a fresh random ephemeral
/// key and the current time; fails only when the clock reads before the Unix epoch.
pub fn create_handshake_init(keys: &WireGuardKeys, sender_index: u32) -> (r: Result<(Vec<u8>, [u8; 32], [u8; 32]), &'static str>)
    ensures
        r matches Ok((msg, ck, h)) ==> exists|eph: Seq<u8>, ts: Seq<u8>|
            (msg@, ck@, h@) == #[trigger] init_message(
                keys.private_key@,
                keys.public_key@,
                keys.peer_public_key@,
                sender_index,
                eph,
                ts,
            ),
{
    let mut eph = [0u8; 32];
    fill_random(&mut eph);
    match tai64n_now() {
        Some(ts) => {
            let (msg, ck, h) = create_handshake_init_with(keys, sender_index, &eph, &ts);
            Ok((msg, ck, h))
        },
        None => Err("system clock is before the Unix epoch"),
    }
}

/// The state after the responder's ephemeral key and the preshared key are mixed in:
/// the chaining key, the key that seals the empty payload, and the hash it
/// authenticates.
pub open spec fn resp_state(private: Seq<u8>, psk: Seq<u8>, data: Seq<u8>, ck: Seq<u8>, h: Seq<u8>) -> (Seq<u8>, Seq<u8>, Seq<u8>) {
    let e = data.subrange(12, 44);
    let ck1 = spec_kdf1(ck, e);
    let h1 = spec_mix(h, e);
    let ck2 = spec_kdf2(ck1, x25519_shared(private, e)).0;
    let (ck3, tau, key) = spec_kdf3(ck2, psk);
    (ck3, key, spec_mix(h1, tau))
}

/// Whether a handshake response is accepted: long enough, of the response type,
/// addressed to `sender_index`, and with an empty payload that opens.
pub open spec fn resp_accepted(private: Seq<u8>, psk: Seq<u8>, data: Seq<u8>, sender_index: u32, ck: Seq<u8>, h: Seq<u8>) -> bool {
    &&& data.len() >= 92
    &&& le_value(data.subrange(0, 4)) == MSG_TYPE_HANDSHAKE_RESP
    &&& le_value(data.subrange(8, 12)) == sender_index
    &&& {
        let (ck3, key, h2) = resp_state(private, psk, data, ck, h);
        aead_opens(key, aead_nonce(0), h2, data.subrange(44, 60))
    }
}

/// Reads the response to a handshake that `sender_index` began with chaining key `ck`
/// and hash `h`, and derives the session's keys: the sending key first, then the
/// receiving key; the responder's index becomes the receiving index.
pub fn parse_handshake_resp(
    data: &[u8],
    keys: &WireGuardKeys,
    sender_index: u32,
    ck: [u8; 32],
    h: [u8; 32],
) -> (r: Result<TransportKeys, &'static str>)
    ensures
        r is Ok <==> resp_accepted(keys.private_key@, keys.preshared_key@, data@, sender_index, ck@, h@),
        r matches Ok(t) ==> {
            let (ck3, key, h2) = resp_state(keys.private_key@, keys.preshared_key@, data@, ck@, h@);
            &&& (t.send_key@, t.recv_key@) == spec_kdf2(ck3, Seq::empty())
            &&& t.send_index == sender_index
            &&& t.recv_index == le_value(data@.subrange(4, 8))
            &&& t.send_counter == 0
            &&& t.recv_counter == 0
        },
{
    if data.len() < 92 {
        return Err("handshake response too short");
    }
    let msg_type = read_le(data, 0, 4);
    if msg_type != MSG_TYPE_HANDSHAKE_RESP as u64 {
        return Err("unexpected message type");
    }
    let responder_index = read_le(data, 4, 4);
    let recv_sender_index = read_le(data, 8, 4);
    if recv_sender_index != sender_index as u64 {
        return Err("sender index mismatch in response");
    }
    proof {
        crate::bytes_util::lemma_le_bound(data@.subrange(4, 8));
        reveal_with_fuel(pow256, 5);
    }
    let resp_ephemeral = take32_at(data, 12);
    let mut ck = kdf1(ck.as_slice(), resp_ephemeral.as_slice());
    let mut h = h;
    mix_hash(&mut h, resp_ephemeral.as_slice());

    let shared = x25519(&keys.private_key, &resp_ephemeral);
    let (ck2, _unused) = kdf2(ck.as_slice(), shared.as_slice());
    let (ck3, tau, key) = kdf3(ck2.as_slice(), keys.preshared_key.as_slice());
    mix_hash(&mut h, tau.as_slice());

    let encrypted_nothing = copy_range(data, 44, 60);
    match aead_decrypt(&key, 0, encrypted_nothing.as_slice(), h.as_slice()) {
        Ok(_) => {},
        Err(e) => {
            return Err(e);
        },
    }
    mix_hash(&mut h, encrypted_nothing.as_slice());
    let empty: Vec<u8> = Vec::new();
    let (send_key, recv_key) = kdf2(ck3.as_slice(), empty.as_slice());
    proof {
        assert(empty@ =~= Seq::<u8>::empty());
    }
    Ok(TransportKeys {
        send_key,
        recv_key,
        send_index: sender_index,
        recv_index: responder_index as u32,
        send_counter: 0,
        recv_counter: 0,
    })
}

/// A transport message: its type, the receiver's index, the counter and the sealed
/// payload.
pub open spec fn transport_msg(index: u32, counter: u64, ct: Seq<u8>) -> Seq<u8> {
    le_bytes(MSG_TYPE_TRANSPORT as nat, 4) + le_bytes(index as nat, 4) + le_bytes(counter as nat, 8) + ct
}

/// The counter that a transport message carries.
pub open spec fn transport_counter(d: Seq<u8>) -> nat {
    le_value(d.subrange(8, 16))
}

/// Whether a transport message is accepted under the receiving key `key`.
pub open spec fn transport_accepted(key: Seq<u8>, d: Seq<u8>) -> bool {
    &&& d.len() >= 16
    &&& le_value(d.subrange(0, 4)) == MSG_TYPE_TRANSPORT
    &&& aead_opens(key, aead_nonce(transport_counter(d) as u64), Seq::empty(), d.subrange(16, d.len() as int))
}

/// Seals `plaintext` as the next transport message; the sending counter advances
/// whether or not sealing succeeds.
pub fn encrypt_transport(keys: &mut TransportKeys, plaintext: &[u8]) -> (r: Result<Vec<u8>, &'static str>)
    requires
        old(keys).send_counter < u64::MAX,
    ensures
        final(keys).send_counter == old(keys).send_counter + 1,
        final(keys).send_key == old(keys).send_key,
        final(keys).recv_key == old(keys).recv_key,
        final(keys).send_index == old(keys).send_index,
        final(keys).recv_index == old(keys).recv_index,
        final(keys).recv_counter == old(keys).recv_counter,
        r is Ok <==> plaintext@.len() <= CHACHA_P_MAX,
        r matches Ok(m) ==> m@ == transport_msg(
            old(keys).recv_index,
            old(keys).send_counter,
            chacha20poly1305_seal(old(keys).send_key@, aead_nonce(old(keys).send_counter), Seq::empty(), plaintext@),
        ) && m@.len() == 32 + plaintext@.len(),
{
    let counter = keys.send_counter;
    keys.send_counter = counter + 1;
    let empty: Vec<u8> = Vec::new();
    let encrypted = match aead_encrypt(&keys.send_key, counter, plaintext, empty.as_slice()) {
        Ok(v) => v,
        Err(e) => {
            return Err(e);
        },
    };
    let mut msg: Vec<u8> = Vec::new();
    push_le(&mut msg, MSG_TYPE_TRANSPORT as u64, 4);
    push_le(&mut msg, keys.recv_index as u64, 4);
    push_le(&mut msg, counter, 8);
    push_all(&mut msg, encrypted.as_slice());
    proof {
        assert(empty@ =~= Seq::<u8>::empty());
        assert(msg@ =~= transport_msg(keys.recv_index, counter, encrypted@));
        lemma_le_len(MSG_TYPE_TRANSPORT as nat, 4);
        lemma_le_len(keys.recv_index as nat, 4);
        lemma_le_len(counter as nat, 8);
    }
    Ok(msg)
}

/// Opens a transport message under the receiving key. On success the receiving
/// counter becomes the message's counter plus one (wrapping to zero after
/// `u64::MAX`, as the unchecked increment of a release build does).
pub fn decrypt_transport(keys: &mut TransportKeys, data: &[u8]) -> (r: Result<Vec<u8>, &'static str>)
    ensures
        r is Ok <==> transport_accepted(old(keys).recv_key@, data@),
        r is Ok ==> data@.len() >= 16 && le_value(data@.subrange(0, 4)) == MSG_TYPE_TRANSPORT,
        r matches Ok(p) ==> {
            let c = transport_counter(data@) as u64;
            let ct = data@.subrange(16, data@.len() as int);
            &&& chacha20poly1305_seal(old(keys).recv_key@, aead_nonce(c), Seq::empty(), p@) == ct
            &&& p@.len() + 16 == ct.len()
            &&& forall|q: Seq<u8>| #[trigger] chacha20poly1305_seal(old(keys).recv_key@, aead_nonce(c), Seq::empty(), q) == ct ==> q == p@
            &&& final(keys).recv_counter == if c == u64::MAX { 0 } else { c + 1 }
        },
        r is Err ==> final(keys).recv_counter == old(keys).recv_counter,
        final(keys).send_counter == old(keys).send_counter,
        final(keys).send_key == old(keys).send_key,
        final(keys).recv_key == old(keys).recv_key,
        final(keys).send_index == old(keys).send_index,
        final(keys).recv_index == old(keys).recv_index,
{
    if data.len() < 16 {
        return Err("transport message too short");
    }
    let msg_type = read_le(data, 0, 4);
    if msg_type != MSG_TYPE_TRANSPORT as u64 {
        return Err("expected a transport message");
    }
    let counter = read_le(data, 8, 8);
    let ciphertext = copy_range(data, 16, data.len());
    let empty: Vec<u8> = Vec::new();
    proof {
        assert(empty@ =~= Seq::<u8>::empty());
    }
    let plaintext = match aead_decrypt(&keys.recv_key, counter, ciphertext.as_slice(), empty.as_slice()) {
        Ok(p) => p,
        Err(e) => {
            return Err(e);
        },
    };
    keys.recv_counter = if counter == u64::MAX { 0 } else { counter + 1 };
    Ok(plaintext)
}

/// A transport message that `encrypt_transport` makes is one that `decrypt_transport`
/// accepts under the same key: its type and counter read back, and its payload is
/// the sealed plaintext.
pub proof fn lemma_transport_roundtrip(key: Seq<u8>, index: u32, counter: u64, plaintext: Seq<u8>)
    requires
        plaintext.len() <= CHACHA_P_MAX,
    ensures
        ({
            let ct = chacha20poly1305_seal(key, aead_nonce(counter), Seq::empty(), plaintext);
            let m = transport_msg(index, counter, ct);
            &&& transport_accepted(key, m)
            &&& transport_counter(m) == counter
            &&& m.subrange(16, m.len() as int) == ct
        }),
{
    let ct = chacha20poly1305_seal(key, aead_nonce(counter), Seq::empty(), plaintext);
    let m = transport_msg(index, counter, ct);
    reveal_with_fuel(pow256, 9);
    lemma_le_roundtrip(MSG_TYPE_TRANSPORT as nat, 4);
    lemma_le_roundtrip(index as nat, 4);
    lemma_le_roundtrip(counter as nat, 8);
    assert(m.subrange(0, 4) =~= le_bytes(MSG_TYPE_TRANSPORT as nat, 4));
    assert(m.subrange(8, 16) =~= le_bytes(counter as nat, 8));
    assert(m.subrange(16, m.len() as int) =~= ct);
}

/// A fresh random secret key and its public key.
pub fn generate_keypair() -> (r: ([u8; 32], [u8; 32]))
    ensures
        r.1@ == x25519_public_of(r.0@),
{
    let mut secret = [0u8; 32];
    fill_random(&mut secret);
    let public = x25519_public(&secret);
    (secret, public)
}

/// The 32-byte key that `s`, trimmed, spells in padded standard base64.
pub open spec fn key_of(s: Seq<char>) -> Option<Seq<u8>> {
    match base64_standard_decode(trim(s)) {
        Some(d) => if d.len() == 32 { Some(d) } else { None },
        None => None,
    }
}

/// Reads a key written in base64, white space around it ignored; anything that is
/// not padded standard base64 of exactly 32 bytes is refused.
pub fn parse_base64_key(s: &str) -> (r: Result<[u8; 32], &'static str>)
    ensures
        r is Ok <==> key_of(s@) is Some,
        r matches Ok(k) ==> key_of(s@) == Some(k@),
{
    let decoded = match base64_standard(trim_str(s)) {
        Some(d) => d,
        None => {
            return Err("invalid base64 key");
        },
    };
    if decoded.len() != 32 {
        return Err("key must be 32 bytes");
    }
    let key = take32_at(decoded.as_slice(), 0);
    proof {
        assert(decoded@.subrange(0, 32) =~= decoded@);
    }
    Ok(key)
}

/// Text of the base64 alphabet has no white space to trim.
proof fn lemma_trim_base64(s: Seq<char>)
    requires
        forall|i: int| 0 <= i < s.len() ==> crate::crypto::base64_char(#[trigger] s[i]),
    ensures
        trim(s) == s,
{
    assert(s.len() > 0 ==> !crate::text::is_ws(s[0]) && !crate::text::is_ws(s.last()));
    assert(crate::text::trim_start(s) == s);
    assert(crate::text::trim_end(s) == s);
}

/// A key written in standard base64 (as the encoder writes it) reads back as the
/// key.
pub proof fn lemma_key_encoding_roundtrip(s: Seq<char>, key: Seq<u8>)
    requires
        key.len() == 32,
        base64_standard_decode(s) == Some(key),
        forall|i: int| 0 <= i < s.len() ==> crate::crypto::base64_char(#[trigger] s[i]),
    ensures
        key_of(s) == Some(key),
{
    lemma_trim_base64(s);
}

} // verus!
