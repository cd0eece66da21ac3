//! Reality key material: the server's public key and the short id.

use vstd::prelude::*;
use vstd::utf8::encode_utf8;

use crate::b64::{b64_decode, decode_range, strip_padding, strip_padding_end};
use crate::bytes_util::{be_bytes, be_value, copy_range, lemma_pow256_mono, matches_at, pow256, push_be, take16};
use crate::crypto::{
    aes128gcm_encrypt, aes128gcm_seal, fill_random, hkdf_sha256, hkdf_sha256_okm, hmac_sha512, hmac_sha512_tag, x25519,
    x25519_public, x25519_public_of, x25519_shared,
};
use crate::text::chars_of;

verus! {

/// What a Reality handshake needs to know of the server.
pub struct RealityConfig {
    pub server_public_key: [u8; 32],
    pub short_id: Vec<u8>,
    pub server_name: String,
}

/// The value of a hexadecimal digit, either case.
pub open spec fn hex_digit(b: u8) -> Option<u8> {
    if 0x30 <= b <= 0x39 {
        Some((b - 0x30) as u8)
    } else if 0x61 <= b <= 0x66 {
        Some((b - 0x61 + 10) as u8)
    } else if 0x41 <= b <= 0x46 {
        Some((b - 0x41 + 10) as u8)
    } else {
        None
    }
}

/// A two-character byte as `u8::from_str_radix(.., 16)` reads it: two digits, or a
/// plus sign and one digit.
pub open spec fn hex_pair(a: u8, b: u8) -> Option<u8> {
    if a == 0x2b {
        hex_digit(b)
    } else {
        match (hex_digit(a), hex_digit(b)) {
            (Some(x), Some(y)) => Some((x * 16 + y) as u8),
            _ => None,
        }
    }
}

/// The bytes that the pairs of `b` spell, or `None` at the first bad pair.
pub open spec fn hex_pairs(b: Seq<u8>) -> Option<Seq<u8>>
    decreases b.len(),
{
    if b.len() < 2 {
        Some(Seq::empty())
    } else {
        match hex_pair(b[0], b[1]) {
            None => None,
            Some(v) => match hex_pairs(b.subrange(2, b.len() as int)) {
                None => None,
                Some(rest) => Some(seq![v] + rest),
            },
        }
    }
}

/// The first bad pair ends inside a multi-byte character, where slicing the string
/// by bytes panics.
pub open spec fn hex_splits_char(b: Seq<u8>) -> bool
    decreases b.len(),
{
    if b.len() < 2 {
        false
    } else if hex_pair(b[0], b[1]) is None {
        b.len() > 2 && 0x80 <= b[2] < 0xc0
    } else {
        hex_splits_char(b.subrange(2, b.len() as int))
    }
}

/// What `parse_hex` gives for the UTF-8 bytes of a string.
pub open spec fn parse_hex_spec(b: Seq<u8>) -> Option<Seq<u8>> {
    if b.len() % 2 != 0 {
        None
    } else {
        hex_pairs(b)
    }
}

fn hex_digit_exec(b: u8) -> (r: Option<u8>)
    ensures
        r == hex_digit(b),
{
    if 0x30 <= b && b <= 0x39 {
        Some(b - 0x30)
    } else if 0x61 <= b && b <= 0x66 {
        Some(b - 0x61 + 10)
    } else if 0x41 <= b && b <= 0x46 {
        Some(b - 0x41 + 10)
    } else {
        None
    }
}

fn hex_pair_exec(a: u8, b: u8) -> (r: Option<u8>)
    ensures
        r == hex_pair(a, b),
{
    if a == 0x2b {
        hex_digit_exec(b)
    } else {
        match (hex_digit_exec(a), hex_digit_exec(b)) {
            (Some(x), Some(y)) => Some(x * 16 + y),
            _ => None,
        }
    }
}

proof fn lemma_hex_pairs_step(b: Seq<u8>, i: int)
    requires
        0 <= i,
        i + 2 <= b.len(),
        (b.len() - i) % 2 == 0,
    ensures
        hex_pairs(b.subrange(i, b.len() as int)) == match hex_pair(b[i], b[i + 1]) {
            None => None,
            Some(v) => match hex_pairs(b.subrange(i + 2, b.len() as int)) {
                None => None,
                Some(rest) => Some(seq![v] + rest),
            },
        },
        hex_splits_char(b.subrange(i, b.len() as int)) == if hex_pair(b[i], b[i + 1]) is None {
            i + 2 < b.len() && 0x80 <= b[i + 2] < 0xc0
        } else {
            hex_splits_char(b.subrange(i + 2, b.len() as int))
        },
{
    let t = b.subrange(i, b.len() as int);
    assert(t.subrange(2, t.len() as int) =~= b.subrange(i + 2, b.len() as int));
}

/// Decodes a hexadecimal string of even length, byte pair by byte pair.
pub fn parse_hex(hex: &str) -> (r: Result<Vec<u8>, &'static str>)
    requires
        !(encode_utf8(hex@).len() % 2 == 0 && hex_splits_char(encode_utf8(hex@))),
    ensures
        match r {
            Ok(v) => parse_hex_spec(encode_utf8(hex@)) == Some(v@),
            Err(_) => parse_hex_spec(encode_utf8(hex@)) is None,
        },
{
    let b = hex.as_bytes();
    if b.len() % 2 != 0 {
        return Err("invalid hex string length");
    }
    let mut out: Vec<u8> = Vec::new();
    let mut i: usize = 0;
    proof {
        assert(b@.subrange(0, b@.len() as int) =~= b@);
        match hex_pairs(b@) {
            None => {},
            Some(rest) => {
                assert(out@ + rest =~= rest);
            },
        }
    }
    while i < b.len()
        invariant
            b@ == encode_utf8(hex@),
            b@.len() % 2 == 0,
            i <= b@.len(),
            i % 2 == 0,
            !hex_splits_char(b@),
            hex_pairs(b@) == match hex_pairs(b@.subrange(i as int, b@.len() as int)) {
                None => None,
                Some(rest) => Some(out@ + rest),
            },
            !hex_splits_char(b@.subrange(i as int, b@.len() as int)),
        decreases b@.len() - i,
    {
        proof {
            lemma_hex_pairs_step(b@, i as int);
        }
        match hex_pair_exec(b[i], b[i + 1]) {
            Some(v) => {
                proof {
                    assert(out@.push(v) =~= out@ + seq![v]);
                    match hex_pairs(b@.subrange(i + 2, b@.len() as int)) {
                        None => {},
                        Some(rest) => {
                            assert(out@ + (seq![v] + rest) =~= out@.push(v) + rest);
                        },
                    }
                }
                out.push(v);
                i = i + 2;
            },
            None => {
                return Err("invalid hex");
            },
        }
    }
    proof {
        assert(b@.subrange(i as int, b@.len() as int) =~= Seq::<u8>::empty());
        assert(out@ + Seq::<u8>::empty() =~= out@);
    }
    Ok(out)
}

/// The bytes that `input` decodes to once trailing `=` signs are dropped.
pub open spec fn reality_b64_spec(input: Seq<char>) -> Option<Seq<u8>> {
    b64_decode(strip_padding(input))
}

/// Lenient base64: either alphabet, padding optional, spaces and line breaks skipped.
pub fn base64_decode(input: &str) -> (r: Result<Vec<u8>, &'static str>)
    ensures
        match r {
            Ok(v) => reality_b64_spec(input@) == Some(v@),
            Err(_) => reality_b64_spec(input@) is None,
        },
{
    let v = chars_of(input);
    let hi = strip_padding_end(&v, 0, v.len());
    proof {
        assert(v@.subrange(0, v@.len() as int) =~= input@);
    }
    match decode_range(&v, 0, hi) {
        Some(o) => Ok(o),
        None => Err("invalid base64 character"),
    }
}

/// Decodes a base64 public key, which must be 32 bytes long.
pub fn parse_public_key(key_str: &str) -> (r: Result<[u8; 32], &'static str>)
    ensures
        match r {
            Ok(k) => reality_b64_spec(key_str@) == Some(k@),
            Err(_) => !(reality_b64_spec(key_str@) matches Some(b) && b.len() == 32),
        },
{
    let bytes = match base64_decode(key_str) {
        Ok(b) => b,
        Err(e) => return Err(e),
    };
    if bytes.len() != 32 {
        return Err("invalid public key length");
    }
    let mut key = [0u8; 32];
    let mut i: usize = 0;
    while i < 32
        invariant
            i <= 32,
            bytes@.len() == 32,
            forall|k: int| 0 <= k < i ==> key@[k] == bytes@[k],
        decreases 32 - i,
    {
        key[i] = bytes[i];
        i = i + 1;
    }
    proof {
        assert(key@ =~= bytes@);
    }
    Ok(key)
}

/// A DER element at `off`: its tag, where its value starts, the value's length,
/// and where the element ends. The length is one byte below 0x80, or 0x80 plus a
/// count of big-endian length bytes (at least one and at most the width of a
/// `usize`); the value must lie inside `d`.
pub open spec fn der_tlv(d: Seq<u8>, off: int) -> Option<(u8, int, int, int)> {
    if off < 0 || off + 1 >= d.len() {
        None
    } else {
        let first = d[off + 1];
        if first < 0x80 {
            let vs = off + 2;
            let vl = first as int;
            if vs + vl > d.len() { None } else { Some((d[off], vs, vl, vs + vl)) }
        } else {
            let k = first as int - 0x80;
            if k == 0 || k > (usize::BITS / 8) as int || off + 2 + k > d.len() {
                None
            } else {
                let vs = off + 2 + k;
                let vl = be_value(d.subrange(off + 2, vs)) as int;
                if vs + vl > d.len() { None } else { Some((d[off], vs, vl, vs + vl)) }
            }
        }
    }
}

/// A big-endian number of `n` bytes is below 256^n.
pub proof fn lemma_be_bound(s: Seq<u8>)
    ensures
        be_value(s) < pow256(s.len()),
    decreases s.len(),
{
    if s.len() > 0 {
        lemma_be_bound(s.drop_last());
        let a = be_value(s.drop_last());
        let p = pow256((s.len() - 1) as nat);
        assert(a * 256 + s.last() < 256 * p) by (nonlinear_arith)
            requires
                a < p,
                s.last() < 256,
        ;
    }
}

/// Reads the DER element at `offset`.
pub fn parse_der_tlv(data: &[u8], offset: usize) -> (r: Option<(u8, usize, usize, usize)>)
    ensures
        match der_tlv(data@, offset as int) {
            None => r is None,
            Some((t, vs, vl, e)) => r == Some((t, vs as usize, vl as usize, e as usize)),
        },
{
    if offset >= data.len() || data.len() - offset < 2 {
        return None;
    }
    let tag = data[offset];
    let first = data[offset + 1];
    let cursor = offset + 2;
    if first < 0x80 {
        let vl = first as usize;
        if vl > data.len() - cursor {
            return None;
        }
        return Some((tag, cursor, vl, cursor + vl));
    }
    let k = (first - 0x80) as usize;
    let width = (usize::BITS / 8) as usize;
    if k == 0 || k > width || k > data.len() - cursor {
        return None;
    }
    let mut len: u64 = 0;
    let mut i: usize = 0;
    while i < k
        invariant
            i <= k <= 8,
            cursor as int + k as int <= data@.len(),
            data@.len() == data.len(),
            len as nat == be_value(data@.subrange(cursor as int, cursor + i)),
            (len as nat) < pow256(i as nat),
        decreases k - i,
    {
        proof {
            let s = data@.subrange(cursor as int, cursor + i + 1);
            assert(s.drop_last() =~= data@.subrange(cursor as int, cursor + i));
            lemma_pow256_mono((i + 1) as nat, 8);
            reveal_with_fuel(pow256, 9);
            assert(len * 256 + data@[cursor + i] < 256 * pow256(i as nat)) by (nonlinear_arith)
                requires
                    len < pow256(i as nat),
                    data@[cursor + i] < 256,
            ;
        }
        len = len * 256 + data[cursor + i] as u64;
        i = i + 1;
    }
    let vs = cursor + k;
    if len > (data.len() - vs) as u64 {
        return None;
    }
    let vl = len as usize;
    Some((tag, vs, vl, vs + vl))
}

/// The signature of an X.509 certificate: the whole input is one SEQUENCE, whose
/// third element is a BIT STRING that ends it, of at least one byte, with no
/// unused bits; the signature is the rest of that BIT STRING.
pub open spec fn cert_signature(d: Seq<u8>) -> Option<Seq<u8>> {
    match der_tlv(d, 0) {
        None => None,
        Some((t, vs, _, end)) => if t != 0x30 || end != d.len() {
            None
        } else {
            match der_tlv(d, vs) {
                None => None,
                Some((_, _, _, e1)) => match der_tlv(d, e1) {
                    None => None,
                    Some((_, _, _, e2)) => match der_tlv(d, e2) {
                        None => None,
                        Some((st, svs, sl, se)) => if st != 0x03 || se != end || sl < 1 || d[svs] != 0 {
                            None
                        } else {
                            Some(d.subrange(svs + 1, svs + sl))
                        },
                    },
                },
            }
        },
    }
}

pub fn extract_certificate_signature(cert_der: &[u8]) -> (r: Option<Vec<u8>>)
    ensures
        match cert_signature(cert_der@) {
            None => r is None,
            Some(sig) => r matches Some(v) && v@ == sig,
        },
{
    let (outer_tag, outer_vs, _outer_len, outer_end) = match parse_der_tlv(cert_der, 0) {
        Some(x) => x,
        None => return None,
    };
    if outer_tag != 0x30 || outer_end != cert_der.len() {
        return None;
    }
    let (_, _, _, first_end) = match parse_der_tlv(cert_der, outer_vs) {
        Some(x) => x,
        None => return None,
    };
    let (_, _, _, second_end) = match parse_der_tlv(cert_der, first_end) {
        Some(x) => x,
        None => return None,
    };
    let (sig_tag, sig_vs, sig_len, sig_end) = match parse_der_tlv(cert_der, second_end) {
        Some(x) => x,
        None => return None,
    };
    if sig_tag != 0x03 || sig_end != outer_end || sig_len < 1 {
        return None;
    }
    if cert_der[sig_vs] != 0 {
        return None;
    }
    Some(copy_range(cert_der, sig_vs + 1, sig_vs + sig_len))
}

/// The DER encoding of the Ed25519 algorithm identifier (OID 1.3.101.112).
pub open spec fn ed25519_oid() -> Seq<u8> {
    seq![0x06u8, 0x03, 0x2b, 0x65, 0x70]
}

/// The first place, from `i` on, where the Ed25519 OID occurs.
pub open spec fn oid_from(d: Seq<u8>, i: int) -> Option<int>
    decreases d.len() - i,
{
    if i < 0 || i + 5 > d.len() {
        None
    } else if d.subrange(i, i + 5) == ed25519_oid() {
        Some(i)
    } else {
        oid_from(d, i + 1)
    }
}

/// A 32-byte BIT STRING with no unused bits (`03 21 00` and the key) at `p`.
pub open spec fn key_at(d: Seq<u8>, p: int) -> bool {
    d[p] == 0x03 && d[p + 1] == 0x21 && d[p + 2] == 0x00
}

/// The first place, from `i` on and no later than `d.len() - 35`, that holds a
/// 32-byte BIT STRING.
pub open spec fn key_from(d: Seq<u8>, i: int) -> Option<int>
    decreases d.len() - i,
{
    if i < 0 || i + 35 > d.len() {
        None
    } else if key_at(d, i) {
        Some(i)
    } else {
        key_from(d, i + 1)
    }
}

/// The Ed25519 public key of a certificate: the first 32-byte BIT STRING after the
/// first Ed25519 OID.
pub open spec fn ed25519_key(d: Seq<u8>) -> Option<Seq<u8>> {
    match oid_from(d, 0) {
        None => None,
        Some(i) => match key_from(d, i + 5) {
            None => None,
            Some(p) => Some(d.subrange(p + 3, p + 35)),
        },
    }
}

fn find_oid(d: &[u8]) -> (r: Option<usize>)
    ensures
        r is None <==> oid_from(d@, 0) is None,
        r matches Some(i) ==> oid_from(d@, 0) == Some(i as int) && i + 5 <= d@.len(),
{
    let oid: [u8; 5] = [0x06, 0x03, 0x2b, 0x65, 0x70];
    let mut i: usize = 0;
    while i <= d.len() && d.len() - i >= 5
        invariant
            oid@ == ed25519_oid(),
            i <= d@.len(),
            oid_from(d@, 0) == oid_from(d@, i as int),
        decreases d@.len() - i,
    {
        if matches_at(d, &oid, i) {
            proof {
                assert(d@.subrange(i as int, i + 5) == ed25519_oid());
            }
            return Some(i);
        }
        i = i + 1;
    }
    None
}

fn find_key(d: &[u8], from: usize) -> (r: Option<usize>)
    requires
        from <= d@.len(),
    ensures
        r is None <==> key_from(d@, from as int) is None,
        r matches Some(p) ==> key_from(d@, from as int) == Some(p as int) && p + 35 <= d@.len(),
{
    let mut p = from;
    while p <= d.len() && d.len() - p >= 35
        invariant
            from <= p <= d@.len(),
            key_from(d@, from as int) == key_from(d@, p as int),
        decreases d@.len() - p,
    {
        if d[p] == 0x03 && d[p + 1] == 0x21 && d[p + 2] == 0x00 {
            return Some(p);
        }
        p = p + 1;
    }
    None
}

pub fn extract_ed25519_public_key(cert_der: &[u8]) -> (r: Option<[u8; 32]>)
    ensures
        match ed25519_key(cert_der@) {
            None => r is None,
            Some(k) => r matches Some(v) && v@ == k,
        },
{
    let _n = cert_der.len();
    let at = match find_oid(cert_der) {
        Some(a) => a,
        None => return None,
    };
    let p = match find_key(cert_der, at + 5) {
        Some(p) => p,
        None => return None,
    };
    let v = copy_range(cert_der, p + 3, p + 35);
    Some(array32(&v))
}

/// The verdict on a certificate by the Reality check: nothing when the key or the
/// signature cannot be read, else whether the signature is the HMAC-SHA512 of the
/// key under the session's auth key.
pub open spec fn reality_verdict(auth_key: Seq<u8>, cert: Seq<u8>) -> Option<bool> {
    match (ed25519_key(cert), cert_signature(cert)) {
        (Some(k), Some(s)) => Some(s == hmac_sha512_tag(auth_key, k)),
        _ => None,
    }
}

pub fn try_verify_reality_cert(auth_key: &[u8; 32], cert_der: &[u8]) -> (r: Option<bool>)
    ensures
        r == reality_verdict(auth_key@, cert_der@),
{
    let pub_key = match extract_ed25519_public_key(cert_der) {
        Some(k) => k,
        None => return None,
    };
    let sig = match extract_certificate_signature(cert_der) {
        Some(s) => s,
        None => return None,
    };
    let expected = hmac_sha512(auth_key, &pub_key);
    if sig.len() != 64 {
        proof {
            assert(sig@.len() != expected@.len());
        }
        return Some(false);
    }
    let same = matches_at(sig.as_slice(), &expected, 0);
    proof {
        if same {
            assert(sig@ =~= expected@);
        } else {
            assert(sig@.subrange(0, 64) =~= sig@);
        }
    }
    Some(same)
}

/// The session id before sealing: version 1, three zero bytes, the time in seconds
/// (32 bits, big-endian), up to eight bytes of the short id, then zeros.
pub open spec fn session_id_plain(timestamp: u32, short_id: Seq<u8>) -> Seq<u8> {
    let n = if short_id.len() < 8 { short_id.len() as int } else { 8 };
    seq![1u8, 0u8, 0u8, 0u8] + be_bytes(timestamp as nat, 4) + short_id.subrange(0, n) + Seq::new(
        (24 - n) as nat,
        |i: int| 0u8,
    )
}

pub fn session_id_plaintext(timestamp: u32, short_id: &[u8]) -> (r: Vec<u8>)
    ensures
        r@ == session_id_plain(timestamp, short_id@),
        r@.len() == 32,
{
    let mut out: Vec<u8> = vec![1u8, 0, 0, 0];
    push_be(&mut out, timestamp as u64, 4);
    let n = if short_id.len() < 8 { short_id.len() } else { 8 };
    let mut i: usize = 0;
    while i < n
        invariant
            i <= n <= 8,
            n <= short_id@.len(),
            out@ == seq![1u8, 0u8, 0u8, 0u8] + be_bytes(timestamp as nat, 4) + short_id@.subrange(0, i as int),
        decreases n - i,
    {
        out.push(short_id[i]);
        proof {
            assert(short_id@.subrange(0, i + 1) =~= short_id@.subrange(0, i as int).push(short_id@[i as int]));
        }
        i = i + 1;
    }
    let mut z: usize = 0;
    while z < 24 - n
        invariant
            z <= 24 - n,
            n <= 8,
            out@ == seq![1u8, 0u8, 0u8, 0u8] + be_bytes(timestamp as nat, 4) + short_id@.subrange(0, n as int)
                + Seq::new(z as nat, |q: int| 0u8),
        decreases 24 - n - z,
    {
        out.push(0);
        proof {
            assert(Seq::new((z + 1) as nat, |q: int| 0u8) =~= Seq::new(z as nat, |q: int| 0u8).push(0u8));
        }
        z = z + 1;
    }
    proof {
        crate::bytes_util::lemma_be_len(timestamp as nat, 4);
    }
    out
}

/// What a Reality connection fixes before its handshake: the ClientHello random,
/// the sealed session id, the key-exchange pair, and the key that authenticates
/// the server's certificate.
pub struct RealityState {
    pub random: [u8; 32],
    pub session_id: [u8; 32],
    pub ecdhe_secret: [u8; 32],
    pub ecdhe_public: [u8; 32],
    pub auth_key: [u8; 32],
}

/// The state follows from its secret, its random, the server's key, the short id
/// and the time: the auth key is HKDF-SHA256 of the shared secret (salt: the first
/// 20 random bytes, info "REALITY"), and the session id is the AES-128-GCM sealing
/// of the first 16 plaintext bytes under the auth key's first half, with the last
/// 12 random bytes as nonce.
pub open spec fn state_follows(s: RealityState, server_public_key: Seq<u8>, short_id: Seq<u8>, timestamp: u32) -> bool {
    &&& s.ecdhe_public@ == x25519_public_of(s.ecdhe_secret@)
    &&& s.auth_key@ == hkdf_sha256_okm(
        s.random@.subrange(0, 20),
        x25519_shared(s.ecdhe_secret@, server_public_key),
        encode_utf8("REALITY"@),
        32,
    )
    &&& s.session_id@ == aes128gcm_seal(
        s.auth_key@.subrange(0, 16),
        s.random@.subrange(20, 32),
        session_id_plain(timestamp, short_id).subrange(0, 16),
    )
}

fn array32(v: &Vec<u8>) -> (r: [u8; 32])
    requires
        v@.len() == 32,
    ensures
        r@ == v@,
{
    let mut a = [0u8; 32];
    let mut j: usize = 0;
    while j < 32
        invariant
            j <= 32,
            v@.len() == 32,
            forall|q: int| 0 <= q < j ==> a@[q] == v@[q],
        decreases 32 - j,
    {
        a[j] = v[j];
        j = j + 1;
    }
    proof {
        assert(a@ =~= v@);
    }
    a
}

/// The state for a given secret, random and time.
pub fn reality_state_with(
    secret: [u8; 32],
    random: [u8; 32],
    server_public_key: &[u8; 32],
    short_id: &[u8],
    timestamp: u32,
) -> (r: RealityState)
    ensures
        r.ecdhe_secret == secret,
        r.random == random,
        state_follows(r, server_public_key@, short_id@, timestamp),
{
    let public = x25519_public(&secret);
    let shared = x25519(&secret, server_public_key);
    let salt = copy_range(&random, 0, 20);
    let okm = match hkdf_sha256(salt.as_slice(), &shared, "REALITY".as_bytes(), 32) {
        Some(v) => v,
        None => Vec::new(),
    };
    let auth_key = array32(&okm);
    let plain = session_id_plaintext(timestamp, short_id);
    let key16 = take16(&auth_key);
    let nonce_v = copy_range(&random, 20, 32);
    let nonce: [u8; 12] = crate::bytes_util::take12(nonce_v.as_slice());
    let head = copy_range(plain.as_slice(), 0, 16);
    let sealed = match aes128gcm_encrypt(&key16, &nonce, head.as_slice()) {
        Some(v) => v,
        None => Vec::new(),
    };
    proof {
        assert(head@.len() <= crate::crypto::AES_GCM_P_MAX);
    }
    let session_id = array32(&sealed);
    let r = RealityState { random, session_id, ecdhe_secret: secret, ecdhe_public: public, auth_key };
    proof {
        assert(key16@ == auth_key@.subrange(0, 16));
        assert(nonce@ == random@.subrange(20, 32));
    }
    r
}

/// A fresh state: a random secret and random, and the time now. Nothing when the
/// clock reads before the Unix epoch.
pub fn build_reality_state(config: &RealityConfig) -> (r: Option<RealityState>)
    ensures
        r is Some ==> exists|ts: u32| #[trigger] state_follows(r->Some_0, config.server_public_key@, config.short_id@, ts),
{
    let mut secret = [0u8; 32];
    fill_random(&mut secret);
    let mut random = [0u8; 32];
    fill_random(&mut random);
    let secs = match crate::rate_limit::now_since_epoch() {
        Some((s, _)) => s,
        None => return None,
    };
    let ts = (secs % 0x1_0000_0000) as u32;
    let st = reality_state_with(secret, random, &config.server_public_key, config.short_id.as_slice(), ts);
    let r = Some(st);
    assert(state_follows(r->Some_0, config.server_public_key@, config.short_id@, ts));
    r
}

/// Which bytes the handshake's random source hands out: the first 32-byte request
/// gets the session id, the second the random, everything else system randomness.
#[derive(Debug, Clone, Copy, PartialEq, Eq, Structural)]
pub enum InjectedRandom {
    SessionId,
    Random,
    System,
}

pub fn injected_random(call: usize, len: usize) -> (r: InjectedRandom)
    ensures
        r == (if call == 0 && len == 32 {
            InjectedRandom::SessionId
        } else if call == 1 && len == 32 {
            InjectedRandom::Random
        } else {
            InjectedRandom::System
        }),
{
    if call == 0 && len == 32 {
        InjectedRandom::SessionId
    } else if call == 1 && len == 32 {
        InjectedRandom::Random
    } else {
        InjectedRandom::System
    }
}

/// Completes the key exchange with the server's share, which must be 32 bytes.
pub fn complete_key_exchange(secret: &[u8; 32], peer_pub_key: &[u8]) -> (r: Option<[u8; 32]>)
    ensures
        peer_pub_key@.len() != 32 ==> r is None,
        peer_pub_key@.len() == 32 ==> (r matches Some(k) && k@ == x25519_shared(secret@, peer_pub_key@)),
{
    if peer_pub_key.len() != 32 {
        return None;
    }
    let v = copy_range(peer_pub_key, 0, 32);
    let peer = array32(&v);
    proof {
        assert(peer_pub_key@.subrange(0, 32) =~= peer_pub_key@);
    }
    Some(x25519(secret, &peer))
}

} // verus!
