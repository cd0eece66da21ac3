//! The VMess AEAD wire format: request header, chunk stream and response header.

use vstd::prelude::*;
use vstd::slice::slice_to_vec;
use vstd::utf8::encode_utf8;

use crate::address::{push_all, Address, IpAddr};
use crate::bytes_util::{be_bytes, lemma_be_len, push_be, take12, take16};
use crate::crypto::{
    aes128gcm_decrypt, aes128gcm_encrypt, aes128gcm_seal, chacha20poly1305_decrypt,
    chacha20poly1305_encrypt, chacha20poly1305_seal, fill_random, hmac_md5, hmac_md5_tag,
    hmac_sha256, hmac_sha256_tag, md5, md5_hash, sha256, sha256_hash, shake128, shake128_stream,
    AES_GCM_P_MAX, CHACHA_P_MAX,
};
use crate::rate_limit::now_millis;

verus! {

/// Command byte of a TCP request.
pub const CMD_TCP: u8 = 0x01;

/// Command byte of a UDP request.
pub const CMD_UDP: u8 = 0x02;

/// Length of the AEAD tag appended to each sealed chunk.
pub const VMESS_AEAD_TAG_LEN: usize = 16;

/// Largest chunk that one write frames.
pub const MAX_VMESS_CHUNK: usize = 16384;

/// Bytes of SHAKE128 output that a size parser draws its masks from.
pub const SHAKE_BUFFER_LEN: usize = 32768;

/// How the payload chunks are protected.
#[derive(Debug, Clone, Copy, PartialEq, Eq, Structural)]
pub enum SecurityType {
    Aes128Gcm,
    Chacha20Poly1305,
    /// Chunks travel in the clear ("none").
    Plain,
    Zero,
}

/// The security type that a configuration string names; unknown names mean AES-128-GCM.
pub open spec fn security_of(s: Seq<char>) -> SecurityType {
    if s == "aes-128-gcm"@ {
        SecurityType::Aes128Gcm
    } else if s == "chacha20-poly1305"@ {
        SecurityType::Chacha20Poly1305
    } else if s == "none"@ {
        SecurityType::Plain
    } else if s == "zero"@ {
        SecurityType::Zero
    } else {
        SecurityType::Aes128Gcm
    }
}

impl SecurityType {
    pub fn from_str(s: &str) -> (r: Self)
        ensures
            r == security_of(s@),
    {
        if crate::text::str_eq(s, "aes-128-gcm") {
            SecurityType::Aes128Gcm
        } else if crate::text::str_eq(s, "chacha20-poly1305") {
            SecurityType::Chacha20Poly1305
        } else if crate::text::str_eq(s, "none") {
            SecurityType::Plain
        } else if crate::text::str_eq(s, "zero") {
            SecurityType::Zero
        } else {
            SecurityType::Aes128Gcm
        }
    }

    /// The wire code of the security type.
    pub open spec fn spec_byte(self) -> u8 {
        match self {
            SecurityType::Aes128Gcm => 0x03,
            SecurityType::Chacha20Poly1305 => 0x04,
            SecurityType::Plain => 0x05,
            SecurityType::Zero => 0x06,
        }
    }

    pub fn to_byte(&self) -> (r: u8)
        ensures
            r == self.spec_byte(),
    {
        match self {
            SecurityType::Aes128Gcm => 0x03,
            SecurityType::Chacha20Poly1305 => 0x04,
            SecurityType::Plain => 0x05,
            SecurityType::Zero => 0x06,
        }
    }
}

/// FNV-1a (32-bit) of `data`.
pub open spec fn fnv1a_spec(data: Seq<u8>) -> u32
    decreases data.len(),
{
    if data.len() == 0 {
        0x811c9dc5u32
    } else {
        (fnv1a_spec(data.drop_last()) ^ (data.last() as u32)).wrapping_mul(0x01000193u32)
    }
}

pub fn fnv1a_hash(data: &[u8]) -> (r: u32)
    ensures
        r == fnv1a_spec(data@),
{
    let mut hash: u32 = 0x811c9dc5;
    let mut i: usize = 0;
    while i < data.len()
        invariant
            i <= data@.len(),
            hash == fnv1a_spec(data@.subrange(0, i as int)),
        decreases data@.len() - i,
    {
        proof {
            assert(data@.subrange(0, i + 1).drop_last() =~= data@.subrange(0, i as int));
        }
        hash = hash ^ (data[i] as u32);
        hash = hash.wrapping_mul(0x01000193);
        i = i + 1;
    }
    proof {
        assert(data@.subrange(0, data@.len() as int) =~= data@);
    }
    hash
}

/// The AEAD request authentication id: HMAC-MD5 of the big-endian timestamp under
/// the command key.
pub fn create_auth_id(cmd_key: &[u8; 16], timestamp: u64) -> (r: [u8; 16])
    ensures
        r@ == hmac_md5_tag(cmd_key@, be_bytes(timestamp as nat, 8)),
{
    let mut ts: Vec<u8> = Vec::new();
    push_be(&mut ts, timestamp, 8);
    hmac_md5(cmd_key.as_slice(), ts.as_slice())
}

/// The command key of a user id: MD5 of its 16 bytes.
pub fn uuid_to_cmd_key(uuid: &[u8; 16]) -> (r: [u8; 16])
    ensures
        r@ == md5_hash(uuid@),
{
    md5(uuid.as_slice())
}

/// The VMess key derivation: HMAC-SHA256 chained along `paths`, starting from `key`.
pub open spec fn kdf_spec(key: Seq<u8>, paths: Seq<Seq<u8>>) -> Seq<u8>
    decreases paths.len(),
{
    if paths.len() == 0 {
        key
    } else {
        hmac_sha256_tag(kdf_spec(key, paths.drop_last()), paths.last())
    }
}

/// The byte strings that a list of slices holds.
pub open spec fn slices_view(paths: Seq<&[u8]>) -> Seq<Seq<u8>> {
    paths.map_values(|p: &[u8]| p@)
}

pub fn kdf(key: &[u8], paths: &[&[u8]]) -> (r: Vec<u8>)
    ensures
        r@ == kdf_spec(key@, slices_view(paths@)),
        paths@.len() > 0 ==> r@.len() == 32,
{
    let mut current = slice_to_vec(key);
    let mut i: usize = 0;
    while i < paths.len()
        invariant
            i <= paths@.len(),
            current@ == kdf_spec(key@, slices_view(paths@.subrange(0, i as int))),
            i > 0 ==> current@.len() == 32,
        decreases paths@.len() - i,
    {
        let tag = hmac_sha256(current.as_slice(), paths[i]);
        proof {
            let s = slices_view(paths@.subrange(0, i + 1));
            assert(s.drop_last() =~= slices_view(paths@.subrange(0, i as int)));
            assert(s.last() == paths@[i as int]@);
        }
        current = slice_to_vec(tag.as_slice());
        i = i + 1;
    }
    proof {
        assert(paths@.subrange(0, paths@.len() as int) =~= paths@);
    }
    current
}

/// The target address as VMess writes it: big-endian port, then a type byte (1 IPv4,
/// 2 domain, 3 IPv6) and the address; a domain carries its byte length modulo 256.
pub open spec fn vmess_addr_bytes(addr: Address) -> Seq<u8> {
    match addr {
        Address::Ip(IpAddr::V4(o), p) => be_bytes(p as nat, 2) + seq![1u8] + o@,
        Address::Ip(IpAddr::V6(o), p) => be_bytes(p as nat, 2) + seq![3u8] + o@,
        Address::Domain(d, p) => be_bytes(p as nat, 2) + seq![2u8, (encode_utf8(d@).len() % 256) as u8]
            + encode_utf8(d@),
    }
}

fn push_vmess_addr(out: &mut Vec<u8>, addr: &Address)
    ensures
        final(out)@ == old(out)@ + vmess_addr_bytes(*addr),
{
    let ghost base = out@;
    match addr {
        Address::Ip(IpAddr::V4(o), p) => {
            push_be(out, *p as u64, 2);
            out.push(1);
            push_all(out, o);
        },
        Address::Ip(IpAddr::V6(o), p) => {
            push_be(out, *p as u64, 2);
            out.push(3);
            push_all(out, o);
        },
        Address::Domain(d, p) => {
            let bytes = d.as_str().as_bytes();
            push_be(out, *p as u64, 2);
            out.push(2);
            out.push((bytes.len() % 256) as u8);
            push_all(out, bytes);
        },
    }
    proof {
        assert(out@ =~= base + vmess_addr_bytes(*addr));
    }
}

/// The request header before sealing: version 1, body IV and key, response auth,
/// option 1 (chunk stream), security code, a zero, the command and the address,
/// followed by the FNV-1a checksum of all that.
pub open spec fn header_plain(
    iv: Seq<u8>,
    key: Seq<u8>,
    resp_auth: u8,
    security: SecurityType,
    cmd: u8,
    addr: Address,
) -> Seq<u8> {
    let body = seq![1u8] + iv + key + seq![resp_auth, 1u8, security.spec_byte() & 0x0f, 0u8, cmd]
        + vmess_addr_bytes(addr);
    body + be_bytes(fnv1a_spec(body) as nat, 4)
}

/// In the plaintext of the request header the target comes right after the command
/// byte (offset 37): the port in big-endian order, then the address type, then the
/// address. For an IPv4 target `o:p` these are the seven bytes `p / 256`, `p % 256`,
/// `1`, `o[0]`, `o[1]`, `o[2]`, `o[3]`, followed by the 4-byte checksum.
pub proof fn lemma_header_ipv4_target(
    iv: Seq<u8>,
    key: Seq<u8>,
    resp_auth: u8,
    security: SecurityType,
    cmd: u8,
    o: [u8; 4],
    p: u16,
)
    requires
        iv.len() == 16,
        key.len() == 16,
    ensures
        ({
            let h = header_plain(iv, key, resp_auth, security, cmd, Address::Ip(IpAddr::V4(o), p));
            &&& h.len() == 49
            &&& h[37] == cmd
            &&& h.subrange(38, 45) == seq![(p / 256) as u8, (p % 256) as u8, 1u8, o@[0], o@[1], o@[2], o@[3]]
        }),
{
    reveal_with_fuel(be_bytes, 5);
    let addr = Address::Ip(IpAddr::V4(o), p);
    let body = seq![1u8] + iv + key + seq![resp_auth, 1u8, security.spec_byte() & 0x0f, 0u8, cmd]
        + vmess_addr_bytes(addr);
    assert(be_bytes(p as nat, 2) =~= seq![(p / 256) as u8, (p % 256) as u8]);
    assert(vmess_addr_bytes(addr) =~= seq![(p / 256) as u8, (p % 256) as u8, 1u8, o@[0], o@[1], o@[2], o@[3]]);
    lemma_be_len(fnv1a_spec(body) as nat, 4);
    let h = header_plain(iv, key, resp_auth, security, cmd, addr);
    assert(h[37] == body[37]);
    assert(h.subrange(38, 45) =~= body.subrange(38, 45));
}

/// For every target, the two bytes after the command byte in the header plaintext
/// are its port in big-endian order, and the next byte is the address type: 1 for
/// IPv4, 3 for IPv6, 2 for a domain name.
pub proof fn lemma_header_port_first(
    iv: Seq<u8>,
    key: Seq<u8>,
    resp_auth: u8,
    security: SecurityType,
    cmd: u8,
    addr: Address,
)
    requires
        iv.len() == 16,
        key.len() == 16,
    ensures
        ({
            let h = header_plain(iv, key, resp_auth, security, cmd, addr);
            let p = addr.spec_port();
            &&& h[37] == cmd
            &&& h[38] == (p / 256) as u8
            &&& h[39] == (p % 256) as u8
            &&& h[40] == (match addr {
                Address::Ip(IpAddr::V4(_), _) => 1u8,
                Address::Ip(IpAddr::V6(_), _) => 3u8,
                Address::Domain(_, _) => 2u8,
            })
        }),
{
    reveal_with_fuel(be_bytes, 5);
    let p = addr.spec_port();
    assert(be_bytes(p as nat, 2) =~= seq![(p / 256) as u8, (p % 256) as u8]);
    let body = seq![1u8] + iv + key + seq![resp_auth, 1u8, security.spec_byte() & 0x0f, 0u8, cmd]
        + vmess_addr_bytes(addr);
    let a = vmess_addr_bytes(addr);
    assert(a[0] == (p / 256) as u8 && a[1] == (p % 256) as u8);
    assert(a[2] == (match addr {
        Address::Ip(IpAddr::V4(_), _) => 1u8,
        Address::Ip(IpAddr::V6(_), _) => 3u8,
        Address::Domain(_, _) => 2u8,
    }));
    let h = header_plain(iv, key, resp_auth, security, cmd, addr);
    assert(h[37] == body[37]);
    assert(h[38] == a[0]);
    assert(h[39] == a[1]);
    assert(h[40] == a[2]);
}

/// After the command byte the header plaintext holds the whole target: the port in
/// big-endian order, then type 1 and the four octets for IPv4, type 3 and the
/// sixteen octets for IPv6, or type 2, the name's length and the name for a domain;
/// then the 4-byte checksum ends the header.
pub proof fn lemma_header_target_bytes(
    iv: Seq<u8>,
    key: Seq<u8>,
    resp_auth: u8,
    security: SecurityType,
    cmd: u8,
    addr: Address,
)
    requires
        iv.len() == 16,
        key.len() == 16,
    ensures
        ({
            let h = header_plain(iv, key, resp_auth, security, cmd, addr);
            let p = addr.spec_port();
            let t = seq![(p / 256) as u8, (p % 256) as u8] + (match addr {
                Address::Ip(IpAddr::V4(o), _) => seq![1u8] + o@,
                Address::Ip(IpAddr::V6(o), _) => seq![3u8] + o@,
                Address::Domain(d, _) => seq![2u8, (encode_utf8(d@).len() % 256) as u8] + encode_utf8(d@),
            });
            &&& h.len() == 38 + t.len() + 4
            &&& h.subrange(38, 38 + t.len() as int) == t
        }),
{
    reveal_with_fuel(be_bytes, 5);
    let p = addr.spec_port();
    assert(be_bytes(p as nat, 2) =~= seq![(p / 256) as u8, (p % 256) as u8]);
    let body = seq![1u8] + iv + key + seq![resp_auth, 1u8, security.spec_byte() & 0x0f, 0u8, cmd]
        + vmess_addr_bytes(addr);
    let t = seq![(p / 256) as u8, (p % 256) as u8] + (match addr {
        Address::Ip(IpAddr::V4(o), _) => seq![1u8] + o@,
        Address::Ip(IpAddr::V6(o), _) => seq![3u8] + o@,
        Address::Domain(d, _) => seq![2u8, (encode_utf8(d@).len() % 256) as u8] + encode_utf8(d@),
    });
    assert(vmess_addr_bytes(addr) =~= t);
    lemma_be_len(fnv1a_spec(body) as nat, 4);
    let h = header_plain(iv, key, resp_auth, security, cmd, addr);
    assert(h.subrange(38, 38 + t.len() as int) =~= t);
}

fn build_header_plain(
    iv: &[u8; 16],
    key: &[u8; 16],
    resp_auth: u8,
    security: SecurityType,
    cmd: u8,
    addr: &Address,
) -> (r: Vec<u8>)
    ensures
        r@ == header_plain(iv@, key@, resp_auth, security, cmd, *addr),
{
    let mut header: Vec<u8> = Vec::new();
    header.push(1);
    push_all(&mut header, iv.as_slice());
    push_all(&mut header, key.as_slice());
    header.push(resp_auth);
    header.push(0x01);
    header.push(security.to_byte() & 0x0f);
    header.push(0x00);
    header.push(cmd);
    push_vmess_addr(&mut header, addr);
    let ghost body = header@;
    let checksum = fnv1a_hash(header.as_slice());
    push_be(&mut header, checksum as u64, 4);
    proof {
        assert(body =~= seq![1u8] + iv@ + key@ + seq![resp_auth, 1u8, security.spec_byte() & 0x0f, 0u8, cmd]
            + vmess_addr_bytes(*addr));
    }
    header
}

/// The first `n` bytes of `s`.
pub open spec fn prefix(s: Seq<u8>, n: int) -> Seq<u8> {
    s.subrange(0, n)
}

/// The key and nonce derived from the command key for one sealed part of the header.
pub open spec fn header_key(cmd_key: Seq<u8>, label: Seq<u8>, auth_id: Seq<u8>, nonce: Seq<u8>) -> Seq<u8> {
    prefix(kdf_spec(cmd_key, seq![label, auth_id, nonce]), 16)
}

pub open spec fn header_nonce(cmd_key: Seq<u8>, label: Seq<u8>, auth_id: Seq<u8>, nonce: Seq<u8>) -> Seq<u8> {
    prefix(kdf_spec(cmd_key, seq![label, auth_id, nonce]), 12)
}

/// The sealed request header at a given time and connection nonce: the auth id, the
/// sealed 16-bit length of the sealed header, the nonce and the sealed header.
pub open spec fn request_header_spec(
    uuid: Seq<u8>,
    plain: Seq<u8>,
    timestamp: u64,
    nonce: Seq<u8>,
) -> Seq<u8> {
    let cmd_key = md5_hash(uuid);
    let auth_id = hmac_md5_tag(cmd_key, be_bytes(timestamp as nat, 8));
    let sealed = aes128gcm_seal(
        header_key(cmd_key, encode_utf8("VMess Header AEAD Key"@), auth_id, nonce),
        header_nonce(cmd_key, encode_utf8("VMess Header AEAD Nonce"@), auth_id, nonce),
        plain,
    );
    let sealed_len = aes128gcm_seal(
        header_key(cmd_key, encode_utf8("VMess Header AEAD Key Length"@), auth_id, nonce),
        header_nonce(cmd_key, encode_utf8("VMess Header AEAD Nonce Length"@), auth_id, nonce),
        be_bytes((sealed.len() % 65536) as nat, 2),
    );
    auth_id + sealed_len + nonce + sealed
}


/// The key derivation along three path elements.
fn kdf3(key: &[u8], a: &[u8], b: &[u8], c: &[u8]) -> (r: Vec<u8>)
    ensures
        r@ == kdf_spec(key@, seq![a@, b@, c@]),
        r@.len() == 32,
{
    let paths: [&[u8]; 3] = [a, b, c];
    let s = paths.as_slice();
    proof {
        assert(slices_view(s@) =~= seq![a@, b@, c@]);
    }
    kdf(key, s)
}

/// The key derivation along one path element.
fn kdf1(key: &[u8], a: &[u8]) -> (r: Vec<u8>)
    ensures
        r@ == kdf_spec(key@, seq![a@]),
        r@.len() == 32,
{
    let paths: [&[u8]; 1] = [a];
    let s = paths.as_slice();
    proof {
        assert(slices_view(s@) =~= seq![a@]);
    }
    kdf(key, s)
}

/// Seals the request header for a given time and connection nonce. Fails only when
/// the header is too long for AES-GCM.
pub fn encode_request_header_with(
    uuid: &[u8; 16],
    security: SecurityType,
    cmd: u8,
    addr_port: &Address,
    req_body_iv: &[u8; 16],
    req_body_key: &[u8; 16],
    resp_auth: u8,
    timestamp: u64,
    nonce: &[u8; 8],
) -> (r: Result<Vec<u8>, &'static str>)
    ensures
        ({
            let plain = header_plain(req_body_iv@, req_body_key@, resp_auth, security, cmd, *addr_port);
            &&& r is Ok <==> plain.len() <= AES_GCM_P_MAX
            &&& r matches Ok(v) ==> v@ == request_header_spec(uuid@, plain, timestamp, nonce@)
        }),
{
    let plain = build_header_plain(req_body_iv, req_body_key, resp_auth, security, cmd, addr_port);
    let cmd_key = uuid_to_cmd_key(uuid);
    let auth_id = create_auth_id(&cmd_key, timestamp);
    let hk_m = kdf3(cmd_key.as_slice(), "VMess Header AEAD Key".as_bytes(), auth_id.as_slice(), nonce.as_slice());
    let hk = take16(hk_m.as_slice());
    let hn_m = kdf3(cmd_key.as_slice(), "VMess Header AEAD Nonce".as_bytes(), auth_id.as_slice(), nonce.as_slice());
    let hn = take12(hn_m.as_slice());
    let sealed = match aes128gcm_encrypt(&hk, &hn, plain.as_slice()) {
        Some(v) => v,
        None => return Err("header encrypt failed"),
    };
    let mut len_bytes: Vec<u8> = Vec::new();
    push_be(&mut len_bytes, (sealed.len() % 65536) as u64, 2);
    proof {
        lemma_be_len((sealed@.len() % 65536) as nat, 2);
    }
    let lk_m = kdf3(cmd_key.as_slice(), "VMess Header AEAD Key Length".as_bytes(), auth_id.as_slice(), nonce.as_slice());
    let lk = take16(lk_m.as_slice());
    let ln_m = kdf3(cmd_key.as_slice(), "VMess Header AEAD Nonce Length".as_bytes(), auth_id.as_slice(), nonce.as_slice());
    let ln = take12(ln_m.as_slice());
    let sealed_len = match aes128gcm_encrypt(&lk, &ln, len_bytes.as_slice()) {
        Some(v) => v,
        None => return Err("length encrypt failed"),
    };
    let mut out: Vec<u8> = Vec::new();
    push_all(&mut out, auth_id.as_slice());
    push_all(&mut out, sealed_len.as_slice());
    push_all(&mut out, nonce.as_slice());
    push_all(&mut out, sealed.as_slice());
    proof {
        assert(len_bytes@ =~= seq![] + be_bytes((sealed@.len() % 65536) as nat, 2));
    }
    Ok(out)
}

/// Seals the request header at the current time with a fresh random connection nonce.
pub fn encode_request_header(
    uuid: &[u8; 16],
    security: SecurityType,
    cmd: u8,
    addr_port: &Address,
    req_body_iv: &[u8; 16],
    req_body_key: &[u8; 16],
    resp_auth: u8,
) -> (r: Result<Vec<u8>, &'static str>)
    ensures
        ({
            let plain = header_plain(req_body_iv@, req_body_key@, resp_auth, security, cmd, *addr_port);
            &&& r is Ok <==> plain.len() <= AES_GCM_P_MAX
            &&& r matches Ok(v) ==> exists|ts: u64, n: Seq<u8>|
                n.len() == 8 && v@ == #[trigger] request_header_spec(uuid@, plain, ts, n)
        }),
{
    let timestamp = now_millis() / 1000;
    let mut nonce = [0u8; 8];
    fill_random(&mut nonce);
    encode_request_header_with(uuid, security, cmd, addr_port, req_body_iv, req_body_key, resp_auth, timestamp, &nonce)
}

/// The response key and IV: the first 16 bytes of the SHA-256 of the request key and IV.
pub fn derive_response_key_iv(req_body_key: &[u8; 16], req_body_iv: &[u8; 16]) -> (r: ([u8; 16], [u8; 16]))
    ensures
        r.0@ == prefix(sha256_hash(req_body_key@), 16),
        r.1@ == prefix(sha256_hash(req_body_iv@), 16),
{
    let k = sha256(req_body_key.as_slice());
    let v = sha256(req_body_iv.as_slice());
    (take16(k.as_slice()), take16(v.as_slice()))
}


/// Masks chunk lengths with successive 16-bit words of a SHAKE128 stream.
pub struct ShakeSizeParser {
    buffer: Vec<u8>,
    pos: usize,
}

/// Where the next mask starts: at the current position, or back at the start when
/// fewer than two bytes are left.
pub open spec fn mask_start(stream: Seq<u8>, pos: nat) -> nat {
    if pos + 2 > stream.len() {
        0
    } else {
        pos
    }
}

/// The next mask a parser hands out.
pub open spec fn mask_of(stream: Seq<u8>, pos: nat) -> u16 {
    let k = mask_start(stream, pos) as int;
    (stream[k] as int * 256 + stream[k + 1] as int) as u16
}

impl ShakeSizeParser {
    #[verifier::type_invariant]
    spec fn inv(self) -> bool {
        &&& self.buffer@.len() == SHAKE_BUFFER_LEN
        &&& self.pos <= self.buffer@.len()
    }

    /// The SHAKE128 bytes that the masks come from.
    pub closed spec fn stream(self) -> Seq<u8> {
        self.buffer@
    }

    /// How many bytes of the stream have been used.
    pub closed spec fn position(self) -> nat {
        self.pos as nat
    }

    /// A parser over the first 32768 bytes of SHAKE128 of `nonce`.
    pub fn new(nonce: &[u8]) -> (r: Self)
        ensures
            r.stream() == shake128_stream(nonce@, SHAKE_BUFFER_LEN as nat),
            r.position() == 0,
    {
        let buffer = shake128(nonce, SHAKE_BUFFER_LEN);
        ShakeSizeParser { buffer, pos: 0 }
    }

    pub fn next_mask(&mut self) -> (r: u16)
        ensures
            r == mask_of(old(self).stream(), old(self).position()),
            final(self).stream() == old(self).stream(),
            final(self).position() == mask_start(old(self).stream(), old(self).position()) + 2,
    {
        proof {
            use_type_invariant(&*self);
        }
        if self.pos + 2 > self.buffer.len() {
            self.pos = 0;
        }
        let mask = (self.buffer[self.pos] as u16) * 256 + (self.buffer[self.pos + 1] as u16);
        self.pos = self.pos + 2;
        mask
    }

    pub fn encode_size(&mut self, size: u16) -> (r: u16)
        ensures
            r == size ^ mask_of(old(self).stream(), old(self).position()),
            final(self).stream() == old(self).stream(),
            final(self).position() == mask_start(old(self).stream(), old(self).position()) + 2,
    {
        let mask = self.next_mask();
        size ^ mask
    }

    pub fn decode_size(&mut self, masked: u16) -> (r: u16)
        ensures
            r == masked ^ mask_of(old(self).stream(), old(self).position()),
            final(self).stream() == old(self).stream(),
            final(self).position() == mask_start(old(self).stream(), old(self).position()) + 2,
    {
        let mask = self.next_mask();
        masked ^ mask
    }
}

/// Two parsers in the same state undo each other: decoding what one encoded gives
/// back the size, and both move on alike.
pub proof fn lemma_size_mask_roundtrip(stream: Seq<u8>, pos: nat, size: u16)
    ensures
        (size ^ mask_of(stream, pos)) ^ mask_of(stream, pos) == size,
{
    let m = mask_of(stream, pos);
    assert((size ^ m) ^ m == size) by (bit_vector);
}


/// The ChaCha20-Poly1305 key made from a 16-byte key: MD5 of it, then MD5 of that.
pub open spec fn chacha_key(key: Seq<u8>) -> Seq<u8> {
    md5_hash(key) + md5_hash(md5_hash(key))
}

/// A chunk as the security type seals it.
pub open spec fn seal_chunk(security: SecurityType, key: Seq<u8>, nonce: Seq<u8>, pt: Seq<u8>) -> Seq<u8> {
    match security {
        SecurityType::Aes128Gcm => aes128gcm_seal(key, nonce, pt),
        SecurityType::Chacha20Poly1305 => chacha20poly1305_seal(chacha_key(key), nonce, Seq::empty(), pt),
        _ => pt,
    }
}

/// `pt` is what `ct` holds under the security type.
pub open spec fn opens_to(security: SecurityType, key: Seq<u8>, nonce: Seq<u8>, ct: Seq<u8>, pt: Seq<u8>) -> bool {
    seal_chunk(security, key, nonce, pt) == ct
}

/// The longest plaintext the security type can seal.
pub open spec fn seal_fits(security: SecurityType, len: nat) -> bool {
    match security {
        SecurityType::Aes128Gcm => len <= AES_GCM_P_MAX,
        SecurityType::Chacha20Poly1305 => len <= CHACHA_P_MAX,
        _ => true,
    }
}

/// Seals and opens the chunks of one direction, counting them for the nonce and
/// masking their lengths.
pub struct VmessChunkCipher {
    security: SecurityType,
    key: [u8; 16],
    iv: [u8; 16],
    count: u16,
    size_parser: ShakeSizeParser,
}

impl VmessChunkCipher {
    pub closed spec fn spec_security(self) -> SecurityType {
        self.security
    }

    pub closed spec fn spec_key(self) -> Seq<u8> {
        self.key@
    }

    pub closed spec fn spec_iv(self) -> Seq<u8> {
        self.iv@
    }

    /// How many chunks have been sealed or opened, modulo 65536.
    pub closed spec fn spec_count(self) -> u16 {
        self.count
    }

    pub closed spec fn stream(self) -> Seq<u8> {
        self.size_parser.stream()
    }

    pub closed spec fn position(self) -> nat {
        self.size_parser.position()
    }

    /// The nonce of the next chunk: the big-endian count, then bytes 2 to 12 of the IV.
    pub open spec fn chunk_nonce(self) -> Seq<u8> {
        be_bytes(self.spec_count() as nat, 2) + self.spec_iv().subrange(2, 12)
    }

    pub fn new(security: SecurityType, key: &[u8; 16], iv: &[u8; 16]) -> (r: Self)
        ensures
            r.spec_security() == security,
            r.spec_key() == key@,
            r.spec_iv() == iv@,
            r.spec_count() == 0,
            r.stream() == shake128_stream(iv@, SHAKE_BUFFER_LEN as nat),
            r.position() == 0,
    {
        VmessChunkCipher {
            security,
            key: *key,
            iv: *iv,
            count: 0,
            size_parser: ShakeSizeParser::new(iv.as_slice()),
        }
    }

    fn make_nonce(&self) -> (r: [u8; 12])
        ensures
            r@ == self.chunk_nonce(),
    {
        let mut nonce = [0u8; 12];
        nonce[0] = (self.count / 256) as u8;
        nonce[1] = (self.count % 256) as u8;
        let mut i: usize = 2;
        while i < 12
            invariant
                2 <= i <= 12,
                nonce@.len() == 12,
                nonce@[0] == (self.count / 256) as u8,
                nonce@[1] == (self.count % 256) as u8,
                forall|k: int| 2 <= k < i ==> nonce@[k] == self.iv@[k],
            decreases 12 - i,
        {
            nonce[i] = self.iv[i];
            i = i + 1;
        }
        proof {
            reveal_with_fuel(be_bytes, 3);
            assert(nonce@ =~= self.chunk_nonce());
        }
        nonce
    }

    fn chacha_key_bytes(&self) -> (r: [u8; 32])
        ensures
            r@ == chacha_key(self.key@),
    {
        let a = md5(self.key.as_slice());
        let b = md5(a.as_slice());
        let mut ck = [0u8; 32];
        let mut i: usize = 0;
        while i < 16
            invariant
                i <= 16,
                ck@.len() == 32,
                forall|k: int| 0 <= k < i ==> ck@[k] == a@[k] && ck@[k + 16] == b@[k],
            decreases 16 - i,
        {
            ck[i] = a[i];
            ck[i + 16] = b[i];
            i = i + 1;
        }
        proof {
            assert(ck@ =~= a@ + b@);
        }
        ck
    }

    /// Seals one chunk: the masked 16-bit length of the sealed chunk, then the chunk.
    /// The count moves on either way; the mask is drawn only on success.
    pub fn encrypt_chunk(&mut self, plaintext: &[u8]) -> (r: Result<Vec<u8>, &'static str>)
        ensures
            final(self).spec_security() == old(self).spec_security(),
            final(self).spec_key() == old(self).spec_key(),
            final(self).spec_iv() == old(self).spec_iv(),
            final(self).spec_count() == (old(self).spec_count() + 1) % 65536,
            final(self).stream() == old(self).stream(),
            r is Ok <==> seal_fits(old(self).spec_security(), plaintext@.len()),
            r matches Ok(v) ==> ({
                let sealed = seal_chunk(old(self).spec_security(), old(self).spec_key(), old(self).chunk_nonce(), plaintext@);
                let mask = mask_of(old(self).stream(), old(self).position());
                &&& v@ == be_bytes((((sealed.len() % 65536) as u16) ^ mask) as nat, 2) + sealed
                &&& sealed.len() == plaintext@.len() + tag_len(old(self).spec_security())
                &&& final(self).position() == mask_start(old(self).stream(), old(self).position()) + 2
            }),
            r is Err ==> final(self).position() == old(self).position(),
    {
        let nonce = self.make_nonce();
        self.count = self.count.wrapping_add(1);
        let encrypted = match self.security {
            SecurityType::Aes128Gcm => match aes128gcm_encrypt(&self.key, &nonce, plaintext) {
                Some(v) => v,
                None => return Err("AES encrypt failed"),
            },
            SecurityType::Chacha20Poly1305 => {
                let ck = self.chacha_key_bytes();
                match chacha20poly1305_encrypt(&ck, &nonce, Vec::<u8>::new().as_slice(), plaintext) {
                    Some(v) => v,
                    None => return Err("ChaCha20 encrypt failed"),
                }
            },
            _ => slice_to_vec(plaintext),
        };
        let chunk_len = (encrypted.len() % 65536) as u16;
        let masked = self.size_parser.encode_size(chunk_len);
        let mut out: Vec<u8> = Vec::new();
        push_be(&mut out, masked as u64, 2);
        push_all(&mut out, encrypted.as_slice());
        proof {
            assert(out@ =~= be_bytes(masked as nat, 2) + encrypted@);
        }
        Ok(out)
    }

    /// Unmasks the length of the next chunk.
    pub fn decode_length(&mut self, raw: [u8; 2]) -> (r: u16)
        ensures
            r == ((raw@[0] as int * 256 + raw@[1] as int) as u16) ^ mask_of(old(self).stream(), old(self).position()),
            final(self).spec_security() == old(self).spec_security(),
            final(self).spec_key() == old(self).spec_key(),
            final(self).spec_iv() == old(self).spec_iv(),
            final(self).spec_count() == old(self).spec_count(),
            final(self).stream() == old(self).stream(),
            final(self).position() == mask_start(old(self).stream(), old(self).position()) + 2,
    {
        let masked = (raw[0] as u16) * 256 + (raw[1] as u16);
        self.size_parser.decode_size(masked)
    }

    /// Opens one chunk; the count moves on either way.
    pub fn decrypt_chunk(&mut self, ciphertext: &[u8]) -> (r: Result<Vec<u8>, &'static str>)
        ensures
            final(self).spec_security() == old(self).spec_security(),
            final(self).spec_key() == old(self).spec_key(),
            final(self).spec_iv() == old(self).spec_iv(),
            final(self).spec_count() == (old(self).spec_count() + 1) % 65536,
            final(self).stream() == old(self).stream(),
            final(self).position() == old(self).position(),
            r matches Ok(v) ==> opens_to(old(self).spec_security(), old(self).spec_key(), old(self).chunk_nonce(), ciphertext@, v@)
                && (forall|p: Seq<u8>| #[trigger] opens_to(old(self).spec_security(), old(self).spec_key(), old(self).chunk_nonce(), ciphertext@, p) ==> p == v@),
            r is Ok <== (exists|p: Seq<u8>| seal_fits(old(self).spec_security(), p.len())
                && #[trigger] opens_to(old(self).spec_security(), old(self).spec_key(), old(self).chunk_nonce(), ciphertext@, p)),
    {
        let nonce = self.make_nonce();
        self.count = self.count.wrapping_add(1);
        match self.security {
            SecurityType::Aes128Gcm => match aes128gcm_decrypt(&self.key, &nonce, ciphertext) {
                Some(v) => Ok(v),
                None => Err("AES decrypt failed"),
            },
            SecurityType::Chacha20Poly1305 => {
                let ck = self.chacha_key_bytes();
                match chacha20poly1305_decrypt(&ck, &nonce, Vec::<u8>::new().as_slice(), ciphertext) {
                    Some(v) => Ok(v),
                    None => Err("ChaCha20 decrypt failed"),
                }
            },
            _ => Ok(slice_to_vec(ciphertext)),
        }
    }
}

/// How many bytes sealing adds to a chunk: the 16-byte tag of the AEAD methods,
/// nothing otherwise.
pub open spec fn tag_len(security: SecurityType) -> nat {
    match security {
        SecurityType::Aes128Gcm => 16,
        SecurityType::Chacha20Poly1305 => 16,
        _ => 0,
    }
}

/// A chunk sealed by a cipher opens, under a cipher in the same state, to the
/// plaintext it was sealed from, and its masked length unmasks to its length.
pub proof fn lemma_chunk_roundtrip(
    security: SecurityType,
    key: Seq<u8>,
    nonce: Seq<u8>,
    stream: Seq<u8>,
    pos: nat,
    pt: Seq<u8>,
)
    ensures
        opens_to(security, key, nonce, seal_chunk(security, key, nonce, pt), pt),
        ({
            let len = (seal_chunk(security, key, nonce, pt).len() % 65536) as u16;
            (len ^ mask_of(stream, pos)) ^ mask_of(stream, pos) == len
        }),
{
    let len = (seal_chunk(security, key, nonce, pt).len() % 65536) as u16;
    lemma_size_mask_roundtrip(stream, pos, len);
}


/// The key and nonce that seal the response header.
pub open spec fn resp_header_key(resp_key: Seq<u8>) -> Seq<u8> {
    prefix(kdf_spec(resp_key, seq![encode_utf8("AEAD Resp Header Key"@)]), 16)
}

pub open spec fn resp_header_nonce(resp_iv: Seq<u8>) -> Seq<u8> {
    prefix(kdf_spec(resp_iv, seq![encode_utf8("AEAD Resp Header IV"@)]), 12)
}

/// `data` seals a non-empty response header whose first byte is `expected`.
pub open spec fn response_accepts(data: Seq<u8>, resp_key: Seq<u8>, resp_iv: Seq<u8>, expected: u8, p: Seq<u8>) -> bool {
    &&& aes128gcm_seal(resp_header_key(resp_key), resp_header_nonce(resp_iv), p) == data
    &&& p.len() > 0
    &&& p[0] == expected
}

/// Checks the sealed response header: it must open under the keys derived from the
/// response key and IV, be non-empty and start with the expected auth byte.
pub fn parse_response_header(data: &[u8], resp_key: &[u8; 16], resp_iv: &[u8; 16], expected_resp_auth: u8) -> (r: Result<(), &'static str>)
    ensures
        r is Ok ==> exists|p: Seq<u8>| #[trigger] response_accepts(data@, resp_key@, resp_iv@, expected_resp_auth, p),
        r is Ok <== exists|p: Seq<u8>| p.len() <= AES_GCM_P_MAX && #[trigger] response_accepts(data@, resp_key@, resp_iv@, expected_resp_auth, p),
{
    let km = kdf1(resp_key.as_slice(), "AEAD Resp Header Key".as_bytes());
    let nm = kdf1(resp_iv.as_slice(), "AEAD Resp Header IV".as_bytes());
    let key = take16(km.as_slice());
    let nonce = take12(nm.as_slice());
    let decrypted = match aes128gcm_decrypt(&key, &nonce, data) {
        Some(v) => v,
        None => return Err("response header decrypt failed"),
    };
    if decrypted.len() == 0 {
        return Err("empty VMess response header");
    }
    if decrypted[0] != expected_resp_auth {
        return Err("VMess response auth mismatch");
    }
    proof {
        assert(response_accepts(data@, resp_key@, resp_iv@, expected_resp_auth, decrypted@));
    }
    Ok(())
}

/// The fixed bytes that the legacy auth id hashes between the timestamp and the id.
pub open spec fn legacy_magic() -> Seq<u8> {
    seq![0xc4u8, 0x8eu8, 0x19u8, 0x87u8, 0x09u8, 0x60u8, 0x48u8, 0x81u8]
}

/// The legacy (alter id) auth id: MD5 over the user id, the big-endian timestamp,
/// the fixed bytes and the user id again.
pub fn create_legacy_auth_id(uuid: &[u8; 16], timestamp: u64) -> (r: [u8; 16])
    ensures
        r@ == md5_hash(uuid@ + be_bytes(timestamp as nat, 8) + legacy_magic() + uuid@),
{
    let mut data: Vec<u8> = Vec::new();
    push_all(&mut data, uuid.as_slice());
    push_be(&mut data, timestamp, 8);
    let magic: [u8; 8] = [0xc4, 0x8e, 0x19, 0x87, 0x09, 0x60, 0x48, 0x81];
    push_all(&mut data, magic.as_slice());
    push_all(&mut data, uuid.as_slice());
    proof {
        assert(magic@ =~= legacy_magic());
    }
    md5(data.as_slice())
}

/// The legacy request header at a given time: the legacy auth id followed by the
/// header in the clear. It never fails.
pub fn encode_legacy_request_header_with(
    uuid: &[u8; 16],
    alter_id: u16,
    security: SecurityType,
    cmd: u8,
    addr_port: &Address,
    req_body_iv: &[u8; 16],
    req_body_key: &[u8; 16],
    resp_auth: u8,
    timestamp: u64,
) -> (r: Result<Vec<u8>, &'static str>)
    ensures
        r matches Ok(v) && v@ == md5_hash(uuid@ + be_bytes(timestamp as nat, 8) + legacy_magic() + uuid@)
            + header_plain(req_body_iv@, req_body_key@, resp_auth, security, cmd, *addr_port),
{
    let auth_id = create_legacy_auth_id(uuid, timestamp);
    let header = build_header_plain(req_body_iv, req_body_key, resp_auth, security, cmd, addr_port);
    let mut out: Vec<u8> = Vec::new();
    push_all(&mut out, auth_id.as_slice());
    push_all(&mut out, header.as_slice());
    Ok(out)
}

/// The legacy request header at the current time.
pub fn encode_legacy_request_header(
    uuid: &[u8; 16],
    alter_id: u16,
    security: SecurityType,
    cmd: u8,
    addr_port: &Address,
    req_body_iv: &[u8; 16],
    req_body_key: &[u8; 16],
    resp_auth: u8,
) -> (r: Result<Vec<u8>, &'static str>)
    ensures
        r matches Ok(v) && exists|ts: u64| v@ == #[trigger] md5_hash(uuid@ + be_bytes(ts as nat, 8) + legacy_magic() + uuid@)
            + header_plain(req_body_iv@, req_body_key@, resp_auth, security, cmd, *addr_port),
{
    let timestamp = now_millis() / 1000;
    encode_legacy_request_header_with(uuid, alter_id, security, cmd, addr_port, req_body_iv, req_body_key, resp_auth, timestamp)
}

} // verus!
