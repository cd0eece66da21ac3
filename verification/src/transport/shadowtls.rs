use vstd::prelude::*;
use vstd::utf8::encode_utf8;

use crate::address::push_all;
use crate::bytes_util::take16;
use crate::config::DialerConfig;
use crate::crypto::{hmac_sha256, hmac_sha256_tag};
use vstd::slice::slice_to_vec;

verus! {

pub const TLS_HANDSHAKE: u8 = 0x16;
pub const TLS_APPLICATION_DATA: u8 = 0x17;
pub const TLS_ALERT: u8 = 0x15;
pub const HANDSHAKE_CLIENT_HELLO: u8 = 0x01;
pub const HANDSHAKE_SERVER_HELLO: u8 = 0x02;

/// ShadowTLS v3: a real TLS handshake with a camouflage server, then application
/// data records authenticated by HMAC under the password.
pub struct ShadowTlsTransport {
    pub server_addr: String,
    pub server_port: u16,
    pub password: String,
    pub sni: String,
    pub dialer_config: Option<DialerConfig>,
}

impl ShadowTlsTransport {
    pub fn new(server_addr: String, server_port: u16, password: String, sni: String, dialer_config: Option<DialerConfig>) -> (r: Self)
        ensures
            r.server_addr@ == server_addr@,
            r.server_port == server_port,
            r.password@ == password@,
            r.sni@ == sni@,
            r.dialer_config == dialer_config,
    {
        ShadowTlsTransport { server_addr, server_port, password, sni, dialer_config }
    }
}

/// The 32-byte random of a ServerHello handshake message.
pub open spec fn server_random_spec(payload: Seq<u8>) -> Option<Seq<u8>> {
    if payload.len() >= 38 && payload[0] == 0x02 {
        Some(payload.subrange(6, 38))
    } else {
        None
    }
}

pub fn extract_server_random(payload: &[u8]) -> (r: Option<[u8; 32]>)
    ensures
        match r {
            Some(a) => server_random_spec(payload@) == Some(a@),
            None => server_random_spec(payload@) is None,
        },
{
    if payload.len() >= 4 && payload[0] == HANDSHAKE_SERVER_HELLO {
        if payload.len() >= 4 + 2 + 32 {
            let mut random = [0u8; 32];
            let mut i: usize = 0;
            while i < 32
                invariant
                    i <= 32,
                    payload@.len() >= 38,
                    forall|k: int| 0 <= k < i ==> random@[k] == payload@[6 + k],
                decreases 32 - i,
            {
                random[i] = payload[6 + i];
                i = i + 1;
            }
            proof {
                assert(random@ =~= payload@.subrange(6, 38));
            }
            return Some(random);
        }
    }
    None
}

/// A TLS handshake record holding a ClientHello whose session id is at least 32
/// bytes long and complete.
pub open spec fn signable_client_hello(data: Seq<u8>) -> bool {
    &&& data.len() >= 5 && data[0] == 0x16
    &&& data.len() >= 9 && data[5] == 0x01
    &&& data.len() > 43
    &&& data[43] >= 32
    &&& data.len() >= 44 + data[43]
}

/// The record with the session id's last four bytes (offsets 72 to 76) set to zero.
pub open spec fn zero_sig(data: Seq<u8>) -> Seq<u8> {
    data.subrange(0, 72) + seq![0u8, 0u8, 0u8, 0u8] + data.subrange(76, data.len() as int)
}

/// The signed ClientHello: those four bytes hold the first four of the HMAC-SHA256,
/// under the password, of the record's payload with them zeroed.
pub open spec fn signed_client_hello(data: Seq<u8>, password: Seq<char>) -> Seq<u8> {
    let z = zero_sig(data);
    let sig = hmac_sha256_tag(encode_utf8(password), z.subrange(5, z.len() as int));
    data.subrange(0, 72) + sig.subrange(0, 4) + data.subrange(76, data.len() as int)
}

pub fn sign_client_hello(data: &[u8], password: &str) -> (r: Result<Vec<u8>, &'static str>)
    ensures
        r is Ok <==> signable_client_hello(data@),
        r matches Ok(v) ==> v@ == signed_client_hello(data@, password@),
{
    if data.len() < 5 || data[0] != TLS_HANDSHAKE {
        return Err("not a TLS handshake record");
    }
    if data.len() < 9 || data[5] != HANDSHAKE_CLIENT_HELLO {
        return Err("not a ClientHello");
    }
    if data.len() <= 43 {
        return Err("ClientHello too short");
    }
    let sid_len = data[43] as usize;
    if sid_len < 32 {
        return Err("SessionID too short");
    }
    if data.len() < 44 + sid_len {
        return Err("ClientHello truncated");
    }
    let mut zeroed: Vec<u8> = slice_to_vec(data);
    zeroed.set(72, 0);
    zeroed.set(73, 0);
    zeroed.set(74, 0);
    zeroed.set(75, 0);
    proof {
        assert(zeroed@ =~= zero_sig(data@));
    }
    let mut payload: Vec<u8> = Vec::new();
    let mut i: usize = 5;
    while i < zeroed.len()
        invariant
            5 <= i <= zeroed@.len(),
            payload@ == zeroed@.subrange(5, i as int),
        decreases zeroed@.len() - i,
    {
        payload.push(zeroed[i]);
        i = i + 1;
    }
    let sig = hmac_sha256(password.as_bytes(), payload.as_slice());
    let mut out = zeroed;
    out.set(72, sig[0]);
    out.set(73, sig[1]);
    out.set(74, sig[2]);
    out.set(75, sig[3]);
    proof {
        assert(out@ =~= signed_client_hello(data@, password@));
    }
    Ok(out)
}

/// An application-data record: type, version 3.3, the 16-bit length of the HMAC
/// prefix plus data, the prefix, the data.
pub open spec fn app_record(prefix: Seq<u8>, data: Seq<u8>) -> Seq<u8> {
    let total = 4 + data.len();
    seq![0x17u8, 0x03u8, 0x03u8, ((total / 256) % 256) as u8, (total % 256) as u8] + prefix + data
}

pub fn frame_app_record(hmac_prefix: &[u8; 4], data: &[u8]) -> (r: Vec<u8>)
    requires
        data@.len() + 4 <= usize::MAX,
    ensures
        r@ == app_record(hmac_prefix@, data@),
{
    let total = 4 + data.len();
    let mut frame: Vec<u8> = Vec::new();
    frame.push(TLS_APPLICATION_DATA);
    frame.push(0x03);
    frame.push(0x03);
    frame.push(((total / 256) % 256) as u8);
    frame.push((total % 256) as u8);
    push_all(&mut frame, hmac_prefix.as_slice());
    push_all(&mut frame, data);
    frame
}

} // verus!
