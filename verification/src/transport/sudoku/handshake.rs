//! The client's side of the Sudoku handshake: the settings, the 16-byte hello
//! (a timestamp and a digest of the key), the downlink mode and the target address.

use std::sync::Arc;

use vstd::prelude::*;
use vstd::utf8::encode_utf8;

use crate::address::push_all;
use crate::bytes_util::{be_bytes, push_be, take16};
use crate::crypto::{sha256, sha256_hash};
use crate::netaddr::{ipv4_of, ipv6_of, parse_ipv4, parse_ipv6};
use crate::rate_limit::now_since_epoch;
use super::table::Table;

verus! {

/// The settings of a Sudoku connection.
pub struct SudokuConfig {
    pub key: String,
    pub aead_method: String,
    pub table: Arc<Table>,
    pub padding_min: u8,
    pub padding_max: u8,
    pub enable_pure_downlink: bool,
    pub disable_http_mask: bool,
    pub http_mask_host: String,
    pub http_mask_path_root: String,
}

pub const DOWNLINK_MODE_PURE: u8 = 0x01;
pub const DOWNLINK_MODE_PACKED: u8 = 0x02;

/// The downlink mode byte the client asks for.
pub fn downlink_mode(enable_pure_downlink: bool) -> (r: u8)
    ensures
        r == if enable_pure_downlink { DOWNLINK_MODE_PURE } else { DOWNLINK_MODE_PACKED },
{
    if enable_pure_downlink {
        DOWNLINK_MODE_PURE
    } else {
        DOWNLINK_MODE_PACKED
    }
}

/// The host that the HTTP mask names: the configured one, or `www.example.com`.
pub fn mask_host(config: &SudokuConfig) -> (r: &str)
    ensures
        r@ == if config.http_mask_host@.len() == 0 { "www.example.com"@ } else { config.http_mask_host@ },
{
    if config.http_mask_host.as_str().is_empty() {
        "www.example.com"
    } else {
        config.http_mask_host.as_str()
    }
}

/// The hello at time `secs`: the seconds since the Unix epoch, big-endian, then the
/// first eight bytes of the key's SHA-256 digest.
pub open spec fn hello_bytes(secs: u64, key: Seq<char>) -> Seq<u8> {
    be_bytes(secs as nat, 8) + sha256_hash(encode_utf8(key)).subrange(0, 8)
}

/// The hello of `key` at time `secs`.
pub fn handshake_payload_at(secs: u64, key: &str) -> (r: [u8; 16])
    ensures
        r@ == hello_bytes(secs, key@),
{
    let digest = sha256(key.as_bytes());
    let mut v: Vec<u8> = Vec::new();
    push_be(&mut v, secs, 8);
    let mut i: usize = 0;
    while i < 8
        invariant
            i <= 8,
            v@ == be_bytes(secs as nat, 8) + digest@.subrange(0, i as int),
        decreases 8 - i,
    {
        v.push(digest[i]);
        proof {
            assert(v@ =~= be_bytes(secs as nat, 8) + digest@.subrange(0, i + 1));
        }
        i = i + 1;
    }
    proof {
        crate::bytes_util::lemma_be_len(secs as nat, 8);
        assert(v@.subrange(0, 16) =~= hello_bytes(secs, key@));
    }
    take16(v.as_slice())
}

/// The hello of `key` now (a clock before the Unix epoch counts as the epoch).
pub fn build_handshake_payload(key: &str) -> (r: [u8; 16])
    ensures
        exists|secs: u64| r@ == #[trigger] hello_bytes(secs, key@),
{
    let secs = match now_since_epoch() {
        Some((s, _)) => s,
        None => 0,
    };
    handshake_payload_at(secs, key)
}

/// The seed of the client's AEAD keys: the key itself.
pub fn client_aead_seed(key: &str) -> (r: String)
    ensures
        r@ == key@,
{
    key.to_string()
}

/// The target address: type 1 and four bytes for IPv4 text, type 4 and sixteen bytes
/// for IPv6 text, otherwise type 3, the name's length (modulo 256) and its bytes;
/// then the big-endian port.
pub open spec fn address_bytes(addr: Seq<char>, port: u16) -> Seq<u8> {
    (match ipv4_of(addr) {
        Some(o) => seq![1u8] + o,
        None => match ipv6_of(addr) {
            Some(o) => seq![4u8] + o,
            None => seq![3u8, (encode_utf8(addr).len() % 256) as u8] + encode_utf8(addr),
        },
    }) + be_bytes(port as nat, 2)
}

/// Encodes the target address.
pub fn encode_address(addr: &str, port: u16) -> (r: Vec<u8>)
    ensures
        r@ == address_bytes(addr@, port),
{
    let mut buf: Vec<u8> = Vec::new();
    match parse_ipv4(addr) {
        Some(o) => {
            buf.push(0x01);
            push_all(&mut buf, o.as_slice());
        },
        None => match parse_ipv6(addr) {
            Some(o) => {
                buf.push(0x04);
                push_all(&mut buf, o.as_slice());
            },
            None => {
                let b = addr.as_bytes();
                buf.push(0x03);
                buf.push((b.len() % 256) as u8);
                push_all(&mut buf, b);
            },
        },
    }
    push_be(&mut buf, port as u64, 2);
    proof {
        assert(buf@ =~= address_bytes(addr@, port));
    }
    buf
}

} // verus!
