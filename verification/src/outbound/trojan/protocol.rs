//! The Trojan request header and UDP framing.

use vstd::prelude::*;
use vstd::utf8::{encode_utf8, decode_utf8, is_ascii_chars};

use crate::address::{parse_socks_addr, push_all, push_socks_addr, socks_addr_bytes, socks_addr_end, socks_addr_names, Address, IpAddr};
use crate::bytes_util::{be_bytes, copy_range, push_be};
use crate::crypto::{sha224, sha224_hash};
use crate::text::string_from_utf8;

verus! {

pub const CMD_CONNECT: u8 = 0x01;
pub const CMD_UDP_ASSOCIATE: u8 = 0x03;

/// The lower-case hexadecimal digit for `n < 16`.
pub open spec fn hex_char(n: nat) -> char {
    if n < 10 {
        ((n + 48) as u32) as char
    } else {
        ((n - 10 + 97) as u32) as char
    }
}

/// Two lower-case hexadecimal digits per byte.
pub open spec fn hex_text(b: Seq<u8>) -> Seq<char> {
    Seq::new(2 * b.len(), |i: int| if i % 2 == 0 { hex_char((b[i / 2] / 16) as nat) } else { hex_char((b[i / 2] % 16) as nat) })
}

fn hex_byte(n: u8) -> (r: u8)
    requires
        n < 16,
    ensures
        r == hex_char(n as nat) as u8,
        r < 128,
{
    if n < 10 {
        n + 48
    } else {
        n - 10 + 97
    }
}

/// The bytes in lower-case hexadecimal.
pub fn hex_encode(bytes: &[u8]) -> (r: String)
    ensures
        r@ == hex_text(bytes@),
{
    let ghost t = hex_text(bytes@);
    let mut out: Vec<u8> = Vec::new();
    let mut i: usize = 0;
    while i < bytes.len()
        invariant
            i <= bytes@.len(),
            t == hex_text(bytes@),
            out@.len() == 2 * i,
            forall|k: int| 0 <= k < 2 * i ==> out@[k] == t[k] as u8,
        decreases bytes@.len() - i,
    {
        out.push(hex_byte(bytes[i] / 16));
        out.push(hex_byte(bytes[i] % 16));
        i = i + 1;
    }
    proof {
        assert(is_ascii_chars(t));
        vstd::utf8::is_ascii_chars_encode_utf8(t);
        assert(out@ =~= encode_utf8(t));
        vstd::utf8::encode_utf8_valid_utf8(t);
        vstd::utf8::encode_utf8_decode_utf8(t);
    }
    match string_from_utf8(out) {
        Some(s) => s,
        None => String::new(),
    }
}

/// The password's SHA-224 digest in lower-case hexadecimal.
pub fn password_hash(password: &str) -> (r: String)
    ensures
        r@ == hex_text(sha224_hash(encode_utf8(password@))),
{
    let d = sha224(password.as_bytes());
    hex_encode(d.as_slice())
}

/// The target address as Trojan writes it (SOCKS5 style).
pub fn encode_trojan_addr(addr: &Address) -> (r: Vec<u8>)
    ensures
        r@ == socks_addr_bytes(*addr),
{
    let mut buf: Vec<u8> = Vec::new();
    push_socks_addr(&mut buf, addr);
    buf
}

/// The request header: the password hash, CRLF, the command, the address, CRLF.
pub open spec fn request_spec(hash: Seq<char>, target: Address, command: u8) -> Seq<u8> {
    encode_utf8(hash) + seq![13u8, 10u8, command] + socks_addr_bytes(target) + seq![13u8, 10u8]
}

pub fn request_bytes(password_hash: &str, target: &Address, command: u8) -> (r: Vec<u8>)
    ensures
        r@ == request_spec(password_hash@, *target, command),
{
    let mut buf: Vec<u8> = Vec::new();
    push_all(&mut buf, password_hash.as_bytes());
    buf.push(13);
    buf.push(10);
    buf.push(command);
    push_socks_addr(&mut buf, target);
    buf.push(13);
    buf.push(10);
    proof {
        assert(buf@ =~= request_spec(password_hash@, *target, command));
    }
    buf
}

/// A UDP frame: the address, the payload's 16-bit length, CRLF, the payload.
pub open spec fn udp_frame_spec(addr: Address, payload: Seq<u8>) -> Seq<u8> {
    socks_addr_bytes(addr) + be_bytes((payload.len() % 65536) as nat, 2) + seq![13u8, 10u8] + payload
}

pub fn udp_frame_bytes(addr: &Address, payload: &[u8]) -> (r: Vec<u8>)
    ensures
        r@ == udp_frame_spec(*addr, payload@),
{
    let mut buf: Vec<u8> = Vec::new();
    push_socks_addr(&mut buf, addr);
    push_be(&mut buf, (payload.len() % 65536) as u64, 2);
    buf.push(13);
    buf.push(10);
    push_all(&mut buf, payload);
    proof {
        assert(buf@ =~= udp_frame_spec(*addr, payload@));
    }
    buf
}

/// Where a complete UDP frame at the start of `d` ends.
pub open spec fn udp_frame_end(d: Seq<u8>) -> Option<int> {
    match socks_addr_end(d) {
        None => None,
        Some(e) => if d.len() < e + 4 {
            None
        } else {
            let len = d[e] as int * 256 + d[e + 1] as int;
            if d.len() < e + 4 + len { None } else { Some(e + 4 + len) }
        },
    }
}

/// Reads one complete UDP frame from the start of `d`: the address, the payload and
/// how many bytes the frame took; nothing when the frame is incomplete or its address
/// unreadable.
pub fn parse_udp_frame(d: &[u8]) -> (r: Option<(Address, Vec<u8>, usize)>)
    ensures
        match r {
            None => udp_frame_end(d@) is None,
            Some((addr, payload, n)) => udp_frame_end(d@) == Some(n as int) && socks_addr_names(d@, addr)
                && payload@ == d@.subrange(socks_addr_end(d@)->Some_0 + 4, n as int),
        },
{
    let (addr, e) = match parse_socks_addr(d) {
        Some(x) => x,
        None => return None,
    };
    if d.len() < e + 4 {
        return None;
    }
    let len = (d[e] as usize) * 256 + (d[e + 1] as usize);
    if d.len() < e + 4 + len {
        return None;
    }
    let payload = copy_range(d, e + 4, e + 4 + len);
    Some((addr, payload, e + 4 + len))
}

/// The bytes a SOCKS5-style address occupies, read back, name it.
pub proof fn lemma_socks_addr_roundtrip(addr: Address, rest: Seq<u8>)
    requires
        match addr {
            Address::Domain(s, _) => encode_utf8(s@).len() < 256,
            _ => true,
        },
    ensures
        socks_addr_end(socks_addr_bytes(addr) + rest) == Some(socks_addr_bytes(addr).len() as int),
        socks_addr_names(socks_addr_bytes(addr) + rest, addr),
{
    let b = socks_addr_bytes(addr);
    let d = b + rest;
    assert(crate::bytes_util::pow256(2) == 65536) by {
        reveal_with_fuel(crate::bytes_util::pow256, 3);
    }
    crate::bytes_util::lemma_be_len(addr.spec_port() as nat, 2);
    match addr {
        Address::Ip(IpAddr::V4(o), p) => {
            assert(d.subrange(1, 5) =~= o@);
            crate::bytes_util::lemma_be_roundtrip(p as nat, 2);
            assert(be_bytes(p as nat, 2) =~= seq![d[5], d[6]]);
            reveal_with_fuel(crate::bytes_util::be_value, 3);
        },
        Address::Ip(IpAddr::V6(o), p) => {
            assert(d.subrange(1, 17) =~= o@);
            crate::bytes_util::lemma_be_roundtrip(p as nat, 2);
            assert(be_bytes(p as nat, 2) =~= seq![d[17], d[18]]);
            reveal_with_fuel(crate::bytes_util::be_value, 3);
        },
        Address::Domain(s, p) => {
            let e = encode_utf8(s@);
            assert(d.subrange(2, 2 + e.len() as int) =~= e);
            vstd::utf8::encode_utf8_valid_utf8(s@);
            vstd::utf8::encode_utf8_decode_utf8(s@);
            crate::bytes_util::lemma_be_roundtrip(p as nat, 2);
            assert(be_bytes(p as nat, 2) =~= seq![d[2 + e.len() as int], d[2 + e.len() as int + 1]]);
            reveal_with_fuel(crate::bytes_util::be_value, 3);
        },
    }
}

/// Reading back a UDP frame gives the address and payload that were framed (for a
/// payload shorter than 65536 bytes and a domain shorter than 256 bytes).
pub proof fn lemma_udp_frame_roundtrip(addr: Address, payload: Seq<u8>)
    requires
        payload.len() < 65536,
        match addr {
            Address::Domain(s, _) => encode_utf8(s@).len() < 256,
            _ => true,
        },
    ensures
        udp_frame_end(udp_frame_spec(addr, payload)) == Some(udp_frame_spec(addr, payload).len() as int),
        socks_addr_names(udp_frame_spec(addr, payload), addr),
        udp_frame_spec(addr, payload).subrange(socks_addr_bytes(addr).len() as int + 4, udp_frame_spec(addr, payload).len() as int) == payload,
{
    let a = socks_addr_bytes(addr);
    let rest = be_bytes(payload.len() as nat, 2) + seq![13u8, 10u8] + payload;
    let f = udp_frame_spec(addr, payload);
    assert(f =~= a + rest);
    assert(crate::bytes_util::pow256(2) == 65536) by {
        reveal_with_fuel(crate::bytes_util::pow256, 3);
    }
    lemma_socks_addr_roundtrip(addr, rest);
    crate::bytes_util::lemma_be_roundtrip(payload.len() as nat, 2);
    crate::bytes_util::lemma_be_len(payload.len() as nat, 2);
    let lb = be_bytes(payload.len() as nat, 2);
    assert(f[a.len() as int] == lb[0] && f[a.len() as int + 1] == lb[1]);
    reveal_with_fuel(crate::bytes_util::be_value, 3);
    assert(f.subrange(a.len() as int + 4, f.len() as int) =~= payload);
}

} // verus!
