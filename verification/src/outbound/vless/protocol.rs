//! The VLESS request header, response header and UDP framing.

use vstd::prelude::*;
use vstd::utf8::encode_utf8;

use crate::address::{push_all, Address, IpAddr};
use crate::bytes_util::{be_bytes, push_be};

verus! {

/// Command byte of a TCP request.
pub const CMD_TCP: u8 = 0x01;

/// Command byte of a UDP request.
pub const CMD_UDP: u8 = 0x02;

/// The protobuf addons that name a flow: field 1, length-delimited, the flow's bytes;
/// nothing without a flow or with an empty one.
pub open spec fn addons_spec(flow: Option<Seq<char>>) -> Seq<u8> {
    match flow {
        Some(f) => if f.len() > 0 {
            seq![0x0Au8, (encode_utf8(f).len() % 256) as u8] + encode_utf8(f)
        } else {
            Seq::empty()
        },
        None => Seq::empty(),
    }
}

pub open spec fn opt_str_view(flow: Option<&str>) -> Option<Seq<char>> {
    match flow {
        Some(f) => Some(f@),
        None => None,
    }
}

pub fn encode_addons(flow: Option<&str>) -> (r: Vec<u8>)
    ensures
        r@ == addons_spec(opt_str_view(flow)),
{
    let mut buf: Vec<u8> = Vec::new();
    match flow {
        Some(f) => {
            let b = f.as_bytes();
            if b.len() > 0 {
                buf.push(0x0A);
                buf.push((b.len() % 256) as u8);
                push_all(&mut buf, b);
                proof {
                    assert(buf@ =~= seq![0x0Au8, (encode_utf8(f@).len() % 256) as u8] + encode_utf8(f@));
                }
            } else {
                proof {
                    assert(f@.len() == 0) by {
                        vstd::utf8::encode_utf8_decode_utf8(f@);
                        if f@.len() > 0 {
                            assert(vstd::utf8::decode_utf8(encode_utf8(f@)) =~= Seq::<char>::empty());
                        }
                    }
                }
            }
        },
        None => {},
    }
    buf
}

/// The address as VLESS writes it after the port: 1 and four bytes for IPv4, 2, a
/// length byte and the name for a domain, 3 and sixteen bytes for IPv6.
pub open spec fn vless_addr_bytes(addr: Address) -> Seq<u8> {
    match addr {
        Address::Ip(IpAddr::V4(o), _) => seq![1u8] + o@,
        Address::Ip(IpAddr::V6(o), _) => seq![3u8] + o@,
        Address::Domain(d, _) => seq![2u8, (encode_utf8(d@).len() % 256) as u8] + encode_utf8(d@),
    }
}

/// The request header: version 0, the user id, the addons with their length, the
/// command, the big-endian port and the address.
pub open spec fn request_spec(uuid: Seq<u8>, target: Address, flow: Option<Seq<char>>, command: u8) -> Seq<u8> {
    let addons = addons_spec(flow);
    seq![0u8] + uuid + seq![(addons.len() % 256) as u8] + addons + seq![command]
        + be_bytes(target.spec_port() as nat, 2) + vless_addr_bytes(target)
}

/// For every target the two bytes after the command byte are the target's port in
/// big-endian order; the command byte follows the version, the 16-byte user id,
/// the addons length and the addons.
pub proof fn lemma_request_port_big_endian(uuid: Seq<u8>, target: Address, flow: Option<Seq<char>>, command: u8)
    requires
        uuid.len() == 16,
    ensures
        ({
            let r = request_spec(uuid, target, flow, command);
            let a = addons_spec(flow).len() as int;
            let p = target.spec_port();
            &&& r[18 + a] == command
            &&& r[19 + a] == (p / 256) as u8
            &&& r[20 + a] == (p % 256) as u8
        }),
{
    reveal_with_fuel(be_bytes, 5);
    let p = target.spec_port();
    assert(be_bytes(p as nat, 2) =~= seq![(p / 256) as u8, (p % 256) as u8]);
    let addons = addons_spec(flow);
    let a = addons.len() as int;
    let head = seq![0u8] + uuid + seq![(addons.len() % 256) as u8] + addons + seq![command];
    let r = request_spec(uuid, target, flow, command);
    assert(r == head + seq![(p / 256) as u8, (p % 256) as u8] + vless_addr_bytes(target));
    assert(head.len() == 19 + a);
    assert(r[18 + a] == head[18 + a]);
}

/// A request without a flow for the IPv6 target `o` port `p`: 38 bytes, with the
/// port big-endian at bytes 19 and 20 (so 443 gives `0x01 0xBB`), the type 3 at
/// byte 21 and the sixteen octets after it.
pub proof fn lemma_request_ipv6_layout(uuid: Seq<u8>, o: [u8; 16], p: u16, command: u8)
    requires
        uuid.len() == 16,
    ensures
        ({
            let r = request_spec(uuid, Address::Ip(IpAddr::V6(o), p), None, command);
            &&& r.len() == 38
            &&& r[18] == command
            &&& r.subrange(19, 21) == seq![(p / 256) as u8, (p % 256) as u8]
            &&& r[21] == 3u8
            &&& r.subrange(22, 38) == o@
        }),
{
    reveal_with_fuel(be_bytes, 5);
    assert(be_bytes(p as nat, 2) =~= seq![(p / 256) as u8, (p % 256) as u8]);
    let t = Address::Ip(IpAddr::V6(o), p);
    let r = request_spec(uuid, t, None, command);
    assert(addons_spec(None).len() == 0);
    assert(r =~= seq![0u8] + uuid + seq![0u8] + seq![command] + seq![(p / 256) as u8, (p % 256) as u8] + seq![3u8] + o@);
    assert(r.subrange(19, 21) =~= seq![(p / 256) as u8, (p % 256) as u8]);
    assert(r.subrange(22, 38) =~= o@);
}

/// A request is the version 0, the 16-byte user id, the addons length and addons,
/// the command, the port in big-endian order, and the target: type 1 and the four
/// octets for IPv4, type 3 and the sixteen octets for IPv6, or type 2, the name's
/// length and the name for a domain. Without a flow there are no addons.
pub proof fn lemma_request_layout(uuid: Seq<u8>, target: Address, flow: Option<Seq<char>>, command: u8)
    requires
        uuid.len() == 16,
    ensures
        ({
            let p = target.spec_port();
            let addons = addons_spec(flow);
            &&& flow is None ==> addons.len() == 0
            &&& request_spec(uuid, target, flow, command) == seq![0u8] + uuid + seq![(addons.len() % 256) as u8]
                + addons + seq![command, (p / 256) as u8, (p % 256) as u8] + (match target {
                    Address::Ip(IpAddr::V4(o), _) => seq![1u8] + o@,
                    Address::Ip(IpAddr::V6(o), _) => seq![3u8] + o@,
                    Address::Domain(d, _) => seq![2u8, (encode_utf8(d@).len() % 256) as u8] + encode_utf8(d@),
                })
        }),
{
    reveal_with_fuel(be_bytes, 5);
    let p = target.spec_port();
    assert(be_bytes(p as nat, 2) =~= seq![(p / 256) as u8, (p % 256) as u8]);
    let addons = addons_spec(flow);
    assert(seq![command] + seq![(p / 256) as u8, (p % 256) as u8] =~= seq![command, (p / 256) as u8, (p % 256) as u8]);
    assert(request_spec(uuid, target, flow, command) =~= seq![0u8] + uuid + seq![(addons.len() % 256) as u8]
        + addons + seq![command, (p / 256) as u8, (p % 256) as u8] + vless_addr_bytes(target));
}

/// The bytes that open a VLESS request.
pub fn request_bytes(uuid: &[u8; 16], target: &Address, flow: Option<&str>, command: u8) -> (r: Vec<u8>)
    ensures
        r@ == request_spec(uuid@, *target, opt_str_view(flow), command),
{
    let mut buf: Vec<u8> = Vec::new();
    buf.push(0x00);
    push_all(&mut buf, uuid.as_slice());
    let addons = encode_addons(flow);
    buf.push((addons.len() % 256) as u8);
    push_all(&mut buf, addons.as_slice());
    buf.push(command);
    push_be(&mut buf, target.port() as u64, 2);
    let ghost mid = buf@;
    match target {
        Address::Ip(IpAddr::V4(o), _) => {
            buf.push(1);
            push_all(&mut buf, o);
        },
        Address::Ip(IpAddr::V6(o), _) => {
            buf.push(3);
            push_all(&mut buf, o);
        },
        Address::Domain(d, _) => {
            let b = d.as_str().as_bytes();
            buf.push(2);
            buf.push((b.len() % 256) as u8);
            push_all(&mut buf, b);
        },
    }
    proof {
        assert(buf@ =~= mid + vless_addr_bytes(*target));
        assert(buf@ =~= request_spec(uuid@, *target, opt_str_view(flow), command));
    }
    buf
}

/// A UDP payload framed with its 16-bit big-endian length.
pub fn udp_frame(data: &[u8]) -> (r: Vec<u8>)
    ensures
        r@ == be_bytes((data@.len() % 65536) as nat, 2) + data@,
{
    let mut buf: Vec<u8> = Vec::new();
    push_be(&mut buf, (data.len() % 65536) as u64, 2);
    push_all(&mut buf, data);
    buf
}

/// The payload length announced by a UDP frame; an empty frame is refused.
pub fn check_udp_frame_len(len: u16) -> (r: Result<usize, &'static str>)
    ensures
        match r {
            Ok(n) => len > 0 && n == len,
            Err(_) => len == 0,
        },
{
    if len == 0 {
        Err("VLESS UDP frame with zero length")
    } else {
        Ok(len as usize)
    }
}

/// The response must start with version 0.
pub fn check_response_version(version: u8) -> (r: Result<(), &'static str>)
    ensures
        r is Ok <==> version == 0,
{
    if version != 0 {
        Err("unexpected VLESS response version")
    } else {
        Ok(())
    }
}

} // verus!
