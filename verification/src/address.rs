use vstd::prelude::*;
use vstd::utf8::encode_utf8;

use crate::bytes_util::{be_bytes, push_be};

verus! {

/// An IP address.
#[derive(Debug, Clone, Copy, PartialEq, Eq)]
pub enum IpAddr {
    V4([u8; 4]),
    V6([u8; 16]),
}

/// A destination: an IP address or a domain name, with a port.
#[derive(Debug, Clone)]
pub enum Address {
    Ip(IpAddr, u16),
    Domain(String, u16),
}

impl Address {
    pub open spec fn spec_port(&self) -> u16 {
        match self {
            Address::Ip(_, p) => *p,
            Address::Domain(_, p) => *p,
        }
    }

    pub fn port(&self) -> (r: u16)
        ensures
            r == self.spec_port(),
    {
        match self {
            Address::Ip(_, p) => *p,
            Address::Domain(_, p) => *p,
        }
    }

    /// A copy.
    pub fn copy(&self) -> (r: Address)
        ensures
            r.same_as(*self),
    {
        match self {
            Address::Ip(ip, p) => Address::Ip(*ip, *p),
            Address::Domain(d, p) => Address::Domain(d.clone(), *p),
        }
    }

    /// Two addresses name the same destination.
    pub open spec fn same_as(self, o: Address) -> bool {
        match (self, o) {
            (Address::Ip(a, p), Address::Ip(b, q)) => a == b && p == q,
            (Address::Domain(a, p), Address::Domain(b, q)) => a@ == b@ && p == q,
            _ => false,
        }
    }
}

/// Appends all of `src` to `out`.
pub fn push_all(out: &mut Vec<u8>, src: &[u8])
    ensures
        final(out)@ == old(out)@ + src@,
{
    let ghost base = out@;
    let mut i: usize = 0;
    while i < src.len()
        invariant
            i <= src@.len(),
            out@ == base + src@.subrange(0, i as int),
        decreases src@.len() - i,
    {
        out.push(src[i]);
        i = i + 1;
        proof {
            assert(out@ =~= base + src@.subrange(0, i as int));
        }
    }
    proof {
        assert(src@.subrange(0, src@.len() as int) =~= src@);
    }
}


/// SOCKS5-style address bytes (ATYP, address, big-endian port), as Trojan and
/// Hysteria use them: 0x01 and 4 bytes for IPv4, 0x04 and 16 bytes for IPv6, 0x03,
/// a length byte (the byte length modulo 256) and the name's bytes for a domain.
pub open spec fn socks_addr_bytes(addr: Address) -> Seq<u8> {
    match addr {
        Address::Ip(IpAddr::V4(o), p) => seq![0x01u8] + o@ + be_bytes(p as nat, 2),
        Address::Ip(IpAddr::V6(o), p) => seq![0x04u8] + o@ + be_bytes(p as nat, 2),
        Address::Domain(d, p) => seq![0x03u8, (encode_utf8(d@).len() % 256) as u8] + encode_utf8(d@)
            + be_bytes(p as nat, 2),
    }
}

/// Appends the SOCKS5-style bytes of `addr`.
pub fn push_socks_addr(out: &mut Vec<u8>, addr: &Address)
    ensures
        final(out)@ == old(out)@ + socks_addr_bytes(*addr),
{
    let ghost base = out@;
    match addr {
        Address::Ip(IpAddr::V4(o), p) => {
            out.push(0x01);
            push_all(out, o);
            push_be(out, *p as u64, 2);
            proof {
                assert(out@ =~= base + socks_addr_bytes(*addr));
            }
        },
        Address::Ip(IpAddr::V6(o), p) => {
            out.push(0x04);
            push_all(out, o);
            push_be(out, *p as u64, 2);
            proof {
                assert(out@ =~= base + socks_addr_bytes(*addr));
            }
        },
        Address::Domain(d, p) => {
            let bytes = d.as_str().as_bytes();
            out.push(0x03);
            out.push((bytes.len() % 256) as u8);
            push_all(out, bytes);
            push_be(out, *p as u64, 2);
            proof {
                assert(out@ =~= base + socks_addr_bytes(*addr));
            }
        },
    }
}

} // verus!

verus! {

/// Where a SOCKS5-style address at the start of `d` ends, if it is complete and its
/// type is known (a domain must be UTF-8).
pub open spec fn socks_addr_end(d: Seq<u8>) -> Option<int> {
    if d.len() < 1 {
        None
    } else if d[0] == 0x01 {
        if d.len() < 7 { None } else { Some(7) }
    } else if d[0] == 0x04 {
        if d.len() < 19 { None } else { Some(19) }
    } else if d[0] == 0x03 {
        if d.len() < 2 {
            None
        } else {
            let end = 2 + d[1] as int;
            if d.len() < end + 2 || !vstd::utf8::valid_utf8(d.subrange(2, end)) { None } else { Some(end + 2) }
        }
    } else {
        None
    }
}

/// `addr` is the address that the SOCKS5-style bytes at the start of `d` name.
pub open spec fn socks_addr_names(d: Seq<u8>, addr: Address) -> bool {
    if d[0] == 0x01 {
        addr matches Address::Ip(IpAddr::V4(o), p) && o@ == d.subrange(1, 5) && p as int == d[5] as int * 256 + d[6] as int
    } else if d[0] == 0x04 {
        addr matches Address::Ip(IpAddr::V6(o), p) && o@ == d.subrange(1, 17) && p as int == d[17] as int * 256 + d[18] as int
    } else {
        let end = 2 + d[1] as int;
        addr matches Address::Domain(s, p) && s@ == vstd::utf8::decode_utf8(d.subrange(2, end))
            && p as int == d[end] as int * 256 + d[end + 1] as int
    }
}

/// Reads a SOCKS5-style address from the start of `d`: the address and how many
/// bytes it took.
pub fn parse_socks_addr(d: &[u8]) -> (r: Option<(Address, usize)>)
    ensures
        match r {
            None => socks_addr_end(d@) is None,
            Some((addr, n)) => socks_addr_end(d@) == Some(n as int) && socks_addr_names(d@, addr),
        },
{
    if d.len() < 1 {
        return None;
    }
    if d[0] == 0x01 {
        if d.len() < 7 {
            return None;
        }
        let o: [u8; 4] = [d[1], d[2], d[3], d[4]];
        proof {
            assert(o@ =~= d@.subrange(1, 5));
        }
        let p = (d[5] as u16) * 256 + (d[6] as u16);
        Some((Address::Ip(IpAddr::V4(o), p), 7))
    } else if d[0] == 0x04 {
        if d.len() < 19 {
            return None;
        }
        let mut o = [0u8; 16];
        let mut i: usize = 0;
        while i < 16
            invariant
                i <= 16,
                d@.len() >= 19,
                forall|k: int| 0 <= k < i ==> o@[k] == d@[1 + k],
            decreases 16 - i,
        {
            o[i] = d[1 + i];
            i = i + 1;
        }
        proof {
            assert(o@ =~= d@.subrange(1, 17));
        }
        let p = (d[17] as u16) * 256 + (d[18] as u16);
        Some((Address::Ip(IpAddr::V6(o), p), 19))
    } else if d[0] == 0x03 {
        if d.len() < 2 {
            return None;
        }
        let end = 2 + d[1] as usize;
        if d.len() < end + 2 {
            return None;
        }
        let name = match crate::text::string_from_utf8(crate::bytes_util::copy_range(d, 2, end)) {
            Some(s) => s,
            None => return None,
        };
        let p = (d[end] as u16) * 256 + (d[end + 1] as u16);
        Some((Address::Domain(name, p), end + 2))
    } else {
        None
    }
}

} // verus!
