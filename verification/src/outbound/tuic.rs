//! TUIC v5: command frames, the settings of the outbound and the parsing of
//! incoming UDP datagrams.

use vstd::prelude::*;
use vstd::utf8::encode_utf8;

use crate::address::{push_all, Address, IpAddr};
use crate::bytes_util::{be_bytes, copy_range, push_be};
use crate::config::{opt_view, OutboundConfig};
use crate::crypto::{hmac_sha256, hmac_sha256_tag, parse_uuid, uuid_bytes_of};
use crate::netaddr::{ipv4_of, ipv4_text, ipv4_to_string, ipv6_of, ipv6_text, ipv6_to_string, parse_ipv4, parse_ipv6};
use crate::text::{string_from_utf8_lossy, utf8_lossy};
use crate::text::{lower, lower_eq};
use vstd::slice::slice_to_vec;

verus! {

/// The protocol version.
pub const TUIC_VERSION: u8 = 0x05;

/// The command of a frame.
#[derive(Debug, Clone, Copy, PartialEq, Eq, Structural)]
pub enum TuicCommand {
    Authenticate,
    Connect,
    Packet,
    Dissociate,
    Heartbeat,
}

impl TuicCommand {
    pub open spec fn spec_byte(self) -> u8 {
        match self {
            TuicCommand::Authenticate => 0x00,
            TuicCommand::Connect => 0x01,
            TuicCommand::Packet => 0x02,
            TuicCommand::Dissociate => 0x03,
            TuicCommand::Heartbeat => 0x04,
        }
    }

    /// The command of a byte; bytes above 4 name none.
    pub fn from_byte(b: u8) -> (r: Option<Self>)
        ensures
            r is Some <==> b <= 4,
            r matches Some(c) ==> c.spec_byte() == b,
    {
        match b {
            0x00 => Some(TuicCommand::Authenticate),
            0x01 => Some(TuicCommand::Connect),
            0x02 => Some(TuicCommand::Packet),
            0x03 => Some(TuicCommand::Dissociate),
            0x04 => Some(TuicCommand::Heartbeat),
            _ => None,
        }
    }
}

/// The kind of address in a frame.
#[derive(Debug, Clone, Copy, PartialEq, Eq, Structural)]
pub enum TuicAddrType {
    Domain,
    Ipv4,
    Ipv6,
    /// No address (wire code 0xFF).
    NoAddr,
}

impl TuicAddrType {
    pub open spec fn spec_byte(self) -> u8 {
        match self {
            TuicAddrType::Domain => 0x00,
            TuicAddrType::Ipv4 => 0x01,
            TuicAddrType::Ipv6 => 0x02,
            TuicAddrType::NoAddr => 0xFF,
        }
    }
}

/// The authentication frame: the user id and the token.
#[derive(Debug, Clone)]
pub struct AuthenticateFrame {
    pub uuid: [u8; 16],
    pub token: Vec<u8>,
}

/// An authentication frame's bytes: command 0, the id, the token.
pub open spec fn auth_bytes(uuid: Seq<u8>, token: Seq<u8>) -> Seq<u8> {
    seq![0u8] + uuid + token
}

impl AuthenticateFrame {
    pub fn encode(&self) -> (r: Vec<u8>)
        ensures
            r@ == auth_bytes(self.uuid@, self.token@),
    {
        let mut buf: Vec<u8> = Vec::new();
        buf.push(0x00);
        push_all(&mut buf, self.uuid.as_slice());
        push_all(&mut buf, self.token.as_slice());
        buf
    }

    /// Reads the id from bytes 1 to 17 and the token from the rest; fewer than 17
    /// bytes are refused.
    pub fn decode(data: &[u8]) -> (r: Result<Self, &'static str>)
        ensures
            r is Ok <==> data@.len() >= 17,
            r matches Ok(f) ==> f.uuid@ == data@.subrange(1, 17) && f.token@ == data@.subrange(17, data@.len() as int),
    {
        if data.len() < 17 {
            return Err("TUIC auth frame too short");
        }
        let mut uuid = [0u8; 16];
        let mut i: usize = 0;
        while i < 16
            invariant
                i <= 16,
                data@.len() >= 17,
                forall|k: int| 0 <= k < i ==> uuid@[k] == data@[1 + k],
            decreases 16 - i,
        {
            uuid[i] = data[1 + i];
            i = i + 1;
        }
        proof {
            assert(uuid@ =~= data@.subrange(1, 17));
        }
        let token = copy_range(data, 17, data.len());
        Ok(AuthenticateFrame { uuid, token })
    }
}

/// Decoding an encoded authentication frame gives back its id and token.
pub proof fn lemma_auth_roundtrip(uuid: Seq<u8>, token: Seq<u8>)
    requires
        uuid.len() == 16,
    ensures
        auth_bytes(uuid, token).len() >= 17,
        auth_bytes(uuid, token).subrange(1, 17) == uuid,
        auth_bytes(uuid, token).subrange(17, auth_bytes(uuid, token).len() as int) == token,
{
    let b = auth_bytes(uuid, token);
    assert(b.subrange(1, 17) =~= uuid);
    assert(b.subrange(17, b.len() as int) =~= token);
}

/// The address part of a frame: its type byte, then a domain with its length byte
/// (the byte length modulo 256), or the IP address's bytes when the text parses.
pub open spec fn tuic_addr_bytes(t: TuicAddrType, address: Seq<char>) -> Seq<u8> {
    match t {
        TuicAddrType::Domain => seq![0u8, (encode_utf8(address).len() % 256) as u8] + encode_utf8(address),
        TuicAddrType::Ipv4 => seq![1u8] + match ipv4_of(address) {
            Some(o) => o,
            None => Seq::empty(),
        },
        TuicAddrType::Ipv6 => seq![2u8] + match ipv6_of(address) {
            Some(o) => o,
            None => Seq::empty(),
        },
        TuicAddrType::NoAddr => Seq::empty(),
    }
}

fn push_tuic_addr(buf: &mut Vec<u8>, t: TuicAddrType, address: &String)
    ensures
        final(buf)@ == old(buf)@ + tuic_addr_bytes(t, address@),
{
    let ghost base = buf@;
    match t {
        TuicAddrType::Domain => {
            let b = address.as_str().as_bytes();
            buf.push(0x00);
            buf.push((b.len() % 256) as u8);
            push_all(buf, b);
        },
        TuicAddrType::Ipv4 => {
            buf.push(0x01);
            match parse_ipv4(address.as_str()) {
                Some(o) => push_all(buf, o.as_slice()),
                None => {},
            }
        },
        TuicAddrType::Ipv6 => {
            buf.push(0x02);
            match parse_ipv6(address.as_str()) {
                Some(o) => push_all(buf, o.as_slice()),
                None => {},
            }
        },
        TuicAddrType::NoAddr => {},
    }
    proof {
        assert(buf@ =~= base + tuic_addr_bytes(t, address@));
    }
}

/// The target of a frame as its type and text.
fn target_of(addr: &Address) -> (r: (TuicAddrType, String, u16))
    ensures
        match addr {
            Address::Ip(IpAddr::V4(o), p) => r.0 == TuicAddrType::Ipv4 && r.1@ == ipv4_text(o@) && r.2 == p,
            Address::Ip(IpAddr::V6(o), p) => r.0 == TuicAddrType::Ipv6 && r.1@ == ipv6_text(o@) && r.2 == p,
            Address::Domain(d, p) => r.0 == TuicAddrType::Domain && r.1@ == d@ && r.2 == p,
        },
{
    match addr {
        Address::Ip(IpAddr::V4(o), p) => (TuicAddrType::Ipv4, ipv4_to_string(*o), *p),
        Address::Ip(IpAddr::V6(o), p) => (TuicAddrType::Ipv6, ipv6_to_string(*o), *p),
        Address::Domain(d, p) => (TuicAddrType::Domain, d.clone(), *p),
    }
}

/// A CONNECT frame.
#[derive(Debug, Clone)]
pub struct ConnectFrame {
    pub addr_type: TuicAddrType,
    pub address: String,
    pub port: u16,
}

impl ConnectFrame {
    /// Command 1, the address, the big-endian port.
    pub fn encode(&self) -> (r: Vec<u8>)
        ensures
            r@ == seq![1u8] + tuic_addr_bytes(self.addr_type, self.address@) + be_bytes(self.port as nat, 2),
    {
        let mut buf: Vec<u8> = Vec::new();
        buf.push(0x01);
        push_tuic_addr(&mut buf, self.addr_type, &self.address);
        push_be(&mut buf, self.port as u64, 2);
        buf
    }

    pub fn from_address(addr: &Address) -> (r: Self)
        ensures
            match addr {
                Address::Ip(IpAddr::V4(o), p) => r.addr_type == TuicAddrType::Ipv4 && r.address@ == ipv4_text(o@) && r.port == p,
                Address::Ip(IpAddr::V6(o), p) => r.addr_type == TuicAddrType::Ipv6 && r.address@ == ipv6_text(o@) && r.port == p,
                Address::Domain(d, p) => r.addr_type == TuicAddrType::Domain && r.address@ == d@ && r.port == p,
            },
    {
        let (addr_type, address, port) = target_of(addr);
        ConnectFrame { addr_type, address, port }
    }
}

/// A PACKET frame carrying one UDP datagram (or a fragment of one).
#[derive(Debug, Clone)]
pub struct PacketFrame {
    pub assoc_id: u16,
    pub frag_id: u8,
    pub frag_total: u8,
    pub size: u16,
    pub addr_type: TuicAddrType,
    pub address: String,
    pub port: u16,
    pub payload: Vec<u8>,
}

impl PacketFrame {
    /// Command 2, association id, fragment id and count, size, address, port, payload.
    pub fn encode(&self) -> (r: Vec<u8>)
        ensures
            r@ == seq![2u8] + be_bytes(self.assoc_id as nat, 2) + seq![self.frag_id, self.frag_total]
                + be_bytes(self.size as nat, 2) + tuic_addr_bytes(self.addr_type, self.address@)
                + be_bytes(self.port as nat, 2) + self.payload@,
    {
        let mut buf: Vec<u8> = Vec::new();
        buf.push(0x02);
        push_be(&mut buf, self.assoc_id as u64, 2);
        buf.push(self.frag_id);
        buf.push(self.frag_total);
        push_be(&mut buf, self.size as u64, 2);
        push_tuic_addr(&mut buf, self.addr_type, &self.address);
        push_be(&mut buf, self.port as u64, 2);
        push_all(&mut buf, self.payload.as_slice());
        proof {
            assert(buf@ =~= seq![2u8] + be_bytes(self.assoc_id as nat, 2) + seq![self.frag_id, self.frag_total]
                + be_bytes(self.size as nat, 2) + tuic_addr_bytes(self.addr_type, self.address@)
                + be_bytes(self.port as nat, 2) + self.payload@);
        }
        buf
    }

    /// One unfragmented datagram; the size is the payload's length modulo 65536.
    pub fn new_single(assoc_id: u16, addr: &Address, payload: &[u8]) -> (r: Self)
        ensures
            r.assoc_id == assoc_id,
            r.frag_id == 0,
            r.frag_total == 1,
            r.size == payload@.len() % 65536,
            r.payload@ == payload@,
            match addr {
                Address::Ip(IpAddr::V4(o), p) => r.addr_type == TuicAddrType::Ipv4 && r.address@ == ipv4_text(o@) && r.port == p,
                Address::Ip(IpAddr::V6(o), p) => r.addr_type == TuicAddrType::Ipv6 && r.address@ == ipv6_text(o@) && r.port == p,
                Address::Domain(d, p) => r.addr_type == TuicAddrType::Domain && r.address@ == d@ && r.port == p,
            },
    {
        let (addr_type, address, port) = target_of(addr);
        PacketFrame {
            assoc_id,
            frag_id: 0,
            frag_total: 1,
            size: (payload.len() % 65536) as u16,
            addr_type,
            address,
            port,
            payload: slice_to_vec(payload),
        }
    }
}

/// QUIC congestion control.
#[derive(Debug, Clone, Copy, PartialEq, Eq, Structural)]
pub enum CongestionControl {
    Cubic,
    NewReno,
    Bbr,
}

/// The algorithm a configuration string names, case-insensitively; Cubic otherwise.
pub open spec fn congestion_of(s: Seq<char>) -> CongestionControl {
    let l = lower(s);
    if l == "bbr"@ {
        CongestionControl::Bbr
    } else if l == "new_reno"@ || l == "newreno"@ {
        CongestionControl::NewReno
    } else {
        CongestionControl::Cubic
    }
}

impl CongestionControl {
    pub fn from_str(s: &str) -> (r: Self)
        ensures
            r == congestion_of(s@),
    {
        if lower_eq(s, "bbr") {
            CongestionControl::Bbr
        } else if lower_eq(s, "new_reno") || lower_eq(s, "newreno") {
            CongestionControl::NewReno
        } else {
            CongestionControl::Cubic
        }
    }
}

/// The token: HMAC-SHA256 of the user id under the password.
pub fn compute_tuic_token(uuid: &[u8; 16], password: &str) -> (r: Vec<u8>)
    ensures
        r@ == hmac_sha256_tag(encode_utf8(password@), uuid@),
{
    let tag = hmac_sha256(password.as_bytes(), uuid.as_slice());
    slice_to_vec(tag.as_slice())
}

/// The 16 bytes of a UUID string.
pub fn parse_uuid_bytes(uuid_str: &str) -> (r: Result<[u8; 16], &'static str>)
    ensures
        match r {
            Ok(b) => uuid_bytes_of(uuid_str@) == Some(b@),
            Err(_) => uuid_bytes_of(uuid_str@) is None,
        },
{
    match parse_uuid(uuid_str) {
        Some(b) => Ok(b),
        None => Err("invalid uuid"),
    }
}

/// What the connection to a TUIC server is made with, and whether it has
/// authenticated.
pub struct TuicConnectionManager {
    pub server_addr: String,
    pub server_port: u16,
    pub sni: String,
    pub allow_insecure: bool,
    pub uuid: [u8; 16],
    pub password: String,
    pub congestion: CongestionControl,
    pub authenticated: bool,
}

impl TuicConnectionManager {
    pub fn new(
        server_addr: String,
        server_port: u16,
        sni: String,
        allow_insecure: bool,
        uuid: [u8; 16],
        password: String,
        congestion: CongestionControl,
    ) -> (r: Result<Self, &'static str>)
        ensures
            r matches Ok(m) && m.server_addr@ == server_addr@ && m.server_port == server_port && m.sni@ == sni@
                && m.allow_insecure == allow_insecure && m.uuid == uuid && m.password@ == password@
                && m.congestion == congestion && !m.authenticated,
    {
        Ok(TuicConnectionManager { server_addr, server_port, sni, allow_insecure, uuid, password, congestion, authenticated: false })
    }

    pub fn mark_authenticated(&mut self)
        ensures
            final(self).authenticated,
            final(self).uuid == old(self).uuid,
            final(self).server_port == old(self).server_port,
    {
        self.authenticated = true;
    }

    pub fn is_authenticated(&self) -> (r: bool)
        ensures
            r == self.authenticated,
    {
        self.authenticated
    }

    /// The authentication frame of this user.
    pub fn auth_frame(&self) -> (r: AuthenticateFrame)
        ensures
            r.uuid == self.uuid,
            r.token@ == hmac_sha256_tag(encode_utf8(self.password@), self.uuid@),
    {
        AuthenticateFrame { uuid: self.uuid, token: compute_tuic_token(&self.uuid, self.password.as_str()) }
    }
}

/// A TUIC v5 outbound.
pub struct TuicOutbound {
    pub tag: String,
    pub manager: TuicConnectionManager,
}

impl TuicOutbound {
    /// Needs an address, a port, a user id that parses and a password; the SNI
    /// defaults to the address, congestion control to Cubic.
    pub fn new(config: &OutboundConfig) -> (r: Result<Self, &'static str>)
        ensures
            ({
                let s = config.settings;
                &&& r is Ok <==> (s.address is Some && s.port is Some && s.password is Some
                    && (s.uuid matches Some(u) && uuid_bytes_of(u@) is Some))
                &&& r matches Ok(o) ==> {
                    &&& o.tag@ == config.tag@
                    &&& o.manager.server_addr@ == s.address->Some_0@
                    &&& o.manager.server_port == s.port->Some_0
                    &&& o.manager.sni@ == (match s.sni {
                        Some(x) => x@,
                        None => s.address->Some_0@,
                    })
                    &&& o.manager.allow_insecure == s.allow_insecure
                    &&& uuid_bytes_of(s.uuid->Some_0@) == Some(o.manager.uuid@)
                    &&& o.manager.password@ == s.password->Some_0@
                    &&& o.manager.congestion == (match s.congestion_control {
                        Some(c) => congestion_of(c@),
                        None => CongestionControl::Cubic,
                    })
                    &&& !o.manager.authenticated
                }
            }),
    {
        let settings = &config.settings;
        let address = match &settings.address {
            Some(a) => a,
            None => return Err("tuic: address is required"),
        };
        let port = match settings.port {
            Some(p) => p,
            None => return Err("tuic: port is required"),
        };
        let uuid_str = match &settings.uuid {
            Some(u) => u,
            None => return Err("tuic: uuid is required"),
        };
        let password = match &settings.password {
            Some(p) => p,
            None => return Err("tuic: password is required"),
        };
        let sni = match &settings.sni {
            Some(s) => s.clone(),
            None => address.clone(),
        };
        let congestion = match &settings.congestion_control {
            Some(c) => CongestionControl::from_str(c.as_str()),
            None => CongestionControl::Cubic,
        };
        let uuid = match parse_uuid_bytes(uuid_str.as_str()) {
            Ok(u) => u,
            Err(e) => return Err(e),
        };
        let manager = match TuicConnectionManager::new(address.clone(), port, sni, settings.allow_insecure, uuid, password.clone(), congestion) {
            Ok(m) => m,
            Err(e) => return Err(e),
        };
        Ok(TuicOutbound { tag: config.tag.clone(), manager })
    }

    pub fn tag(&self) -> (r: &str)
        ensures
            r@ == self.tag@,
    {
        self.tag.as_str()
    }
}

/// Where the payload of a datagram for association `assoc` starts, when the
/// datagram is a well-formed PACKET frame for it; `None` when it is to be skipped.
pub open spec fn packet_payload_start(d: Seq<u8>, assoc: u16) -> Option<int> {
    if d.len() < 8 || d[0] != 0x02 || d[1] as int * 256 + d[2] as int != assoc as int {
        None
    } else {
        let size = d[5] as int * 256 + d[6] as int;
        let start: Option<int> = if d[7] == 0 {
            if d.len() < 9 {
                None
            } else if d.len() < 9 + d[8] as int + 2 {
                None
            } else {
                Some(9 + d[8] as int + 2)
            }
        } else if d[7] == 1 {
            if d.len() < 14 { None } else { Some(14) }
        } else if d[7] == 2 {
            if d.len() < 26 { None } else { Some(26) }
        } else {
            None
        };
        match start {
            Some(s) => if d.len() < s + size { None } else { Some(s) },
            None => None,
        }
    }
}

/// The sender's address that a PACKET frame names.
pub open spec fn packet_source(d: Seq<u8>, addr: Address) -> bool {
    if d[7] == 0 {
        let end = 9 + d[8] as int;
        addr matches Address::Domain(s, p) && s@ == utf8_lossy(d.subrange(9, end))
            && p as int == d[end] as int * 256 + d[end + 1] as int
    } else if d[7] == 1 {
        addr matches Address::Ip(IpAddr::V4(o), p) && o@ == d.subrange(8, 12) && p as int == d[12] as int * 256 + d[13] as int
    } else {
        addr matches Address::Ip(IpAddr::V6(o), p) && o@ == d.subrange(8, 24) && p as int == d[24] as int * 256 + d[25] as int
    }
}

fn read_array4(d: &[u8], at: usize) -> (r: [u8; 4])
    requires
        at + 4 <= d@.len(),
    ensures
        r@ == d@.subrange(at as int, at + 4),
{
    let r = [d[at], d[at + 1], d[at + 2], d[at + 3]];
    proof {
        assert(r@ =~= d@.subrange(at as int, at + 4));
    }
    r
}

fn read_array16(d: &[u8], at: usize) -> (r: [u8; 16])
    requires
        at + 16 <= d@.len(),
    ensures
        r@ == d@.subrange(at as int, at + 16),
{
    let mut r = [0u8; 16];
    let len = d.len();
    let mut i: usize = 0;
    while i < 16
        invariant
            i <= 16,
            len == d@.len(),
            at + 16 <= d@.len(),
            forall|k: int| 0 <= k < i ==> r@[k] == d@[at + k],
        decreases 16 - i,
    {
        r[i] = d[at + i];
        i = i + 1;
    }
    proof {
        assert(r@ =~= d@.subrange(at as int, at + 16));
    }
    r
}

/// Reads one datagram of the association: the sender's address and the payload of
/// the announced size; `None` for anything else, which the receiver skips.
pub fn parse_packet_datagram(d: &[u8], assoc_id: u16) -> (r: Option<(Address, Vec<u8>)>)
    ensures
        match r {
            None => packet_payload_start(d@, assoc_id) is None,
            Some((addr, payload)) => packet_payload_start(d@, assoc_id) matches Some(s) && packet_source(d@, addr)
                && payload@ == d@.subrange(s, s + d@[5] as int * 256 + d@[6] as int),
        },
{
    if d.len() < 8 || d[0] != 0x02 {
        return None;
    }
    let assoc = (d[1] as u16) * 256 + (d[2] as u16);
    if assoc != assoc_id {
        return None;
    }
    let size = (d[5] as usize) * 256 + (d[6] as usize);
    let addr_type = d[7];
    let (addr, start) = if addr_type == 0 {
        if d.len() < 9 {
            return None;
        }
        let domain_len = d[8] as usize;
        let domain_end = 9 + domain_len;
        if d.len() < domain_end + 2 {
            return None;
        }
        let domain = string_from_utf8_lossy(copy_range(d, 9, domain_end).as_slice());
        let port = (d[domain_end] as u16) * 256 + (d[domain_end + 1] as u16);
        (Address::Domain(domain, port), domain_end + 2)
    } else if addr_type == 1 {
        if d.len() < 14 {
            return None;
        }
        let o = read_array4(d, 8);
        let port = (d[12] as u16) * 256 + (d[13] as u16);
        (Address::Ip(IpAddr::V4(o), port), 14)
    } else if addr_type == 2 {
        if d.len() < 26 {
            return None;
        }
        let o = read_array16(d, 8);
        let port = (d[24] as u16) * 256 + (d[25] as u16);
        (Address::Ip(IpAddr::V6(o), port), 26)
    } else {
        return None;
    };
    if d.len() < start + size {
        return None;
    }
    let payload = copy_range(d, start, start + size);
    Some((addr, payload))
}

} // verus!
