use std::collections::VecDeque;

use vstd::prelude::*;

use crate::address::{push_all, IpAddr};
use crate::bytes_util::{be_bytes, occurs_in, find_subsequence, push_be};
use crate::varint::{push_varint, read_varint, varint_decoding, varint_encoding};
use crate::config::{opt_view, OutboundConfig, OutboundSettings};
use crate::crypto::base64_standard_decode;
use crate::netaddr::{ipv4_of, ipv6_of, parse_ipv4, parse_ipv6};

verus! {

// ─── CONNECT-IP capsules (RFC 9484) ────────────────────────────────────────

/// Capsule types of CONNECT-IP.
#[derive(Debug, Clone, Copy, PartialEq, Eq, Structural)]
pub enum CapsuleType {
    /// Assigns addresses to the client.
    AddressAssign,
    /// Requests specific addresses.
    AddressRequest,
    /// Advertises reachable routes.
    RouteAdvertisement,
}

impl CapsuleType {
    pub open spec fn spec_value(self) -> u64 {
        match self {
            CapsuleType::AddressAssign => 0x01,
            CapsuleType::AddressRequest => 0x02,
            CapsuleType::RouteAdvertisement => 0x03,
        }
    }

    /// The capsule type's code on the wire.
    pub fn value(self) -> (r: u64)
        ensures
            r == self.spec_value(),
    {
        match self {
            CapsuleType::AddressAssign => 0x01,
            CapsuleType::AddressRequest => 0x02,
            CapsuleType::RouteAdvertisement => 0x03,
        }
    }
}

/// Appends the QUIC variable-length encoding of `value` (RFC 9000, section 16).
pub fn encode_varint(value: u64, buf: &mut Vec<u8>)
    ensures
        final(buf)@ == old(buf)@ + varint_encoding(value),
{
    push_varint(buf, value);
}

/// Reads a QUIC variable-length integer from the front of `buf` and advances `buf`
/// past it.  Fails, leaving `buf` as it was, on an empty or too short buffer.
pub fn decode_varint(buf: &mut &[u8]) -> (r: Result<u64, &'static str>)
    ensures
        match varint_decoding(old(buf)@) {
            Some((v, n)) => r == Ok::<u64, &'static str>(v) && final(buf)@ == old(buf)@.skip(
                n as int,
            ),
            None => r is Err && final(buf)@ == old(buf)@,
        },
{
    if buf.len() == 0 {
        return Err("varint: buffer empty");
    }
    match read_varint(*buf) {
        Some((v, n)) => {
            let rest = vstd::slice::slice_subrange(*buf, n, buf.len());
            proof {
                assert(rest@ =~= old(buf)@.skip(n as int));
            }
            *buf = rest;
            Ok(v)
        },
        None => Err("varint: buffer too short"),
    }
}

/// Appends a capsule: varint type, varint payload length, payload.
pub fn encode_capsule(capsule_type: u64, payload: &[u8], buf: &mut Vec<u8>)
    ensures
        final(buf)@ == old(buf)@ + varint_encoding(capsule_type) + varint_encoding(
            payload@.len() as u64,
        ) + payload@,
{
    push_varint(buf, capsule_type);
    push_varint(buf, payload.len() as u64);
    let ghost base = buf@;
    let mut i: usize = 0;
    while i < payload.len()
        invariant
            i <= payload@.len(),
            buf@ == base + payload@.subrange(0, i as int),
        decreases payload@.len() - i,
    {
        buf.push(payload[i]);
        i = i + 1;
        proof {
            assert(buf@ =~= base + payload@.subrange(0, i as int));
        }
    }
    proof {
        assert(payload@.subrange(0, payload@.len() as int) =~= payload@);
    }
}

/// A route: an IP protocol (0 for all) and a range of addresses.
#[derive(Debug, Clone, Copy)]
pub struct IpRoute {
    pub ip_protocol: u8,
    pub start_ip: IpAddr,
    pub end_ip: IpAddr,
}

/// An address on the wire: its length in two bytes (4 or 16), then its bytes.
pub open spec fn route_addr_bytes(a: IpAddr) -> Seq<u8> {
    match a {
        IpAddr::V4(o) => be_bytes(4, 2) + o@,
        IpAddr::V6(o) => be_bytes(16, 2) + o@,
    }
}

/// A route on the wire: the protocol byte, then the start and end addresses.
pub open spec fn route_bytes(r: IpRoute) -> Seq<u8> {
    seq![r.ip_protocol] + route_addr_bytes(r.start_ip) + route_addr_bytes(r.end_ip)
}

/// The routes on the wire, one after another.
pub open spec fn routes_bytes(rs: Seq<IpRoute>) -> Seq<u8>
    decreases rs.len(),
{
    if rs.len() == 0 {
        Seq::empty()
    } else {
        routes_bytes(rs.drop_last()) + route_bytes(rs.last())
    }
}

fn push_route_addr(buf: &mut Vec<u8>, a: &IpAddr)
    ensures
        final(buf)@ == old(buf)@ + route_addr_bytes(*a),
{
    match a {
        IpAddr::V4(o) => {
            push_be(buf, 4, 2);
            push_all(buf, o);
        },
        IpAddr::V6(o) => {
            push_be(buf, 16, 2);
            push_all(buf, o);
        },
    }
}

impl IpRoute {
    /// Every IPv4 address, every protocol.
    pub fn all_ipv4() -> (r: Self)
        ensures
            r.ip_protocol == 0,
            r.start_ip matches IpAddr::V4(o) && o@ == seq![0u8, 0, 0, 0],
            r.end_ip matches IpAddr::V4(o) && o@ == seq![255u8, 255, 255, 255],
    {
        let r = IpRoute { ip_protocol: 0, start_ip: IpAddr::V4([0u8; 4]), end_ip: IpAddr::V4([255u8; 4]) };
        proof {
            assert(r.start_ip->V4_0@ =~= seq![0u8, 0, 0, 0]);
            assert(r.end_ip->V4_0@ =~= seq![255u8, 255, 255, 255]);
        }
        r
    }

    /// Every IPv6 address, every protocol.
    pub fn all_ipv6() -> (r: Self)
        ensures
            r.ip_protocol == 0,
            r.start_ip matches IpAddr::V6(o) && o@ == Seq::new(16, |i: int| 0u8),
            r.end_ip matches IpAddr::V6(o) && o@ == Seq::new(16, |i: int| 255u8),
    {
        let r = IpRoute { ip_protocol: 0, start_ip: IpAddr::V6([0u8; 16]), end_ip: IpAddr::V6([255u8; 16]) };
        proof {
            assert(r.start_ip->V6_0@ =~= Seq::new(16, |i: int| 0u8));
            assert(r.end_ip->V6_0@ =~= Seq::new(16, |i: int| 255u8));
        }
        r
    }

    /// Appends the route's wire form.
    pub fn encode(&self, buf: &mut Vec<u8>)
        ensures
            final(buf)@ == old(buf)@ + route_bytes(*self),
    {
        let ghost base = buf@;
        buf.push(self.ip_protocol);
        push_route_addr(buf, &self.start_ip);
        push_route_addr(buf, &self.end_ip);
        proof {
            assert(buf@ =~= base + route_bytes(*self));
        }
    }
}

/// A route advertisement capsule: type 3, the length, and the routes.
pub fn encode_route_advertisement(routes: &[IpRoute]) -> (r: Vec<u8>)
    ensures
        r@ == varint_encoding(0x03) + varint_encoding(routes_bytes(routes@).len() as u64) + routes_bytes(routes@),
{
    let mut payload: Vec<u8> = Vec::new();
    let mut i: usize = 0;
    while i < routes.len()
        invariant
            i <= routes@.len(),
            payload@ == routes_bytes(routes@.subrange(0, i as int)),
        decreases routes@.len() - i,
    {
        routes[i].encode(&mut payload);
        proof {
            assert(routes@.subrange(0, i + 1).drop_last() =~= routes@.subrange(0, i as int));
        }
        i = i + 1;
    }
    proof {
        assert(routes@.subrange(0, routes@.len() as int) =~= routes@);
    }
    let mut buf: Vec<u8> = Vec::new();
    encode_capsule(CapsuleType::RouteAdvertisement.value(), payload.as_slice(), &mut buf);
    proof {
        assert(buf@ =~= varint_encoding(0x03) + varint_encoding(routes_bytes(routes@).len() as u64) + routes_bytes(routes@));
    }
    buf
}

/// Appends a context ID (0 marks a tunnelled IP packet).
pub fn encode_context_id(context_id: u64, buf: &mut Vec<u8>)
    ensures
        final(buf)@ == old(buf)@ + varint_encoding(context_id),
{
    push_varint(buf, context_id);
}

/// Wraps an IP packet as a CONNECT-IP datagram: context ID 0, then the packet.
pub fn encode_ip_datagram(ip_packet: &[u8]) -> (r: Vec<u8>)
    ensures
        r@ == varint_encoding(0) + ip_packet@,
{
    let mut buf: Vec<u8> = Vec::new();
    encode_context_id(0, &mut buf);
    let ghost base = buf@;
    let mut i: usize = 0;
    while i < ip_packet.len()
        invariant
            i <= ip_packet@.len(),
            buf@ == base + ip_packet@.subrange(0, i as int),
        decreases ip_packet@.len() - i,
    {
        buf.push(ip_packet[i]);
        i = i + 1;
        proof {
            assert(buf@ =~= base + ip_packet@.subrange(0, i as int));
        }
    }
    proof {
        assert(ip_packet@.subrange(0, ip_packet@.len() as int) =~= ip_packet@);
        assert(base =~= Seq::<u8>::empty() + varint_encoding(0));
    }
    buf
}

/// Splits a CONNECT-IP datagram into its context ID and the IP packet that follows.
pub fn decode_ip_datagram(data: &[u8]) -> (r: Result<(u64, &[u8]), &'static str>)
    ensures
        match varint_decoding(data@) {
            Some((v, n)) => r is Ok && r->Ok_0.0 == v && r->Ok_0.1@ == data@.skip(n as int),
            None => r is Err,
        },
{
    let mut rest = data;
    let ctx = decode_varint(&mut rest)?;
    Ok((ctx, rest))
}

/// An IP datagram wrapped by `encode_ip_datagram` unwraps to context 0 and the packet.
pub proof fn lemma_ip_datagram_roundtrip(packet: Seq<u8>)
    ensures
        varint_decoding(varint_encoding(0) + packet) == Some((0u64, 1nat)),
        (varint_encoding(0) + packet).skip(1) == packet,
{
    crate::varint::lemma_varint_roundtrip(0);
    let enc = varint_encoding(0);
    let all = enc + packet;
    assert(enc.len() == 1);
    assert(all[0] == enc[0]);
    assert(all.subrange(1, 1) =~= enc.subrange(1, 1));
    assert(all.skip(1) =~= packet);
}

/// The default URI of the CONNECT-IP request.
pub const DEFAULT_CONNECT_URI: &'static str = "https://cloudflareaccess.com";

/// The default SNI of the CONNECT-IP connection.
pub const DEFAULT_CONNECT_SNI: &'static str = "consumer-masque.cloudflareclient.com";

/// SETTINGS_H3_DATAGRAM_00.
pub const SETTINGS_H3_DATAGRAM_00: u64 = 0x276;

// ─── Virtual network device ────────────────────────────────────────────────

/// A virtual device between a user-space network stack and the CONNECT-IP tunnel:
/// packets from the tunnel wait in `rx_queue`, packets for the tunnel in `tx_queue`.
pub struct VirtualDevice {
    pub rx_queue: VecDeque<Vec<u8>>,
    pub tx_queue: VecDeque<Vec<u8>>,
    pub mtu: usize,
}

impl VirtualDevice {
    pub fn new(mtu: usize) -> (r: Self)
        ensures
            r.rx_queue@.len() == 0,
            r.tx_queue@.len() == 0,
            r.mtu == mtu,
    {
        VirtualDevice { rx_queue: VecDeque::new(), tx_queue: VecDeque::new(), mtu }
    }

    /// Queues a packet that arrived from the tunnel.
    pub fn inject_packet(&mut self, packet: Vec<u8>)
        ensures
            final(self).rx_queue@ == old(self).rx_queue@.push(packet),
            final(self).tx_queue@ == old(self).tx_queue@,
            final(self).mtu == old(self).mtu,
    {
        self.rx_queue.push_back(packet);
    }

    /// Takes the oldest packet waiting to go into the tunnel.
    pub fn take_packet(&mut self) -> (r: Option<Vec<u8>>)
        ensures
            old(self).tx_queue@.len() == 0 ==> r is None && final(self).tx_queue@ == old(
                self,
            ).tx_queue@,
            old(self).tx_queue@.len() > 0 ==> r == Some(old(self).tx_queue@[0])
                && final(self).tx_queue@ == old(self).tx_queue@.drop_first(),
            final(self).rx_queue@ == old(self).rx_queue@,
            final(self).mtu == old(self).mtu,
    {
        self.tx_queue.pop_front()
    }
}

/// The first port handed out, and the one after wrapping past 65535.
pub const FIRST_EPHEMERAL_PORT: u16 = 49152;

/// Hands out local ports from the counter `next`: the current value, after which the
/// counter advances; when it has wrapped to 0, 49152 is handed out and the counter
/// continues at 49153.
pub fn allocate_port(next: &mut u16) -> (r: u16)
    ensures
        *old(next) != 0 ==> r == *old(next) && *final(next) == (if *old(next) == 0xffff {
            0
        } else {
            (*old(next) + 1) as u16
        }),
        *old(next) == 0 ==> r == 49152 && *final(next) == 49153,
{
    let port = *next;
    *next = next.wrapping_add(1);
    if port == 0 {
        *next = 49153;
        49152
    } else {
        port
    }
}

// ─── Pinned-key certificate checks ─────────────────────────────────────────

/// Whether `needle` occurs contiguously in `haystack`; an empty needle always does.
pub fn contains_subsequence(haystack: &[u8], needle: &[u8]) -> (r: bool)
    ensures
        r == occurs_in(haystack@, needle@),
{
    find_subsequence(haystack, needle)
}

/// Decodes base64 DER data.
pub fn decode_base64(b64: &str) -> (r: Result<Vec<u8>, &'static str>)
    ensures
        match crate::crypto::base64_standard_decode(b64@) {
            Some(v) => r is Ok && r->Ok_0@ == v,
            None => r is Err,
        },
        (exists|i: int| 0 <= i < b64@.len() && !crate::crypto::base64_char(#[trigger] b64@[i])) ==> r is Err,
{
    match crate::crypto::base64_standard(b64) {
        Some(v) => Ok(v),
        None => Err("Failed to decode base64"),
    }
}

// ─── Settings ──────────────────────────────────────────────────────────────

/// What a MASQUE outbound is configured with.
#[derive(Debug, Clone)]
pub struct MasqueSettings {
    pub server: String,
    pub port: u16,
    pub private_key_pem: String,
    pub public_key_der: Vec<u8>,
    pub local_ipv4: Option<[u8; 4]>,
    pub local_ipv6: Option<[u8; 16]>,
    pub uri: String,
    pub sni: String,
    pub mtu: u16,
    pub congestion: String,
    pub udp: bool,
}

/// Where the first `/` of `s` is (its length when there is none).
pub open spec fn slash_at(s: Seq<char>) -> int
    decreases s.len(),
{
    if s.len() == 0 {
        0
    } else if s[0] == '/' {
        0
    } else {
        1 + slash_at(s.skip(1))
    }
}

/// The address part of `a/prefix`: the text before the first `/`.
pub open spec fn before_slash(s: Seq<char>) -> Seq<char> {
    s.take(slash_at(s))
}

/// The local IPv4 address: the address part, read as an IPv4 address.
pub open spec fn local_ipv4_of(local: Option<Seq<char>>) -> Option<Seq<u8>> {
    match local {
        Some(a) => ipv4_of(before_slash(a)),
        None => None,
    }
}

/// The local IPv6 address: for text with a `:` and no `.`, the address part read
/// as an IPv6 address.
pub open spec fn local_ipv6_of(local: Option<Seq<char>>) -> Option<Seq<u8>> {
    match local {
        Some(a) => if a.contains(':') && !a.contains('.') {
            ipv6_of(before_slash(a))
        } else {
            None
        },
        None => None,
    }
}

/// The first error of the MASQUE settings, in the order they are checked.
pub open spec fn masque_settings_error(s: OutboundSettings) -> Option<&'static str> {
    if s.address is None {
        Some("masque: address is required")
    } else if s.port is None {
        Some("masque: port is required")
    } else if s.private_key is None {
        Some("masque: private-key is required")
    } else if s.public_key is None {
        Some("masque: public-key is required")
    } else if base64_standard_decode(s.public_key->Some_0@) is None {
        Some("Failed to decode base64")
    } else {
        None
    }
}

proof fn lemma_slash_at(s: Seq<char>, i: int)
    requires
        0 <= i <= s.len(),
        forall|j: int| 0 <= j < i ==> s[j] != '/',
        i == s.len() || s[i] == '/',
    ensures
        slash_at(s) == i,
    decreases i,
{
    if i > 0 {
        let t = s.skip(1);
        assert forall|j: int| 0 <= j < i - 1 implies t[j] != '/' by {
            assert(t[j] == s[j + 1]);
        }
        if i < s.len() {
            assert(t[i - 1] == s[i]);
        }
        lemma_slash_at(t, i - 1);
    }
}

/// The text of `s` before its first `/`.
fn address_part(s: &str) -> (r: &str)
    ensures
        r@ == before_slash(s@),
{
    let v = crate::text::chars_of(s);
    let mut i: usize = 0;
    while i < v.len() && v[i] != '/'
        invariant
            v@ == s@,
            i <= v@.len(),
            forall|j: int| 0 <= j < i ==> v@[j] != '/',
        decreases v@.len() - i,
    {
        i = i + 1;
    }
    proof {
        lemma_slash_at(s@, i as int);
    }
    s.substring_char(0, i)
}

/// Whether `s` holds the character `c`.
fn has_char(s: &str, c: char) -> (r: bool)
    ensures
        r == s@.contains(c),
{
    let v = crate::text::chars_of(s);
    let mut i: usize = 0;
    while i < v.len()
        invariant
            v@ == s@,
            i <= v@.len(),
            forall|j: int| 0 <= j < i ==> v@[j] != c,
        decreases v@.len() - i,
    {
        if v[i] == c {
            return true;
        }
        i = i + 1;
    }
    false
}

/// Reads the MASQUE settings: address, port, private key and public key are
/// required and the public key must decode; the local address gives the virtual
/// IPv4 and IPv6 addresses; the SNI defaults to the connect host, the MTU to 1280
/// and the congestion control to "cubic".
pub fn masque_settings(config: &OutboundConfig) -> (r: Result<MasqueSettings, &'static str>)
    ensures
        ({
            let s = config.settings;
            match masque_settings_error(s) {
                Some(e) => r == Err::<MasqueSettings, &'static str>(e),
                None => r matches Ok(m) && {
                    &&& m.server@ == s.address->Some_0@
                    &&& m.port == s.port->Some_0
                    &&& m.private_key_pem@ == s.private_key->Some_0@
                    &&& Some(m.public_key_der@) == base64_standard_decode(s.public_key->Some_0@)
                    &&& (match local_ipv4_of(opt_view(s.local_address)) {
                        Some(o) => m.local_ipv4 matches Some(a) && a@ == o,
                        None => m.local_ipv4 is None,
                    })
                    &&& (match local_ipv6_of(opt_view(s.local_address)) {
                        Some(o) => m.local_ipv6 matches Some(a) && a@ == o,
                        None => m.local_ipv6 is None,
                    })
                    &&& m.uri@ == DEFAULT_CONNECT_URI@
                    &&& m.sni@ == (match s.sni {
                        Some(x) => x@,
                        None => DEFAULT_CONNECT_SNI@,
                    })
                    &&& m.mtu == (match s.mtu {
                        Some(x) => x,
                        None => 1280u16,
                    })
                    &&& m.congestion@ == (match s.congestion_control {
                        Some(x) => x@,
                        None => "cubic"@,
                    })
                    &&& m.udp
                },
            }
        }),
{
    let s = &config.settings;
    let server = match &s.address {
        Some(a) => a.clone(),
        None => return Err("masque: address is required"),
    };
    let port = match s.port {
        Some(p) => p,
        None => return Err("masque: port is required"),
    };
    let private_key_pem = match &s.private_key {
        Some(k) => k.clone(),
        None => return Err("masque: private-key is required"),
    };
    let public_key_b64 = match &s.public_key {
        Some(k) => k,
        None => return Err("masque: public-key is required"),
    };
    let public_key_der = match decode_base64(public_key_b64.as_str()) {
        Ok(v) => v,
        Err(_) => return Err("Failed to decode base64"),
    };
    let (local_ipv4, local_ipv6) = match &s.local_address {
        Some(a) => {
            let part = address_part(a.as_str());
            let v4 = parse_ipv4(part);
            let v6 = if has_char(a.as_str(), ':') && !has_char(a.as_str(), '.') {
                parse_ipv6(part)
            } else {
                None
            };
            (v4, v6)
        },
        None => (None, None),
    };
    let sni = match &s.sni {
        Some(x) => x.clone(),
        None => DEFAULT_CONNECT_SNI.to_owned(),
    };
    let mtu = match s.mtu {
        Some(m) => m,
        None => 1280,
    };
    let congestion = match &s.congestion_control {
        Some(c) => c.clone(),
        None => "cubic".to_owned(),
    };
    Ok(MasqueSettings {
        server,
        port,
        private_key_pem,
        public_key_der,
        local_ipv4,
        local_ipv6,
        uri: DEFAULT_CONNECT_URI.to_owned(),
        sni,
        mtu,
        congestion,
        udp: true,
    })
}

} // verus!
