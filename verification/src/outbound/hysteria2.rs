use vstd::prelude::*;
use vstd::string::StringSliceAdditionalSpecFns;

use crate::bytes_util::copy_range;
use crate::config::{OutboundConfig, OutboundSettings};
use crate::varint::{push_varint, read_varint, varint_decoding, varint_encoding};

verus! {

/// Encodes `value` as a QUIC variable-length integer (1, 2, 4 or 8 bytes).
pub fn encode_varint(value: u64) -> (r: Vec<u8>)
    ensures
        r@ == varint_encoding(value),
{
    let mut out: Vec<u8> = Vec::new();
    push_varint(&mut out, value);
    proof {
        assert(out@ =~= varint_encoding(value));
    }
    out
}

/// Decodes the QUIC variable-length integer at the start of `buf`: its value and the
/// number of bytes it took.  Fails on an empty buffer or one shorter than the length
/// that its first byte announces.
pub fn decode_varint_from_buf(buf: &[u8]) -> (r: Result<(u64, usize), &'static str>)
    ensures
        match r {
            Ok((v, n)) => varint_decoding(buf@) == Some((v, n as nat)),
            Err(_) => varint_decoding(buf@) is None,
        },
{
    if buf.len() == 0 {
        return Err("empty buffer for varint decode");
    }
    match read_varint(buf) {
        Some((v, n)) => Ok((v, n)),
        None => Err("insufficient bytes for varint"),
    }
}

/// The request identifier of a Hysteria2 TCP request.
pub const TCP_REQUEST_ID: u64 = 0x401;

/// The bytes of a Hysteria2 TCP request for `addr` ("host:port") with the given
/// padding: varint 0x401, varint address length, the address, varint padding length,
/// the padding.
pub open spec fn tcp_request_bytes(addr: Seq<u8>, padding: Seq<u8>) -> Seq<u8> {
    varint_encoding(0x401) + varint_encoding(addr.len() as u64) + addr + varint_encoding(
        padding.len() as u64,
    ) + padding
}

/// Builds a Hysteria2 TCP request; `padding` is the random padding to send (the
/// client sends 0 to 63 random bytes).
pub fn build_tcp_request(addr: &str, padding: &[u8]) -> (r: Vec<u8>)
    ensures
        r@ == tcp_request_bytes(addr.spec_bytes(), padding@),
{
    let mut buf: Vec<u8> = Vec::new();
    push_varint(&mut buf, TCP_REQUEST_ID);
    let addr_bytes = addr.as_bytes();
    push_varint(&mut buf, addr_bytes.len() as u64);
    let mut i: usize = 0;
    let ghost base = buf@;
    while i < addr_bytes.len()
        invariant
            i <= addr_bytes@.len(),
            buf@ == base + addr_bytes@.subrange(0, i as int),
        decreases addr_bytes@.len() - i,
    {
        buf.push(addr_bytes[i]);
        i = i + 1;
        proof {
            assert(buf@ =~= base + addr_bytes@.subrange(0, i as int));
        }
    }
    push_varint(&mut buf, padding.len() as u64);
    let ghost base2 = buf@;
    let mut j: usize = 0;
    while j < padding.len()
        invariant
            j <= padding@.len(),
            buf@ == base2 + padding@.subrange(0, j as int),
        decreases padding@.len() - j,
    {
        buf.push(padding[j]);
        j = j + 1;
        proof {
            assert(buf@ =~= base2 + padding@.subrange(0, j as int));
        }
    }
    proof {
        assert(addr_bytes@.subrange(0, addr_bytes@.len() as int) =~= addr_bytes@);
        assert(padding@.subrange(0, padding@.len() as int) =~= padding@);
        assert(buf@ =~= tcp_request_bytes(addr.spec_bytes(), padding@));
    }
    buf
}

/// A Hysteria2 TCP response read from the start of `data`: status byte, varint
/// message length, message, varint padding length, padding.  The result is the status,
/// the message and the bytes used; nothing while the data is incomplete.
pub open spec fn tcp_response_spec(data: Seq<u8>) -> Option<(u8, Seq<u8>, nat)> {
    if data.len() < 1 {
        None
    } else {
        match varint_decoding(data.skip(1)) {
            None => None,
            Some((ml, n1)) => {
                let m_start = 1 + n1;
                let m_end = m_start + ml;
                if m_end > data.len() {
                    None
                } else {
                    match varint_decoding(data.skip(m_end as int)) {
                        None => None,
                        Some((pl, n2)) => {
                            let end = m_end + n2 + pl;
                            if end > data.len() {
                                None
                            } else {
                                Some((data[0], data.subrange(m_start as int, m_end as int), end as nat))
                            }
                        },
                    }
                }
            },
        }
    }
}

/// Parses a Hysteria2 TCP response at the start of `data` (see `tcp_response_spec`).
pub fn parse_tcp_response(data: &[u8]) -> (r: Option<(u8, Vec<u8>, usize)>)
    ensures
        match r {
            Some((st, msg, used)) => tcp_response_spec(data@) == Some((st, msg@, used as nat)),
            None => tcp_response_spec(data@) is None,
        },
{
    if data.len() < 1 {
        return None;
    }
    let rest = vstd::slice::slice_subrange(data, 1, data.len());
    proof {
        assert(rest@ =~= data@.skip(1));
    }
    let (ml, n1) = match read_varint(rest) {
        Some(x) => x,
        None => return None,
    };
    let m_start = 1 + n1;
    if ml > (data.len() - m_start) as u64 {
        return None;
    }
    let m_end = m_start + ml as usize;
    let rest2 = vstd::slice::slice_subrange(data, m_end, data.len());
    proof {
        assert(rest2@ =~= data@.skip(m_end as int));
    }
    let (pl, n2) = match read_varint(rest2) {
        Some(x) => x,
        None => return None,
    };
    if pl > (data.len() - m_end - n2) as u64 {
        return None;
    }
    let end = m_end + n2 + pl as usize;
    let msg = copy_range(data, m_start, m_end);
    Some((data[0], msg, end))
}

/// Whether a Hysteria2 TCP response status means success (0x00).
pub fn tcp_response_ok(status: u8) -> (r: bool)
    ensures
        r == (status == 0),
{
    status == 0
}

/// What a Hysteria2 outbound is configured with.
#[derive(Debug, Clone)]
pub struct Hysteria2Settings {
    pub address: String,
    pub port: u16,
    pub password: String,
    pub sni: String,
    pub allow_insecure: bool,
    pub up_mbps: u64,
    pub down_mbps: u64,
    /// The uplink rate for Brutal congestion control, when one is configured.
    pub brutal_mbps: Option<u64>,
}

/// The first error of the Hysteria2 settings, in the order they are checked.
pub open spec fn hysteria2_settings_error(s: OutboundSettings) -> Option<&'static str> {
    if s.address is None {
        Some("hysteria2: address is required")
    } else if s.port is None {
        Some("hysteria2: port is required")
    } else if s.password is None {
        Some("hysteria2: password is required")
    } else {
        None
    }
}

/// Reads the Hysteria2 settings: address, port and password are required; the SNI
/// defaults to the address and the rates to 0; a positive uplink rate selects
/// Brutal congestion control at that rate.
pub fn hysteria2_settings(config: &OutboundConfig) -> (r: Result<Hysteria2Settings, &'static str>)
    ensures
        ({
            let s = config.settings;
            match hysteria2_settings_error(s) {
                Some(e) => r == Err::<Hysteria2Settings, &'static str>(e),
                None => r matches Ok(h) && {
                    let up = match s.up_mbps {
                        Some(x) => x,
                        None => 0u64,
                    };
                    &&& h.address@ == s.address->Some_0@
                    &&& h.port == s.port->Some_0
                    &&& h.password@ == s.password->Some_0@
                    &&& h.sni@ == (match s.sni {
                        Some(x) => x@,
                        None => s.address->Some_0@,
                    })
                    &&& h.allow_insecure == s.allow_insecure
                    &&& h.up_mbps == up
                    &&& h.down_mbps == (match s.down_mbps {
                        Some(x) => x,
                        None => 0u64,
                    })
                    &&& h.brutal_mbps == (if up > 0 { Some(up) } else { None })
                },
            }
        }),
{
    let s = &config.settings;
    let address = match &s.address {
        Some(a) => a.clone(),
        None => return Err("hysteria2: address is required"),
    };
    let port = match s.port {
        Some(p) => p,
        None => return Err("hysteria2: port is required"),
    };
    let password = match &s.password {
        Some(p) => p.clone(),
        None => return Err("hysteria2: password is required"),
    };
    let sni = match &s.sni {
        Some(x) => x.clone(),
        None => address.clone(),
    };
    let up_mbps = match s.up_mbps {
        Some(x) => x,
        None => 0,
    };
    let down_mbps = match s.down_mbps {
        Some(x) => x,
        None => 0,
    };
    let brutal_mbps = if up_mbps > 0 { Some(up_mbps) } else { None };
    Ok(Hysteria2Settings { address, port, password, sni, allow_insecure: s.allow_insecure, up_mbps, down_mbps, brutal_mbps })
}

} // verus!
