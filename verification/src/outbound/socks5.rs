use vstd::prelude::*;

use vstd::utf8::encode_utf8;

use crate::address::{parse_socks_addr, push_all, push_socks_addr, socks_addr_bytes, socks_addr_end, socks_addr_names, Address, IpAddr};
use crate::bytes_util::copy_range;
use crate::config::{clone_opt, opt_view, OutboundConfig};
use crate::text::{string_from_utf8_lossy, utf8_lossy};

verus! {

/// A SOCKS5 (RFC 1928) proxy outbound.
pub struct Socks5Outbound {
    pub tag: String,
    pub server_addr: String,
    pub server_port: u16,
    pub username: Option<String>,
    pub password: Option<String>,
}

impl Socks5Outbound {
    /// Builds the outbound: `address` and `port` are required; the user name is
    /// `username`, or failing that `uuid`.
    pub fn new(config: &OutboundConfig) -> (r: Result<Self, &'static str>)
        ensures
            match (config.settings.address, config.settings.port) {
                (Some(a), Some(p)) => r is Ok && r->Ok_0.tag@ == config.tag@ && r->Ok_0.server_addr@
                    == a@ && r->Ok_0.server_port == p && opt_view(r->Ok_0.username) == (if config.settings.username is Some {
                    opt_view(config.settings.username)
                } else {
                    opt_view(config.settings.uuid)
                }) && opt_view(r->Ok_0.password) == opt_view(config.settings.password),
                _ => r is Err,
            },
    {
        let settings = &config.settings;
        let address = match &settings.address {
            Some(a) => a,
            None => return Err("socks5 outbound missing 'address'"),
        };
        let port = match settings.port {
            Some(p) => p,
            None => return Err("socks5 outbound missing 'port'"),
        };
        let username = if settings.username.is_some() {
            clone_opt(&settings.username)
        } else {
            clone_opt(&settings.uuid)
        };
        Ok(Socks5Outbound {
            tag: config.tag.clone(),
            server_addr: address.clone(),
            server_port: port,
            username,
            password: clone_opt(&settings.password),
        })
    }

    pub fn tag(&self) -> (r: &str)
        ensures
            r@ == self.tag@,
    {
        self.tag.as_str()
    }

    /// Whether the handshake offers user/password authentication: both are set.
    pub fn has_auth(&self) -> (r: bool)
        ensures
            r == (self.username is Some && self.password is Some),
    {
        self.username.is_some() && self.password.is_some()
    }

    /// The method-negotiation greeting: offers NO_AUTH and USERNAME_PASSWORD when
    /// credentials are set, else NO_AUTH only.
    pub fn greeting(&self) -> (r: Vec<u8>)
        ensures
            (self.username is Some && self.password is Some) ==> r@ == seq![0x05u8, 0x02, 0x00, 0x02],
            !(self.username is Some && self.password is Some) ==> r@ == seq![0x05u8, 0x01, 0x00],
    {
        let r = if self.has_auth() {
            vec![0x05u8, 0x02, 0x00, 0x02]
        } else {
            vec![0x05u8, 0x01, 0x00]
        };
        proof {
            if self.username is Some && self.password is Some {
                assert(r@ =~= seq![0x05u8, 0x02, 0x00, 0x02]);
            } else {
                assert(r@ =~= seq![0x05u8, 0x01, 0x00]);
            }
        }
        r
    }
}

/// How the client authenticates, as the server chose.
#[derive(Debug, Clone, Copy, PartialEq, Eq, Structural)]
pub enum AuthChoice {
    NoAuth,
    UserPass,
}

/// Reads the server's method choice: version 5 and "no authentication", or
/// user/password (which the client offers only with both credentials set); a refusal
/// of every method, or any other method, is an error.
pub fn method_choice(resp: [u8; 2], has_auth: bool) -> (r: Result<AuthChoice, &'static str>)
    requires
        resp@[0] == 5 && resp@[1] == 2 ==> has_auth,
    ensures
        resp@[0] != 5 ==> r == Err::<AuthChoice, &'static str>("socks5: server returned unsupported version"),
        resp@[0] == 5 && resp@[1] == 0 ==> r == Ok::<AuthChoice, &'static str>(AuthChoice::NoAuth),
        resp@[0] == 5 && resp@[1] == 2 ==> r == Ok::<AuthChoice, &'static str>(AuthChoice::UserPass),
        resp@[0] == 5 && resp@[1] == 0xFF ==> r == Err::<AuthChoice, &'static str>("socks5: server rejected all authentication methods"),
        resp@[0] == 5 && resp@[1] != 0 && resp@[1] != 2 && resp@[1] != 0xFF ==> r == Err::<AuthChoice, &'static str>("socks5: unsupported auth method selected"),
{
    if resp[0] != 0x05 {
        return Err("socks5: server returned unsupported version");
    }
    if resp[1] == 0x00 {
        Ok(AuthChoice::NoAuth)
    } else if resp[1] == 0x02 {
        Ok(AuthChoice::UserPass)
    } else if resp[1] == 0xFF {
        Err("socks5: server rejected all authentication methods")
    } else {
        Err("socks5: unsupported auth method selected")
    }
}

/// The RFC 1929 request: version 1, then the user name and the password, each after
/// its length (modulo 256).
pub open spec fn auth_request_bytes(username: Seq<char>, password: Seq<char>) -> Seq<u8> {
    seq![1u8, (encode_utf8(username).len() % 256) as u8] + encode_utf8(username) + seq![(encode_utf8(password).len() % 256) as u8]
        + encode_utf8(password)
}

pub fn auth_request(username: &str, password: &str) -> (r: Vec<u8>)
    ensures
        r@ == auth_request_bytes(username@, password@),
{
    let u = username.as_bytes();
    let p = password.as_bytes();
    let mut out: Vec<u8> = Vec::new();
    out.push(0x01);
    out.push((u.len() % 256) as u8);
    push_all(&mut out, u);
    out.push((p.len() % 256) as u8);
    push_all(&mut out, p);
    proof {
        assert(out@ =~= auth_request_bytes(username@, password@));
    }
    out
}

/// The server's answer to the credentials: status 0 lets the client in.
pub fn check_auth_reply(resp: [u8; 2]) -> (r: Result<(), &'static str>)
    ensures
        r is Ok <==> resp@[1] == 0,
{
    if resp[1] != 0x00 {
        return Err("socks5: authentication failed");
    }
    Ok(())
}

/// A request: version 5, the command, a reserved zero, and the target in SOCKS form.
pub fn connect_request(cmd: u8, target: &Address) -> (r: Vec<u8>)
    ensures
        r@ == seq![5u8, cmd, 0u8] + socks_addr_bytes(*target),
{
    let mut out: Vec<u8> = Vec::new();
    out.push(0x05);
    out.push(cmd);
    out.push(0x00);
    push_socks_addr(&mut out, target);
    proof {
        assert(out@ =~= seq![5u8, cmd, 0u8] + socks_addr_bytes(*target));
    }
    out
}

/// The reason a server gives for refusing a request.
pub fn reply_reason(code: u8) -> (r: &'static str)
    ensures
        r@ == (if code == 1 { "general failure"@ } else if code == 2 { "connection not allowed"@ } else if code == 3 {
            "network unreachable"@
        } else if code == 4 { "host unreachable"@ } else if code == 5 { "connection refused"@ } else if code == 6 {
            "TTL expired"@
        } else if code == 7 { "command not supported"@ } else if code == 8 { "address type not supported"@ } else {
            "unknown error"@
        }),
{
    if code == 0x01 {
        "general failure"
    } else if code == 0x02 {
        "connection not allowed"
    } else if code == 0x03 {
        "network unreachable"
    } else if code == 0x04 {
        "host unreachable"
    } else if code == 0x05 {
        "connection refused"
    } else if code == 0x06 {
        "TTL expired"
    } else if code == 0x07 {
        "command not supported"
    } else if code == 0x08 {
        "address type not supported"
    } else {
        "unknown error"
    }
}

/// The first three bytes of the reply: version 5 and success, or the reason.
pub fn check_reply_head(head: [u8; 3]) -> (r: Result<(), &'static str>)
    ensures
        head@[0] != 5 ==> r == Err::<(), &'static str>("socks5: invalid reply version"),
        head@[0] == 5 && head@[1] != 0 ==> (r matches Err(e) && e@ == reply_reason_text(head@[1])),
        head@[0] == 5 && head@[1] == 0 ==> r is Ok,
{
    if head[0] != 0x05 {
        return Err("socks5: invalid reply version");
    }
    if head[1] != 0x00 {
        return Err(reply_reason(head[1]));
    }
    Ok(())
}

/// The text of a refusal code, as `reply_reason` gives it.
pub open spec fn reply_reason_text(code: u8) -> Seq<char> {
    if code == 1 { "general failure"@ } else if code == 2 { "connection not allowed"@ } else if code == 3 {
        "network unreachable"@
    } else if code == 4 { "host unreachable"@ } else if code == 5 { "connection refused"@ } else if code == 6 {
        "TTL expired"@
    } else if code == 7 { "command not supported"@ } else if code == 8 { "address type not supported"@ } else {
        "unknown error"@
    }
}

/// How many bytes of bound address and port follow an address type byte, for the
/// fixed-size types; a domain's length is read first.
pub fn bind_addr_len(atyp: u8) -> (r: Option<usize>)
    ensures
        r == (if atyp == 1 { Some(6usize) } else if atyp == 4 { Some(18usize) } else { None::<usize> }),
{
    if atyp == 0x01 {
        Some(6)
    } else if atyp == 0x04 {
        Some(18)
    } else {
        None
    }
}

/// The bound address of a reply: `body` holds what follows the type byte (the
/// domain's length byte included); an unknown type is an error.
pub fn parse_bind_addr(atyp: u8, body: &[u8]) -> (r: Result<Address, &'static str>)
    ensures
        atyp != 1 && atyp != 3 && atyp != 4 ==> r == Err::<Address, &'static str>("socks5: unsupported bind address type"),
        atyp == 1 && body@.len() >= 6 ==> (r matches Ok(Address::Ip(IpAddr::V4(o), p)) && o@ == body@.subrange(0, 4)
            && p as int == body@[4] as int * 256 + body@[5] as int),
        atyp == 4 && body@.len() >= 18 ==> (r matches Ok(Address::Ip(IpAddr::V6(o), p)) && o@ == body@.subrange(0, 16)
            && p as int == body@[16] as int * 256 + body@[17] as int),
        atyp == 3 && body@.len() >= 1 && body@.len() >= 1 + body@[0] + 2 ==> (r matches Ok(Address::Domain(d, p))
            && d@ == utf8_lossy(body@.subrange(1, 1 + body@[0] as int))
            && p as int == body@[1 + body@[0] as int] as int * 256 + body@[2 + body@[0] as int] as int),
{
    if atyp == 0x01 {
        if body.len() < 6 {
            return Err("socks5: short bind address");
        }
        let o = [body[0], body[1], body[2], body[3]];
        proof {
            assert(o@ =~= body@.subrange(0, 4));
        }
        Ok(Address::Ip(IpAddr::V4(o), (body[4] as u16) * 256 + body[5] as u16))
    } else if atyp == 0x04 {
        if body.len() < 18 {
            return Err("socks5: short bind address");
        }
        let mut o = [0u8; 16];
        let mut i: usize = 0;
        while i < 16
            invariant
                i <= 16,
                body@.len() >= 18,
                forall|k: int| 0 <= k < i ==> o@[k] == body@[k],
            decreases 16 - i,
        {
            o[i] = body[i];
            i = i + 1;
        }
        proof {
            assert(o@ =~= body@.subrange(0, 16));
        }
        Ok(Address::Ip(IpAddr::V6(o), (body[16] as u16) * 256 + body[17] as u16))
    } else if atyp == 0x03 {
        if body.len() < 1 {
            return Err("socks5: short bind address");
        }
        let n = body[0] as usize;
        if body.len() < 1 + n + 2 {
            return Err("socks5: short bind address");
        }
        let name = copy_range(body, 1, 1 + n);
        let d = string_from_utf8_lossy(name.as_slice());
        Ok(Address::Domain(d, (body[1 + n] as u16) * 256 + body[2 + n] as u16))
    } else {
        Err("socks5: unsupported bind address type")
    }
}

/// A datagram for the UDP relay: two reserved zero bytes, fragment 0, the
/// destination in SOCKS form, then the payload.
pub open spec fn udp_frame(addr: Address, data: Seq<u8>) -> Seq<u8> {
    seq![0u8, 0u8, 0u8] + socks_addr_bytes(addr) + data
}

pub fn encode_udp_packet(addr: &Address, data: &[u8]) -> (r: Vec<u8>)
    ensures
        r@ == udp_frame(*addr, data@),
{
    let mut out: Vec<u8> = Vec::new();
    out.push(0);
    out.push(0);
    out.push(0);
    push_socks_addr(&mut out, addr);
    push_all(&mut out, data);
    proof {
        assert(out@ =~= udp_frame(*addr, data@));
    }
    out
}

/// A relayed datagram is kept when it has at least four bytes, fragment 0 and a
/// readable address; the payload is what follows the address.
pub open spec fn udp_accepted(d: Seq<u8>) -> bool {
    d.len() >= 4 && d[2] == 0 && socks_addr_end(d.subrange(3, d.len() as int)) is Some
}

/// Reads a datagram from the relay; `None` means it is dropped.
pub fn decode_udp_packet(d: &[u8]) -> (r: Option<(Address, Vec<u8>)>)
    ensures
        r is Some <==> udp_accepted(d@),
        r matches Some((addr, payload)) ==> {
            let rest = d@.subrange(3, d@.len() as int);
            let n = socks_addr_end(rest)->0;
            &&& socks_addr_names(rest, addr)
            &&& payload@ == d@.subrange(3 + n, d@.len() as int)
        },
{
    if d.len() < 4 {
        return None;
    }
    if d[2] != 0 {
        return None;
    }
    let rest = copy_range(d, 3, d.len());
    match parse_socks_addr(rest.as_slice()) {
        None => None,
        Some((addr, n)) => {
            let payload = copy_range(d, 3 + n, d.len());
            Some((addr, payload))
        },
    }
}

} // verus!
