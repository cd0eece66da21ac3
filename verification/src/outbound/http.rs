use vstd::prelude::*;

use vstd::string::StrSliceExecFns;
use vstd::utf8::encode_utf8;

use crate::address::{push_all, Address, IpAddr};
use crate::config::{clone_opt, opt_view, OutboundConfig};
use crate::crypto::{base64_standard_encode, base64_standard_encoding};
use crate::netaddr::{ipv4_text, ipv4_to_string, ipv6_text, ipv6_to_string};
use crate::text::{decimal, lemma_encode_ascii, lemma_encode_concat, push_decimal};
use crate::transport::httpupgrade::status_code_of;

verus! {

/// An HTTP CONNECT proxy outbound.
pub struct HttpOutbound {
    pub tag: String,
    pub server_addr: String,
    pub server_port: u16,
    pub username: Option<String>,
    pub password: Option<String>,
}

impl HttpOutbound {
    /// Builds the outbound from its settings: `address` and `port` are required; the
    /// user name comes from the `uuid` field, the password from `password`.
    pub fn new(config: &OutboundConfig) -> (r: Result<Self, &'static str>)
        ensures
            match (config.settings.address, config.settings.port) {
                (Some(a), Some(p)) => r is Ok && r->Ok_0.tag@ == config.tag@ && r->Ok_0.server_addr@
                    == a@ && r->Ok_0.server_port == p && opt_view(r->Ok_0.username) == opt_view(
                    config.settings.uuid,
                ) && opt_view(r->Ok_0.password) == opt_view(config.settings.password),
                _ => r is Err,
            },
    {
        let settings = &config.settings;
        let address = match &settings.address {
            Some(a) => a,
            None => return Err("http outbound missing 'address'"),
        };
        let port = match settings.port {
            Some(p) => p,
            None => return Err("http outbound missing 'port'"),
        };
        Ok(HttpOutbound {
            tag: config.tag.clone(),
            server_addr: address.clone(),
            server_port: port,
            username: clone_opt(&settings.uuid),
            password: clone_opt(&settings.password),
        })
    }

    pub fn tag(&self) -> (r: &str)
        ensures
            r@ == self.tag@,
    {
        self.tag.as_str()
    }
}

/// The text form of a destination: `host:port` for a domain or an IPv4 address,
/// `[address]:port` for IPv6.
pub open spec fn address_text(a: Address) -> Seq<char> {
    match a {
        Address::Domain(d, p) => d@ + seq![':'] + decimal(p as nat),
        Address::Ip(IpAddr::V4(o), p) => ipv4_text(o@) + seq![':'] + decimal(p as nat),
        Address::Ip(IpAddr::V6(o), p) => seq!['['] + ipv6_text(o@) + seq![']', ':'] + decimal(p as nat),
    }
}

/// Appends the UTF-8 bytes of the text form of `a`.
pub fn push_address_text(out: &mut Vec<u8>, a: &Address)
    ensures
        final(out)@ == old(out)@ + encode_utf8(address_text(*a)),
{
    let ghost base = out@;
    match a {
        Address::Domain(d, p) => {
            push_all(out, d.as_str().as_bytes());
            out.push(58u8);
            push_decimal(out, *p as u64);
            proof {
                lemma_encode_ascii(':');
                lemma_encode_concat(d@, seq![':']);
                lemma_encode_concat(d@ + seq![':'], decimal(*p as nat));
                assert(out@ =~= base + encode_utf8(address_text(*a)));
            }
        },
        Address::Ip(IpAddr::V4(o), p) => {
            let t = ipv4_to_string(*o);
            push_all(out, t.as_str().as_bytes());
            out.push(58u8);
            push_decimal(out, *p as u64);
            proof {
                lemma_encode_ascii(':');
                lemma_encode_concat(ipv4_text(o@), seq![':']);
                lemma_encode_concat(ipv4_text(o@) + seq![':'], decimal(*p as nat));
                assert(out@ =~= base + encode_utf8(address_text(*a)));
            }
        },
        Address::Ip(IpAddr::V6(o), p) => {
            let t = ipv6_to_string(*o);
            out.push(91u8);
            push_all(out, t.as_str().as_bytes());
            out.push(93u8);
            out.push(58u8);
            push_decimal(out, *p as u64);
            proof {
                let v = ipv6_text(o@);
                lemma_encode_ascii('[');
                lemma_encode_ascii(']');
                lemma_encode_ascii(':');
                lemma_encode_concat(seq!['['], v);
                lemma_encode_concat(seq![']'], seq![':']);
                assert(seq![']', ':'] =~= seq![']'] + seq![':']);
                lemma_encode_concat(seq!['['] + v, seq![']', ':']);
                lemma_encode_concat(seq!['['] + v + seq![']', ':'], decimal(*p as nat));
                assert(out@ =~= base + encode_utf8(address_text(*a)));
            }
        },
    }
}

/// The CONNECT request: the target as request line and Host, the credentials as
/// `Proxy-Authorization: Basic` when given, and an empty line.
pub open spec fn connect_request_bytes(target: Address, cred: Option<Seq<char>>) -> Seq<u8> {
    encode_utf8("CONNECT "@) + encode_utf8(address_text(target)) + encode_utf8(" HTTP/1.1\r\nHost: "@) + encode_utf8(
        address_text(target),
    ) + encode_utf8("\r\n"@) + (match cred {
        Some(c) => encode_utf8("Proxy-Authorization: Basic "@) + encode_utf8(c) + encode_utf8("\r\n"@),
        None => Seq::empty(),
    }) + encode_utf8("\r\n"@)
}

/// The credential of a user and a password: base64 of `user:password`.
pub open spec fn basic_credential(user: Seq<char>, pass: Seq<char>) -> Seq<char> {
    base64_standard_encoding(encode_utf8(user) + encode_utf8(":"@) + encode_utf8(pass))
}

/// The CONNECT request for `target`, with credentials when both a user and a
/// password are given.
pub fn connect_request(target: &Address, user: &Option<String>, pass: &Option<String>) -> (r: Vec<u8>)
    ensures
        r@ == connect_request_bytes(
            *target,
            match (*user, *pass) {
                (Some(u), Some(p)) => Some(basic_credential(u@, p@)),
                _ => None,
            },
        ),
{
    let mut out: Vec<u8> = Vec::new();
    push_all(&mut out, "CONNECT ".as_bytes());
    push_address_text(&mut out, target);
    push_all(&mut out, " HTTP/1.1\r\nHost: ".as_bytes());
    push_address_text(&mut out, target);
    push_all(&mut out, "\r\n".as_bytes());
    let ghost head = out@;
    match (user, pass) {
        (Some(u), Some(p)) => {
            let mut plain: Vec<u8> = Vec::new();
            push_all(&mut plain, u.as_str().as_bytes());
            push_all(&mut plain, ":".as_bytes());
            push_all(&mut plain, p.as_str().as_bytes());
            let cred = base64_standard_encode(plain.as_slice());
            push_all(&mut out, "Proxy-Authorization: Basic ".as_bytes());
            push_all(&mut out, cred.as_str().as_bytes());
            push_all(&mut out, "\r\n".as_bytes());
        },
        _ => {
            proof {
                assert(out@ =~= head + Seq::<u8>::empty());
            }
        },
    }
    push_all(&mut out, "\r\n".as_bytes());
    out
}

impl HttpOutbound {
    /// The CONNECT request of this outbound for `target`.
    pub fn connect_request(&self, target: &Address) -> (r: Vec<u8>)
        ensures
            r@ == connect_request_bytes(
                *target,
                match (self.username, self.password) {
                    (Some(u), Some(p)) => Some(basic_credential(u@, p@)),
                    _ => None,
                },
            ),
    {
        connect_request(target, &self.username, &self.password)
    }
}

/// The proxy accepted the tunnel: the status line carries code 200.
pub fn check_connect_status(status_line: &str) -> (r: Result<(), &'static str>)
    ensures
        r is Ok <==> status_code_of(status_line@) == Some(200u16),
        status_code_of(status_line@) is None ==> r == Err::<(), &'static str>("http proxy: invalid response"),
{
    match crate::transport::httpupgrade::parse_status_code(status_line) {
        None => Err("http proxy: invalid response"),
        Some(c) => if c == 200 { Ok(()) } else { Err("http proxy CONNECT failed") },
    }
}

/// The largest response head read through a chain hop.
pub const MAX_HEADER: usize = 16384;

/// Whether `h` ends with an empty line (`\r\n\r\n`).
pub open spec fn head_complete(h: Seq<u8>) -> bool {
    h.len() >= 4 && h.subrange(h.len() - 4, h.len() as int) == seq![13u8, 10, 13, 10]
}

pub fn ends_with_blank_line(h: &[u8]) -> (r: bool)
    ensures
        r == head_complete(h@),
{
    let n = h.len();
    if n < 4 {
        return false;
    }
    let r = h[n - 4] == 13 && h[n - 3] == 10 && h[n - 2] == 13 && h[n - 1] == 10;
    proof {
        if r {
            assert(h@.subrange(n - 4, n as int) =~= seq![13u8, 10, 13, 10]);
        } else {
            assert(h@.subrange(n - 4, n as int) != seq![13u8, 10, 13, 10] || !r) by {
                if h@.subrange(n - 4, n as int) == seq![13u8, 10, 13, 10] {
                    assert(h@.subrange(n - 4, n as int)[0] == h@[n - 4]);
                    assert(h@.subrange(n - 4, n as int)[1] == h@[n - 3]);
                    assert(h@.subrange(n - 4, n as int)[2] == h@[n - 2]);
                    assert(h@.subrange(n - 4, n as int)[3] == h@[n - 1]);
                }
            }
        }
    }
    r
}

/// Where the line that starts at `i` ends: the first newline from `i` on, or the end.
pub open spec fn line_end(t: Seq<char>, i: int) -> int
    decreases t.len() - i,
{
    if 0 <= i < t.len() && t[i] != '\n' {
        line_end(t, i + 1)
    } else {
        i
    }
}

/// The first line of a text: up to the first newline, without a carriage return
/// before it (as `str::lines` gives it).
pub open spec fn first_line(t: Seq<char>) -> Seq<char> {
    let l = t.subrange(0, line_end(t, 0));
    if l.len() > 0 && l.last() == '\r' { l.drop_last() } else { l }
}

pub fn first_line_of(t: &str) -> (r: &str)
    ensures
        r@ == first_line(t@),
{
    let v = crate::text::chars_of(t);
    let mut e: usize = 0;
    while e < v.len() && v[e] != '\n'
        invariant
            e <= v@.len(),
            v@ == t@,
            line_end(t@, 0) == line_end(t@, e as int),
        decreases v@.len() - e,
    {
        e = e + 1;
    }
    let end = if e > 0 && v[e - 1] == '\r' { e - 1 } else { e };
    proof {
        let l = t@.subrange(0, e as int);
        if e > 0 && v@[e - 1] == '\r' {
            assert(l.drop_last() =~= t@.subrange(0, end as int));
        }
    }
    t.substring_char(0, end)
}

/// The status of the response head read through a chain hop: the code of its
/// first line must be 200.
pub fn check_connect_head(head: &[u8]) -> (r: Result<(), &'static str>)
    ensures
        r is Ok <==> status_code_of(first_line(crate::text::utf8_lossy(head@))) == Some(200u16),
{
    let text = crate::text::string_from_utf8_lossy(head);
    let line = first_line_of(text.as_str());
    check_connect_status(line)
}

} // verus!
