use vstd::prelude::*;

use vstd::utf8::encode_utf8;

use crate::address::push_all;
use crate::netaddr::{digit_value, digits_value};
use crate::text::{all_digits, char_is_ws, chars_of, is_ws, trim, trim_str};
use crate::config::{clone_opt, clone_opt_pairs, opt_pairs_view, pairs_view, opt_view, DialerConfig, TlsConfig, TransportConfig};
use crate::transport::ws::{path_or_root, path_or_root_exec};

verus! {

/// An HTTP/1.1 upgrade handshake, after which the stream is used raw.
pub struct HttpUpgradeTransport {
    pub server_addr: String,
    pub server_port: u16,
    pub path: String,
    pub host: Option<String>,
    pub headers: Option<Vec<(String, String)>>,
    pub tls_config: Option<TlsConfig>,
    pub dialer_config: Option<DialerConfig>,
}

impl HttpUpgradeTransport {
    /// The path defaults to "/"; host and headers come from the transport settings.
    pub fn new(
        server_addr: String,
        server_port: u16,
        transport_config: &TransportConfig,
        tls_config: Option<TlsConfig>,
        dialer_config: Option<DialerConfig>,
    ) -> (r: Self)
        ensures
            r.server_addr@ == server_addr@,
            r.server_port == server_port,
            r.path@ == path_or_root(opt_view(transport_config.path)),
            opt_view(r.host) == opt_view(transport_config.host),
            opt_pairs_view(r.headers) == opt_pairs_view(transport_config.headers),
            r.tls_config == tls_config,
            r.dialer_config == dialer_config,
    {
        HttpUpgradeTransport {
            server_addr,
            server_port,
            path: path_or_root_exec(&transport_config.path),
            host: clone_opt(&transport_config.host),
            headers: clone_opt_pairs(&transport_config.headers),
            tls_config,
            dialer_config,
        }
    }
}

/// Extra header lines, each `name: value` and CRLF, in order.
pub open spec fn header_lines(h: Seq<(Seq<char>, Seq<char>)>) -> Seq<u8>
    decreases h.len(),
{
    if h.len() == 0 {
        Seq::empty()
    } else {
        header_lines(h.drop_last()) + encode_utf8(h.last().0) + encode_utf8(": "@) + encode_utf8(h.last().1)
            + encode_utf8("\r\n"@)
    }
}

/// The upgrade request: a GET of the path with the host, the WebSocket upgrade
/// headers (version 13 and the key), the extra headers, and an empty line.
pub open spec fn upgrade_request_bytes(
    path: Seq<char>,
    host: Seq<char>,
    key: Seq<char>,
    headers: Option<Seq<(Seq<char>, Seq<char>)>>,
) -> Seq<u8> {
    encode_utf8("GET "@) + encode_utf8(path) + encode_utf8(" HTTP/1.1\r\nHost: "@) + encode_utf8(host)
        + encode_utf8("\r\nConnection: Upgrade\r\nUpgrade: websocket\r\nSec-WebSocket-Version: 13\r\nSec-WebSocket-Key: "@)
        + encode_utf8(key) + encode_utf8("\r\n"@) + (match headers {
        Some(h) => header_lines(h),
        None => Seq::empty(),
    }) + encode_utf8("\r\n"@)
}

impl HttpUpgradeTransport {
    /// The Host header: the configured host, else the server address.
    pub open spec fn host_view(&self) -> Seq<char> {
        match self.host {
            Some(h) => h@,
            None => self.server_addr@,
        }
    }

    pub fn effective_host(&self) -> (r: &str)
        ensures
            r@ == self.host_view(),
    {
        match &self.host {
            Some(h) => h.as_str(),
            None => self.server_addr.as_str(),
        }
    }

    /// The request that asks the server to upgrade, with `ws_key` as the
    /// `Sec-WebSocket-Key`.
    pub fn upgrade_request(&self, ws_key: &str) -> (r: Vec<u8>)
        ensures
            r@ == upgrade_request_bytes(self.path@, self.host_view(), ws_key@, opt_pairs_view(self.headers)),
    {
        let host = self.effective_host();
        let mut out: Vec<u8> = Vec::new();
        push_all(&mut out, "GET ".as_bytes());
        push_all(&mut out, self.path.as_str().as_bytes());
        push_all(&mut out, " HTTP/1.1\r\nHost: ".as_bytes());
        push_all(&mut out, host.as_bytes());
        push_all(
            &mut out,
            "\r\nConnection: Upgrade\r\nUpgrade: websocket\r\nSec-WebSocket-Version: 13\r\nSec-WebSocket-Key: ".as_bytes(),
        );
        push_all(&mut out, ws_key.as_bytes());
        push_all(&mut out, "\r\n".as_bytes());
        let ghost head = out@;
        match &self.headers {
            Some(h) => {
                let mut i: usize = 0;
                while i < h.len()
                    invariant
                        i <= h@.len(),
                        out@ == head + header_lines(pairs_view(h@).subrange(0, i as int)),
                    decreases h@.len() - i,
                {
                    let ghost before = out@;
                    push_all(&mut out, h[i].0.as_str().as_bytes());
                    push_all(&mut out, ": ".as_bytes());
                    push_all(&mut out, h[i].1.as_str().as_bytes());
                    push_all(&mut out, "\r\n".as_bytes());
                    proof {
                        let hv = pairs_view(h@);
                        assert(hv.subrange(0, i + 1).drop_last() =~= hv.subrange(0, i as int));
                        assert(out@ =~= head + header_lines(hv.subrange(0, i + 1)));
                    }
                    i = i + 1;
                }
                proof {
                    assert(pairs_view(h@).subrange(0, h@.len() as int) =~= pairs_view(h@));
                }
            },
            None => {
                proof {
                    assert(out@ =~= head + Seq::<u8>::empty());
                }
            },
        }
        push_all(&mut out, "\r\n".as_bytes());
        out
    }
}

/// Where the white space from `i` on ends.
pub open spec fn skip_ws(s: Seq<char>, i: int) -> int
    decreases s.len() - i,
{
    if 0 <= i < s.len() && is_ws(s[i]) {
        skip_ws(s, i + 1)
    } else {
        i
    }
}

/// Where the word (run of non-white-space) from `i` on ends.
pub open spec fn word_end(s: Seq<char>, i: int) -> int
    decreases s.len() - i,
{
    if 0 <= i < s.len() && !is_ws(s[i]) {
        word_end(s, i + 1)
    } else {
        i
    }
}

/// The second white-space-separated word of `s`.
pub open spec fn second_word(s: Seq<char>) -> Option<Seq<char>> {
    let a = skip_ws(s, 0);
    if a >= s.len() {
        None
    } else {
        let c = skip_ws(s, word_end(s, a));
        if c >= s.len() {
            None
        } else {
            Some(s.subrange(c, word_end(s, c)))
        }
    }
}

/// What `u16::from_str` reads: an optional `+`, then one or more decimal digits whose
/// value fits in 16 bits.
pub open spec fn parse_u16(t: Seq<char>) -> Option<u16> {
    let d = if t.len() > 0 && t[0] == '+' { t.drop_first() } else { t };
    if d.len() > 0 && all_digits(d) && digits_value(d, 0, d.len() as int, 10) <= 65535 {
        Some(digits_value(d, 0, d.len() as int, 10) as u16)
    } else {
        None
    }
}

/// The status code of a response's status line: its second word as a number.
pub open spec fn status_code_of(line: Seq<char>) -> Option<u16> {
    match second_word(line) {
        Some(w) => parse_u16(w),
        None => None,
    }
}

fn skip_ws_at(v: &Vec<char>, i: usize) -> (r: usize)
    requires
        i <= v@.len(),
    ensures
        r as int == skip_ws(v@, i as int),
        i <= r <= v@.len(),
{
    let mut j = i;
    while j < v.len() && char_is_ws(v[j])
        invariant
            i <= j <= v@.len(),
            skip_ws(v@, i as int) == skip_ws(v@, j as int),
        decreases v@.len() - j,
    {
        j = j + 1;
    }
    j
}

fn word_end_at(v: &Vec<char>, i: usize) -> (r: usize)
    requires
        i <= v@.len(),
    ensures
        r as int == word_end(v@, i as int),
        i <= r <= v@.len(),
{
    let mut j = i;
    while j < v.len() && !char_is_ws(v[j])
        invariant
            i <= j <= v@.len(),
            word_end(v@, i as int) == word_end(v@, j as int),
        decreases v@.len() - j,
    {
        j = j + 1;
    }
    j
}

/// Reads `v[lo..hi]` as `u16::from_str` does.
fn parse_u16_range(v: &Vec<char>, lo: usize, hi: usize) -> (r: Option<u16>)
    requires
        lo <= hi <= v@.len(),
    ensures
        r == parse_u16(v@.subrange(lo as int, hi as int)),
{
    let ghost t = v@.subrange(lo as int, hi as int);
    let start = if lo < hi && v[lo] == '+' { lo + 1 } else { lo };
    let ghost d = v@.subrange(start as int, hi as int);
    proof {
        if lo < hi && v@[lo as int] == '+' {
            assert(t.drop_first() =~= d);
        } else {
            assert(t =~= d);
        }
    }
    if start >= hi {
        return None;
    }
    let mut j = start;
    let mut value: u32 = 0;
    while j < hi
        invariant
            start <= j <= hi <= v@.len(),
            d == v@.subrange(start as int, hi as int),
            t == v@.subrange(lo as int, hi as int),
            (if t.len() > 0 && t[0] == '+' { t.drop_first() } else { t }) == d,
            all_digits(v@.subrange(start as int, j as int)),
            value as int == (if digits_value(d, 0, j - start, 10) < 65536 { digits_value(d, 0, j - start, 10) as int } else { 65536 }),
        decreases hi - j,
    {
        let c = v[j];
        if !('0' <= c && c <= '9') {
            proof {
                assert(d[j - start] == v@[j as int]);
                assert(!('0' <= d[j - start] <= '9'));
                assert(!all_digits(d));
            }
            return None;
        }
        let dv = (c as u32) - ('0' as u32);
        proof {
            assert(d[j - start] == c);
            assert(digit_value(c, 10) == Some(dv as nat));
            assert(digits_value(d, 0, j + 1 - start, 10) == digits_value(d, 0, j - start, 10) * 10 + dv);
            assert forall|k: int| 0 <= k < j + 1 - start implies '0' <= #[trigger] v@.subrange(start as int, j + 1)[k] <= '9' by {
                if k < j - start {
                    assert(v@.subrange(start as int, j + 1)[k] == v@.subrange(start as int, j as int)[k]);
                }
            }
        }
        let next = value * 10 + dv;
        value = if next < 65536 { next } else { 65536 };
        j = j + 1;
    }
    proof {
        assert(v@.subrange(start as int, hi as int) =~= d);
    }
    if value >= 65536 {
        return None;
    }
    Some(value as u16)
}

/// The status code of the response's first line: its second whitespace-separated
/// word, read as a decimal `u16` (an optional leading `+`, then digits only).
pub fn parse_status_code(line: &str) -> (r: Option<u16>)
    ensures
        r == status_code_of(line@),
{
    let v = chars_of(line);
    let a = skip_ws_at(&v, 0);
    if a >= v.len() {
        return None;
    }
    let b = word_end_at(&v, a);
    let c = skip_ws_at(&v, b);
    if c >= v.len() {
        return None;
    }
    let e = word_end_at(&v, c);
    parse_u16_range(&v, c, e)
}

/// Why the upgrade failed.
#[derive(Debug, Clone, Copy, PartialEq, Eq, Structural)]
pub enum UpgradeError {
    InvalidResponse,
    NotSwitching(u16),
}

/// The status line must carry code 101.
pub fn check_status_line(line: &str) -> (r: Result<(), UpgradeError>)
    ensures
        match status_code_of(line@) {
            None => r == Err::<(), UpgradeError>(UpgradeError::InvalidResponse),
            Some(c) => if c == 101 { r is Ok } else { r == Err::<(), UpgradeError>(UpgradeError::NotSwitching(c)) },
        },
{
    match parse_status_code(line) {
        None => Err(UpgradeError::InvalidResponse),
        Some(c) => if c == 101 { Ok(()) } else { Err(UpgradeError::NotSwitching(c)) },
    }
}

/// A header line that is empty once trimmed ends the response head.
pub fn is_blank_line(line: &str) -> (r: bool)
    ensures
        r == (trim(line@).len() == 0),
{
    let t = trim_str(line);
    chars_of(t).len() == 0
}

/// The longest response line read.
pub const MAX_LINE: usize = 8192;

/// What one more byte does to a response line: ends it (a newline), leaves it
/// open, or makes it too long.
#[derive(Debug, Clone, Copy, PartialEq, Eq, Structural)]
pub enum LineStep {
    Done,
    More,
    TooLong,
}

/// Appends `byte` to the line being read.
pub fn push_line_byte(line: &mut Vec<u8>, byte: u8) -> (r: LineStep)
    ensures
        final(line)@ == old(line)@.push(byte),
        r == (if byte == 10 { LineStep::Done } else if final(line)@.len() > MAX_LINE { LineStep::TooLong } else {
            LineStep::More
        }),
{
    line.push(byte);
    if byte == 10 {
        LineStep::Done
    } else if line.len() > MAX_LINE {
        LineStep::TooLong
    } else {
        LineStep::More
    }
}

} // verus!
