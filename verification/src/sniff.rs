use vstd::prelude::*;
use vstd::utf8::*;

use vstd::slice::slice_subrange;
use vstd::string::StrSliceExecFns;

use crate::bytes_util::{
    be16, be24, be32, copy_range, has_prefix, matches_at, read_be16, read_be24, starts_with,
};
use crate::rate_limit::RateLimiter;
use crate::text::{
    all_digits, chars_of, last_index_of, range_all_digits, range_starts_with, rfind_char,
    str_eq, str_from_utf8, string_from_utf8, trim, trim_bounds,
};

verus! {

/// How far `pos` still is from `end` (zero once past it).
pub open spec fn remaining(pos: int, end: int) -> int {
    if pos < end {
        end - pos
    } else {
        0
    }
}

// ─── TLS ClientHello ───────────────────────────────────────────────────────

/// The ClientHello body carried by a TLS handshake record, if `data` starts with one.
pub open spec fn tls_client_hello_body(data: Seq<u8>) -> Option<Seq<u8>> {
    if data.len() < 5 || data[0] != 0x16u8 {
        None
    } else if !(0x0300 <= be16(data, 1) <= 0x0303) {
        None
    } else if 5 + be16(data, 3) > data.len() {
        None
    } else {
        let frag = data.subrange(5, 5 + be16(data, 3));
        if frag.len() == 0 || frag[0] != 0x01u8 || frag.len() < 4 {
            None
        } else if 4 + be24(frag, 1) > frag.len() {
            None
        } else {
            Some(frag.subrange(4, 4 + be24(frag, 1)))
        }
    }
}

/// Walks the server-name list of an SNI extension from `pos` up to `end`: the first
/// entry of type `host_name` gives the name.
pub open spec fn sni_list_scan(d: Seq<u8>, pos: int, end: int) -> Option<Seq<u8>>
    decreases remaining(pos, end),
{
    if pos >= 0 && pos + 3 <= end && end <= d.len() {
        let len = be16(d, pos + 1);
        if d[pos] == 0u8 {
            if pos + 3 + len > d.len() {
                None
            } else {
                Some(d.subrange(pos + 3, pos + 3 + len))
            }
        } else {
            sni_list_scan(d, pos + 3 + len, end)
        }
    } else {
        None
    }
}

/// The host name bytes in the data of an SNI extension.
pub open spec fn sni_extension_name(d: Seq<u8>) -> Option<Seq<u8>> {
    if d.len() < 2 || be16(d, 0) + 2 > d.len() {
        None
    } else {
        sni_list_scan(d, 2, 2 + be16(d, 0))
    }
}

/// Walks the extensions of a ClientHello body from `pos` up to `end`: the first
/// extension of type 0 (server_name) decides the result.
pub open spec fn extensions_scan(body: Seq<u8>, pos: int, end: int) -> Option<Seq<u8>>
    decreases remaining(pos, end),
{
    if pos >= 0 && pos + 4 <= end && end <= body.len() {
        let len = be16(body, pos + 2);
        if be16(body, pos) == 0 {
            if pos + 4 + len > body.len() {
                None
            } else {
                sni_extension_name(body.subrange(pos + 4, pos + 4 + len))
            }
        } else {
            extensions_scan(body, pos + 4 + len, end)
        }
    } else {
        None
    }
}

/// Where the extensions of a ClientHello body start and end, if its fixed fields fit.
pub open spec fn client_hello_extensions(body: Seq<u8>) -> Option<(int, int)> {
    if body.len() < 34 || body.len() <= 34 {
        None
    } else {
        let p1 = 35 + body[34] as int;
        if p1 + 2 > body.len() {
            None
        } else {
            let p2 = p1 + 2 + be16(body, p1);
            if p2 >= body.len() {
                None
            } else {
                let p3 = p2 + 1 + body[p2] as int;
                if p3 + 2 > body.len() {
                    None
                } else if p3 + 2 + be16(body, p3) > body.len() {
                    None
                } else {
                    Some((p3 + 2, p3 + 2 + be16(body, p3)))
                }
            }
        }
    }
}

/// The SNI host name bytes of a TLS ClientHello record.
pub open spec fn tls_sni_bytes(data: Seq<u8>) -> Option<Seq<u8>> {
    match tls_client_hello_body(data) {
        None => None,
        Some(body) => match client_hello_extensions(body) {
            None => None,
            Some((start, end)) => extensions_scan(body, start, end),
        },
    }
}

/// A host name taken from bytes: present exactly when the bytes are UTF-8.
pub open spec fn utf8_name(b: Option<Seq<u8>>) -> Option<Seq<char>> {
    match b {
        Some(bytes) => if valid_utf8(bytes) {
            Some(decode_utf8(bytes))
        } else {
            None
        },
        None => None,
    }
}

pub open spec fn view_opt_string(r: Option<String>) -> Option<Seq<char>> {
    match r {
        Some(s) => Some(s@),
        None => None,
    }
}

fn name_from_bytes(bytes: Vec<u8>) -> (r: Option<String>)
    ensures
        view_opt_string(r) == utf8_name(Some(bytes@)),
{
    string_from_utf8(bytes)
}

/// Parses the data of an SNI extension and returns its host name.
pub fn parse_sni_extension(data: &[u8]) -> (r: Option<String>)
    ensures
        view_opt_string(r) == utf8_name(sni_extension_name(data@)),
{
    if data.len() < 2 {
        return None;
    }
    let list_len = read_be16(data, 0);
    if list_len + 2 > data.len() {
        return None;
    }
    let mut pos: usize = 2;
    let list_end: usize = 2 + list_len;
    while pos + 3 <= list_end
        invariant
            list_end == 2 + be16(data@, 0),
            list_end <= data@.len(),
            2 <= pos,
            pos <= list_end + 65538,
            sni_list_scan(data@, 2, list_end as int) == sni_list_scan(data@, pos as int, list_end as int),
        decreases remaining(pos as int, list_end as int),
    {
        let name_type = data[pos];
        let name_len = read_be16(data, pos + 1);
        if name_type == 0 {
            if pos + 3 + name_len > data.len() {
                return None;
            }
            let name = copy_range(data, pos + 3, pos + 3 + name_len);
            return name_from_bytes(name);
        }
        pos = pos + 3 + name_len;
    }
    None
}

/// Extracts the SNI host name from a TLS ClientHello record.
pub fn parse_tls_sni(data: &[u8]) -> (r: Option<String>)
    ensures
        view_opt_string(r) == utf8_name(tls_sni_bytes(data@)),
{
    if data.len() < 5 {
        return None;
    }
    if data[0] != 0x16 {
        return None;
    }
    let version = read_be16(data, 1);
    if !(0x0300 <= version && version <= 0x0303) {
        return None;
    }
    let record_len = read_be16(data, 3);
    if 5 + record_len > data.len() {
        return None;
    }
    let fragment = slice_subrange(data, 5, 5 + record_len);
    if fragment.len() == 0 || fragment[0] != 0x01 {
        return None;
    }
    if fragment.len() < 4 {
        return None;
    }
    let handshake_len = read_be24(fragment, 1);
    if 4 + handshake_len > fragment.len() {
        return None;
    }
    let body = slice_subrange(fragment, 4, 4 + handshake_len);
    proof {
        assert(tls_client_hello_body(data@) == Some(body@));
    }
    if body.len() < 34 {
        return None;
    }
    if body.len() <= 34 {
        return None;
    }
    let mut pos: usize = 34;
    let session_id_len = body[pos] as usize;
    pos = pos + 1 + session_id_len;
    if pos + 2 > body.len() {
        return None;
    }
    let cipher_suites_len = read_be16(body, pos);
    pos = pos + 2 + cipher_suites_len;
    if pos >= body.len() {
        return None;
    }
    let compression_len = body[pos] as usize;
    pos = pos + 1 + compression_len;
    if pos + 2 > body.len() {
        return None;
    }
    let extensions_len = read_be16(body, pos);
    pos = pos + 2;
    let extensions_end = pos + extensions_len;
    if extensions_end > body.len() {
        return None;
    }
    proof {
        assert(client_hello_extensions(body@) == Some((pos as int, extensions_end as int)));
    }
    while pos + 4 <= extensions_end
        invariant
            extensions_end <= body@.len(),
            body@.len() < 16777216,
            pos <= extensions_end + 65540,
            tls_sni_bytes(data@) == extensions_scan(body@, pos as int, extensions_end as int),
        decreases remaining(pos as int, extensions_end as int),
    {
        let ext_type = read_be16(body, pos);
        let ext_len = read_be16(body, pos + 2);
        if ext_type == 0 {
            if pos + 4 + ext_len > body.len() {
                return None;
            }
            let ext = slice_subrange(body, pos + 4, pos + 4 + ext_len);
            return parse_sni_extension(ext);
        }
        pos = pos + 4 + ext_len;
    }
    None
}


// ─── HTTP ──────────────────────────────────────────────────────────────────

/// The request methods that mark the start of an HTTP request, each with its space.
pub open spec fn http_method(k: int) -> Seq<u8> {
    if k == 0 {
        seq![0x47u8, 0x45, 0x54, 0x20]  // "GET "
    } else if k == 1 {
        seq![0x50u8, 0x4f, 0x53, 0x54, 0x20]  // "POST "
    } else if k == 2 {
        seq![0x50u8, 0x55, 0x54, 0x20]  // "PUT "
    } else if k == 3 {
        seq![0x48u8, 0x45, 0x41, 0x44, 0x20]  // "HEAD "
    } else if k == 4 {
        seq![0x44u8, 0x45, 0x4c, 0x45, 0x54, 0x45, 0x20]  // "DELETE "
    } else if k == 5 {
        seq![0x4fu8, 0x50, 0x54, 0x49, 0x4f, 0x4e, 0x53, 0x20]  // "OPTIONS "
    } else if k == 6 {
        seq![0x50u8, 0x41, 0x54, 0x43, 0x48, 0x20]  // "PATCH "
    } else {
        seq![0x43u8, 0x4f, 0x4e, 0x4e, 0x45, 0x43, 0x54, 0x20]  // "CONNECT "
    }
}

/// `data` starts with one of the HTTP request methods.
pub open spec fn starts_with_http_method(data: Seq<u8>) -> bool {
    exists|k: int| 0 <= k < 8 && #[trigger] starts_with(data, http_method(k))
}

/// Data starts like an HTTP request exactly when it starts with one of the eight
/// request methods followed by a space: "GET ", "POST ", "PUT ", "HEAD ",
/// "DELETE ", "OPTIONS ", "PATCH " or "CONNECT " (spelled out here in ASCII).
pub proof fn lemma_http_method_set(data: Seq<u8>)
    ensures
        starts_with_http_method(data) <==> (
            starts_with(data, seq![0x47u8, 0x45, 0x54, 0x20])  // G E T space
            || starts_with(data, seq![0x50u8, 0x4f, 0x53, 0x54, 0x20])  // P O S T space
            || starts_with(data, seq![0x50u8, 0x55, 0x54, 0x20])  // P U T space
            || starts_with(data, seq![0x48u8, 0x45, 0x41, 0x44, 0x20])  // H E A D space
            || starts_with(data, seq![0x44u8, 0x45, 0x4c, 0x45, 0x54, 0x45, 0x20])  // D E L E T E space
            || starts_with(data, seq![0x4fu8, 0x50, 0x54, 0x49, 0x4f, 0x4e, 0x53, 0x20])  // O P T I O N S space
            || starts_with(data, seq![0x50u8, 0x41, 0x54, 0x43, 0x48, 0x20])  // P A T C H space
            || starts_with(data, seq![0x43u8, 0x4f, 0x4e, 0x4e, 0x45, 0x43, 0x54, 0x20])  // C O N N E C T space
        ),
{
    assert(http_method(0) =~= seq![0x47u8, 0x45, 0x54, 0x20]);
    assert(http_method(1) =~= seq![0x50u8, 0x4f, 0x53, 0x54, 0x20]);
    assert(http_method(2) =~= seq![0x50u8, 0x55, 0x54, 0x20]);
    assert(http_method(3) =~= seq![0x48u8, 0x45, 0x41, 0x44, 0x20]);
    assert(http_method(4) =~= seq![0x44u8, 0x45, 0x4c, 0x45, 0x54, 0x45, 0x20]);
    assert(http_method(5) =~= seq![0x4fu8, 0x50, 0x54, 0x49, 0x4f, 0x4e, 0x53, 0x20]);
    assert(http_method(6) =~= seq![0x50u8, 0x41, 0x54, 0x43, 0x48, 0x20]);
    assert(http_method(7) =~= seq![0x43u8, 0x4f, 0x4e, 0x4e, 0x45, 0x43, 0x54, 0x20]);
}

/// The eight method prefixes, as text: each is the ASCII encoding of its name and
/// a space, so "PUT " among them is the bytes 0x50 0x55 0x54 0x20.
pub proof fn lemma_http_method_text()
    ensures
        encode_utf8("GET "@) == seq![0x47u8, 0x45, 0x54, 0x20],
        encode_utf8("POST "@) == seq![0x50u8, 0x4f, 0x53, 0x54, 0x20],
        encode_utf8("PUT "@) == seq![0x50u8, 0x55, 0x54, 0x20],
        encode_utf8("HEAD "@) == seq![0x48u8, 0x45, 0x41, 0x44, 0x20],
        encode_utf8("DELETE "@) == seq![0x44u8, 0x45, 0x4c, 0x45, 0x54, 0x45, 0x20],
        encode_utf8("OPTIONS "@) == seq![0x4fu8, 0x50, 0x54, 0x49, 0x4f, 0x4e, 0x53, 0x20],
        encode_utf8("PATCH "@) == seq![0x50u8, 0x41, 0x54, 0x43, 0x48, 0x20],
        encode_utf8("CONNECT "@) == seq![0x43u8, 0x4f, 0x4e, 0x4e, 0x45, 0x43, 0x54, 0x20],
{
    reveal_strlit("GET ");
    reveal_strlit("POST ");
    reveal_strlit("PUT ");
    reveal_strlit("HEAD ");
    reveal_strlit("DELETE ");
    reveal_strlit("OPTIONS ");
    reveal_strlit("PATCH ");
    reveal_strlit("CONNECT ");
    lemma_ascii_text("GET "@, seq![0x47u8, 0x45, 0x54, 0x20]);
    lemma_ascii_text("POST "@, seq![0x50u8, 0x4f, 0x53, 0x54, 0x20]);
    lemma_ascii_text("PUT "@, seq![0x50u8, 0x55, 0x54, 0x20]);
    lemma_ascii_text("HEAD "@, seq![0x48u8, 0x45, 0x41, 0x44, 0x20]);
    lemma_ascii_text("DELETE "@, seq![0x44u8, 0x45, 0x4c, 0x45, 0x54, 0x45, 0x20]);
    lemma_ascii_text("OPTIONS "@, seq![0x4fu8, 0x50, 0x54, 0x49, 0x4f, 0x4e, 0x53, 0x20]);
    lemma_ascii_text("PATCH "@, seq![0x50u8, 0x41, 0x54, 0x43, 0x48, 0x20]);
    lemma_ascii_text("CONNECT "@, seq![0x43u8, 0x4f, 0x4e, 0x4e, 0x45, 0x43, 0x54, 0x20]);
}

proof fn lemma_ascii_text(s: Seq<char>, b: Seq<u8>)
    requires
        s.len() == b.len(),
        forall|i: int| 0 <= i < s.len() ==> '\0' <= #[trigger] s[i] <= '\u{7f}' && b[i] == s[i] as u8,
    ensures
        encode_utf8(s) == b,
{
    assert(vstd::utf8::is_ascii_chars(s));
    vstd::utf8::is_ascii_chars_encode_utf8(s);
    assert(encode_utf8(s) =~= b);
}

fn method_bytes(k: usize) -> (r: Vec<u8>)
    requires
        k < 8,
    ensures
        r@ == http_method(k as int),
{
    let r = if k == 0 {
        vec![0x47u8, 0x45, 0x54, 0x20]
    } else if k == 1 {
        vec![0x50u8, 0x4f, 0x53, 0x54, 0x20]
    } else if k == 2 {
        vec![0x50u8, 0x55, 0x54, 0x20]
    } else if k == 3 {
        vec![0x48u8, 0x45, 0x41, 0x44, 0x20]
    } else if k == 4 {
        vec![0x44u8, 0x45, 0x4c, 0x45, 0x54, 0x45, 0x20]
    } else if k == 5 {
        vec![0x4fu8, 0x50, 0x54, 0x49, 0x4f, 0x4e, 0x53, 0x20]
    } else if k == 6 {
        vec![0x50u8, 0x41, 0x54, 0x43, 0x48, 0x20]
    } else {
        vec![0x43u8, 0x4f, 0x4e, 0x4e, 0x45, 0x43, 0x54, 0x20]
    };
    proof {
        assert(r@ =~= http_method(k as int));
    }
    r
}

/// Whether `data` starts like an HTTP request.
pub fn is_http_request(data: &[u8]) -> (r: bool)
    ensures
        r == starts_with_http_method(data@),
{
    let mut k: usize = 0;
    while k < 8
        invariant
            k <= 8,
            forall|j: int| 0 <= j < k ==> !#[trigger] starts_with(data@, http_method(j)),
        decreases 8 - k,
    {
        let m = method_bytes(k);
        if has_prefix(data, m.as_slice()) {
            return true;
        }
        k = k + 1;
    }
    false
}

/// `line` starts with `p`.
pub open spec fn chars_start_with(line: Seq<char>, p: Seq<char>) -> bool {
    p.len() <= line.len() && line.subrange(0, p.len() as int) == p
}

pub open spec fn host_upper() -> Seq<char> {
    seq!['H', 'o', 's', 't', ':']
}

pub open spec fn host_lower() -> Seq<char> {
    seq!['h', 'o', 's', 't', ':']
}

/// The host named by one header line: a `Host:` (or `host:`) line, trimmed, with a
/// numeric `:port` suffix removed; nothing when that leaves an empty name.
pub open spec fn host_of_line(line: Seq<char>) -> Option<Seq<char>> {
    if chars_start_with(line, host_upper()) || chars_start_with(line, host_lower()) {
        let host = trim(line.skip(5));
        let name = match last_index_of(host, ':') {
            Some(k) => if all_digits(host.skip(k + 1)) {
                host.take(k)
            } else {
                host
            },
            None => host,
        };
        if name.len() > 0 {
            Some(name)
        } else {
            None
        }
    } else {
        None
    }
}

/// Scans the lines of `t` (split at `\n`, a `\r` before the `\n` dropped) from the
/// line that starts at `start`, `i` being the next character to look at.
pub open spec fn host_scan(t: Seq<char>, start: int, i: int) -> Option<Seq<char>>
    decreases t.len() - i,
{
    if i < 0 || start < 0 || start > i {
        None
    } else if i >= t.len() {
        if start < t.len() {
            host_of_line(t.subrange(start, t.len() as int))
        } else {
            None
        }
    } else if t[i] == '\n' {
        let raw = t.subrange(start, i);
        let line = if raw.len() > 0 && raw.last() == '\r' {
            raw.drop_last()
        } else {
            raw
        };
        match host_of_line(line) {
            Some(h) => Some(h),
            None => host_scan(t, i + 1, i + 1),
        }
    } else {
        host_scan(t, start, i + 1)
    }
}

/// The `Host` of an HTTP request: the data must start with a request method and be
/// UTF-8 text; the first header line that names a host wins.
pub open spec fn http_host_spec(data: Seq<u8>) -> Option<Seq<char>> {
    if !starts_with_http_method(data) || !valid_utf8(data) {
        None
    } else {
        host_scan(decode_utf8(data), 0, 0)
    }
}

/// The host named by the line `v[ls..le]`, as bounds into `v`.
fn line_host(v: &Vec<char>, ls: usize, le: usize) -> (r: Option<(usize, usize)>)
    requires
        ls <= le <= v@.len(),
    ensures
        match r {
            Some((a, b)) => a <= b <= v@.len() && host_of_line(v@.subrange(ls as int, le as int))
                == Some(v@.subrange(a as int, b as int)),
            None => host_of_line(v@.subrange(ls as int, le as int)) is None,
        },
{
    let ghost line = v@.subrange(ls as int, le as int);
    let upper = vec!['H', 'o', 's', 't', ':'];
    let lower = vec!['h', 'o', 's', 't', ':'];
    proof {
        assert(upper@ =~= host_upper());
        assert(lower@ =~= host_lower());
    }
    let up = range_starts_with(v, ls, le, &upper);
    let lo = range_starts_with(v, ls, le, &lower);
    proof {
        assert(up == chars_start_with(line, host_upper())) by {
            if 5 <= le - ls {
                assert(line.subrange(0, 5) =~= v@.subrange(ls as int, ls + 5));
            }
        }
        assert(lo == chars_start_with(line, host_lower())) by {
            if 5 <= le - ls {
                assert(line.subrange(0, 5) =~= v@.subrange(ls as int, ls + 5));
            }
        }
    }
    if !up && !lo {
        return None;
    }
    proof {
        assert(line.skip(5) =~= v@.subrange(ls + 5, le as int));
    }
    let (a, b) = trim_bounds(v, ls + 5, le);
    let ghost host = v@.subrange(a as int, b as int);
    let (na, nb) = match rfind_char(v, a, b, ':') {
        Some(k) => {
            proof {
                assert(host.skip(k - a + 1) =~= v@.subrange(k + 1, b as int));
                assert(host.take(k - a) =~= v@.subrange(a as int, k as int));
            }
            if range_all_digits(v, k + 1, b) {
                (a, k)
            } else {
                (a, b)
            }
        },
        None => (a, b),
    };
    if na < nb {
        Some((na, nb))
    } else {
        None
    }
}

/// Extracts the `Host` header of an HTTP request, without a numeric port.
pub fn parse_http_host(data: &[u8]) -> (r: Option<String>)
    ensures
        view_opt_string(r) == http_host_spec(data@),
{
    if !is_http_request(data) {
        return None;
    }
    let text = match str_from_utf8(data) {
        Some(t) => t,
        None => return None,
    };
    let v = chars_of(text);
    let ghost t = v@;
    let mut start: usize = 0;
    let mut i: usize = 0;
    while i < v.len()
        invariant
            v@ == t,
            t == text@,
            start <= i <= t.len(),
            http_host_spec(data@) == host_scan(t, start as int, i as int),
        decreases t.len() - i,
    {
        if v[i] == '\n' {
            let le = if i > start && v[i - 1] == '\r' {
                i - 1
            } else {
                i
            };
            proof {
                let raw = t.subrange(start as int, i as int);
                if raw.len() > 0 && raw.last() == '\r' {
                    assert(raw.drop_last() =~= t.subrange(start as int, le as int));
                } else {
                    assert(raw =~= t.subrange(start as int, le as int));
                }
            }
            match line_host(&v, start, le) {
                Some((a, b)) => {
                    let h = text.substring_char(a, b).to_owned();
                    return Some(h);
                },
                None => {},
            }
            start = i + 1;
        }
        i = i + 1;
    }
    if start < v.len() {
        match line_host(&v, start, v.len()) {
            Some((a, b)) => {
                let h = text.substring_char(a, b).to_owned();
                return Some(h);
            },
            None => {},
        }
    }
    None
}


// ─── QUIC Initial ──────────────────────────────────────────────────────────

/// A name found by the QUIC scan is kept only when it is non-empty ASCII holding a dot.
pub open spec fn plausible_name(name: Seq<u8>) -> bool {
    name.len() > 0 && (exists|k: int| 0 <= k < name.len() && name[k] == 0x2eu8) && (forall|k: int|
        0 <= k < name.len() ==> name[k] < 0x80u8)
}

/// The name inside an SNI extension whose data starts at `p` and is `len` long, read
/// loosely (the list length is not checked).
pub open spec fn quic_sni_candidate(data: Seq<u8>, p: int, len: int) -> Option<Seq<u8>> {
    if p + 5 <= data.len() && p + len <= data.len() && data[p + 2] == 0u8 && p + 5 + be16(
        data,
        p + 3,
    ) <= data.len() {
        let name = data.subrange(p + 5, p + 5 + be16(data, p + 3));
        if plausible_name(name) {
            Some(name)
        } else {
            None
        }
    } else {
        None
    }
}

/// Walks extensions from `pos` (bounded by the data and by `ext_end`); the first
/// server_name extension decides.
pub open spec fn quic_ext_scan(data: Seq<u8>, pos: int, ext_end: int) -> Option<Seq<u8>>
    decreases remaining(pos, data.len() as int),
{
    if 0 <= pos && pos + 4 <= data.len() && pos + 4 <= ext_end {
        if be16(data, pos) == 0 {
            quic_sni_candidate(data, pos + 4, be16(data, pos + 2))
        } else {
            quic_ext_scan(data, pos + 4 + be16(data, pos + 2), ext_end)
        }
    } else {
        None
    }
}

/// The name found when a ClientHello is taken to start at `i`.
pub open spec fn quic_hello_at(data: Seq<u8>, i: int) -> Option<Seq<u8>> {
    let len = data.len() as int;
    if data[i] != 0x01u8 || i + 4 > len {
        None
    } else if be24(data, i + 1) < 38 || i + 4 + be24(data, i + 1) > len + 100 {
        None
    } else {
        let sid_off = i + 38;
        if sid_off >= len {
            None
        } else {
            let cipher_off = sid_off + 1 + data[sid_off] as int;
            if cipher_off + 2 > len {
                None
            } else {
                let comp_off = cipher_off + 2 + be16(data, cipher_off);
                if comp_off + 1 > len {
                    None
                } else {
                    let ext_off = comp_off + 1 + data[comp_off] as int;
                    if ext_off + 2 > len {
                        None
                    } else {
                        quic_ext_scan(data, ext_off + 2, ext_off + 2 + be16(data, ext_off))
                    }
                }
            }
        }
    }
}

/// Tries each offset from `i` up to 40 bytes before the end.
pub open spec fn quic_scan(data: Seq<u8>, i: int) -> Option<Seq<u8>>
    decreases remaining(i, data.len() - 40),
{
    if 0 <= i && i < data.len() - 40 {
        match quic_hello_at(data, i) {
            Some(n) => Some(n),
            None => quic_scan(data, i + 1),
        }
    } else {
        None
    }
}

/// The SNI bytes found in a QUIC long-header packet by scanning for a ClientHello.
pub open spec fn quic_sni_bytes(data: Seq<u8>) -> Option<Seq<u8>> {
    if data.len() < 5 || data[0] < 0x80u8 || be32(data, 1) == 0 {
        None
    } else {
        quic_scan(data, 5)
    }
}

/// A name found from `pos` on is a plausible name lying in the data at or after `pos`.
proof fn lemma_quic_ext_scan_found(data: Seq<u8>, pos: int, ext_end: int)
    ensures
        quic_ext_scan(data, pos, ext_end) matches Some(n) ==> plausible_name(n) && exists|q: int|
            pos <= q && q + n.len() <= data.len() && #[trigger] data.subrange(q, q + n.len()) == n,
    decreases remaining(pos, data.len() as int),
{
    if 0 <= pos && pos + 4 <= data.len() && pos + 4 <= ext_end {
        if be16(data, pos) == 0 {
            let p = pos + 4;
            if let Some(n) = quic_sni_candidate(data, p, be16(data, pos + 2)) {
                let q = p + 5;
                assert(data.subrange(q, q + n.len()) == n);
            }
        } else {
            let next = pos + 4 + be16(data, pos + 2);
            lemma_quic_ext_scan_found(data, next, ext_end);
            if let Some(n) = quic_ext_scan(data, next, ext_end) {
                let q = choose|q: int| next <= q && q + n.len() <= data.len() && #[trigger] data.subrange(q, q + n.len()) == n;
                assert(pos <= q);
            }
        }
    }
}

/// A name found by the scan from `i` is a plausible name lying in the data at or
/// after `i`.
proof fn lemma_quic_scan_found(data: Seq<u8>, i: int)
    ensures
        quic_scan(data, i) matches Some(n) ==> plausible_name(n) && data.len() > i + 40 && exists|q: int|
            i <= q && q + n.len() <= data.len() && #[trigger] data.subrange(q, q + n.len()) == n,
    decreases remaining(i, data.len() - 40),
{
    if 0 <= i && i < data.len() - 40 {
        if let Some(n) = quic_hello_at(data, i) {
            let len = data.len() as int;
            let sid_off = i + 38;
            let cipher_off = sid_off + 1 + data[sid_off] as int;
            let comp_off = cipher_off + 2 + be16(data, cipher_off);
            let ext_off = comp_off + 1 + data[comp_off] as int;
            lemma_quic_ext_scan_found(data, ext_off + 2, ext_off + 2 + be16(data, ext_off));
            let q = choose|q: int| ext_off + 2 <= q && q + n.len() <= data.len() && #[trigger] data.subrange(q, q + n.len()) == n;
            assert(i <= q);
        } else {
            lemma_quic_scan_found(data, i + 1);
            if let Some(n) = quic_scan(data, i + 1) {
                let q = choose|q: int| i + 1 <= q && q + n.len() <= data.len() && #[trigger] data.subrange(q, q + n.len()) == n;
                assert(i <= q);
            }
        }
    }
}

/// A name that the QUIC sniffer finds comes from a long-header packet of a version
/// other than 0 and at least 46 bytes, is non-empty ASCII holding a dot, and lies in
/// the packet after its first five bytes.
pub proof fn lemma_quic_sni_found(data: Seq<u8>)
    ensures
        quic_sni_bytes(data) matches Some(n) ==> {
            &&& data.len() >= 46
            &&& data[0] >= 0x80u8
            &&& be32(data, 1) != 0
            &&& plausible_name(n)
            &&& exists|q: int| 5 <= q && q + n.len() <= data.len() && #[trigger] data.subrange(q, q + n.len()) == n
        },
{
    lemma_quic_scan_found(data, 5);
}

/// Whether `name` is non-empty ASCII holding a dot.
fn is_plausible_name(data: &[u8], a: usize, b: usize) -> (r: bool)
    requires
        a <= b <= data@.len(),
    ensures
        r == plausible_name(data@.subrange(a as int, b as int)),
{
    let ghost name = data@.subrange(a as int, b as int);
    if a == b {
        return false;
    }
    let mut dot = false;
    let mut i = a;
    while i < b
        invariant
            a <= i <= b <= data@.len(),
            name == data@.subrange(a as int, b as int),
            dot == (exists|k: int| 0 <= k < i - a && name[k] == 0x2eu8),
            forall|k: int| 0 <= k < i - a ==> name[k] < 0x80u8,
        decreases b - i,
    {
        if data[i] >= 0x80 {
            proof {
                assert(name[i - a] >= 0x80u8);
            }
            return false;
        }
        if data[i] == 0x2e {
            proof {
                assert(name[i - a] == 0x2eu8);
            }
            dot = true;
        }
        proof {
            assert(name[i - a] == data@[i as int]);
        }
        i = i + 1;
    }
    dot
}

/// Extracts the SNI of a QUIC Initial packet by scanning for a ClientHello.
pub fn parse_quic_sni(data: &[u8]) -> (r: Option<String>)
    requires
        data@.len() <= isize::MAX,
    ensures
        view_opt_string(r) == utf8_name(quic_sni_bytes(data@)),
{
    let len = data.len();
    if len < 5 {
        return None;
    }
    if data[0] < 0x80 {
        return None;
    }
    if data[1] == 0 && data[2] == 0 && data[3] == 0 && data[4] == 0 {
        return None;
    }
    let end = if len >= 40 {
        len - 40
    } else {
        0
    };
    let mut i: usize = 5;
    while i < end
        invariant
            len == data@.len(),
            len <= isize::MAX,
            end == (if len >= 40 {
                len - 40
            } else {
                0
            }),
            5 <= i,
            quic_sni_bytes(data@) == quic_scan(data@, i as int),
        decreases end - i,
    {
        match quic_hello_at_exec(data, i) {
            Some((a, b)) => {
                let name = copy_range(data, a, b);
                return name_from_bytes(name);
            },
            None => {},
        }
        i = i + 1;
    }
    None
}

/// `quic_hello_at`, returning the name as bounds into `data`.
fn quic_hello_at_exec(data: &[u8], i: usize) -> (r: Option<(usize, usize)>)
    requires
        data@.len() <= isize::MAX,
        i + 40 < data@.len(),
    ensures
        match r {
            Some((a, b)) => a <= b <= data@.len() && quic_hello_at(data@, i as int) == Some(
                data@.subrange(a as int, b as int),
            ),
            None => quic_hello_at(data@, i as int) is None,
        },
{
    let len = data.len();
    if data[i] != 0x01 {
        return None;
    }
    let hs_len = read_be24(data, i + 1);
    if hs_len < 38 || i + 4 + hs_len > len + 100 {
        return None;
    }
    let sid_off = i + 4 + 34;
    if sid_off >= len {
        return None;
    }
    let sid_len = data[sid_off] as usize;
    let cipher_off = sid_off + 1 + sid_len;
    if cipher_off + 2 > len {
        return None;
    }
    let cipher_len = read_be16(data, cipher_off);
    let comp_off = cipher_off + 2 + cipher_len;
    if comp_off + 1 > len {
        return None;
    }
    let comp_len = data[comp_off] as usize;
    let ext_off = comp_off + 1 + comp_len;
    if ext_off + 2 > len {
        return None;
    }
    let ext_total = read_be16(data, ext_off);
    let mut pos = ext_off + 2;
    let ext_end = pos + ext_total;
    while pos + 4 <= len && pos + 4 <= ext_end
        invariant
            len == data@.len(),
            len <= isize::MAX,
            ext_end <= len + 65537,
            pos <= len + 65539,
            quic_hello_at(data@, i as int) == quic_ext_scan(data@, pos as int, ext_end as int),
        decreases remaining(pos as int, len as int),
    {
        let ext_type = read_be16(data, pos);
        let ext_len = read_be16(data, pos + 2);
        let p = pos + 4;
        if ext_type == 0 {
            if p + 5 <= len && p + ext_len <= len {
                let name_type = data[p + 2];
                if name_type == 0 {
                    let name_len = read_be16(data, p + 3);
                    if p + 5 + name_len <= len {
                        if is_plausible_name(data, p + 5, p + 5 + name_len) {
                            return Some((p + 5, p + 5 + name_len));
                        }
                    }
                }
            }
            return None;
        }
        pos = p + ext_len;
    }
    None
}


// ─── Protocol detection ────────────────────────────────────────────────────

/// BitTorrent: the peer-wire handshake (19, "BitTorrent protocol") or a bencoded
/// DHT message starting with "d1:".
pub open spec fn bittorrent_spec(data: Seq<u8>) -> bool {
    (data.len() >= 20 && data[0] == 19u8 && data.subrange(1, 20) == bittorrent_tag())
        || (data.len() >= 4 && starts_with(data, seq![0x64u8, 0x31, 0x3a]))
}

/// "BitTorrent protocol".
pub open spec fn bittorrent_tag() -> Seq<u8> {
    seq![
        0x42u8, 0x69, 0x74, 0x54, 0x6f, 0x72, 0x72, 0x65, 0x6e, 0x74, 0x20, 0x70, 0x72, 0x6f,
        0x74, 0x6f, 0x63, 0x6f, 0x6c,
    ]
}

pub fn is_bittorrent(data: &[u8]) -> (r: bool)
    ensures
        r == bittorrent_spec(data@),
{
    let tag: Vec<u8> = vec![
        0x42u8, 0x69, 0x74, 0x54, 0x6f, 0x72, 0x72, 0x65, 0x6e, 0x74, 0x20, 0x70, 0x72, 0x6f,
        0x74, 0x6f, 0x63, 0x6f, 0x6c,
    ];
    proof {
        assert(tag@ =~= bittorrent_tag());
    }
    if data.len() >= 20 && data[0] == 19 && matches_at(data, tag.as_slice(), 1) {
        return true;
    }
    let dht: Vec<u8> = vec![0x64u8, 0x31, 0x3a];
    proof {
        assert(dht@ =~= seq![0x64u8, 0x31, 0x3a]);
    }
    data.len() >= 4 && has_prefix(data, dht.as_slice())
}

/// STUN (RFC 5389): at least 20 bytes, the top two bits clear, and the magic cookie
/// 0x2112A442 at offset 4.
pub open spec fn stun_spec(data: Seq<u8>) -> bool {
    data.len() >= 20 && data[0] < 0x40u8 && data[4] == 0x21u8 && data[5] == 0x12u8 && data[6]
        == 0xa4u8 && data[7] == 0x42u8
}

pub fn is_stun(data: &[u8]) -> (r: bool)
    ensures
        r == stun_spec(data@),
{
    if data.len() < 20 {
        return false;
    }
    if data[0] >= 0x40 {
        return false;
    }
    data[4] == 0x21 && data[5] == 0x12 && data[6] == 0xA4 && data[7] == 0x42
}

/// A DTLS handshake record: at least 13 bytes, content type 0x16 and version
/// 0xFEFF (1.0) or 0xFEFD (1.2).
pub open spec fn dtls_spec(data: Seq<u8>) -> bool {
    data.len() >= 13 && data[0] == 0x16u8 && (be16(data, 1) == 0xfeff || be16(data, 1) == 0xfefd)
}

pub fn is_dtls(data: &[u8]) -> (r: bool)
    ensures
        r == dtls_spec(data@),
{
    if data.len() < 13 {
        return false;
    }
    if data[0] != 0x16 {
        return false;
    }
    let version = read_be16(data, 1);
    version == 0xFEFF || version == 0xFEFD
}

/// SSH (RFC 4253): the identification string starts with "SSH-".
pub open spec fn ssh_spec(data: Seq<u8>) -> bool {
    data.len() >= 4 && starts_with(data, seq![0x53u8, 0x53, 0x48, 0x2d])
}

pub fn is_ssh(data: &[u8]) -> (r: bool)
    ensures
        r == ssh_spec(data@),
{
    let p: Vec<u8> = vec![0x53u8, 0x53, 0x48, 0x2d];
    proof {
        assert(p@ =~= seq![0x53u8, 0x53, 0x48, 0x2d]);
    }
    data.len() >= 4 && has_prefix(data, p.as_slice())
}

/// The protocols that detection can name.
#[derive(PartialEq, Eq, Structural, Clone, Copy, Debug)]
pub enum DetectedProtocol {
    Dtls,
    Tls,
    Http,
    Bittorrent,
    Stun,
    Ssh,
}

impl DetectedProtocol {
    pub open spec fn spec_name(self) -> Seq<char> {
        match self {
            DetectedProtocol::Dtls => "dtls"@,
            DetectedProtocol::Tls => "tls"@,
            DetectedProtocol::Http => "http"@,
            DetectedProtocol::Bittorrent => "bittorrent"@,
            DetectedProtocol::Stun => "stun"@,
            DetectedProtocol::Ssh => "ssh"@,
        }
    }

    /// The protocol's name.
    pub fn name(self) -> (r: &'static str)
        ensures
            r@ == self.spec_name(),
    {
        match self {
            DetectedProtocol::Dtls => "dtls",
            DetectedProtocol::Tls => "tls",
            DetectedProtocol::Http => "http",
            DetectedProtocol::Bittorrent => "bittorrent",
            DetectedProtocol::Stun => "stun",
            DetectedProtocol::Ssh => "ssh",
        }
    }

    /// The well-known port that the protocol implies: 443 for TLS and DTLS, 80 for
    /// HTTP, none otherwise.
    pub open spec fn spec_port(self) -> Option<u16> {
        match self {
            DetectedProtocol::Tls => Some(443u16),
            DetectedProtocol::Http => Some(80u16),
            DetectedProtocol::Dtls => Some(443u16),
            _ => None,
        }
    }
}

/// The protocol that `data` starts with, checked in this order: DTLS (before TLS,
/// both start with 0x16), TLS (a 0x16 record of at least 5 bytes), HTTP, BitTorrent,
/// STUN, SSH.
pub open spec fn detect_spec(data: Seq<u8>) -> Option<DetectedProtocol> {
    if dtls_spec(data) {
        Some(DetectedProtocol::Dtls)
    } else if data.len() >= 5 && data[0] == 0x16u8 {
        Some(DetectedProtocol::Tls)
    } else if starts_with_http_method(data) {
        Some(DetectedProtocol::Http)
    } else if bittorrent_spec(data) {
        Some(DetectedProtocol::Bittorrent)
    } else if stun_spec(data) {
        Some(DetectedProtocol::Stun)
    } else if ssh_spec(data) {
        Some(DetectedProtocol::Ssh)
    } else {
        None
    }
}

pub open spec fn name_of(p: Option<DetectedProtocol>) -> Option<Seq<char>> {
    match p {
        Some(k) => Some(k.spec_name()),
        None => None,
    }
}

pub open spec fn view_opt_str(r: Option<&str>) -> Option<Seq<char>> {
    match r {
        Some(s) => Some(s@),
        None => None,
    }
}

/// Classifies the start of a stream.
pub fn detect_kind(data: &[u8]) -> (r: Option<DetectedProtocol>)
    ensures
        r == detect_spec(data@),
{
    if is_dtls(data) {
        return Some(DetectedProtocol::Dtls);
    }
    if data.len() >= 5 && data[0] == 0x16 {
        return Some(DetectedProtocol::Tls);
    }
    if is_http_request(data) {
        return Some(DetectedProtocol::Http);
    }
    if is_bittorrent(data) {
        return Some(DetectedProtocol::Bittorrent);
    }
    if is_stun(data) {
        return Some(DetectedProtocol::Stun);
    }
    if is_ssh(data) {
        return Some(DetectedProtocol::Ssh);
    }
    None
}

/// Names the protocol that `data` starts with, if any.
pub fn detect_protocol(data: &[u8]) -> (r: Option<&'static str>)
    ensures
        view_opt_str(r) == name_of(detect_spec(data@)),
{
    match detect_kind(data) {
        Some(k) => Some(k.name()),
        None => None,
    }
}

// ─── Sniffing ──────────────────────────────────────────────────────────────

/// The domain that sniffing finds: the TLS SNI, else the HTTP Host, else the SNI of a
/// QUIC Initial packet.
pub open spec fn sniff_spec(data: Seq<u8>) -> Option<Seq<char>> {
    let tls = utf8_name(tls_sni_bytes(data));
    let http = http_host_spec(data);
    if tls is Some {
        tls
    } else if http is Some {
        http
    } else {
        utf8_name(quic_sni_bytes(data))
    }
}

/// Sniffs the destination domain from the first bytes of a stream.
pub fn sniff(data: &[u8]) -> (r: Option<String>)
    requires
        data@.len() <= isize::MAX,
    ensures
        view_opt_string(r) == sniff_spec(data@),
{
    let tls = parse_tls_sni(data);
    if tls.is_some() {
        return tls;
    }
    let http = parse_http_host(data);
    if http.is_some() {
        return http;
    }
    parse_quic_sni(data)
}

/// How a sniffed domain replaces the destination.
#[derive(PartialEq, Eq, Structural, Clone, Copy, Debug)]
pub enum SniffOverrideStrategy {
    /// Replace the host with the sniffed domain and the port with the inferred one.
    Full,
    /// Replace only the host.
    DomainOnly,
    /// Replace only the port.
    PortOnly,
    /// Replace nothing; the result only serves routing.
    RouteOnly,
}

/// The strategy named by a configuration string; unknown names mean `Full`.
pub open spec fn strategy_of(s: Seq<char>) -> SniffOverrideStrategy {
    if s == "full"@ || s == "override"@ {
        SniffOverrideStrategy::Full
    } else if s == "domain-only"@ || s == "domain"@ {
        SniffOverrideStrategy::DomainOnly
    } else if s == "port-only"@ || s == "port"@ {
        SniffOverrideStrategy::PortOnly
    } else if s == "route-only"@ || s == "route"@ || s == "none"@ {
        SniffOverrideStrategy::RouteOnly
    } else {
        SniffOverrideStrategy::Full
    }
}

impl SniffOverrideStrategy {
    pub fn from_str(s: &str) -> (r: Self)
        ensures
            r == strategy_of(s@),
    {
        if str_eq(s, "full") || str_eq(s, "override") {
            SniffOverrideStrategy::Full
        } else if str_eq(s, "domain-only") || str_eq(s, "domain") {
            SniffOverrideStrategy::DomainOnly
        } else if str_eq(s, "port-only") || str_eq(s, "port") {
            SniffOverrideStrategy::PortOnly
        } else if str_eq(s, "route-only") || str_eq(s, "route") || str_eq(s, "none") {
            SniffOverrideStrategy::RouteOnly
        } else {
            SniffOverrideStrategy::Full
        }
    }

    pub open spec fn spec_as_str(self) -> Seq<char> {
        match self {
            SniffOverrideStrategy::Full => "full"@,
            SniffOverrideStrategy::DomainOnly => "domain-only"@,
            SniffOverrideStrategy::PortOnly => "port-only"@,
            SniffOverrideStrategy::RouteOnly => "route-only"@,
        }
    }

    pub fn as_str(&self) -> (r: &'static str)
        ensures
            r@ == self.spec_as_str(),
    {
        match self {
            SniffOverrideStrategy::Full => "full",
            SniffOverrideStrategy::DomainOnly => "domain-only",
            SniffOverrideStrategy::PortOnly => "port-only",
            SniffOverrideStrategy::RouteOnly => "route-only",
        }
    }
}

/// What sniffing learned about a stream.
#[derive(Debug, Clone)]
pub struct SniffResult {
    pub domain: Option<String>,
    pub protocol: Option<&'static str>,
    pub inferred_port: Option<u16>,
}

pub open spec fn port_of(p: Option<DetectedProtocol>) -> Option<u16> {
    match p {
        Some(k) => k.spec_port(),
        None => None,
    }
}

impl SniffResult {
    /// Sniffs the domain and detects the protocol, inferring its well-known port.
    pub fn from_data(data: &[u8]) -> (r: Self)
        requires
            data@.len() <= isize::MAX,
        ensures
            view_opt_string(r.domain) == sniff_spec(data@),
            view_opt_str(r.protocol) == name_of(detect_spec(data@)),
            r.inferred_port == port_of(detect_spec(data@)),
    {
        let domain = sniff(data);
        let kind = detect_kind(data);
        let (protocol, inferred_port) = match kind {
            Some(k) => (Some(k.name()), match k {
                DetectedProtocol::Tls => Some(443u16),
                DetectedProtocol::Http => Some(80u16),
                DetectedProtocol::Dtls => Some(443u16),
                _ => None,
            }),
            None => (None, None),
        };
        SniffResult { domain, protocol, inferred_port }
    }

    /// The host and port that the strategy makes of the original destination.
    pub fn apply_override(
        &self,
        strategy: SniffOverrideStrategy,
        original_host: &str,
        original_port: u16,
    ) -> (r: (String, u16))
        ensures
            r.0@ == (match strategy {
                SniffOverrideStrategy::Full | SniffOverrideStrategy::DomainOnly => match self.domain {
                    Some(d) => d@,
                    None => original_host@,
                },
                _ => original_host@,
            }),
            r.1 == (match strategy {
                SniffOverrideStrategy::Full | SniffOverrideStrategy::PortOnly => match self.inferred_port {
                    Some(p) => p,
                    None => original_port,
                },
                _ => original_port,
            }),
    {
        let use_domain = match strategy {
            SniffOverrideStrategy::Full | SniffOverrideStrategy::DomainOnly => true,
            _ => false,
        };
        let use_port = match strategy {
            SniffOverrideStrategy::Full | SniffOverrideStrategy::PortOnly => true,
            _ => false,
        };
        let host = if use_domain {
            match &self.domain {
                Some(d) => d.clone(),
                None => original_host.to_owned(),
            }
        } else {
            original_host.to_owned()
        };
        let port = if use_port {
            match self.inferred_port {
                Some(p) => p,
                None => original_port,
            }
        } else {
            original_port
        };
        (host, port)
    }
}

// ─── TCP Fast Open ─────────────────────────────────────────────────────────

/// TCP Fast Open settings.
#[derive(Debug, Clone)]
pub struct TfoConfig {
    pub enabled: bool,
    pub queue_len: u32,
}

impl Default for TfoConfig {
    fn default() -> (r: Self)
        ensures
            !r.enabled,
            r.queue_len == 5,
    {
        TfoConfig { enabled: false, queue_len: 5 }
    }
}

impl TfoConfig {
    pub fn new(enabled: bool) -> (r: Self)
        ensures
            r.enabled == enabled,
            r.queue_len == 5,
    {
        TfoConfig { enabled, queue_len: 5 }
    }

    /// The socket options to set (Linux): none when disabled, else `TCP_FASTOPEN`
    /// with the queue length.
    pub fn socket_options(&self) -> (r: Vec<(&'static str, i32)>)
        ensures
            !self.enabled ==> r@.len() == 0,
            self.enabled ==> r@.len() == 1 && r@[0].0@ == "TCP_FASTOPEN"@ && r@[0].1
                == self.queue_len as i32,
    {
        let mut opts: Vec<(&'static str, i32)> = Vec::new();
        if !self.enabled {
            return opts;
        }
        opts.push(("TCP_FASTOPEN", self.queue_len as i32));
        opts
    }
}

// ─── Per-direction rate limiting ───────────────────────────────────────────

/// Separate rate limits for upload and download.
pub struct BiDirectionalRateLimiter {
    upload: RateLimiter,
    download: RateLimiter,
}

impl BiDirectionalRateLimiter {
    pub closed spec fn wf(&self) -> bool {
        self.upload.wf() && self.download.wf()
    }

    pub closed spec fn spec_upload(&self) -> RateLimiter {
        self.upload
    }

    pub closed spec fn spec_download(&self) -> RateLimiter {
        self.download
    }

    pub fn new(upload_bps: u64, download_bps: u64) -> (r: Self)
        ensures
            r.wf(),
            r.spec_upload().spec_max_rate() == upload_bps,
            r.spec_upload().spec_tokens() == upload_bps,
            r.spec_download().spec_max_rate() == download_bps,
            r.spec_download().spec_tokens() == download_bps,
    {
        BiDirectionalRateLimiter {
            upload: RateLimiter::new(upload_bps),
            download: RateLimiter::new(download_bps),
        }
    }

    /// Takes up to `bytes` of upload allowance; the download side is untouched.
    pub fn try_consume_upload(&mut self, bytes: u64) -> (r: u64)
        requires
            old(self).wf(),
        ensures
            final(self).wf(),
            final(self).spec_download() == old(self).spec_download(),
            final(self).spec_upload().spec_max_rate() == old(self).spec_upload().spec_max_rate(),
            r <= bytes,
            old(self).spec_upload().spec_tokens() >= bytes ==> r == bytes,
            final(self).spec_upload().spec_tokens() + r >= old(self).spec_upload().spec_tokens(),
    {
        self.upload.try_consume(bytes)
    }

    /// Takes up to `bytes` of download allowance; the upload side is untouched.
    pub fn try_consume_download(&mut self, bytes: u64) -> (r: u64)
        requires
            old(self).wf(),
        ensures
            final(self).wf(),
            final(self).spec_upload() == old(self).spec_upload(),
            final(self).spec_download().spec_max_rate() == old(
                self,
            ).spec_download().spec_max_rate(),
            r <= bytes,
            old(self).spec_download().spec_tokens() >= bytes ==> r == bytes,
            final(self).spec_download().spec_tokens() + r >= old(
                self,
            ).spec_download().spec_tokens(),
    {
        self.download.try_consume(bytes)
    }

    pub fn upload_available(&self) -> (r: u64)
        ensures
            r == self.spec_upload().spec_tokens(),
    {
        self.upload.available()
    }

    pub fn download_available(&self) -> (r: u64)
        ensures
            r == self.spec_download().spec_tokens(),
    {
        self.download.available()
    }

    pub fn upload_max_rate(&self) -> (r: u64)
        ensures
            r == self.spec_upload().spec_max_rate(),
    {
        self.upload.max_rate()
    }

    pub fn download_max_rate(&self) -> (r: u64)
        ensures
            r == self.spec_download().spec_max_rate(),
    {
        self.download.max_rate()
    }
}

} // verus!
