//! The HTTP mask: a plain HTTP/1.1 request head written before the obfuscated
//! stream, so that the first bytes on the wire look like an ordinary request.

use vstd::prelude::*;
use vstd::string::StrSliceExecFns;
use vstd::utf8::encode_utf8;

use crate::address::push_all;
use crate::bytes_util::starts_with;

verus! {

/// Whether the first bytes look like the start of an HTTP request.
pub open spec fn http_start(p: Seq<u8>) -> bool {
    p.len() >= 4 && (starts_with(p, encode_utf8("GET "@)) || starts_with(p, encode_utf8("POST"@))
        || starts_with(p, encode_utf8("PUT "@)) || starts_with(p, encode_utf8("HEAD"@)))
}

/// Whether `peek` begins like an HTTP request: `GET `, `POST`, `PUT ` or `HEAD`.
pub fn looks_like_http_request(peek: &[u8]) -> (r: bool)
    ensures
        r == http_start(peek@),
{
    if peek.len() < 4 {
        return false;
    }
    crate::bytes_util::has_prefix(peek, "GET ".as_bytes()) || crate::bytes_util::has_prefix(peek, "POST".as_bytes())
        || crate::bytes_util::has_prefix(peek, "PUT ".as_bytes()) || crate::bytes_util::has_prefix(peek, "HEAD".as_bytes())
}

/// The request head: `GET`, the path, the host, the user agent, and fixed `Accept`
/// and `Connection` lines, ending with an empty line.
pub open spec fn mask_request(path: Seq<char>, host: Seq<char>, ua: Seq<char>) -> Seq<u8> {
    encode_utf8("GET "@) + encode_utf8(path) + encode_utf8(" HTTP/1.1\r\nHost: "@) + encode_utf8(host)
        + encode_utf8("\r\nUser-Agent: "@) + encode_utf8(ua) + encode_utf8(
        "\r\nAccept: */*\r\nConnection: keep-alive\r\n\r\n"@,
    )
}

/// The request head for `path`, `host` and user agent `ua`.
pub fn mask_request_bytes(path: &str, host: &str, ua: &str) -> (r: Vec<u8>)
    ensures
        r@ == mask_request(path@, host@, ua@),
{
    let mut out: Vec<u8> = Vec::new();
    push_all(&mut out, "GET ".as_bytes());
    push_all(&mut out, path.as_bytes());
    push_all(&mut out, " HTTP/1.1\r\nHost: ".as_bytes());
    push_all(&mut out, host.as_bytes());
    push_all(&mut out, "\r\nUser-Agent: ".as_bytes());
    push_all(&mut out, ua.as_bytes());
    push_all(&mut out, "\r\nAccept: */*\r\nConnection: keep-alive\r\n\r\n".as_bytes());
    out
}

/// The path segments that a mask path without a configured root starts with.
pub fn path_segment(i: usize) -> (r: &'static str)
    requires
        i < 9,
    ensures
        r@ == (if i == 0 { "api"@ } else if i == 1 { "cdn"@ } else if i == 2 { "assets"@ } else if i == 3 {
            "static"@
        } else if i == 4 { "media"@ } else if i == 5 { "content"@ } else if i == 6 { "data"@ } else if i == 7 {
            "v1"@
        } else { "v2"@ }),
{
    if i == 0 {
        "api"
    } else if i == 1 {
        "cdn"
    } else if i == 2 {
        "assets"
    } else if i == 3 {
        "static"
    } else if i == 4 {
        "media"
    } else if i == 5 {
        "content"
    } else if i == 6 {
        "data"
    } else if i == 7 {
        "v1"
    } else {
        "v2"
    }
}

/// The user agents a mask presents.
pub fn user_agent(i: usize) -> (r: &'static str)
    requires
        i < 4,
    ensures
        r@ == (if i == 0 {
            "Mozilla/5.0 (Windows NT 10.0; Win64; x64) AppleWebKit/537.36 Chrome/120.0.0.0 Safari/537.36"@
        } else if i == 1 {
            "Mozilla/5.0 (Macintosh; Intel Mac OS X 10_15_7) AppleWebKit/537.36 Chrome/120.0.0.0 Safari/537.36"@
        } else if i == 2 {
            "Mozilla/5.0 (X11; Linux x86_64) AppleWebKit/537.36 Chrome/120.0.0.0 Safari/537.36"@
        } else {
            "Mozilla/5.0 (Windows NT 10.0; Win64; x64; rv:121.0) Gecko/20100101 Firefox/121.0"@
        }),
{
    if i == 0 {
        "Mozilla/5.0 (Windows NT 10.0; Win64; x64) AppleWebKit/537.36 Chrome/120.0.0.0 Safari/537.36"
    } else if i == 1 {
        "Mozilla/5.0 (Macintosh; Intel Mac OS X 10_15_7) AppleWebKit/537.36 Chrome/120.0.0.0 Safari/537.36"
    } else if i == 2 {
        "Mozilla/5.0 (X11; Linux x86_64) AppleWebKit/537.36 Chrome/120.0.0.0 Safari/537.36"
    } else {
        "Mozilla/5.0 (Windows NT 10.0; Win64; x64; rv:121.0) Gecko/20100101 Firefox/121.0"
    }
}

/// The character of a random segment: a digit for 0 to 9, a lower-case letter for 10
/// to 35.
pub open spec fn segment_char(idx: u8) -> char {
    if idx < 10 {
        (48 + idx) as char
    } else {
        (87 + idx) as char
    }
}

/// The random segment drawn as `indices`, each below 36.
pub fn segment_from(indices: &[u8]) -> (r: String)
    requires
        forall|i: int| 0 <= i < indices@.len() ==> #[trigger] indices@[i] < 36,
    ensures
        r@ == indices@.map_values(|idx: u8| segment_char(idx)),
{
    let mut bytes: Vec<u8> = Vec::new();
    let ghost mut chars: Seq<char> = Seq::empty();
    let mut i: usize = 0;
    while i < indices.len()
        invariant
            i <= indices@.len(),
            forall|k: int| 0 <= k < indices@.len() ==> #[trigger] indices@[k] < 36,
            chars == indices@.subrange(0, i as int).map_values(|idx: u8| segment_char(idx)),
            bytes@ == encode_utf8(chars),
        decreases indices@.len() - i,
    {
        let idx = indices[i];
        let b = if idx < 10 { 48 + idx } else { 87 + idx };
        let ghost c = segment_char(idx);
        proof {
            crate::text::lemma_encode_ascii(c);
            crate::text::lemma_encode_concat(chars, seq![c]);
            assert(indices@.subrange(0, i + 1).map_values(|idx: u8| segment_char(idx)) =~= chars + seq![c]);
        }
        bytes.push(b);
        proof {
            chars = chars + seq![c];
            assert(bytes@ =~= encode_utf8(chars));
        }
        i = i + 1;
    }
    proof {
        assert(indices@.subrange(0, indices@.len() as int) =~= indices@);
        vstd::utf8::encode_utf8_valid_utf8(chars);
        vstd::utf8::encode_utf8_decode_utf8(chars);
    }
    match crate::text::string_from_utf8(bytes) {
        Some(s) => s,
        None => String::new(),
    }
}

/// The state of reading a request head byte by byte on the server's side.
#[derive(Debug, Clone, Copy, PartialEq, Eq, Structural)]
pub enum HeaderProgress {
    /// The head ended with an empty line.
    Done,
    /// Past 8192 bytes with no end: refused.
    TooLong,
    /// Read on.
    More,
}

/// Where reading a head stands once `buf` has been read.
pub fn header_progress(buf: &[u8]) -> (r: HeaderProgress)
    ensures
        r == (if buf@.len() >= 4 && buf@.subrange(buf@.len() - 4, buf@.len() as int) == seq![13u8, 10u8, 13u8, 10u8] {
            HeaderProgress::Done
        } else if buf@.len() > 8192 {
            HeaderProgress::TooLong
        } else {
            HeaderProgress::More
        }),
{
    let n = buf.len();
    if n >= 4 && buf[n - 4] == 13 && buf[n - 3] == 10 && buf[n - 2] == 13 && buf[n - 1] == 10 {
        proof {
            assert(buf@.subrange(n - 4, n as int) =~= seq![13u8, 10u8, 13u8, 10u8]);
        }
        return HeaderProgress::Done;
    }
    proof {
        if n >= 4 {
            assert(buf@.subrange(n - 4, n as int)[0] == buf@[n - 4]);
            assert(buf@.subrange(n - 4, n as int)[1] == buf@[n - 3]);
            assert(buf@.subrange(n - 4, n as int)[2] == buf@[n - 2]);
            assert(buf@.subrange(n - 4, n as int)[3] == buf@[n - 1]);
        }
    }
    if n > 8192 {
        HeaderProgress::TooLong
    } else {
        HeaderProgress::More
    }
}

/// `s` without leading and trailing slashes.
pub open spec fn trim_slashes(s: Seq<char>) -> Seq<char>
    decreases s.len(),
{
    if s.len() > 0 && s[0] == '/' {
        trim_slashes(s.drop_first())
    } else if s.len() > 0 && s.last() == '/' {
        trim_slashes(s.drop_last())
    } else {
        s
    }
}

/// The bounds of `v[lo..hi]` with slashes trimmed from both ends.
fn slash_bounds(v: &Vec<char>, lo: usize, hi: usize) -> (r: (usize, usize))
    requires
        lo <= hi <= v@.len(),
    ensures
        lo <= r.0 <= r.1 <= hi,
        trim_slashes(v@.subrange(lo as int, hi as int)) == v@.subrange(r.0 as int, r.1 as int),
    decreases hi - lo,
{
    if lo < hi && v[lo] == '/' {
        proof {
            assert(v@.subrange(lo as int, hi as int).drop_first() =~= v@.subrange(lo + 1, hi as int));
        }
        slash_bounds(v, lo + 1, hi)
    } else if lo < hi && v[hi - 1] == '/' {
        proof {
            assert(v@.subrange(lo as int, hi as int).drop_last() =~= v@.subrange(lo as int, hi - 1));
        }
        slash_bounds(v, lo, hi - 1)
    } else {
        (lo, hi)
    }
}

/// The path of a mask: `/`, the configured root without its slashes (or, with no
/// root, the chosen first segment), `/`, and the random segment.
pub open spec fn mask_path_text(root: Seq<char>, first: Seq<char>, segment: Seq<char>) -> Seq<char> {
    seq!['/'] + (if root.len() == 0 { first } else { trim_slashes(root) }) + seq!['/'] + segment
}

/// The path of a mask.
pub fn mask_path(root: &str, first: &str, segment: &str) -> (r: String)
    ensures
        r@ == mask_path_text(root@, first@, segment@),
{
    let middle: &str = if root.is_empty() {
        first
    } else {
        let v = crate::text::chars_of(root);
        let (a, b) = slash_bounds(&v, 0, v.len());
        proof {
            assert(v@.subrange(0, v@.len() as int) =~= v@);
        }
        root.substring_char(a, b)
    };
    let mut bytes: Vec<u8> = Vec::new();
    bytes.push(47u8);
    push_all(&mut bytes, middle.as_bytes());
    bytes.push(47u8);
    push_all(&mut bytes, segment.as_bytes());
    let ghost text = mask_path_text(root@, first@, segment@);
    proof {
        crate::text::lemma_encode_ascii('/');
        crate::text::lemma_encode_concat(seq!['/'], middle@);
        crate::text::lemma_encode_concat(seq!['/'] + middle@, seq!['/']);
        crate::text::lemma_encode_concat(seq!['/'] + middle@ + seq!['/'], segment@);
        assert(bytes@ =~= encode_utf8(text));
        vstd::utf8::encode_utf8_valid_utf8(text);
        vstd::utf8::encode_utf8_decode_utf8(text);
    }
    match crate::text::string_from_utf8(bytes) {
        Some(s) => s,
        None => String::new(),
    }
}

} // verus!
