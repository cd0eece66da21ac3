use vstd::prelude::*;

use vstd::utf8::{encode_utf8, valid_utf8};

use crate::address::{push_all, Address};
use crate::config::OutboundConfig;
use crate::crypto::{base64_standard_encode, random_inclusive};
use crate::outbound::http::{address_text, basic_credential, push_address_text};
use crate::text::string_from_utf8;

verus! {

/// A NaiveProxy outbound (HTTP/2 CONNECT over TLS).
pub struct NaiveOutbound {
    pub tag: String,
    pub server_addr: String,
    pub server_port: u16,
    pub username: String,
    pub password: String,
}

impl NaiveOutbound {
    /// Builds the outbound: `address` is required, the port defaults to 443, the user
    /// name (`uuid`) and password default to empty.
    pub fn new(config: &OutboundConfig) -> (r: Result<Self, &'static str>)
        ensures
            match config.settings.address {
                Some(a) => r is Ok && r->Ok_0.tag@ == config.tag@ && r->Ok_0.server_addr@ == a@
                    && r->Ok_0.server_port == (match config.settings.port {
                    Some(p) => p,
                    None => 443u16,
                }) && r->Ok_0.username@ == (match config.settings.uuid {
                    Some(u) => u@,
                    None => Seq::<char>::empty(),
                }) && r->Ok_0.password@ == (match config.settings.password {
                    Some(p) => p@,
                    None => Seq::<char>::empty(),
                }),
                None => r is Err,
            },
    {
        let settings = &config.settings;
        let address = match &settings.address {
            Some(a) => a,
            None => return Err("naive outbound missing 'address'"),
        };
        let port = match settings.port {
            Some(p) => p,
            None => 443,
        };
        let username = match &settings.uuid {
            Some(u) => u.clone(),
            None => String::new(),
        };
        let password = match &settings.password {
            Some(p) => p.clone(),
            None => String::new(),
        };
        Ok(NaiveOutbound {
            tag: config.tag.clone(),
            server_addr: address.clone(),
            server_port: port,
            username,
            password,
        })
    }

    pub fn tag(&self) -> (r: &str)
        ensures
            r@ == self.tag@,
    {
        self.tag.as_str()
    }
}

impl NaiveOutbound {
    /// The CONNECT target: the destination's text form (`host:port`, `[v6]:port`).
    pub fn connect_target(&self, target: &Address) -> (r: Vec<u8>)
        ensures
            r@ == encode_utf8(address_text(*target)),
    {
        let mut out: Vec<u8> = Vec::new();
        push_address_text(&mut out, target);
        out
    }

    /// The `proxy-authorization` header value: `Basic` and the credential, when a
    /// user name is set.
    pub fn proxy_authorization(&self) -> (r: Option<Vec<u8>>)
        ensures
            self.username@.len() == 0 ==> r is None,
            self.username@.len() > 0 ==> (r matches Some(v) && v@ == encode_utf8("Basic "@) + encode_utf8(
                basic_credential(self.username@, self.password@),
            )),
    {
        if self.username.as_str().as_bytes().len() == 0 {
            proof {
                lemma_encode_nonempty(self.username@);
            }
            return None;
        }
        proof {
            lemma_encode_nonempty(self.username@);
        }
        let mut plain: Vec<u8> = Vec::new();
        push_all(&mut plain, self.username.as_str().as_bytes());
        push_all(&mut plain, ":".as_bytes());
        push_all(&mut plain, self.password.as_str().as_bytes());
        let cred = base64_standard_encode(plain.as_slice());
        let mut out: Vec<u8> = Vec::new();
        push_all(&mut out, "Basic ".as_bytes());
        push_all(&mut out, cred.as_str().as_bytes());
        Some(out)
    }
}

/// The `padding` header: between 16 and 256 lowercase letters.
pub open spec fn padding_ok(s: Seq<char>) -> bool {
    16 <= s.len() <= 256 && forall|i: int| 0 <= i < s.len() ==> 'a' <= #[trigger] s[i] <= 'z'
}

/// A random padding: its length and each letter drawn uniformly.
pub fn generate_padding() -> (r: String)
    ensures
        padding_ok(r@),
{
    let len = random_inclusive(16, 256) as usize;
    let mut bytes: Vec<u8> = Vec::new();
    let mut i: usize = 0;
    while i < len
        invariant
            16 <= len <= 256,
            i <= len,
            bytes@.len() == i,
            forall|k: int| 0 <= k < i ==> 97 <= #[trigger] bytes@[k] <= 122,
        decreases len - i,
    {
        let c = random_inclusive(97, 122) as u8;
        bytes.push(c);
        i = i + 1;
    }
    proof {
        lemma_letters_encode(bytes@);
    }
    match string_from_utf8(bytes) {
        Some(s) => s,
        None => String::new(),
    }
}

/// Text of at least one character encodes to at least one byte.
proof fn lemma_encode_nonempty(s: Seq<char>)
    ensures
        (encode_utf8(s).len() == 0) == (s.len() == 0),
{
    if s.len() > 0 {
        assert(encode_utf8(s) == vstd::utf8::encode_scalar(s[0] as u32) + encode_utf8(s.drop_first()));
    }
}

/// Lowercase ASCII letters are their own UTF-8 encoding.
proof fn lemma_letters_encode(b: Seq<u8>)
    requires
        forall|k: int| 0 <= k < b.len() ==> 97 <= #[trigger] b[k] <= 122,
    ensures
        valid_utf8(b),
        vstd::utf8::decode_utf8(b).len() == b.len(),
        forall|k: int| 0 <= k < b.len() ==> 'a' <= #[trigger] vstd::utf8::decode_utf8(b)[k] <= 'z',
    decreases b.len(),
{
    let chars = Seq::new(b.len(), |k: int| ((b[k] as u32) as char));
    assert forall|k: int| 0 <= k < chars.len() implies (#[trigger] chars[k] as u32) < 128 by {}
    lemma_ascii_chars_encode(chars);
    assert(encode_utf8(chars) =~= b);
    vstd::utf8::encode_utf8_valid_utf8(chars);
    vstd::utf8::encode_utf8_decode_utf8(chars);
}

/// ASCII characters encode one byte each, their codes.
proof fn lemma_ascii_chars_encode(c: Seq<char>)
    requires
        forall|k: int| 0 <= k < c.len() ==> (#[trigger] c[k] as u32) < 128,
    ensures
        encode_utf8(c) == Seq::new(c.len(), |k: int| (c[k] as u32) as u8),
    decreases c.len(),
{
    if c.len() > 0 {
        let rest = c.drop_first();
        lemma_ascii_chars_encode(rest);
        crate::text::lemma_encode_ascii(c[0]);
        crate::text::lemma_encode_concat(seq![c[0]], rest);
        assert(c =~= seq![c[0]] + rest);
        assert(encode_utf8(c) =~= Seq::new(c.len(), |k: int| (c[k] as u32) as u8));
    } else {
        assert(encode_utf8(c) =~= Seq::<u8>::empty());
    }
}

} // verus!
