use vstd::prelude::*;
use vstd::utf8::encode_utf8;

use crate::address::{push_all, Address};
use crate::crypto::{fill_random, random_inclusive};
use crate::outbound::http::{address_text, push_address_text};
use crate::bytes_util::{be_bytes, push_be};
use crate::config::{DialerConfig, TlsConfig};
use crate::crypto::{hmac_sha256, hmac_sha256_tag};
use vstd::slice::slice_to_vec;

verus! {

/// The kind of an AnyTLS frame.
#[derive(Debug, Clone, Copy, PartialEq, Eq, Structural)]
pub enum FrameType {
    Data,
    Padding,
    Open,
    Close,
    Auth,
}

impl FrameType {
    pub open spec fn spec_byte(self) -> u8 {
        match self {
            FrameType::Data => 0x00,
            FrameType::Padding => 0x01,
            FrameType::Open => 0x02,
            FrameType::Close => 0x03,
            FrameType::Auth => 0x04,
        }
    }

    pub fn to_byte(self) -> (r: u8)
        ensures
            r == self.spec_byte(),
    {
        match self {
            FrameType::Data => 0x00,
            FrameType::Padding => 0x01,
            FrameType::Open => 0x02,
            FrameType::Close => 0x03,
            FrameType::Auth => 0x04,
        }
    }

    /// The frame type of a byte; bytes above 4 are unknown.
    pub fn try_from(value: u8) -> (r: Result<FrameType, &'static str>)
        ensures
            r is Ok <==> value <= 4,
            r matches Ok(t) ==> t.spec_byte() == value,
    {
        match value {
            0x00 => Ok(FrameType::Data),
            0x01 => Ok(FrameType::Padding),
            0x02 => Ok(FrameType::Open),
            0x03 => Ok(FrameType::Close),
            0x04 => Ok(FrameType::Auth),
            _ => Err("unknown anytls frame type"),
        }
    }
}

/// AnyTLS over TLS: frames for auth, padding, opening and data.
pub struct AnyTlsTransport {
    pub server_addr: String,
    pub server_port: u16,
    pub password: String,
    pub padding: bool,
    pub dialer_config: Option<DialerConfig>,
    pub tls_config: Option<TlsConfig>,
}

/// A frame: its type byte, the payload's 16-bit big-endian length, the payload.
pub open spec fn frame_spec(t: FrameType, payload: Seq<u8>) -> Seq<u8> {
    seq![t.spec_byte()] + be_bytes((payload.len() % 65536) as nat, 2) + payload
}

impl AnyTlsTransport {
    pub fn new(
        server_addr: String,
        server_port: u16,
        password: String,
        padding: bool,
        tls_config: Option<TlsConfig>,
        dialer_config: Option<DialerConfig>,
    ) -> (r: Self)
        ensures
            r.server_addr@ == server_addr@,
            r.server_port == server_port,
            r.password@ == password@,
            r.padding == padding,
            r.tls_config == tls_config,
            r.dialer_config == dialer_config,
    {
        AnyTlsTransport { server_addr, server_port, password, padding, dialer_config, tls_config }
    }

    /// The auth token: HMAC-SHA256 of the password under the key "anytls-auth-key".
    pub fn compute_auth_token(&self) -> (r: Vec<u8>)
        ensures
            r@ == hmac_sha256_tag(encode_utf8("anytls-auth-key"@), encode_utf8(self.password@)),
    {
        let tag = hmac_sha256("anytls-auth-key".as_bytes(), self.password.as_str().as_bytes());
        slice_to_vec(tag.as_slice())
    }

    pub fn encode_frame(frame_type: FrameType, payload: &[u8]) -> (r: Vec<u8>)
        ensures
            r@ == frame_spec(frame_type, payload@),
    {
        let mut buf: Vec<u8> = Vec::new();
        buf.push(frame_type.to_byte());
        push_be(&mut buf, (payload.len() % 65536) as u64, 2);
        push_all(&mut buf, payload);
        buf
    }
}

/// What reading does with a frame header.
#[derive(Debug, Clone, Copy, PartialEq, Eq, Structural)]
pub enum FrameAction {
    /// The stream ended.
    Eof,
    /// A short header: hand its bytes on as they are.
    PassThrough,
    /// An empty data frame: return nothing.
    Nothing,
    /// Read this many payload bytes straight into the caller's buffer.
    ReadPayload(usize),
    /// A padding or control frame: try again later.
    Retry,
}

/// Decides on the header bytes read (up to three) and the room in the caller's buffer.
pub open spec fn frame_action_spec(header: Seq<u8>, room: usize) -> FrameAction {
    if header.len() == 0 {
        FrameAction::Eof
    } else if header.len() < 3 {
        FrameAction::PassThrough
    } else if header[0] == 0 {
        let len = header[1] as int * 256 + header[2] as int;
        if len == 0 {
            FrameAction::Nothing
        } else if len <= room {
            FrameAction::ReadPayload(len as usize)
        } else {
            FrameAction::ReadPayload(room)
        }
    } else {
        FrameAction::Retry
    }
}

pub fn frame_action(header: &[u8], room: usize) -> (r: FrameAction)
    ensures
        r == frame_action_spec(header@, room),
{
    if header.len() == 0 {
        FrameAction::Eof
    } else if header.len() < 3 {
        FrameAction::PassThrough
    } else if header[0] == 0 {
        let len = (header[1] as usize) * 256 + (header[2] as usize);
        if len == 0 {
            FrameAction::Nothing
        } else if len <= room {
            FrameAction::ReadPayload(len)
        } else {
            FrameAction::ReadPayload(room)
        }
    } else {
        FrameAction::Retry
    }
}

impl AnyTlsTransport {
    /// A padding frame of 32 to 512 random bytes.
    pub fn generate_padding_frame() -> (r: Vec<u8>)
        ensures
            exists|p: Seq<u8>| 32 <= p.len() <= 512 && r@ == #[trigger] frame_spec(FrameType::Padding, p),
    {
        let len = random_inclusive(32, 512) as usize;
        let mut padding: Vec<u8> = Vec::new();
        let mut i: usize = 0;
        while i < len
            invariant
                i <= len <= 512,
                padding@.len() == i,
            decreases len - i,
        {
            padding.push(0);
            i = i + 1;
        }
        fill_random(padding.as_mut_slice());
        let r = Self::encode_frame(FrameType::Padding, padding.as_slice());
        proof {
            assert(32 <= padding@.len() <= 512);
        }
        r
    }

    /// The frame that opens the tunnel to `addr`: its text form as payload.
    pub fn open_frame(addr: &Address) -> (r: Vec<u8>)
        ensures
            r@ == frame_spec(FrameType::Open, encode_utf8(address_text(*addr))),
    {
        let mut target: Vec<u8> = Vec::new();
        push_address_text(&mut target, addr);
        Self::encode_frame(FrameType::Open, target.as_slice())
    }

    /// The TLS server name: the configured SNI, else the server address.
    pub fn server_name(&self) -> (r: &str)
        ensures
            r@ == (match self.tls_config {
                Some(c) => match c.sni {
                    Some(s) => s@,
                    None => self.server_addr@,
                },
                None => self.server_addr@,
            }),
    {
        match &self.tls_config {
            Some(c) => match &c.sni {
                Some(s) => s.as_str(),
                None => self.server_addr.as_str(),
            },
            None => self.server_addr.as_str(),
        }
    }
}

/// How many payload bytes a write of one data frame accounts for, when the stream
/// took `n` bytes of the frame: what went past the three header bytes, at most the
/// payload.
pub fn payload_written(n: usize, payload_len: usize) -> (r: usize)
    ensures
        r == (if n >= 3 { if n - 3 < payload_len { (n - 3) as usize } else { payload_len } } else { 0 }),
{
    if n >= 3 {
        if n - 3 < payload_len { n - 3 } else { payload_len }
    } else {
        0
    }
}

} // verus!
