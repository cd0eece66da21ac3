//! The VMess outbound: its settings and the framing of its AEAD chunk stream.

pub mod protocol;

use vstd::prelude::*;

use crate::address::Address;
use crate::config::{copy_dialer, dialer_view, opt_view, OutboundConfig, OutboundSettings, TlsConfig, TransportConfig};
use crate::crypto::{parse_uuid, uuid_bytes_of};
use crate::outbound::vmess::protocol::{
    mask_of, mask_start, opens_to, security_of, seal_chunk, seal_fits, SecurityType, VmessChunkCipher,
    MAX_VMESS_CHUNK, VMESS_AEAD_TAG_LEN,
};
use crate::bytes_util::be_bytes;
use crate::transport::reality::short_id_readable;
use crate::transport::{build_transport_with_dialer, built_transport, uses_reality, StreamTransport};

verus! {

/// A VMess outbound.
pub struct VmessOutbound {
    pub tag: String,
    pub server_addr: Address,
    pub uuid: [u8; 16],
    pub security: SecurityType,
    pub transport: StreamTransport,
}

/// The settings' own TLS block can be read without a panic where Reality uses it.
pub open spec fn settings_readable(s: OutboundSettings) -> bool {
    match s.tls {
        Some(t) => (t.security@ == "reality"@ && match s.transport {
            Some(tc) => tc.transport_type@ == "tcp"@ || tc.transport_type@ == ""@,
            None => true,
        }) ==> short_id_readable(t),
        None => true,
    }
}

/// `r` is what building the transport from the settings in force gives.
pub open spec fn transport_from_settings(s: OutboundSettings, address: Seq<char>, port: u16, r: Result<StreamTransport, &'static str>) -> bool {
    exists|tc: TransportConfig, tls: TlsConfig|
        s.is_effective_transport(tc) && s.is_effective_tls(tls) && #[trigger] built_transport(address, port, tc, tls, s.dialer, r)
}

/// The TLS settings in force can be read wherever the settings' own block can.
pub proof fn lemma_readable(s: OutboundSettings, tc: TransportConfig, tls: TlsConfig)
    requires
        settings_readable(s),
        s.is_effective_transport(tc),
        s.is_effective_tls(tls),
    ensures
        uses_reality(tc, tls) ==> short_id_readable(tls),
{
    match s.tls {
        Some(t) => {
            match (tls.short_id, t.short_id) {
                (Some(a), Some(b)) => {
                    assert(a@ == b@);
                },
                _ => {},
            }
        },
        None => {},
    }
}

/// The settings name an address, a port and a user id that parses.
pub open spec fn vmess_fields_ok(s: OutboundSettings) -> bool {
    &&& s.address is Some
    &&& s.port is Some
    &&& match s.uuid {
        Some(u) => uuid_bytes_of(u@) is Some,
        None => false,
    }
}

impl VmessOutbound {
    /// Needs an address, a port and a user id that parses; the security type comes
    /// from `method` (AES-128-GCM by default); the transport from the settings.
    pub fn new(config: &OutboundConfig) -> (r: Result<Self, &'static str>)
        requires
            settings_readable(config.settings),
        ensures
            ({
                let s = config.settings;
                &&& !vmess_fields_ok(s) ==> r is Err
                &&& r matches Ok(o) ==> {
                    &&& o.tag@ == config.tag@
                    &&& o.server_addr matches Address::Domain(a, p) && a@ == s.address->Some_0@ && p == s.port->Some_0
                    &&& uuid_bytes_of(s.uuid->Some_0@) == Some(o.uuid@)
                    &&& o.security == (match s.method {
                        Some(m) => security_of(m@),
                        None => SecurityType::Aes128Gcm,
                    })
                    &&& transport_from_settings(s, s.address->Some_0@, s.port->Some_0, Ok(o.transport))
                }
                &&& vmess_fields_ok(s) ==> (r matches Err(e)
                    ==> transport_from_settings(s, s.address->Some_0@, s.port->Some_0, Err(e)))
            }),
    {
        let settings = &config.settings;
        let address = match &settings.address {
            Some(a) => a,
            None => return Err("vmess: address is required"),
        };
        let port = match settings.port {
            Some(p) => p,
            None => return Err("vmess: port is required"),
        };
        let uuid_str = match &settings.uuid {
            Some(u) => u,
            None => return Err("vmess: uuid is required"),
        };
        let uuid = match parse_uuid(uuid_str.as_str()) {
            Some(u) => u,
            None => return Err("vmess: invalid uuid"),
        };
        let security = match &settings.method {
            Some(m) => SecurityType::from_str(m.as_str()),
            None => SecurityType::Aes128Gcm,
        };
        let tls_config = settings.effective_tls();
        let transport_config = settings.effective_transport();
        let dialer = copy_dialer(&settings.dialer);
        proof {
            lemma_readable(*settings, transport_config, tls_config);
        }
        let built = build_transport_with_dialer(address.as_str(), port, &transport_config, &tls_config, dialer);
        proof {
            assert(built_transport(address@, port, transport_config, tls_config, settings.dialer, built));
        }
        let transport = match built {
            Ok(t) => t,
            Err(e) => return Err(e),
        };
        Ok(VmessOutbound { tag: config.tag.clone(), server_addr: Address::Domain(address.clone(), port), uuid, security, transport })
    }

    pub fn tag(&self) -> (r: &str)
        ensures
            r@ == self.tag@,
    {
        self.tag.as_str()
    }
}


/// Where the reader stands in the chunk stream.
pub enum VmessReadState {
    /// Reading the two bytes of a masked length.
    Length { len_buf: [u8; 2], len_read: usize },
    /// Reading a sealed chunk of known length.
    Payload { payload_buf: Vec<u8>, payload_read: usize },
}

/// The chunk-stream state of a VMess connection: the two ciphers, the plaintext
/// not yet handed out and where the reader stands. The connection's I/O feeds it the
/// bytes it reads and writes what it frames.
pub struct VmessAeadStream {
    pub encoder: VmessChunkCipher,
    pub decoder: VmessChunkCipher,
    pub security: SecurityType,
    pub read_buf: Vec<u8>,
    pub read_pos: usize,
    pub read_state: VmessReadState,
    pub eof: bool,
}

impl VmessAeadStream {
    /// The reader's position is consistent.
    pub open spec fn wf(&self) -> bool {
        &&& self.read_pos <= self.read_buf@.len()
        &&& match self.read_state {
            VmessReadState::Length { len_buf, len_read } => len_read < 2,
            VmessReadState::Payload { payload_buf, payload_read } => payload_read < payload_buf@.len(),
        }
    }

    /// How many more bytes the reader needs for the length or chunk it is reading.
    pub open spec fn spec_wanted(&self) -> nat {
        match self.read_state {
            VmessReadState::Length { len_buf, len_read } => (2 - len_read) as nat,
            VmessReadState::Payload { payload_buf, payload_read } => (payload_buf@.len() - payload_read) as nat,
        }
    }

    pub fn new(encoder: VmessChunkCipher, decoder: VmessChunkCipher, security: SecurityType) -> (r: Self)
        ensures
            r.wf(),
            r.encoder == encoder,
            r.decoder == decoder,
            r.security == security,
            r.read_buf@.len() == 0,
            r.read_pos == 0,
            r.read_state matches VmessReadState::Length { len_buf, len_read } && len_read == 0,
            !r.eof,
    {
        VmessAeadStream {
            encoder,
            decoder,
            security,
            read_buf: Vec::new(),
            read_pos: 0,
            read_state: VmessReadState::Length { len_buf: [0u8; 2], len_read: 0 },
            eof: false,
        }
    }

    /// The tag bytes that sealing adds to a chunk.
    pub fn tag_overhead(&self) -> (r: usize)
        ensures
            r == (match self.security {
                SecurityType::Aes128Gcm | SecurityType::Chacha20Poly1305 => VMESS_AEAD_TAG_LEN,
                _ => 0,
            }),
    {
        match self.security {
            SecurityType::Aes128Gcm | SecurityType::Chacha20Poly1305 => VMESS_AEAD_TAG_LEN,
            _ => 0,
        }
    }

    /// Hands out up to `max` bytes of decrypted data; the buffer is emptied once
    /// all of it is out.
    pub fn take_buffered(&mut self, max: usize) -> (r: Vec<u8>)
        requires
            old(self).wf(),
        ensures
            final(self).wf(),
            ({
                let rest = old(self).read_buf@.len() - old(self).read_pos;
                let n = if rest < max { rest } else { max as int };
                &&& r@ == old(self).read_buf@.subrange(old(self).read_pos as int, old(self).read_pos + n)
                &&& if old(self).read_pos + n >= old(self).read_buf@.len() {
                    final(self).read_buf@.len() == 0 && final(self).read_pos == 0
                } else {
                    final(self).read_buf@ == old(self).read_buf@ && final(self).read_pos == old(self).read_pos + n
                }
            }),
            final(self).read_state == old(self).read_state,
            final(self).decoder == old(self).decoder,
            final(self).encoder == old(self).encoder,
            final(self).eof == old(self).eof,
            final(self).security == old(self).security,
    {
        let rest = self.read_buf.len() - self.read_pos;
        let n = if rest < max { rest } else { max };
        let out = crate::bytes_util::copy_range(self.read_buf.as_slice(), self.read_pos, self.read_pos + n);
        self.read_pos = self.read_pos + n;
        if self.read_pos >= self.read_buf.len() {
            self.read_buf = Vec::new();
            self.read_pos = 0;
        }
        out
    }

    /// How many bytes the reader wants next.
    pub fn wanted(&self) -> (r: usize)
        requires
            self.wf(),
        ensures
            r == self.spec_wanted(),
            r > 0,
    {
        match &self.read_state {
            VmessReadState::Length { len_buf, len_read } => 2 - *len_read,
            VmessReadState::Payload { payload_buf, payload_read } => payload_buf.len() - *payload_read,
        }
    }

    /// The stream ended: between chunks that is the end of the data, inside a
    /// chunk it is an error.
    pub fn on_eof(&mut self) -> (r: Result<(), &'static str>)
        ensures
            r is Ok <==> old(self).read_state is Length,
            r is Ok ==> final(self).eof,
            final(self).read_state == old(self).read_state,
            final(self).read_buf == old(self).read_buf,
            final(self).read_pos == old(self).read_pos,
            final(self).decoder == old(self).decoder,
            final(self).encoder == old(self).encoder,
    {
        match &self.read_state {
            VmessReadState::Length { .. } => {
                self.eof = true;
                Ok(())
            },
            VmessReadState::Payload { .. } => Err("VMess payload truncated"),
        }
    }

    /// Takes in bytes read from the connection, no more than the reader wants. A
    /// completed length is unmasked: zero ends the stream, else a chunk of that
    /// length is awaited. A completed chunk is opened into the buffer.
    pub fn feed(&mut self, data: &[u8]) -> (r: Result<(), &'static str>)
        requires
            old(self).wf(),
            0 < data@.len() <= old(self).spec_wanted(),
            old(self).read_pos == old(self).read_buf@.len(),
        ensures
            final(self).encoder == old(self).encoder,
            final(self).security == old(self).security,
            match old(self).read_state {
                VmessReadState::Length { len_buf, len_read } => {
                    let got = len_buf@.subrange(0, len_read as int) + data@;
                    &&& r is Ok
                    &&& if got.len() < 2 {
                        &&& final(self).read_state matches VmessReadState::Length { len_buf: b, len_read: n }
                            && n == got.len() && b@.subrange(0, n as int) == got
                        &&& final(self).decoder == old(self).decoder
                        &&& final(self).eof == old(self).eof
                    } else {
                        let len = ((got[0] as int * 256 + got[1] as int) as u16) ^ mask_of(old(self).decoder.stream(), old(self).decoder.position());
                        &&& final(self).decoder.stream() == old(self).decoder.stream()
                        &&& final(self).decoder.position() == mask_start(old(self).decoder.stream(), old(self).decoder.position()) + 2
                        &&& final(self).decoder.spec_count() == old(self).decoder.spec_count()
                        &&& final(self).decoder.spec_key() == old(self).decoder.spec_key()
                        &&& final(self).decoder.spec_iv() == old(self).decoder.spec_iv()
                        &&& final(self).decoder.spec_security() == old(self).decoder.spec_security()
                        &&& if len == 0 {
                            final(self).eof
                        } else {
                            &&& final(self).read_state matches VmessReadState::Payload { payload_buf, payload_read }
                                && payload_buf@.len() == len && payload_read == 0
                            &&& final(self).eof == old(self).eof
                        }
                    }
                },
                VmessReadState::Payload { payload_buf, payload_read } => {
                    let got = payload_buf@.subrange(0, payload_read as int) + data@;
                    if got.len() < payload_buf@.len() {
                        &&& r is Ok
                        &&& final(self).read_state matches VmessReadState::Payload { payload_buf: b, payload_read: n }
                            && b@.len() == payload_buf@.len() && n == got.len() && b@.subrange(0, n as int) == got
                        &&& final(self).decoder == old(self).decoder
                        &&& final(self).eof == old(self).eof
                    } else {
                        let d = old(self).decoder;
                        &&& final(self).decoder.spec_count() == (d.spec_count() + 1) % 65536
                        &&& final(self).decoder.stream() == d.stream()
                        &&& final(self).decoder.position() == d.position()
                        &&& final(self).decoder.spec_key() == d.spec_key()
                        &&& final(self).decoder.spec_iv() == d.spec_iv()
                        &&& final(self).decoder.spec_security() == d.spec_security()
                        &&& r is Ok ==> (opens_to(d.spec_security(), d.spec_key(), d.chunk_nonce(), got, final(self).read_buf@)
                            && final(self).read_pos == 0
                            && (final(self).read_state matches VmessReadState::Length { len_buf, len_read } && len_read == 0))
                        &&& r is Ok <== (exists|p: Seq<u8>| seal_fits(d.spec_security(), p.len())
                            && #[trigger] opens_to(d.spec_security(), d.spec_key(), d.chunk_nonce(), got, p))
                        &&& final(self).eof == old(self).eof
                    }
                },
            },
            r is Ok ==> final(self).wf(),
    {
        let is_length = match &self.read_state {
            VmessReadState::Length { .. } => true,
            VmessReadState::Payload { .. } => false,
        };
        if is_length {
            let (mut len_buf, mut len_read) = match &self.read_state {
                VmessReadState::Length { len_buf, len_read } => (*len_buf, *len_read),
                VmessReadState::Payload { .. } => ([0u8; 2], 0),
            };
            let ghost lb0 = len_buf@;
            let ghost lr0 = len_read;
            let mut i: usize = 0;
            while i < data.len()
                invariant
                    i <= data@.len(),
                    data@.len() <= 2 - lr0,
                    lr0 < 2,
                    lb0.len() == 2,
                    len_read == lr0 + i,
                    len_buf@.len() == 2,
                    len_buf@.subrange(0, len_read as int) == lb0.subrange(0, lr0 as int) + data@.subrange(0, i as int),
                decreases data@.len() - i,
            {
                len_buf[len_read] = data[i];
                len_read = len_read + 1;
                i = i + 1;
                proof {
                    assert(len_buf@.subrange(0, len_read as int) =~= lb0.subrange(0, lr0 as int) + data@.subrange(0, i as int));
                }
            }
            proof {
                assert(data@.subrange(0, data@.len() as int) =~= data@);
            }
            if len_read < 2 {
                self.read_state = VmessReadState::Length { len_buf, len_read };
                return Ok(());
            }
            let chunk_len = self.decoder.decode_length(len_buf);
            if chunk_len == 0 {
                self.read_state = VmessReadState::Length { len_buf, len_read: 0 };
                self.eof = true;
                return Ok(());
            }
            self.read_state = VmessReadState::Payload { payload_buf: crate::relay::zeroed(chunk_len as usize), payload_read: 0 };
            Ok(())
        } else {
            let mut st = VmessReadState::Length { len_buf: [0u8; 2], len_read: 0 };
            std::mem::swap(&mut st, &mut self.read_state);
            let (mut payload_buf, mut payload_read) = match st {
                VmessReadState::Payload { payload_buf, payload_read } => (payload_buf, payload_read),
                VmessReadState::Length { .. } => (Vec::new(), 0),
            };
            let total = payload_buf.len();
            let ghost pb0 = payload_buf@;
            let ghost pr0 = payload_read;
            let mut i: usize = 0;
            while i < data.len()
                invariant
                    i <= data@.len(),
                    pr0 + data@.len() <= total,
                    total == pb0.len(),
                    payload_read == pr0 + i,
                    payload_buf@.len() == total,
                    payload_buf@.subrange(0, payload_read as int) == pb0.subrange(0, pr0 as int) + data@.subrange(0, i as int),
                decreases data@.len() - i,
            {
                let ghost prev = payload_buf@;
                payload_buf[payload_read] = data[i];
                proof {
                    assert(payload_buf@ == prev.update(payload_read as int, data@[i as int]));
                    assert forall|k: int| 0 <= k < payload_read implies payload_buf@[k] == prev[k] by {}
                }
                payload_read = payload_read + 1;
                i = i + 1;
                proof {
                    assert forall|k: int| 0 <= k < payload_read implies #[trigger] payload_buf@.subrange(0, payload_read as int)[k]
                        == (pb0.subrange(0, pr0 as int) + data@.subrange(0, i as int))[k] by {
                        if k < payload_read - 1 {
                            assert(prev.subrange(0, payload_read - 1)[k] == prev[k]);
                        }
                    }
                    assert(payload_buf@.subrange(0, payload_read as int) =~= pb0.subrange(0, pr0 as int) + data@.subrange(0, i as int));
                }
            }
            proof {
                assert(data@.subrange(0, data@.len() as int) =~= data@);
            }
            if payload_read < total {
                self.read_state = VmessReadState::Payload { payload_buf, payload_read };
                return Ok(());
            }
            proof {
                assert(payload_buf@ =~= payload_buf@.subrange(0, payload_read as int));
            }
            let plaintext = match self.decoder.decrypt_chunk(payload_buf.as_slice()) {
                Ok(p) => p,
                Err(e) => {
                    self.read_state = VmessReadState::Payload { payload_buf, payload_read: 0 };
                    return Err(e);
                },
            };
            self.read_buf = plaintext;
            self.read_pos = 0;
            Ok(())
        }
    }

    /// Frames the next write: at most one chunk's worth of `buf` (16384 bytes less
    /// the tag), sealed; also how many bytes of `buf` it carries. Nothing for an
    /// empty `buf`.
    pub fn encode_write(&mut self, buf: &[u8]) -> (r: Result<(Vec<u8>, usize), &'static str>)
        ensures
            buf@.len() == 0 ==> (r matches Ok((v, n)) && v@.len() == 0 && n == 0 && final(self).encoder == old(self).encoder),
            buf@.len() > 0 ==> ({
                let room = (MAX_VMESS_CHUNK - (match old(self).security {
                    SecurityType::Aes128Gcm | SecurityType::Chacha20Poly1305 => VMESS_AEAD_TAG_LEN,
                    _ => 0,
                })) as int;
                let n = if buf@.len() < room { buf@.len() as int } else { room };
                let e = old(self).encoder;
                let sealed = seal_chunk(e.spec_security(), e.spec_key(), e.chunk_nonce(), buf@.subrange(0, n));
                &&& r is Ok <==> seal_fits(e.spec_security(), n as nat)
                &&& r matches Ok((v, k)) ==> k == n && v@ == be_bytes((((sealed.len() % 65536) as u16) ^ mask_of(e.stream(), e.position())) as nat, 2) + sealed
                &&& final(self).encoder.spec_count() == (e.spec_count() + 1) % 65536
            }),
            final(self).decoder == old(self).decoder,
            final(self).read_buf == old(self).read_buf,
            final(self).read_pos == old(self).read_pos,
            final(self).read_state == old(self).read_state,
            final(self).eof == old(self).eof,
            final(self).security == old(self).security,
    {
        if buf.len() == 0 {
            return Ok((Vec::new(), 0));
        }
        let room = MAX_VMESS_CHUNK - self.tag_overhead();
        let n = if buf.len() < room { buf.len() } else { room };
        let chunk = crate::bytes_util::copy_range(buf, 0, n);
        match self.encoder.encrypt_chunk(chunk.as_slice()) {
            Ok(v) => Ok((v, n)),
            Err(e) => Err(e),
        }
    }
}

} // verus!
