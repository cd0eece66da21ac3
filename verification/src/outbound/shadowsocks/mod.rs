//! The Shadowsocks AEAD outbound: its settings, the framing of the TCP stream and
//! the UDP packets.

pub mod crypto;

use vstd::prelude::*;
use vstd::utf8::encode_utf8;

use crate::address::{parse_socks_addr, push_all, push_socks_addr, socks_addr_bytes, socks_addr_end, socks_addr_names, Address};
use crate::bytes_util::{be_bytes, copy_range, push_be};
use crate::config::{clone_opt, copy_dialer, dialer_view, opt_view, DialerConfig, OutboundConfig};
use crate::crypto::hkdf_sha1_okm;
use crate::outbound::shadowsocks::crypto::{
    cipher_of, derive_subkey, evp_bytes_to_key, evp_key, ss_fits, ss_nonce, ss_seal, AeadCipher, CipherKind,
};
use crate::text::{char_is_ws, chars_of, decimal, decimal_string, is_ws};

verus! {

/// The largest payload of one chunk.
pub const MAX_PAYLOAD_SIZE: usize = 0x3FFF;

/// A Shadowsocks outbound.
pub struct ShadowsocksOutbound {
    pub tag: String,
    pub server_addr: String,
    pub server_port: u16,
    pub cipher_kind: CipherKind,
    pub key: Vec<u8>,
    pub plugin: Option<String>,
    pub plugin_opts: Option<String>,
    pub dialer_config: Option<DialerConfig>,
}

impl ShadowsocksOutbound {
    /// Needs an address, a port, a password and a supported method; the key is
    /// derived from the password. An identity key needs a 2022 method, which this
    /// library does not offer, so it is refused.
    pub fn new(config: &OutboundConfig) -> (r: Result<Self, &'static str>)
        ensures
            ({
                let s = config.settings;
                &&& r is Ok <==> (s.address is Some && s.port is Some && s.password is Some
                    && (s.method matches Some(m) && cipher_of(m@) is Some) && s.identity_key is None)
                &&& r matches Ok(o) ==> {
                    &&& o.tag@ == config.tag@
                    &&& o.server_addr@ == s.address->Some_0@
                    &&& o.server_port == s.port->Some_0
                    &&& Some(o.cipher_kind) == cipher_of(s.method->Some_0@)
                    &&& o.key@ == evp_key(encode_utf8(s.password->Some_0@), o.cipher_kind.spec_key_len() as nat)
                    &&& opt_view(o.plugin) == opt_view(s.plugin)
                    &&& opt_view(o.plugin_opts) == opt_view(s.plugin_opts)
                    &&& dialer_view(o.dialer_config) == dialer_view(s.dialer)
                }
            }),
    {
        let settings = &config.settings;
        let address = match &settings.address {
            Some(a) => a.clone(),
            None => return Err("shadowsocks outbound missing 'address'"),
        };
        let port = match settings.port {
            Some(p) => p,
            None => return Err("shadowsocks outbound missing 'port'"),
        };
        let password = match &settings.password {
            Some(p) => p,
            None => return Err("shadowsocks outbound missing 'password'"),
        };
        let method = match &settings.method {
            Some(m) => m,
            None => return Err("shadowsocks outbound missing 'method'"),
        };
        let cipher_kind = match CipherKind::from_str(method.as_str()) {
            Ok(k) => k,
            Err(e) => return Err(e),
        };
        let key = evp_bytes_to_key(password.as_str().as_bytes(), cipher_kind.key_len());
        if settings.identity_key.is_some() {
            return Err("identity_key requires a 2022 cipher method");
        }
        Ok(ShadowsocksOutbound {
            tag: config.tag.clone(),
            server_addr: address,
            server_port: port,
            cipher_kind,
            key,
            plugin: clone_opt(&settings.plugin),
            plugin_opts: clone_opt(&settings.plugin_opts),
            dialer_config: copy_dialer(&settings.dialer),
        })
    }

    pub fn tag(&self) -> (r: &str)
        ensures
            r@ == self.tag@,
    {
        self.tag.as_str()
    }
}

/// The white-space separated words of `s`, left to right.
pub open spec fn words(s: Seq<char>) -> Seq<Seq<char>>
    decreases s.len(),
{
    if s.len() == 0 {
        Seq::empty()
    } else if is_ws(s[0]) {
        words(s.drop_first())
    } else {
        let n = word_len(s, 0);
        proof {
            lemma_word_len(s, 1);
        }
        seq![s.subrange(0, n)] + words(s.subrange(n, s.len() as int))
    }
}

/// The length of the word starting at `i`.
pub open spec fn word_len(s: Seq<char>, i: int) -> int
    decreases s.len() - i,
{
    if 0 <= i < s.len() && !is_ws(s[i]) {
        word_len(s, i + 1)
    } else {
        i
    }
}

pub proof fn lemma_word_len(s: Seq<char>, i: int)
    requires
        0 <= i <= s.len(),
    ensures
        i <= word_len(s, i) <= s.len(),
        forall|k: int| i <= k < word_len(s, i) ==> !is_ws(s[k]),
        word_len(s, i) < s.len() ==> is_ws(s[word_len(s, i)]),
    decreases s.len() - i,
{
    if i < s.len() && !is_ws(s[i]) {
        lemma_word_len(s, i + 1);
    }
}

proof fn lemma_word_len_shift(s: Seq<char>, a: int, i: int)
    requires
        0 <= a <= i <= s.len(),
    ensures
        word_len(s.subrange(a, s.len() as int), i - a) == word_len(s, i) - a,
    decreases s.len() - i,
{
    if i < s.len() && !is_ws(s[i]) {
        lemma_word_len_shift(s, a, i + 1);
    }
}

/// The plugin's options split into arguments at white space.
pub fn parse_plugin_options(plugin_opts: Option<&str>) -> (r: Vec<String>)
    ensures
        r@.map_values(|w: String| w@) == words(match plugin_opts {
            Some(o) => o@,
            None => Seq::empty(),
        }),
{
    let o: &str = match plugin_opts {
        Some(o) => o,
        None => "",
    };
    proof {
        if plugin_opts is None {
            reveal_strlit("");
        }
    }
    let v = chars_of(o);
    let ghost s = v@;
    let mut out: Vec<String> = Vec::new();
    let mut i: usize = 0;
    proof {
        assert(s.subrange(0, s.len() as int) =~= s);
        assert(out@.map_values(|w: String| w@) + words(s) =~= words(s));
    }
    while i < v.len()
        invariant
            v@ == s,
            s == o@,
            i <= s.len(),
            words(s) == out@.map_values(|w: String| w@) + words(s.subrange(i as int, s.len() as int)),
        decreases s.len() - i,
    {
        let ghost t = s.subrange(i as int, s.len() as int);
        if char_is_ws(v[i]) {
            proof {
                assert(t.drop_first() =~= s.subrange(i + 1, s.len() as int));
            }
            i = i + 1;
        } else {
            let mut j = i;
            while j < v.len() && !char_is_ws(v[j])
                invariant
                    v@ == s,
                    i <= j <= s.len(),
                    word_len(s, i as int) == word_len(s, j as int),
                decreases s.len() - j,
            {
                j = j + 1;
            }
            proof {
                lemma_word_len_shift(s, i as int, i as int);
                assert(word_len(s, j as int) == j);
            }
            let word = o.substring_char(i, j).to_owned();
            proof {
                assert(t.subrange(0, j - i) =~= s.subrange(i as int, j as int));
                assert(t.subrange(j - i, t.len() as int) =~= s.subrange(j as int, s.len() as int));
                assert(out@.push(word).map_values(|w: String| w@) =~= out@.map_values(|w: String| w@).push(word@));
            }
            out.push(word);
            i = j;
        }
    }
    proof {
        assert(s.subrange(s.len() as int, s.len() as int) =~= Seq::<char>::empty());
        assert(out@.map_values(|w: String| w@) + Seq::<Seq<char>>::empty() =~= out@.map_values(|w: String| w@));
    }
    out
}


/// How a SIP003 plugin is started: the program, its arguments (the plugin options
/// split at white space), and the environment that tells it where to listen and
/// where to forward. Its output goes nowhere.
pub struct Sip003Command {
    pub program: String,
    pub args: Vec<String>,
    pub envs: Vec<(String, String)>,
}

/// The environment of a plugin: remote host and port, local host and port, and
/// the options (empty when none).
pub open spec fn sip003_envs(
    plugin_opts: Option<Seq<char>>,
    remote_host: Seq<char>,
    remote_port: u16,
    local_host: Seq<char>,
    local_port: u16,
) -> Seq<(Seq<char>, Seq<char>)> {
    seq![
        ("SS_REMOTE_HOST"@, remote_host),
        ("SS_REMOTE_PORT"@, decimal(remote_port as nat)),
        ("SS_LOCAL_HOST"@, local_host),
        ("SS_LOCAL_PORT"@, decimal(local_port as nat)),
        ("SS_PLUGIN_OPTIONS"@, match plugin_opts {
            Some(o) => o,
            None => Seq::empty(),
        }),
    ]
}

pub fn build_sip003_command(
    plugin_bin: &str,
    plugin_opts: Option<&str>,
    remote_host: &str,
    remote_port: u16,
    local_host: &str,
    local_port: u16,
) -> (r: Sip003Command)
    ensures
        r.program@ == plugin_bin@,
        r.args@.map_values(|w: String| w@) == words(match plugin_opts {
            Some(o) => o@,
            None => Seq::empty(),
        }),
        r.envs@.map_values(|p: (String, String)| (p.0@, p.1@)) == sip003_envs(
            match plugin_opts {
                Some(o) => Some(o@),
                None => None,
            },
            remote_host@,
            remote_port,
            local_host@,
            local_port,
        ),
{
    let args = parse_plugin_options(plugin_opts);
    let opts: String = match plugin_opts {
        Some(o) => o.to_owned(),
        None => String::new(),
    };
    let mut envs: Vec<(String, String)> = Vec::new();
    envs.push(("SS_REMOTE_HOST".to_owned(), remote_host.to_owned()));
    envs.push(("SS_REMOTE_PORT".to_owned(), decimal_string(remote_port as u64)));
    envs.push(("SS_LOCAL_HOST".to_owned(), local_host.to_owned()));
    envs.push(("SS_LOCAL_PORT".to_owned(), decimal_string(local_port as u64)));
    envs.push(("SS_PLUGIN_OPTIONS".to_owned(), opts));
    let r = Sip003Command { program: plugin_bin.to_owned(), args, envs };
    proof {
        assert(r.envs@.map_values(|p: (String, String)| (p.0@, p.1@)) =~= sip003_envs(
            match plugin_opts {
                Some(o) => Some(o@),
                None => None,
            },
            remote_host@,
            remote_port,
            local_host@,
            local_port,
        ));
    }
    r
}

/// A chunk of the stream: the sealed 16-bit length, then the sealed payload, under
/// two successive nonces.
pub open spec fn aead_frame_spec(kind: CipherKind, key: Seq<u8>, n: u64, payload: Seq<u8>) -> Seq<u8> {
    ss_seal(kind, key, ss_nonce(n), be_bytes((payload.len() % 65536) as nat, 2))
        + ss_seal(kind, key, ss_nonce((n + 1) as u64), payload)
}

/// Frames `payload` as one chunk.
pub fn aead_frame(cipher: &mut AeadCipher, payload: &[u8]) -> (r: Result<Vec<u8>, &'static str>)
    requires
        old(cipher).wf(),
        old(cipher).spec_nonce() < u64::MAX - 1,
    ensures
        final(cipher).wf(),
        final(cipher).spec_kind() == old(cipher).spec_kind(),
        final(cipher).spec_key() == old(cipher).spec_key(),
        r is Ok <==> ss_fits(old(cipher).spec_kind(), payload@.len()),
        r is Ok ==> final(cipher).spec_nonce() == old(cipher).spec_nonce() + 2,
        r matches Ok(v) ==> v@ == aead_frame_spec(old(cipher).spec_kind(), old(cipher).spec_key(), old(cipher).spec_nonce(), payload@),
{
    let mut len_bytes: Vec<u8> = Vec::new();
    push_be(&mut len_bytes, (payload.len() % 65536) as u64, 2);
    proof {
        crate::bytes_util::lemma_be_len((payload@.len() % 65536) as nat, 2);
        assert(len_bytes@ =~= be_bytes((payload@.len() % 65536) as nat, 2));
    }
    let encrypted_len = match cipher.encrypt(len_bytes.as_slice()) {
        Ok(v) => v,
        Err(e) => return Err(e),
    };
    let encrypted_payload = match cipher.encrypt(payload) {
        Ok(v) => v,
        Err(e) => return Err(e),
    };
    let mut out: Vec<u8> = Vec::new();
    push_all(&mut out, encrypted_len.as_slice());
    push_all(&mut out, encrypted_payload.as_slice());
    Ok(out)
}

/// What opens a stream: the salt, then the target in SOCKS form as the first chunk,
/// sealed under the subkey of the key and the salt.
pub open spec fn opening_bytes(kind: CipherKind, key: Seq<u8>, salt: Seq<u8>, target: Address) -> Seq<u8> {
    salt + aead_frame_spec(
        kind,
        hkdf_sha1_okm(salt, key, encode_utf8("ss-subkey"@), kind.spec_key_len() as nat),
        0,
        socks_addr_bytes(target),
    )
}

impl ShadowsocksOutbound {
    /// The bytes that open a stream to `target` with `salt`, and the sending cipher
    /// for what follows; an error only for a target too long to seal.
    pub fn opening_with(&self, salt: &[u8], target: &Address) -> (r: Result<(Vec<u8>, AeadCipher), &'static str>)
        ensures
            r is Ok <==> ss_fits(self.cipher_kind, socks_addr_bytes(*target).len()),
            r matches Ok((bytes, c)) ==> {
                &&& bytes@ == opening_bytes(self.cipher_kind, self.key@, salt@, *target)
                &&& c.wf()
                &&& c.spec_kind() == self.cipher_kind
                &&& c.spec_key() == hkdf_sha1_okm(
                    salt@,
                    self.key@,
                    encode_utf8("ss-subkey"@),
                    self.cipher_kind.spec_key_len() as nat,
                )
                &&& c.spec_nonce() == 2
            },
    {
        let key_len = self.cipher_kind.key_len();
        let subkey = match crate::outbound::shadowsocks::crypto::derive_subkey(self.key.as_slice(), salt, key_len) {
            Ok(k) => k,
            Err(e) => return Err(e),
        };
        let mut encoder = AeadCipher::new(self.cipher_kind, subkey);
        let mut addr: Vec<u8> = Vec::new();
        push_socks_addr(&mut addr, target);
        proof {
            assert(addr@ =~= socks_addr_bytes(*target));
        }
        let frame = match aead_frame(&mut encoder, addr.as_slice()) {
            Ok(f) => f,
            Err(e) => return Err(e),
        };
        let mut out: Vec<u8> = Vec::new();
        push_all(&mut out, salt);
        push_all(&mut out, frame.as_slice());
        Ok((out, encoder))
    }

    /// Opens a stream to `target` with a fresh random salt of the method's length.
    pub fn opening(&self, target: &Address) -> (r: Result<(Vec<u8>, AeadCipher), &'static str>)
        ensures
            r is Ok <==> ss_fits(self.cipher_kind, socks_addr_bytes(*target).len()),
            r matches Ok((bytes, c)) ==> (exists|salt: Seq<u8>| salt.len() == self.cipher_kind.spec_key_len()
                && bytes@ == #[trigger] opening_bytes(self.cipher_kind, self.key@, salt, *target)) && c.wf()
                && c.spec_nonce() == 2,
    {
        let n = self.cipher_kind.salt_len();
        let mut salt: Vec<u8> = Vec::new();
        let mut i: usize = 0;
        while i < n
            invariant
                i <= n,
                salt@.len() == i,
            decreases n - i,
        {
            salt.push(0);
            i = i + 1;
        }
        crate::crypto::fill_random(salt.as_mut_slice());
        let r = self.opening_with(salt.as_slice(), target);
        proof {
            assert(salt@.len() == self.cipher_kind.spec_key_len());
        }
        r
    }
}

/// Where the reader stands in the stream.
pub enum ReadState {
    /// Reading the server's salt.
    Salt { salt_buf: Vec<u8>, salt_read: usize },
    /// Reading a sealed length.
    Length { len_buf: Vec<u8>, len_read: usize },
    /// Reading a sealed payload.
    Payload { payload_buf: Vec<u8>, payload_read: usize },
}

impl ReadState {
    pub open spec fn parts(self) -> (Seq<u8>, usize) {
        match self {
            ReadState::Salt { salt_buf, salt_read } => (salt_buf@, salt_read),
            ReadState::Length { len_buf, len_read } => (len_buf@, len_read),
            ReadState::Payload { payload_buf, payload_read } => (payload_buf@, payload_read),
        }
    }
}

/// The stream state of a Shadowsocks connection: the sending cipher, the receiving
/// cipher once the server's salt is in, decrypted data not yet handed out, and where
/// the reader stands. The connection's I/O feeds it what it reads and writes what
/// it frames.
pub struct AeadStream {
    pub encoder: AeadCipher,
    pub decoder: Option<AeadCipher>,
    pub cipher_kind: CipherKind,
    pub key: Vec<u8>,
    pub read_buf: Vec<u8>,
    pub read_pos: usize,
    pub read_state: ReadState,
}

impl AeadStream {
    /// Buffers are partly filled; a decoder exists once the salt is read.
    pub open spec fn wf(&self) -> bool {
        &&& self.read_pos <= self.read_buf@.len()
        &&& self.read_state.parts().1 < self.read_state.parts().0.len()
        &&& self.encoder.wf()
        &&& self.encoder.spec_kind() == self.cipher_kind
        &&& match self.read_state {
            ReadState::Salt { .. } => true,
            _ => self.decoder matches Some(d) && d.wf() && d.spec_kind() == self.cipher_kind,
        }
        &&& match self.read_state {
            ReadState::Length { len_buf, .. } => len_buf@.len() == 18,
            ReadState::Payload { payload_buf, .. } => payload_buf@.len() >= 16,
            _ => true,
        }
    }

    /// The stream for a connection whose encoder has been set up; the reader awaits
    /// the server's salt.
    pub fn new(encoder: AeadCipher, cipher_kind: CipherKind, key: Vec<u8>) -> (r: Self)
        requires
            encoder.wf(),
            encoder.spec_kind() == cipher_kind,
        ensures
            r.wf(),
            r.encoder == encoder,
            r.decoder is None,
            r.cipher_kind == cipher_kind,
            r.key@ == key@,
            r.read_buf@.len() == 0,
            r.read_state matches ReadState::Salt { salt_buf, salt_read } && salt_buf@.len() == cipher_kind.spec_key_len() && salt_read == 0,
    {
        let salt_len = cipher_kind.salt_len();
        AeadStream {
            encoder,
            decoder: None,
            cipher_kind,
            key,
            read_buf: Vec::new(),
            read_pos: 0,
            read_state: ReadState::Salt { salt_buf: crate::relay::zeroed(salt_len), salt_read: 0 },
        }
    }

    /// Hands out up to `max` bytes of decrypted data.
    pub fn take_buffered(&mut self, max: usize) -> (r: Vec<u8>)
        requires
            old(self).wf(),
        ensures
            final(self).wf(),
            ({
                let rest = old(self).read_buf@.len() - old(self).read_pos;
                let n = if rest < max { rest } else { max as int };
                &&& r@ == old(self).read_buf@.subrange(old(self).read_pos as int, old(self).read_pos + n)
                &&& if old(self).read_pos + n >= old(self).read_buf@.len() {
                    final(self).read_buf@.len() == 0 && final(self).read_pos == 0
                } else {
                    final(self).read_buf@ == old(self).read_buf@ && final(self).read_pos == old(self).read_pos + n
                }
            }),
            final(self).read_state == old(self).read_state,
            final(self).decoder == old(self).decoder,
            final(self).encoder == old(self).encoder,
    {
        let rest = self.read_buf.len() - self.read_pos;
        let n = if rest < max { rest } else { max };
        let out = copy_range(self.read_buf.as_slice(), self.read_pos, self.read_pos + n);
        self.read_pos = self.read_pos + n;
        if self.read_pos >= self.read_buf.len() {
            self.read_buf = Vec::new();
            self.read_pos = 0;
        }
        out
    }

    /// How many bytes the reader wants next.
    pub fn wanted(&self) -> (r: usize)
        requires
            self.wf(),
        ensures
            r == self.read_state.parts().0.len() - self.read_state.parts().1,
            r > 0,
    {
        match &self.read_state {
            ReadState::Salt { salt_buf, salt_read } => salt_buf.len() - *salt_read,
            ReadState::Length { len_buf, len_read } => len_buf.len() - *len_read,
            ReadState::Payload { payload_buf, payload_read } => payload_buf.len() - *payload_read,
        }
    }

    /// What a closed connection means in each state: always an error.
    pub fn eof_error(&self) -> (r: &'static str)
        ensures
            r@ == (match self.read_state {
                ReadState::Salt { .. } => "connection closed while reading salt"@,
                ReadState::Length { .. } => "connection closed while reading length frame"@,
                ReadState::Payload { .. } => "connection closed while reading payload frame"@,
            }),
    {
        match &self.read_state {
            ReadState::Salt { .. } => "connection closed while reading salt",
            ReadState::Length { .. } => "connection closed while reading length frame",
            ReadState::Payload { .. } => "connection closed while reading payload frame",
        }
    }

    /// Takes in bytes read from the connection, no more than the reader wants. A
    /// completed salt yields the receiving cipher; a completed length opens to the
    /// payload length (at most 0x3FFF), a completed payload into the buffer.
    pub fn feed(&mut self, data: &[u8]) -> (r: Result<(), &'static str>)
        requires
            old(self).wf(),
            0 < data@.len() <= old(self).read_state.parts().0.len() - old(self).read_state.parts().1,
            old(self).read_pos == old(self).read_buf@.len(),
            old(self).decoder matches Some(d) ==> d.spec_nonce() < u64::MAX,
        ensures
            final(self).encoder == old(self).encoder,
            final(self).cipher_kind == old(self).cipher_kind,
            r is Ok ==> final(self).wf(),
            ({
                let (buf, read) = old(self).read_state.parts();
                let got = buf.subrange(0, read as int) + data@;
                if got.len() < buf.len() {
                    &&& r is Ok
                    &&& final(self).read_state.parts().0.len() == buf.len()
                    &&& final(self).read_state.parts().1 == got.len()
                    &&& final(self).read_state.parts().0.subrange(0, got.len() as int) == got
                    &&& (final(self).read_state is Salt <==> old(self).read_state is Salt)
                    &&& (final(self).read_state is Length <==> old(self).read_state is Length)
                    &&& final(self).decoder == old(self).decoder
                } else {
                    match old(self).read_state {
                        ReadState::Salt { .. } => {
                            &&& r is Ok
                            &&& final(self).decoder matches Some(d) && d.spec_nonce() == 0 && d.spec_kind() == old(self).cipher_kind
                                && d.spec_key() == hkdf_sha1_okm(got, old(self).key@, encode_utf8("ss-subkey"@), old(self).cipher_kind.spec_key_len() as nat)
                            &&& final(self).read_state matches ReadState::Length { len_buf, len_read } && len_buf@.len() == 18 && len_read == 0
                        },
                        ReadState::Length { .. } => {
                            let d = old(self).decoder->Some_0;
                            &&& r is Ok ==> exists|p: Seq<u8>| #[trigger] ss_seal(d.spec_kind(), d.spec_key(), ss_nonce(d.spec_nonce()), p) == got && p.len() == 2 && p[0] as int * 256 + p[1] as int <= MAX_PAYLOAD_SIZE
                                && final(self).read_state.parts().0.len() == p[0] as int * 256 + p[1] as int + 16
                                && final(self).read_state.parts().1 == 0 && final(self).read_state is Payload
                            &&& r is Ok <== exists|p: Seq<u8>| #[trigger] ss_seal(d.spec_kind(), d.spec_key(), ss_nonce(d.spec_nonce()), p) == got && p.len() == 2 && p[0] as int * 256 + p[1] as int <= MAX_PAYLOAD_SIZE
                            &&& r is Ok ==> (final(self).decoder matches Some(e) && e.spec_nonce() == d.spec_nonce() + 1 && e.spec_key() == d.spec_key())
                        },
                        ReadState::Payload { .. } => {
                            let d = old(self).decoder->Some_0;
                            &&& r is Ok ==> ss_seal(d.spec_kind(), d.spec_key(), ss_nonce(d.spec_nonce()), final(self).read_buf@) == got
                                && final(self).read_pos == 0
                                && (final(self).read_state matches ReadState::Length { len_buf, len_read } && len_buf@.len() == 18 && len_read == 0)
                            &&& r is Ok <== exists|p: Seq<u8>| ss_fits(d.spec_kind(), p.len())
                                && #[trigger] ss_seal(d.spec_kind(), d.spec_key(), ss_nonce(d.spec_nonce()), p) == got
                            &&& r is Ok ==> (final(self).decoder matches Some(e) && e.spec_nonce() == d.spec_nonce() + 1 && e.spec_key() == d.spec_key())
                        },
                    }
                }
            }),
    {
        let which: u8 = match &self.read_state {
            ReadState::Salt { .. } => 0,
            ReadState::Length { .. } => 1,
            ReadState::Payload { .. } => 2,
        };
        let mut st = ReadState::Salt { salt_buf: Vec::new(), salt_read: 0 };
        std::mem::swap(&mut st, &mut self.read_state);
        let (mut buf, mut read) = match st {
            ReadState::Salt { salt_buf, salt_read } => (salt_buf, salt_read),
            ReadState::Length { len_buf, len_read } => (len_buf, len_read),
            ReadState::Payload { payload_buf, payload_read } => (payload_buf, payload_read),
        };
        let total = buf.len();
        let ghost b0 = buf@;
        let ghost r0 = read;
        let mut i: usize = 0;
        proof {
            assert(b0.subrange(0, r0 as int) + data@.subrange(0, 0) =~= b0.subrange(0, r0 as int));
        }
        while i < data.len()
            invariant
                i <= data@.len(),
                r0 + data@.len() <= total,
                total == b0.len(),
                read == r0 + i,
                buf@.len() == total,
                buf@.subrange(0, read as int) == b0.subrange(0, r0 as int) + data@.subrange(0, i as int),
            decreases data@.len() - i,
        {
            let ghost prev = buf@;
            buf[read] = data[i];
            proof {
                assert forall|k: int| 0 <= k < read implies buf@[k] == prev[k] by {}
            }
            read = read + 1;
            i = i + 1;
            proof {
                assert forall|k: int| 0 <= k < read implies #[trigger] buf@.subrange(0, read as int)[k]
                    == (b0.subrange(0, r0 as int) + data@.subrange(0, i as int))[k] by {
                    if k < read - 1 {
                        assert(prev.subrange(0, read - 1)[k] == prev[k]);
                    }
                }
                assert(buf@.subrange(0, read as int) =~= b0.subrange(0, r0 as int) + data@.subrange(0, i as int));
            }
        }
        proof {
            assert(data@.subrange(0, data@.len() as int) =~= data@);
        }
        if read < total {
            self.read_state = if which == 0 {
                ReadState::Salt { salt_buf: buf, salt_read: read }
            } else if which == 1 {
                ReadState::Length { len_buf: buf, len_read: read }
            } else {
                ReadState::Payload { payload_buf: buf, payload_read: read }
            };
            return Ok(());
        }
        proof {
            assert(buf@ =~= buf@.subrange(0, read as int));
        }
        if which == 0 {
            let subkey = match derive_subkey(self.key.as_slice(), buf.as_slice(), self.cipher_kind.key_len()) {
                Ok(k) => k,
                Err(e) => return Err(e),
            };
            self.decoder = Some(AeadCipher::new(self.cipher_kind, subkey));
            self.read_state = ReadState::Length { len_buf: crate::relay::zeroed(18), len_read: 0 };
            assert(self.wf());
            Ok(())
        } else {
            let mut decoder = match self.decoder.take() {
                Some(d) => d,
                None => return Err("decoder not initialized"),
            };
            let plain = decoder.decrypt(buf.as_slice());
            self.decoder = Some(decoder);
            let plain = match plain {
                Ok(p) => p,
                Err(e) => return Err(e),
            };
            if which == 1 {
                let payload_len = (plain[0] as usize) * 256 + (plain[1] as usize);
                if payload_len > MAX_PAYLOAD_SIZE {
                    return Err("payload length exceeds maximum");
                }
                self.read_state = ReadState::Payload { payload_buf: crate::relay::zeroed(payload_len + 16), payload_read: 0 };
                assert(self.wf());
                Ok(())
            } else {
                self.read_buf = plain;
                self.read_pos = 0;
                self.read_state = ReadState::Length { len_buf: crate::relay::zeroed(18), len_read: 0 };
                assert(self.wf());
                Ok(())
            }
        }
    }

    /// Frames the next write: at most 0x3FFF bytes of `buf` as one chunk, and how many
    /// bytes of `buf` it carries; nothing for an empty `buf`.
    pub fn encode_write(&mut self, buf: &[u8]) -> (r: Result<(Vec<u8>, usize), &'static str>)
        requires
            old(self).wf(),
            old(self).encoder.spec_nonce() < u64::MAX - 1,
        ensures
            final(self).decoder == old(self).decoder,
            final(self).read_state == old(self).read_state,
            final(self).read_buf == old(self).read_buf,
            final(self).read_pos == old(self).read_pos,
            final(self).wf(),
            buf@.len() == 0 ==> (r matches Ok((v, n)) && v@.len() == 0 && n == 0),
            buf@.len() > 0 ==> ({
                let n = if buf@.len() < MAX_PAYLOAD_SIZE { buf@.len() as int } else { MAX_PAYLOAD_SIZE as int };
                let e = old(self).encoder;
                &&& r matches Ok((v, k)) && k == n
                    && v@ == aead_frame_spec(e.spec_kind(), e.spec_key(), e.spec_nonce(), buf@.subrange(0, n))
                &&& final(self).encoder.spec_nonce() == e.spec_nonce() + 2
            }),
    {
        if buf.len() == 0 {
            return Ok((Vec::new(), 0));
        }
        let n = if buf.len() < MAX_PAYLOAD_SIZE { buf.len() } else { MAX_PAYLOAD_SIZE };
        let chunk = copy_range(buf, 0, n);
        match aead_frame(&mut self.encoder, chunk.as_slice()) {
            Ok(v) => Ok((v, n)),
            Err(e) => Err(e),
        }
    }
}


/// The subkey for a salt.
pub open spec fn ss_subkey(kind: CipherKind, key: Seq<u8>, salt: Seq<u8>) -> Seq<u8> {
    hkdf_sha1_okm(salt, key, encode_utf8("ss-subkey"@), kind.spec_key_len() as nat)
}

/// A UDP request: the salt, then the SOCKS5-style address and the data sealed under
/// the salt's subkey with the first nonce.
pub open spec fn udp_request_spec(kind: CipherKind, key: Seq<u8>, salt: Seq<u8>, addr: Address, data: Seq<u8>) -> Seq<u8> {
    salt + ss_seal(kind, ss_subkey(kind, key, salt), ss_nonce(0), socks_addr_bytes(addr) + data)
}

/// Builds a UDP request with the given salt.
pub fn udp_request(kind: CipherKind, key: &[u8], salt: &[u8], addr: &Address, data: &[u8]) -> (r: Result<Vec<u8>, &'static str>)
    ensures
        r is Ok <==> ss_fits(kind, (socks_addr_bytes(*addr) + data@).len()),
        r matches Ok(v) ==> v@ == udp_request_spec(kind, key@, salt@, *addr, data@),
{
    let subkey = match derive_subkey(key, salt, kind.key_len()) {
        Ok(k) => k,
        Err(e) => return Err(e),
    };
    let mut cipher = AeadCipher::new(kind, subkey);
    let mut payload: Vec<u8> = Vec::new();
    push_socks_addr(&mut payload, addr);
    push_all(&mut payload, data);
    proof {
        assert(payload@ =~= socks_addr_bytes(*addr) + data@);
    }
    let encrypted = match cipher.encrypt(payload.as_slice()) {
        Ok(v) => v,
        Err(e) => return Err(e),
    };
    let mut out: Vec<u8> = Vec::new();
    push_all(&mut out, salt);
    push_all(&mut out, encrypted.as_slice());
    Ok(out)
}

/// Builds a UDP request under a fresh random salt as long as the key.
pub fn udp_request_random(kind: CipherKind, key: &[u8], addr: &Address, data: &[u8]) -> (r: Result<Vec<u8>, &'static str>)
    ensures
        r is Ok <==> ss_fits(kind, (socks_addr_bytes(*addr) + data@).len()),
        r matches Ok(v) ==> exists|salt: Seq<u8>| salt.len() == kind.spec_key_len()
            && v@ == #[trigger] udp_request_spec(kind, key@, salt, *addr, data@),
{
    let mut salt = crate::relay::zeroed(kind.salt_len());
    crate::crypto::fill_random(salt.as_mut_slice());
    udp_request(kind, key, salt.as_slice(), addr, data)
}

/// Reads a UDP response: the salt (as long as the key), then a sealed SOCKS5-style
/// address and the data.
pub fn parse_udp_response(kind: CipherKind, key: &[u8], buf: &[u8]) -> (r: Result<(Address, Vec<u8>), &'static str>)
    ensures
        buf@.len() < kind.spec_key_len() ==> r is Err,
        r is Ok <== ({
            let n = kind.spec_key_len() as int;
            &&& buf@.len() >= n + 16
            &&& exists|p: Seq<u8>| {
                &&& ss_fits(kind, p.len())
                &&& #[trigger] ss_seal(kind, ss_subkey(kind, key@, buf@.subrange(0, n)), ss_nonce(0), p) == buf@.subrange(
                    n,
                    buf@.len() as int,
                )
                &&& socks_addr_end(p) is Some
            }
        }),
        r matches Ok((addr, data)) ==> {
            let n = kind.spec_key_len() as int;
            let salt = buf@.subrange(0, n);
            exists|p: Seq<u8>| {
                &&& #[trigger] ss_seal(kind, ss_subkey(kind, key@, salt), ss_nonce(0), p) == buf@.subrange(n, buf@.len() as int)
                &&& socks_addr_end(p) matches Some(e) && socks_addr_names(p, addr) && data@ == p.subrange(e, p.len() as int)
            }
        },
{
    let salt_len = kind.salt_len();
    if buf.len() < salt_len {
        return Err("UDP packet too short for salt");
    }
    let salt = copy_range(buf, 0, salt_len);
    let encrypted = copy_range(buf, salt_len, buf.len());
    let subkey = match derive_subkey(key, salt.as_slice(), kind.key_len()) {
        Ok(k) => k,
        Err(e) => return Err(e),
    };
    let mut cipher = AeadCipher::new(kind, subkey);
    let decrypted = match cipher.decrypt(encrypted.as_slice()) {
        Ok(v) => v,
        Err(e) => return Err(e),
    };
    let (addr, consumed) = match parse_socks_addr(decrypted.as_slice()) {
        Some(x) => x,
        None => return Err("bad address in UDP response"),
    };
    let data = copy_range(decrypted.as_slice(), consumed, decrypted.len());
    proof {
        let n = kind.spec_key_len() as int;
        assert(ss_seal(kind, ss_subkey(kind, key@, buf@.subrange(0, n)), ss_nonce(0), decrypted@) == buf@.subrange(n, buf@.len() as int));
    }
    Ok((addr, data))
}

} // verus!
