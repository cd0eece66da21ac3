use vstd::prelude::*;

use crate::config::{dialer_view, DialerConfig, TlsConfig};
use crate::outbound::vless::reality::{
    hex_splits_char, parse_hex, parse_hex_spec, parse_public_key, reality_b64_spec, RealityConfig,
};
use vstd::utf8::encode_utf8;

verus! {

/// Reality over TCP: a TLS handshake that the server authenticates by a shared key.
pub struct RealityTransport {
    pub server_addr: String,
    pub server_port: u16,
    pub reality_config: RealityConfig,
    pub sni: String,
    pub dialer_config: Option<DialerConfig>,
}

/// The first of the options that is set, else the fallback.
pub open spec fn first_of(a: Option<String>, b: Option<String>, fallback: Seq<char>) -> Seq<char> {
    match a {
        Some(x) => x@,
        None => match b {
            Some(y) => y@,
            None => fallback,
        },
    }
}

/// The short id string: its hex must not cut a character in two.
pub open spec fn short_id_readable(config: TlsConfig) -> bool {
    match config.short_id {
        Some(s) => !(encode_utf8(s@).len() % 2 == 0 && hex_splits_char(encode_utf8(s@))),
        None => true,
    }
}

fn first_of_exec(a: &Option<String>, b: &Option<String>, fallback: &String) -> (r: String)
    ensures
        r@ == first_of(*a, *b, fallback@),
{
    match a {
        Some(x) => x.clone(),
        None => match b {
            Some(y) => y.clone(),
            None => fallback.clone(),
        },
    }
}

/// The public key decodes to 32 bytes and a non-empty short id is valid hex.
pub open spec fn reality_config_ok(config: TlsConfig) -> bool {
    &&& match config.public_key {
        Some(k) => match reality_b64_spec(k@) {
            Some(b) => b.len() == 32,
            None => false,
        },
        None => false,
    }
    &&& match config.short_id {
        Some(s) => s@.len() > 0 ==> parse_hex_spec(encode_utf8(s@)) is Some,
        None => true,
    }
}

/// The Reality transport that `new` makes of the settings: the server's key and
/// short id decoded, the server name preferring `server_name`, then `sni`, then the
/// address, and the SNI preferring `sni`, then `server_name`, then the address.
pub open spec fn reality_transport_from(
    server_addr: Seq<char>,
    server_port: u16,
    config: TlsConfig,
    dialer_config: Option<DialerConfig>,
    t: RealityTransport,
) -> bool {
    &&& t.server_addr@ == server_addr
    &&& t.server_port == server_port
    &&& Some(t.reality_config.server_public_key@) == reality_b64_spec(config.public_key->Some_0@)
    &&& (match config.short_id {
        Some(s) => if s@.len() > 0 {
            Some(t.reality_config.short_id@) == parse_hex_spec(encode_utf8(s@))
        } else {
            t.reality_config.short_id@.len() == 0
        },
        None => t.reality_config.short_id@.len() == 0,
    })
    &&& t.reality_config.server_name@ == first_of(config.server_name, config.sni, server_addr)
    &&& t.sni@ == first_of(config.sni, config.server_name, server_addr)
    &&& dialer_view(t.dialer_config) == dialer_view(dialer_config)
}

impl RealityTransport {
    /// Needs the server's public key (base64, 32 bytes); the short id is hex and may
    /// be empty; the server name prefers `server_name`, then `sni`, then the address,
    /// and the SNI prefers `sni`, then `server_name`, then the address.
    pub fn new(server_addr: String, server_port: u16, config: &TlsConfig, dialer_config: Option<DialerConfig>) -> (r: Result<Self, &'static str>)
        requires
            short_id_readable(*config),
        ensures
            r is Ok <==> reality_config_ok(*config),
            r matches Ok(t) ==> reality_transport_from(server_addr@, server_port, *config, dialer_config, t),
            r matches Ok(t) ==> t.dialer_config == dialer_config,
    {
        let key_str = match &config.public_key {
            Some(k) => k,
            None => return Err("reality requires public_key"),
        };
        let server_public_key = match parse_public_key(key_str.as_str()) {
            Ok(k) => k,
            Err(e) => return Err(e),
        };
        let short_id = match &config.short_id {
            Some(s) => if s.as_str().is_empty() {
                Vec::new()
            } else {
                match parse_hex(s.as_str()) {
                    Ok(v) => v,
                    Err(e) => return Err(e),
                }
            },
            None => Vec::new(),
        };
        let server_name = first_of_exec(&config.server_name, &config.sni, &server_addr);
        let sni = first_of_exec(&config.sni, &config.server_name, &server_addr);
        Ok(RealityTransport {
            server_addr,
            server_port,
            reality_config: RealityConfig { server_public_key, short_id, server_name },
            sni,
            dialer_config,
        })
    }

    /// A transport for an already made Reality configuration.
    pub fn new_with_roots(server_addr: String, server_port: u16, reality_config: RealityConfig, sni: String) -> (r: Self)
        ensures
            r.server_addr@ == server_addr@,
            r.server_port == server_port,
            r.reality_config == reality_config,
            r.sni@ == sni@,
            r.dialer_config is None,
    {
        RealityTransport { server_addr, server_port, reality_config, sni, dialer_config: None }
    }
}

} // verus!
