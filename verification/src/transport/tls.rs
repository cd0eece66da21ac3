use vstd::prelude::*;

use crate::config::{clone_opt_strings, dialer_view, opt_strings_view, opt_view, DialerConfig, TlsConfig};
use crate::transport::ech::base64::ech_b64_spec;
use crate::transport::ech::{parse_ech_config_base64, EchSettings};
use crate::transport::fingerprint::{fingerprint_of, FingerprintType};

verus! {

/// What the TLS client configuration is built from, when it can be built up front.
pub struct TlsPlan {
    pub ech: EchSettings,
    pub fingerprint: FingerprintType,
    pub allow_insecure: bool,
    pub alpn: Option<Vec<String>>,
}

/// A configured ECH list that does not decode, where it is read up front.
pub open spec fn ech_config_bad(config: TlsConfig) -> bool {
    !config.ech_auto && match config.ech_config {
        Some(c) => ech_b64_spec(c@) is None,
        None => false,
    }
}

/// TLS over TCP.
pub struct TlsTransport {
    pub server_addr: String,
    pub server_port: u16,
    /// `None` when ECH is fetched from DNS at the first connection.
    pub static_plan: Option<TlsPlan>,
    pub sni: String,
    pub dialer_config: Option<DialerConfig>,
    pub raw_tls_config: TlsConfig,
}

/// The TLS transport that `new` makes of the settings: the SNI defaults to the
/// server address, the settings are kept, and without automatic ECH the client
/// configuration is planned from them.
pub open spec fn tls_transport_from(
    server_addr: Seq<char>,
    server_port: u16,
    config: TlsConfig,
    dialer_config: Option<DialerConfig>,
    t: TlsTransport,
) -> bool {
    &&& t.server_addr@ == server_addr
    &&& t.server_port == server_port
    &&& t.sni@ == (match config.sni {
        Some(s) => s@,
        None => server_addr,
    })
    &&& dialer_view(t.dialer_config) == dialer_view(dialer_config)
    &&& t.raw_tls_config.same_as(config)
    &&& (config.ech_auto <==> t.static_plan is None)
    &&& t.static_plan matches Some(p) ==> {
        &&& p.ech.grease == config.ech_grease
        &&& opt_view(p.ech.outer_sni) == opt_view(config.ech_outer_sni)
        &&& (match config.ech_config {
            Some(c) => p.ech.config_list matches Some(l) && Some(l@) == ech_b64_spec(c@),
            None => p.ech.config_list is None,
        })
        &&& p.fingerprint == (match config.fingerprint {
            Some(f) => fingerprint_of(f@),
            None => FingerprintType::RustlsDefault,
        })
        &&& p.allow_insecure == config.allow_insecure
        &&& opt_strings_view(p.alpn) == opt_strings_view(config.alpn)
    }
}

impl TlsTransport {
    /// The SNI defaults to the server address. Without automatic ECH the client
    /// configuration is planned now: the configured ECH list (which must decode),
    /// GREASE and outer SNI, the named fingerprint (the library's defaults when none
    /// is named), the insecure flag and the ALPN list.
    pub fn new(server_addr: String, server_port: u16, config: &TlsConfig, dialer_config: Option<DialerConfig>) -> (r: Result<Self, &'static str>)
        ensures
            r is Err <==> ech_config_bad(*config),
            r matches Ok(t) ==> tls_transport_from(server_addr@, server_port, *config, dialer_config, t),
            r matches Ok(t) ==> t.dialer_config == dialer_config,
    {
        let sni = match &config.sni {
            Some(s) => s.clone(),
            None => server_addr.clone(),
        };
        let static_plan = if config.ech_auto {
            None
        } else {
            let config_list = match &config.ech_config {
                Some(c) => match parse_ech_config_base64(c.as_str()) {
                    Ok(b) => Some(b),
                    Err(e) => return Err(e),
                },
                None => None,
            };
            let fingerprint = match &config.fingerprint {
                Some(f) => FingerprintType::from_str(f.as_str()),
                None => FingerprintType::RustlsDefault,
            };
            Some(TlsPlan {
                ech: EchSettings { config_list, grease: config.ech_grease, outer_sni: crate::config::clone_opt(&config.ech_outer_sni) },
                fingerprint,
                allow_insecure: config.allow_insecure,
                alpn: clone_opt_strings(&config.alpn),
            })
        };
        Ok(TlsTransport { server_addr, server_port, static_plan, sni, dialer_config, raw_tls_config: config.copy() })
    }
}

} // verus!
