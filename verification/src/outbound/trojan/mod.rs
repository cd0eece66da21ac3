//! The Trojan outbound.

pub mod protocol;

use vstd::prelude::*;
use vstd::utf8::encode_utf8;

use crate::address::Address;
use crate::config::{copy_dialer, opt_strings_view, opt_view, OutboundConfig, OutboundSettings, TlsConfig, TransportConfig};
use crate::crypto::sha224_hash;
use crate::outbound::trojan::protocol::{hex_text, password_hash};
use crate::outbound::vmess::{lemma_readable, settings_readable};
use crate::transport::reality::short_id_readable;
use crate::transport::{build_transport, built_transport, uses_reality, StreamTransport};

verus! {

/// A Trojan outbound.
pub struct TrojanOutbound {
    pub tag: String,
    pub server_addr: Address,
    pub password_hash: String,
    pub transport: StreamTransport,
}

/// `r` is the TLS settings Trojan uses, made from the settings in force `base`: TLS
/// is on unless configured off with a `security` other than "tls"; the SNI defaults
/// to the address.
pub open spec fn trojan_tls(s: OutboundSettings, base: TlsConfig, address: Seq<char>, r: TlsConfig) -> bool {
    &&& r.enabled == (base.enabled || s.security is None || opt_view(s.security) == Some("tls"@))
    &&& opt_view(r.sni) == (if base.sni is Some { opt_view(base.sni) } else { Some(address) })
    &&& r.security@ == base.security@
    &&& r.allow_insecure == base.allow_insecure
    &&& opt_strings_view(r.alpn) == opt_strings_view(base.alpn)
    &&& opt_view(r.fingerprint) == opt_view(base.fingerprint)
    &&& opt_view(r.public_key) == opt_view(base.public_key)
    &&& opt_view(r.short_id) == opt_view(base.short_id)
    &&& opt_view(r.server_name) == opt_view(base.server_name)
    &&& opt_view(r.ech_config) == opt_view(base.ech_config)
    &&& r.ech_grease == base.ech_grease
    &&& opt_view(r.ech_outer_sni) == opt_view(base.ech_outer_sni)
    &&& r.ech_auto == base.ech_auto
    &&& r.enable_early_data == base.enable_early_data
}

/// `r` is what building the transport with Trojan's TLS settings gives.
pub open spec fn trojan_transport_from(s: OutboundSettings, address: Seq<char>, port: u16, r: Result<StreamTransport, &'static str>) -> bool {
    exists|tc: TransportConfig, base: TlsConfig, tls: TlsConfig|
        s.is_effective_transport(tc) && #[trigger] s.is_effective_tls(base) && trojan_tls(s, base, address, tls)
            && #[trigger] built_transport(address, port, tc, tls, None, r)
}

impl TrojanOutbound {
    /// Needs an address, a port and a password; the password is kept as its SHA-224
    /// in hexadecimal.
    pub fn new(config: &OutboundConfig) -> (r: Result<Self, &'static str>)
        requires
            settings_readable(config.settings),
        ensures
            ({
                let s = config.settings;
                &&& (s.address is None || s.port is None || s.password is None) ==> r is Err
                &&& r matches Ok(o) ==> {
                    &&& o.tag@ == config.tag@
                    &&& o.server_addr matches Address::Domain(a, p) && a@ == s.address->Some_0@ && p == s.port->Some_0
                    &&& o.password_hash@ == hex_text(sha224_hash(encode_utf8(s.password->Some_0@)))
                    &&& trojan_transport_from(s, s.address->Some_0@, s.port->Some_0, Ok(o.transport))
                }
                &&& (s.address is Some && s.port is Some && s.password is Some) ==> (r matches Err(e)
                    ==> trojan_transport_from(s, s.address->Some_0@, s.port->Some_0, Err(e)))
            }),
    {
        let settings = &config.settings;
        let address = match &settings.address {
            Some(a) => a,
            None => return Err("trojan: address is required"),
        };
        let port = match settings.port {
            Some(p) => p,
            None => return Err("trojan: port is required"),
        };
        let password = match &settings.password {
            Some(p) => p,
            None => return Err("trojan: password is required"),
        };
        let hash = password_hash(password.as_str());
        let base = settings.effective_tls();
        let mut tls_config = base.copy();
        if !tls_config.enabled && settings.security.is_none() {
            tls_config.enabled = true;
        }
        let is_tls = match &settings.security {
            Some(s) => crate::text::str_eq(s.as_str(), "tls"),
            None => false,
        };
        if !tls_config.enabled && is_tls {
            tls_config.enabled = true;
        }
        if tls_config.sni.is_none() {
            tls_config.sni = Some(address.clone());
        }
        let transport_config = settings.effective_transport();
        proof {
            lemma_readable(*settings, transport_config, base);
            if uses_reality(transport_config, tls_config) {
                assert(uses_reality(transport_config, base));
                crate::outbound::vless::lemma_same_short_id(tls_config, base);
            }
        }
        let built = build_transport(address.as_str(), port, &transport_config, &tls_config);
        proof {
            assert(trojan_tls(*settings, base, address@, tls_config));
            assert(built_transport(address@, port, transport_config, tls_config, None, built));
        }
        let transport = match built {
            Ok(t) => t,
            Err(e) => return Err(e),
        };
        Ok(TrojanOutbound { tag: config.tag.clone(), server_addr: Address::Domain(address.clone(), port), password_hash: hash, transport })
    }

    pub fn tag(&self) -> (r: &str)
        ensures
            r@ == self.tag@,
    {
        self.tag.as_str()
    }
}

} // verus!
