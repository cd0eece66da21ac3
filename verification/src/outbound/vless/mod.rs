//! The VLESS outbound.

pub mod protocol;
pub mod reality;
pub mod vision;

use vstd::prelude::*;

use crate::address::Address;
use crate::config::{copy_dialer, opt_strings_view, opt_view, OutboundConfig, OutboundSettings, TlsConfig, TransportConfig};
use crate::crypto::{parse_uuid, uuid_bytes_of};
use crate::outbound::vmess::settings_readable;
use crate::text::str_eq;
use crate::transport::reality::short_id_readable;
use crate::transport::{build_transport_with_dialer, built_transport, uses_reality, StreamTransport};

verus! {

/// The one flow VLESS supports.
pub const XRV: &'static str = "xtls-rprx-vision";

/// A VLESS outbound.
pub struct VlessOutbound {
    pub tag: String,
    pub server_addr: Address,
    pub uuid: [u8; 16],
    pub transport: StreamTransport,
    pub flow: Option<String>,
}

/// ECH is asked for in some form.
pub open spec fn ech_wanted(t: TlsConfig) -> bool {
    t.ech_config is Some || t.ech_auto || t.ech_grease
}

/// `r` is the TLS settings VLESS uses, made from the settings in force `base`: TLS is
/// on when configured, or when `security` is set, or when ECH is asked for; the SNI
/// defaults to the address, and is the ECH outer SNI when ECH is asked for and one
/// is given; the Vision flow without ALPN gets "h2" and "http/1.1".
pub open spec fn vless_tls(s: OutboundSettings, base: TlsConfig, address: Seq<char>, r: TlsConfig) -> bool {
    let ech = ech_wanted(base);
    &&& r.enabled == (base.enabled || s.security is Some || ech)
    &&& opt_view(r.sni) == (if ech && base.ech_outer_sni is Some {
        opt_view(base.ech_outer_sni)
    } else if base.sni is Some {
        opt_view(base.sni)
    } else {
        Some(address)
    })
    &&& opt_strings_view(r.alpn) == (if opt_view(s.flow) == Some(XRV@) && base.alpn is None {
        Some(seq!["h2"@, "http/1.1"@])
    } else {
        opt_strings_view(base.alpn)
    })
    &&& r.security@ == base.security@
    &&& r.allow_insecure == base.allow_insecure
    &&& opt_view(r.fingerprint) == opt_view(base.fingerprint)
    &&& opt_view(r.public_key) == opt_view(base.public_key)
    &&& opt_view(r.short_id) == opt_view(base.short_id)
    &&& opt_view(r.server_name) == opt_view(base.server_name)
    &&& opt_view(r.ech_config) == opt_view(base.ech_config)
    &&& r.ech_grease == base.ech_grease
    &&& opt_view(r.ech_outer_sni) == opt_view(base.ech_outer_sni)
    &&& r.ech_auto == base.ech_auto
    &&& r.enable_early_data == base.enable_early_data
}

/// `r` is what building the transport with VLESS's TLS settings gives.
pub open spec fn vless_transport_from(s: OutboundSettings, address: Seq<char>, port: u16, r: Result<StreamTransport, &'static str>) -> bool {
    exists|tc: TransportConfig, base: TlsConfig, tls: TlsConfig|
        s.is_effective_transport(tc) && #[trigger] s.is_effective_tls(base) && vless_tls(s, base, address, tls)
            && #[trigger] built_transport(address, port, tc, tls, s.dialer, r)
}

/// Address, port, a user id that parses, and no flow but Vision.
pub open spec fn vless_fields_ok(s: OutboundSettings) -> bool {
    &&& s.address is Some
    &&& s.port is Some
    &&& match s.uuid {
        Some(u) => uuid_bytes_of(u@) is Some,
        None => false,
    }
    &&& match s.flow {
        Some(f) => f@ == XRV@,
        None => true,
    }
}

fn vision_alpn() -> (r: Option<Vec<String>>)
    ensures
        opt_strings_view(r) == Some(seq!["h2"@, "http/1.1"@]),
{
    let mut v: Vec<String> = Vec::new();
    v.push("h2".to_string());
    v.push("http/1.1".to_string());
    proof {
        assert(crate::config::strings_view(v@) =~= seq!["h2"@, "http/1.1"@]);
    }
    Some(v)
}

pub proof fn lemma_same_short_id(a: TlsConfig, b: TlsConfig)
    requires
        opt_view(a.short_id) == opt_view(b.short_id),
        short_id_readable(b),
    ensures
        short_id_readable(a),
{
    match (a.short_id, b.short_id) {
        (Some(x), Some(y)) => {
            assert(x@ == y@);
        },
        _ => {},
    }
}

impl VlessOutbound {
    pub fn new(config: &OutboundConfig) -> (r: Result<Self, &'static str>)
        requires
            settings_readable(config.settings),
        ensures
            ({
                let s = config.settings;
                &&& !vless_fields_ok(s) ==> r is Err
                &&& r matches Ok(o) ==> {
                    &&& o.tag@ == config.tag@
                    &&& o.server_addr matches Address::Domain(a, p) && a@ == s.address->Some_0@ && p == s.port->Some_0
                    &&& uuid_bytes_of(s.uuid->Some_0@) == Some(o.uuid@)
                    &&& opt_view(o.flow) == opt_view(s.flow)
                    &&& vless_transport_from(s, s.address->Some_0@, s.port->Some_0, Ok(o.transport))
                }
                &&& vless_fields_ok(s) ==> (r matches Err(e) ==> vless_transport_from(s, s.address->Some_0@, s.port->Some_0, Err(e)))
            }),
    {
        let settings = &config.settings;
        let address = match &settings.address {
            Some(a) => a,
            None => return Err("vless: address is required"),
        };
        let port = match settings.port {
            Some(p) => p,
            None => return Err("vless: port is required"),
        };
        let uuid_str = match &settings.uuid {
            Some(u) => u,
            None => return Err("vless: uuid is required"),
        };
        let uuid = match parse_uuid(uuid_str.as_str()) {
            Some(u) => u,
            None => return Err("vless: invalid uuid"),
        };
        let is_vision = match &settings.flow {
            Some(f) => {
                if !str_eq(f.as_str(), XRV) {
                    return Err("vless: unsupported flow");
                }
                true
            },
            None => false,
        };
        let base = settings.effective_tls();
        let mut tls_config = base.copy();
        if !tls_config.enabled && settings.security.is_some() {
            tls_config.enabled = true;
        }
        let ech_enabled = tls_config.ech_config.is_some() || tls_config.ech_auto || tls_config.ech_grease;
        if ech_enabled && !tls_config.enabled {
            tls_config.enabled = true;
        }
        if tls_config.sni.is_none() {
            tls_config.sni = Some(address.clone());
        }
        if ech_enabled && tls_config.ech_outer_sni.is_some() {
            tls_config.sni = crate::config::clone_opt(&tls_config.ech_outer_sni);
        }
        if is_vision && tls_config.alpn.is_none() {
            tls_config.alpn = vision_alpn();
        }
        proof {
            assert(vless_tls(*settings, base, address@, tls_config));
        }
        let transport_config = settings.effective_transport();
        proof {
            crate::outbound::vmess::lemma_readable(*settings, transport_config, base);
            if uses_reality(transport_config, tls_config) {
                assert(uses_reality(transport_config, base));
                assert(short_id_readable(tls_config)) by {
                    lemma_same_short_id(tls_config, base);
                }
            }
        }
        let dialer = copy_dialer(&settings.dialer);
        let built = build_transport_with_dialer(address.as_str(), port, &transport_config, &tls_config, dialer);
        proof {
            assert(built_transport(address@, port, transport_config, tls_config, settings.dialer, built));
            assert(settings.is_effective_tls(base));
        }
        let transport = match built {
            Ok(t) => t,
            Err(e) => return Err(e),
        };
        Ok(VlessOutbound {
            tag: config.tag.clone(),
            server_addr: Address::Domain(address.clone(), port),
            uuid,
            transport,
            flow: crate::config::clone_opt(&settings.flow),
        })
    }

    pub fn tag(&self) -> (r: &str)
        ensures
            r@ == self.tag@,
    {
        self.tag.as_str()
    }
}

} // verus!
