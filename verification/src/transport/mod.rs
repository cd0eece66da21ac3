//! The transports that carry a proxy protocol to its server, and the choice among
//! them that the configuration makes.

pub mod anytls;
pub mod brutal;
pub mod ech;
pub mod fingerprint;
pub mod fragment;
pub mod grpc;
pub mod h2;
pub mod httpupgrade;
pub mod reality;
pub mod shadowtls;
pub mod sudoku;
pub mod tcp;
pub mod tls;
pub mod ws;

use vstd::prelude::*;

use crate::config::{dialer_view, opt_pairs_view, opt_view, DialerConfig, TlsConfig, TransportConfig};
use crate::transport::anytls::AnyTlsTransport;
use crate::transport::grpc::{GrpcTransport, DEFAULT_SERVICE_NAME};
use crate::transport::h2::H2Transport;
use crate::transport::httpupgrade::HttpUpgradeTransport;
use crate::transport::reality::{reality_config_ok, reality_transport_from, short_id_readable, RealityTransport};
use crate::transport::shadowtls::ShadowTlsTransport;
use crate::transport::tcp::TcpTransport;
use crate::transport::tls::{ech_config_bad, tls_transport_from, TlsTransport};
use crate::transport::ws::{path_or_root, WsTransport};
use crate::text::str_eq;

verus! {

/// A transport to the server, one of the kinds the library knows; connecting is the
/// caller's part.
pub enum StreamTransport {
    Tcp(TcpTransport),
    Tls(TlsTransport),
    Reality(RealityTransport),
    Ws(WsTransport),
    H2(H2Transport),
    Grpc(GrpcTransport),
    HttpUpgrade(HttpUpgradeTransport),
    ShadowTls(ShadowTlsTransport),
    AnyTls(AnyTlsTransport),
}

/// The TLS settings when TLS is enabled (or, where Reality counts, Reality is on).
pub open spec fn tls_if(tls: TlsConfig, cond: bool, r: Option<TlsConfig>) -> bool {
    if cond {
        r matches Some(t) && t.same_as(tls)
    } else {
        r is None
    }
}

/// The settings choose the Reality transport.
pub open spec fn uses_reality(tc: TransportConfig, tls: TlsConfig) -> bool {
    (tc.transport_type@ == "tcp"@ || tc.transport_type@ == ""@) && tls.security@ == "reality"@
}

/// The configured value, or `fallback` when none is configured.
pub open spec fn or_default(v: Option<Seq<char>>, fallback: Seq<char>) -> Seq<char> {
    match v {
        Some(x) => x,
        None => fallback,
    }
}

/// What `build_transport_with_dialer` makes of the settings.
pub open spec fn built_transport(
    server_addr: Seq<char>,
    server_port: u16,
    tc: TransportConfig,
    tls: TlsConfig,
    dialer: Option<DialerConfig>,
    r: Result<StreamTransport, &'static str>,
) -> bool {
    let t = tc.transport_type@;
    let reality = tls.security@ == "reality"@;
    if t == "tcp"@ || t == ""@ {
        if reality {
            &&& (r is Ok <==> reality_config_ok(tls))
            &&& (r matches Ok(x) ==> x matches StreamTransport::Reality(y) && reality_transport_from(server_addr, server_port, tls, dialer, y))
        } else if tls.enabled {
            &&& (r is Err <==> ech_config_bad(tls))
            &&& (r matches Ok(x) ==> x matches StreamTransport::Tls(y) && tls_transport_from(server_addr, server_port, tls, dialer, y))
        } else {
            r matches Ok(StreamTransport::Tcp(y)) && y.server_addr@ == server_addr && y.server_port == server_port && dialer_view(y.dialer_config) == dialer_view(dialer)
        }
    } else if t == "ws"@ {
        r matches Ok(StreamTransport::Ws(y)) && y.server_addr@ == server_addr && y.server_port == server_port
            && y.path@ == path_or_root(opt_view(tc.path)) && opt_view(y.host) == opt_view(tc.host)
            && opt_pairs_view(y.headers) == opt_pairs_view(tc.headers)
            && tls_if(tls, tls.enabled, y.tls_config)
    } else if t == "h2"@ {
        r matches Ok(StreamTransport::H2(y)) && y.server_addr@ == server_addr && y.server_port == server_port
            && y.path@ == path_or_root(opt_view(tc.path)) && y.host@ == or_default(opt_view(tc.host), server_addr)
            && tls_if(tls, tls.enabled, y.tls_config) && dialer_view(y.dialer_config) == dialer_view(dialer)
    } else if t == "grpc"@ {
        r matches Ok(StreamTransport::Grpc(y)) && y.server_addr@ == server_addr && y.server_port == server_port
            && y.service_name@ == or_default(opt_view(tc.service_name), DEFAULT_SERVICE_NAME@)
            && y.host@ == or_default(opt_view(tc.host), server_addr)
            && tls_if(tls, tls.enabled, y.tls_config)
    } else if t == "httpupgrade"@ || t == "xhttp"@ {
        r matches Ok(StreamTransport::HttpUpgrade(y)) && y.server_addr@ == server_addr && y.server_port == server_port
            && y.path@ == path_or_root(opt_view(tc.path)) && opt_view(y.host) == opt_view(tc.host)
            && opt_pairs_view(y.headers) == opt_pairs_view(tc.headers)
            && tls_if(tls, tls.enabled || reality, y.tls_config) && dialer_view(y.dialer_config) == dialer_view(dialer)
    } else if t == "shadow-tls"@ {
        r matches Ok(StreamTransport::ShadowTls(y)) && y.server_addr@ == server_addr && y.server_port == server_port
            && y.password@ == (match tc.shadow_tls_password {
                Some(p) => p@,
                None => Seq::empty(),
            })
            && y.sni@ == (match tc.shadow_tls_sni {
                Some(s) => s@,
                None => server_addr,
            })
            && dialer_view(y.dialer_config) == dialer_view(dialer)
    } else if t == "anytls"@ || t == "any-tls"@ {
        r matches Ok(StreamTransport::AnyTls(y)) && y.server_addr@ == server_addr && y.server_port == server_port
            && y.password@ == (match tc.shadow_tls_password {
                Some(p) => p@,
                None => Seq::empty(),
            })
            && y.padding
            && tls_if(tls, tls.enabled || reality, y.tls_config) && dialer_view(y.dialer_config) == dialer_view(dialer)
    } else {
        r is Err
    }
}

fn tls_copy_if(tls: &TlsConfig, cond: bool) -> (r: Option<TlsConfig>)
    ensures
        tls_if(*tls, cond, r),
{
    if cond {
        Some(tls.copy())
    } else {
        None
    }
}

/// Builds the transport that the settings name, dialing with `dialer_config`.
pub fn build_transport_with_dialer(
    server_addr: &str,
    server_port: u16,
    transport_config: &TransportConfig,
    tls_config: &TlsConfig,
    dialer_config: Option<DialerConfig>,
) -> (r: Result<StreamTransport, &'static str>)
    requires
        uses_reality(*transport_config, *tls_config) ==> short_id_readable(*tls_config),
    ensures
        built_transport(server_addr@, server_port, *transport_config, *tls_config, dialer_config, r),
{
    let t = transport_config.transport_type.as_str();
    let reality = str_eq(tls_config.security.as_str(), "reality");
    let addr = server_addr.to_string();
    if str_eq(t, "tcp") || str_eq(t, "") {
        if reality {
            match RealityTransport::new(addr, server_port, tls_config, dialer_config) {
                Ok(x) => Ok(StreamTransport::Reality(x)),
                Err(e) => Err(e),
            }
        } else if tls_config.enabled {
            match TlsTransport::new(addr, server_port, tls_config, dialer_config) {
                Ok(x) => Ok(StreamTransport::Tls(x)),
                Err(e) => Err(e),
            }
        } else {
            Ok(StreamTransport::Tcp(TcpTransport::new(addr, server_port, dialer_config)))
        }
    } else if str_eq(t, "ws") {
        let tls = tls_copy_if(tls_config, tls_config.enabled);
        Ok(StreamTransport::Ws(WsTransport::new(addr, server_port, transport_config, tls)))
    } else if str_eq(t, "h2") {
        let tls = tls_copy_if(tls_config, tls_config.enabled);
        Ok(StreamTransport::H2(H2Transport::new(
            addr,
            server_port,
            crate::config::clone_opt(&transport_config.path),
            crate::config::clone_opt(&transport_config.host),
            tls,
            dialer_config,
        )))
    } else if str_eq(t, "grpc") {
        let tls = tls_copy_if(tls_config, tls_config.enabled);
        Ok(StreamTransport::Grpc(GrpcTransport::new(
            addr,
            server_port,
            crate::config::clone_opt(&transport_config.service_name),
            crate::config::clone_opt(&transport_config.host),
            tls,
        )))
    } else if str_eq(t, "httpupgrade") || str_eq(t, "xhttp") {
        let tls = tls_copy_if(tls_config, tls_config.enabled || reality);
        Ok(StreamTransport::HttpUpgrade(HttpUpgradeTransport::new(addr, server_port, transport_config, tls, dialer_config)))
    } else if str_eq(t, "shadow-tls") {
        let password = match &transport_config.shadow_tls_password {
            Some(p) => p.clone(),
            None => String::new(),
        };
        let sni = match &transport_config.shadow_tls_sni {
            Some(s) => s.clone(),
            None => server_addr.to_string(),
        };
        Ok(StreamTransport::ShadowTls(ShadowTlsTransport::new(addr, server_port, password, sni, dialer_config)))
    } else if str_eq(t, "anytls") || str_eq(t, "any-tls") {
        let password = match &transport_config.shadow_tls_password {
            Some(p) => p.clone(),
            None => String::new(),
        };
        let tls = tls_copy_if(tls_config, tls_config.enabled || reality);
        Ok(StreamTransport::AnyTls(AnyTlsTransport::new(addr, server_port, password, true, tls, dialer_config)))
    } else {
        Err("unsupported transport type")
    }
}

/// Builds the transport that the settings name, dialing with the default options.
pub fn build_transport(
    server_addr: &str,
    server_port: u16,
    transport_config: &TransportConfig,
    tls_config: &TlsConfig,
) -> (r: Result<StreamTransport, &'static str>)
    requires
        uses_reality(*transport_config, *tls_config) ==> short_id_readable(*tls_config),
    ensures
        built_transport(server_addr@, server_port, *transport_config, *tls_config, None, r),
{
    build_transport_with_dialer(server_addr, server_port, transport_config, tls_config, None)
}

} // verus!
