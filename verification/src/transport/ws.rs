use vstd::prelude::*;

use crate::config::{clone_opt, clone_opt_pairs, opt_pairs_view, opt_view, TlsConfig, TransportConfig};

verus! {

/// WebSocket over TCP or TLS.
pub struct WsTransport {
    pub server_addr: String,
    pub server_port: u16,
    pub path: String,
    pub host: Option<String>,
    pub headers: Option<Vec<(String, String)>>,
    pub tls_config: Option<TlsConfig>,
}

/// The configured path, or "/".
pub open spec fn path_or_root(p: Option<Seq<char>>) -> Seq<char> {
    match p {
        Some(x) => x,
        None => "/"@,
    }
}

/// The configured path, or "/".
pub fn path_or_root_exec(p: &Option<String>) -> (r: String)
    ensures
        r@ == path_or_root(opt_view(*p)),
{
    match p {
        Some(x) => x.clone(),
        None => "/".to_string(),
    }
}

impl WsTransport {
    pub fn new(server_addr: String, server_port: u16, transport_config: &TransportConfig, tls_config: Option<TlsConfig>) -> (r: Self)
        ensures
            r.server_addr@ == server_addr@,
            r.server_port == server_port,
            r.path@ == path_or_root(opt_view(transport_config.path)),
            opt_view(r.host) == opt_view(transport_config.host),
            opt_pairs_view(r.headers) == opt_pairs_view(transport_config.headers),
            r.tls_config == tls_config,
    {
        WsTransport {
            server_addr,
            server_port,
            path: path_or_root_exec(&transport_config.path),
            host: clone_opt(&transport_config.host),
            headers: clone_opt_pairs(&transport_config.headers),
            tls_config,
        }
    }
}

} // verus!
