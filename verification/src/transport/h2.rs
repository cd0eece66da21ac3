use vstd::prelude::*;

use crate::config::{opt_view, DialerConfig, TlsConfig};
use crate::transport::ws::path_or_root;

verus! {

/// HTTP/2 streams to the server.
pub struct H2Transport {
    pub server_addr: String,
    pub server_port: u16,
    pub path: String,
    pub host: String,
    pub tls_config: Option<TlsConfig>,
    pub dialer_config: Option<DialerConfig>,
}

impl H2Transport {
    /// The host defaults to the server address and the path to "/".
    pub fn new(
        server_addr: String,
        server_port: u16,
        path: Option<String>,
        host: Option<String>,
        tls_config: Option<TlsConfig>,
        dialer_config: Option<DialerConfig>,
    ) -> (r: Self)
        ensures
            r.server_addr@ == server_addr@,
            r.server_port == server_port,
            r.path@ == path_or_root(opt_view(path)),
            r.host@ == (match host {
                Some(h) => h@,
                None => server_addr@,
            }),
            r.tls_config == tls_config,
            r.dialer_config == dialer_config,
    {
        let host = match host {
            Some(h) => h,
            None => server_addr.clone(),
        };
        let path = match path {
            Some(p) => p,
            None => "/".to_string(),
        };
        H2Transport { server_addr, server_port, path, host, tls_config, dialer_config }
    }
}

} // verus!
