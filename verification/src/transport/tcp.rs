use vstd::prelude::*;

use crate::config::DialerConfig;

verus! {

/// Plain TCP to the server.
pub struct TcpTransport {
    pub server_addr: String,
    pub server_port: u16,
    pub dialer_config: Option<DialerConfig>,
}

impl TcpTransport {
    pub fn new(server_addr: String, server_port: u16, dialer_config: Option<DialerConfig>) -> (r: Self)
        ensures
            r.server_addr@ == server_addr@,
            r.server_port == server_port,
            r.dialer_config == dialer_config,
    {
        TcpTransport { server_addr, server_port, dialer_config }
    }
}

} // verus!
