//! The configuration that outbounds and transports are built from.

use vstd::prelude::*;

verus! {

/// Socket options of outgoing connections: an interface or local address to bind to
/// and a routing mark. The library carries them, unchanged, to the transport that dials.
#[derive(Debug, Clone)]
pub struct DialerConfig {
    pub interface_name: Option<String>,
    pub bind_addr: Option<crate::address::IpAddr>,
    pub routing_mark: Option<u32>,
}

/// What a dialer configuration holds, for comparing copies.
pub open spec fn dialer_view(d: Option<DialerConfig>) -> Option<(Option<Seq<char>>, Option<crate::address::IpAddr>, Option<u32>)> {
    match d {
        Some(c) => Some((opt_view(c.interface_name), c.bind_addr, c.routing_mark)),
        None => None,
    }
}

/// A copy of a dialer configuration.
pub fn copy_dialer(d: &Option<DialerConfig>) -> (r: Option<DialerConfig>)
    ensures
        dialer_view(r) == dialer_view(*d),
{
    match d {
        Some(c) => Some(DialerConfig {
            interface_name: clone_opt(&c.interface_name),
            bind_addr: match &c.bind_addr {
                Some(a) => Some(*a),
                None => None,
            },
            routing_mark: c.routing_mark,
        }),
        None => None,
    }
}

/// One WireGuard peer as configured.
#[derive(Debug, Clone)]
pub struct WireGuardPeerConfig {
    /// The peer's public key, base64.
    pub public_key: String,
    /// A preshared key, base64.
    pub preshared_key: Option<String>,
    /// "host:port".
    pub endpoint: Option<String>,
    /// Networks in CIDR notation.
    pub allowed_ips: Vec<String>,
    pub keepalive: Option<u16>,
}

/// TLS settings of an outbound.
#[derive(Debug, Clone)]
pub struct TlsConfig {
    pub enabled: bool,
    /// "tls", "reality" or empty.
    pub security: String,
    pub sni: Option<String>,
    pub allow_insecure: bool,
    pub alpn: Option<Vec<String>>,
    pub fingerprint: Option<String>,
    /// Reality: the server's public key, base64.
    pub public_key: Option<String>,
    /// Reality: the short id, hex.
    pub short_id: Option<String>,
    /// Reality: the server name to present.
    pub server_name: Option<String>,
    /// ECH config list, base64.
    pub ech_config: Option<String>,
    pub ech_grease: bool,
    pub ech_outer_sni: Option<String>,
    pub ech_auto: bool,
    pub enable_early_data: bool,
}

impl Default for TlsConfig {
    fn default() -> (r: Self)
        ensures
            !r.enabled,
            r.security@.len() == 0,
            r.sni is None,
            !r.allow_insecure,
            r.alpn is None,
            r.fingerprint is None,
            r.public_key is None,
            r.short_id is None,
            r.server_name is None,
            r.ech_config is None,
            !r.ech_grease,
            r.ech_outer_sni is None,
            !r.ech_auto,
            !r.enable_early_data,
    {
        TlsConfig {
            enabled: false,
            security: String::new(),
            sni: None,
            allow_insecure: false,
            alpn: None,
            fingerprint: None,
            public_key: None,
            short_id: None,
            server_name: None,
            ech_config: None,
            ech_grease: false,
            ech_outer_sni: None,
            ech_auto: false,
            enable_early_data: false,
        }
    }
}

/// Transport settings of an outbound.
#[derive(Debug, Clone)]
pub struct TransportConfig {
    /// "tcp" (or empty), "ws", "h2", "grpc", "httpupgrade", "xhttp", "shadow-tls",
    /// "anytls" or "any-tls".
    pub transport_type: String,
    pub path: Option<String>,
    pub host: Option<String>,
    pub headers: Option<Vec<(String, String)>>,
    pub service_name: Option<String>,
    pub shadow_tls_password: Option<String>,
    pub shadow_tls_sni: Option<String>,
}

impl Default for TransportConfig {
    fn default() -> (r: Self)
        ensures
            r.transport_type@.len() == 0,
            r.path is None,
            r.host is None,
            r.headers is None,
            r.service_name is None,
            r.shadow_tls_password is None,
            r.shadow_tls_sni is None,
    {
        TransportConfig {
            transport_type: String::new(),
            path: None,
            host: None,
            headers: None,
            service_name: None,
            shadow_tls_password: None,
            shadow_tls_sni: None,
        }
    }
}

/// One configured outbound: its tag, its protocol name and its settings.
#[derive(Debug, Clone)]
pub struct OutboundConfig {
    pub tag: String,
    pub protocol: String,
    pub settings: OutboundSettings,
}

/// The settings of one outbound.
#[derive(Debug, Clone)]
pub struct OutboundSettings {
    pub address: Option<String>,
    pub port: Option<u16>,
    pub uuid: Option<String>,
    pub password: Option<String>,
    pub username: Option<String>,
    pub method: Option<String>,
    pub security: Option<String>,
    pub sni: Option<String>,
    pub allow_insecure: bool,
    pub socks_port: Option<u16>,
    pub private_key: Option<String>,
    pub private_key_passphrase: Option<String>,
    pub obfs: Option<String>,
    pub obfs_password: Option<String>,
    pub up_mbps: Option<u64>,
    pub down_mbps: Option<u64>,
    pub flow: Option<String>,
    pub plugin: Option<String>,
    pub plugin_opts: Option<String>,
    pub congestion_control: Option<String>,
    pub identity_key: Option<String>,
    pub peers: Option<Vec<WireGuardPeerConfig>>,
    pub peer_public_key: Option<String>,
    pub public_key: Option<String>,
    pub preshared_key: Option<String>,
    pub keepalive: Option<u16>,
    pub local_address: Option<String>,
    pub mtu: Option<u16>,
    pub tls: Option<TlsConfig>,
    pub transport: Option<TransportConfig>,
    pub dialer: Option<DialerConfig>,
}

impl Default for OutboundSettings {
    fn default() -> (r: Self)
        ensures
            r.address is None,
            r.port is None,
            r.uuid is None,
            r.password is None,
            r.username is None,
            r.method is None,
            r.security is None,
            r.sni is None,
            !r.allow_insecure,
            r.socks_port is None,
            r.private_key is None,
            r.private_key_passphrase is None,
            r.obfs is None,
            r.obfs_password is None,
            r.up_mbps is None,
            r.down_mbps is None,
            r.flow is None,
            r.plugin is None,
            r.plugin_opts is None,
            r.congestion_control is None,
            r.identity_key is None,
            r.peers is None,
            r.peer_public_key is None,
            r.public_key is None,
            r.preshared_key is None,
            r.keepalive is None,
            r.local_address is None,
            r.mtu is None,
            r.tls is None,
            r.transport is None,
            r.dialer is None,
    {
        OutboundSettings {
            address: None,
            port: None,
            uuid: None,
            password: None,
            username: None,
            method: None,
            security: None,
            sni: None,
            allow_insecure: false,
            socks_port: None,
            private_key: None,
            private_key_passphrase: None,
            obfs: None,
            obfs_password: None,
            up_mbps: None,
            down_mbps: None,
            flow: None,
            plugin: None,
            plugin_opts: None,
            congestion_control: None,
            identity_key: None,
            peers: None,
            peer_public_key: None,
            public_key: None,
            preshared_key: None,
            keepalive: None,
            local_address: None,
            mtu: None,
            tls: None,
            transport: None,
            dialer: None,
        }
    }
}

pub open spec fn opt_view(o: Option<String>) -> Option<Seq<char>> {
    match o {
        Some(s) => Some(s@),
        None => None,
    }
}

/// A copy of an optional string.
pub fn clone_opt(o: &Option<String>) -> (r: Option<String>)
    ensures
        opt_view(r) == opt_view(*o),
{
    match o {
        Some(s) => Some(s.clone()),
        None => None,
    }
}

pub open spec fn strings_view(v: Seq<String>) -> Seq<Seq<char>> {
    v.map_values(|s: String| s@)
}

/// A copy of a list of strings.
pub fn clone_strings(v: &Vec<String>) -> (r: Vec<String>)
    ensures
        strings_view(r@) == strings_view(v@),
{
    let mut r: Vec<String> = Vec::new();
    let mut i: usize = 0;
    while i < v.len()
        invariant
            i <= v@.len(),
            r@.len() == i,
            forall|k: int| 0 <= k < i ==> #[trigger] r@[k]@ == v@[k]@,
        decreases v@.len() - i,
    {
        r.push(v[i].clone());
        i = i + 1;
    }
    proof {
        assert(strings_view(r@) =~= strings_view(v@));
    }
    r
}

pub open spec fn opt_strings_view(o: Option<Vec<String>>) -> Option<Seq<Seq<char>>> {
    match o {
        Some(v) => Some(strings_view(v@)),
        None => None,
    }
}

pub fn clone_opt_strings(o: &Option<Vec<String>>) -> (r: Option<Vec<String>>)
    ensures
        opt_strings_view(r) == opt_strings_view(*o),
{
    match o {
        Some(v) => Some(clone_strings(v)),
        None => None,
    }
}

impl TlsConfig {
    /// Two TLS settings say the same.
    pub open spec fn same_as(self, o: TlsConfig) -> bool {
        &&& self.enabled == o.enabled
        &&& self.security@ == o.security@
        &&& opt_view(self.sni) == opt_view(o.sni)
        &&& self.allow_insecure == o.allow_insecure
        &&& opt_strings_view(self.alpn) == opt_strings_view(o.alpn)
        &&& opt_view(self.fingerprint) == opt_view(o.fingerprint)
        &&& opt_view(self.public_key) == opt_view(o.public_key)
        &&& opt_view(self.short_id) == opt_view(o.short_id)
        &&& opt_view(self.server_name) == opt_view(o.server_name)
        &&& opt_view(self.ech_config) == opt_view(o.ech_config)
        &&& self.ech_grease == o.ech_grease
        &&& opt_view(self.ech_outer_sni) == opt_view(o.ech_outer_sni)
        &&& self.ech_auto == o.ech_auto
        &&& self.enable_early_data == o.enable_early_data
    }

    /// A copy.
    pub fn copy(&self) -> (r: TlsConfig)
        ensures
            r.same_as(*self),
    {
        TlsConfig {
            enabled: self.enabled,
            security: self.security.clone(),
            sni: clone_opt(&self.sni),
            allow_insecure: self.allow_insecure,
            alpn: clone_opt_strings(&self.alpn),
            fingerprint: clone_opt(&self.fingerprint),
            public_key: clone_opt(&self.public_key),
            short_id: clone_opt(&self.short_id),
            server_name: clone_opt(&self.server_name),
            ech_config: clone_opt(&self.ech_config),
            ech_grease: self.ech_grease,
            ech_outer_sni: clone_opt(&self.ech_outer_sni),
            ech_auto: self.ech_auto,
            enable_early_data: self.enable_early_data,
        }
    }
}

pub open spec fn pairs_view(v: Seq<(String, String)>) -> Seq<(Seq<char>, Seq<char>)> {
    v.map_values(|p: (String, String)| (p.0@, p.1@))
}

pub open spec fn opt_pairs_view(o: Option<Vec<(String, String)>>) -> Option<
    Seq<(Seq<char>, Seq<char>)>,
> {
    match o {
        Some(v) => Some(pairs_view(v@)),
        None => None,
    }
}

/// A copy of optional header pairs.
pub fn clone_opt_pairs(o: &Option<Vec<(String, String)>>) -> (r: Option<Vec<(String, String)>>)
    ensures
        opt_pairs_view(r) == opt_pairs_view(*o),
{
    match o {
        Some(v) => {
            let mut r: Vec<(String, String)> = Vec::new();
            let mut i: usize = 0;
            while i < v.len()
                invariant
                    i <= v@.len(),
                    r@.len() == i,
                    forall|k: int|
                        0 <= k < i ==> (#[trigger] r@[k]).0@ == v@[k].0@ && r@[k].1@ == v@[k].1@,
                decreases v@.len() - i,
            {
                let (a, b) = (v[i].0.clone(), v[i].1.clone());
                r.push((a, b));
                i = i + 1;
            }
            proof {
                assert(pairs_view(r@) =~= pairs_view(v@));
            }
            Some(r)
        },
        None => None,
    }
}

impl TransportConfig {
    pub open spec fn same_as(self, o: TransportConfig) -> bool {
        &&& self.transport_type@ == o.transport_type@
        &&& opt_view(self.path) == opt_view(o.path)
        &&& opt_view(self.host) == opt_view(o.host)
        &&& opt_pairs_view(self.headers) == opt_pairs_view(o.headers)
        &&& opt_view(self.service_name) == opt_view(o.service_name)
        &&& opt_view(self.shadow_tls_password) == opt_view(o.shadow_tls_password)
        &&& opt_view(self.shadow_tls_sni) == opt_view(o.shadow_tls_sni)
    }

    /// A copy.
    pub fn copy(&self) -> (r: TransportConfig)
        ensures
            r.same_as(*self),
    {
        TransportConfig {
            transport_type: self.transport_type.clone(),
            path: clone_opt(&self.path),
            host: clone_opt(&self.host),
            headers: clone_opt_pairs(&self.headers),
            service_name: clone_opt(&self.service_name),
            shadow_tls_password: clone_opt(&self.shadow_tls_password),
            shadow_tls_sni: clone_opt(&self.shadow_tls_sni),
        }
    }
}

impl OutboundSettings {
    /// `r` is the TLS settings in force: the `tls` block when given, else TLS enabled
    /// exactly when `security` is "tls" or "reality", with the flat `sni` and
    /// `allow_insecure` and nothing else set.
    pub open spec fn is_effective_tls(self, r: TlsConfig) -> bool {
        &&& self.tls is Some ==> r.same_as(self.tls->0)
        &&& self.tls is None ==> {
            &&& r.enabled == (self.security matches Some(s) && (s@ == "tls"@ || s@ == "reality"@))
            &&& r.security@ == (match self.security {
                Some(s) => s@,
                None => Seq::<char>::empty(),
            })
            &&& opt_view(r.sni) == opt_view(self.sni)
            &&& r.allow_insecure == self.allow_insecure
            &&& r.alpn is None && r.fingerprint is None && r.public_key is None && r.short_id is None
            &&& r.server_name is None && r.ech_config is None && !r.ech_grease && r.ech_outer_sni is None
            &&& !r.ech_auto && !r.enable_early_data
        }
    }

    /// `r` is the transport settings in force: the `transport` block when given, else
    /// plain TCP.
    pub open spec fn is_effective_transport(self, r: TransportConfig) -> bool {
        &&& self.transport is Some ==> r.same_as(self.transport->0)
        &&& self.transport is None ==> r.transport_type@.len() == 0 && r.path is None && r.host is None
            && r.headers is None && r.service_name is None && r.shadow_tls_password is None
            && r.shadow_tls_sni is None
    }

    /// The TLS settings in force: the `tls` block when given, else TLS enabled exactly
    /// when `security` is "tls" or "reality", with the flat `sni` and
    /// `allow_insecure`.
    pub fn effective_tls(&self) -> (r: TlsConfig)
        ensures
            self.is_effective_tls(r),
    {
        match &self.tls {
            Some(t) => t.copy(),
            None => {
                let mut c = TlsConfig::default();
                match &self.security {
                    Some(s) => {
                        c.enabled = crate::text::str_eq(s.as_str(), "tls")
                            || crate::text::str_eq(s.as_str(), "reality");
                        c.security = s.clone();
                    },
                    None => {
                        assert(c.security@ =~= Seq::<char>::empty());
                    },
                }
                c.sni = clone_opt(&self.sni);
                c.allow_insecure = self.allow_insecure;
                c
            },
        }
    }
}


impl OutboundSettings {
    /// The transport settings in force: the `transport` block when given, else plain
    /// TCP.
    pub fn effective_transport(&self) -> (r: TransportConfig)
        ensures
            self.is_effective_transport(r),
    {
        match &self.transport {
            Some(t) => t.copy(),
            None => TransportConfig::default(),
        }
    }
}

} // verus!
