//! The WireGuard outbound: its keys, its peers with their allowed networks, and the
//! choice of peer for a destination by the longest matching prefix.

pub mod noise;

use vstd::prelude::*;

use crate::address::IpAddr;
use crate::config::{clone_opt, opt_view, OutboundConfig, OutboundSettings, WireGuardPeerConfig};
use crate::crypto::x25519_public;
use crate::crypto::x25519_public_of;
use crate::text::{decimal, host_port};
use noise::{key_of, parse_base64_key, WireGuardKeys};

verus! {

/// An IP network: an address and the length of the prefix that the network's
/// addresses share with it.
#[derive(Debug, Clone, Copy, PartialEq, Eq)]
pub struct IpNet {
    pub addr: IpAddr,
    pub prefix_len: u8,
}

/// The bytes of an address: 4 for IPv4, 16 for IPv6.
pub open spec fn ip_bytes(a: IpAddr) -> Seq<u8> {
    match a {
        IpAddr::V4(b) => b@,
        IpAddr::V6(b) => b@,
    }
}

/// Whether the first `prefix` bits of `a` and `b` agree.
pub open spec fn prefix_matches(a: Seq<u8>, b: Seq<u8>, prefix: nat) -> bool {
    let full = (prefix / 8) as int;
    let rem = prefix % 8;
    &&& forall|k: int| 0 <= k < full ==> a[k] == b[k]
    &&& rem > 0 ==> (a[full] >> ((8 - rem) as u8)) == (b[full] >> ((8 - rem) as u8))
}

impl IpNet {
    /// The prefix is no longer than the address.
    pub open spec fn wf(self) -> bool {
        match self.addr {
            IpAddr::V4(_) => self.prefix_len <= 32,
            IpAddr::V6(_) => self.prefix_len <= 128,
        }
    }

    /// An address of the same family whose first `prefix_len` bits are the network's.
    pub open spec fn spec_contains(self, ip: IpAddr) -> bool {
        match (self.addr, ip) {
            (IpAddr::V4(a), IpAddr::V4(b)) => prefix_matches(a@, b@, self.prefix_len as nat),
            (IpAddr::V6(a), IpAddr::V6(b)) => prefix_matches(a@, b@, self.prefix_len as nat),
            _ => false,
        }
    }

    /// Whether the network holds `ip`.
    pub fn contains(&self, ip: &IpAddr) -> (r: bool)
        requires
            self.wf(),
        ensures
            r == self.spec_contains(*ip),
    {
        match (&self.addr, ip) {
            (IpAddr::V4(a), IpAddr::V4(b)) => bytes_prefix_match(a.as_slice(), b.as_slice(), self.prefix_len),
            (IpAddr::V6(a), IpAddr::V6(b)) => bytes_prefix_match(a.as_slice(), b.as_slice(), self.prefix_len),
            _ => false,
        }
    }
}

fn bytes_prefix_match(a: &[u8], b: &[u8], prefix: u8) -> (r: bool)
    requires
        a@.len() == b@.len(),
        prefix as int <= 8 * a@.len(),
    ensures
        r == prefix_matches(a@, b@, prefix as nat),
{
    let full = (prefix / 8) as usize;
    let rem = prefix % 8;
    let mut k: usize = 0;
    while k < full
        invariant
            k <= full,
            full == prefix / 8,
            full <= a@.len() == b@.len(),
            forall|j: int| 0 <= j < k ==> a@[j] == b@[j],
        decreases full - k,
    {
        if a[k] != b[k] {
            return false;
        }
        k = k + 1;
    }
    if rem > 0 {
        (a[full] >> (8 - rem)) == (b[full] >> (8 - rem))
    } else {
        true
    }
}

/// The address bytes (4 or 16) and prefix length of a network in CIDR notation, as
/// `ipnet::IpNet` parses it.
pub uninterp spec fn ipnet_of(s: Seq<char>) -> Option<(Seq<u8>, u8)>;

/// `s.parse::<ipnet::IpNet>()`: the network's address and prefix length, which the
/// crate keeps within the address's bits.
#[verifier::external_body]
fn parse_ipnet(s: &str) -> (r: Option<IpNet>)
    ensures
        match r {
            Some(n) => ipnet_of(s@) == Some((ip_bytes(n.addr), n.prefix_len)) && n.wf(),
            None => ipnet_of(s@) is None,
        },
{
    match s.parse::<ipnet::IpNet>() {
        Ok(ipnet::IpNet::V4(n)) => Some(IpNet { addr: IpAddr::V4(n.addr().octets()), prefix_len: n.prefix_len() }),
        Ok(ipnet::IpNet::V6(n)) => Some(IpNet { addr: IpAddr::V6(n.addr().octets()), prefix_len: n.prefix_len() }),
        Err(_) => None,
    }
}

/// What a list of networks holds, network by network.
pub open spec fn nets_view(nets: Seq<IpNet>) -> Seq<(Seq<u8>, u8)> {
    nets.map_values(|n: IpNet| (ip_bytes(n.addr), n.prefix_len))
}

/// The networks of the strings that parse, in order; the others are skipped.
pub open spec fn parsed_nets(strs: Seq<String>) -> Seq<(Seq<u8>, u8)>
    decreases strs.len(),
{
    if strs.len() == 0 {
        Seq::empty()
    } else {
        let rest = parsed_nets(strs.drop_last());
        match ipnet_of(strs.last()@) {
            Some(n) => rest.push(n),
            None => rest,
        }
    }
}

/// Every network of the list is well formed.
pub open spec fn nets_wf(nets: Seq<IpNet>) -> bool {
    forall|j: int| 0 <= j < nets.len() ==> (#[trigger] nets[j]).wf()
}

/// The networks that the strings spell, the others skipped.
fn parse_nets(strs: &Vec<String>) -> (r: Vec<IpNet>)
    ensures
        nets_view(r@) == parsed_nets(strs@),
        nets_wf(r@),
{
    let mut out: Vec<IpNet> = Vec::new();
    let mut i: usize = 0;
    while i < strs.len()
        invariant
            i <= strs@.len(),
            nets_view(out@) == parsed_nets(strs@.subrange(0, i as int)),
            nets_wf(out@),
        decreases strs@.len() - i,
    {
        let ghost prev = out@;
        proof {
            let sub = strs@.subrange(0, i + 1);
            assert(sub.drop_last() =~= strs@.subrange(0, i as int));
            assert(sub.last() == strs@[i as int]);
        }
        match parse_ipnet(strs[i].as_str()) {
            Some(n) => {
                out.push(n);
                proof {
                    assert(nets_view(out@) =~= nets_view(prev).push((ip_bytes(n.addr), n.prefix_len)));
                }
            },
            None => {},
        }
        i = i + 1;
    }
    proof {
        assert(strs@.subrange(0, strs@.len() as int) =~= strs@);
    }
    out
}

/// One peer of the tunnel.
#[derive(Debug, Clone)]
pub struct WireGuardPeer {
    pub public_key: [u8; 32],
    pub preshared_key: [u8; 32],
    /// "host:port".
    pub endpoint: String,
    pub allowed_ips: Vec<IpNet>,
    pub keepalive: Option<u16>,
}

/// The WireGuard outbound.
pub struct WireGuardOutbound {
    pub tag: String,
    pub private_key: [u8; 32],
    pub public_key: [u8; 32],
    pub peers: Vec<WireGuardPeer>,
    pub local_address: Option<String>,
    pub mtu: u16,
}

/// The configured peers, none when the list is absent.
pub open spec fn configured_peers(s: OutboundSettings) -> Seq<WireGuardPeerConfig> {
    match s.peers {
        Some(v) => v@,
        None => Seq::empty(),
    }
}

/// A key that, where present, reads as a 32-byte base64 key.
pub open spec fn opt_key_ok(k: Option<String>) -> bool {
    k matches Some(s) ==> key_of(s@) is Some
}

/// The key of an optional preshared key: all zeros when absent.
pub open spec fn psk_of(k: Option<String>) -> Seq<u8> {
    match k {
        Some(s) => key_of(s@)->Some_0,
        None => Seq::new(32, |i: int| 0u8),
    }
}

/// A peer configuration whose keys read.
pub open spec fn peer_config_ok(pc: WireGuardPeerConfig) -> bool {
    key_of(pc.public_key@) is Some && opt_key_ok(pc.preshared_key)
}

/// The settings from which a WireGuard outbound is built: a private key, every
/// configured peer's keys, and, when no peer is configured, the single peer's key.
pub open spec fn wg_settings_ok(s: OutboundSettings) -> bool {
    &&& s.private_key matches Some(k) && key_of(k@) is Some
    &&& forall|i: int| 0 <= i < configured_peers(s).len() ==> peer_config_ok(#[trigger] configured_peers(s)[i])
    &&& configured_peers(s).len() == 0 ==> (s.peer_public_key matches Some(k) && key_of(k@) is Some && opt_key_ok(s.preshared_key))
}

/// The endpoint of a peer that names none: the outbound's address (127.0.0.1 when
/// absent) and port (51820 when absent).
pub open spec fn default_endpoint(s: OutboundSettings) -> Seq<char> {
    (match s.address {
        Some(a) => a@,
        None => "127.0.0.1"@,
    }) + seq![':'] + decimal(
        (match s.port {
            Some(p) => p,
            None => 51820u16,
        }) as nat,
    )
}

/// A peer built from its configuration.
pub open spec fn peer_from_config(p: WireGuardPeer, pc: WireGuardPeerConfig, s: OutboundSettings) -> bool {
    &&& key_of(pc.public_key@) == Some(p.public_key@)
    &&& p.preshared_key@ == psk_of(pc.preshared_key)
    &&& p.endpoint@ == (match pc.endpoint {
        Some(e) => e@,
        None => default_endpoint(s),
    })
    &&& nets_view(p.allowed_ips@) == parsed_nets(pc.allowed_ips@)
    &&& p.keepalive == pc.keepalive
}

/// The single peer of the older form of the settings: it takes every address.
pub open spec fn peer_from_settings(p: WireGuardPeer, s: OutboundSettings) -> bool {
    &&& s.peer_public_key matches Some(k) && key_of(k@) == Some(p.public_key@)
    &&& p.preshared_key@ == psk_of(s.preshared_key)
    &&& p.endpoint@ == default_endpoint(s)
    &&& nets_view(p.allowed_ips@) == seq![(Seq::new(4, |i: int| 0u8), 0u8), (Seq::new(16, |i: int| 0u8), 0u8)]
    &&& p.keepalive == s.keepalive
}

impl WireGuardOutbound {
    /// Every allowed network of every peer is well formed.
    pub open spec fn wf(&self) -> bool {
        forall|i: int| 0 <= i < self.peers@.len() ==> nets_wf((#[trigger] self.peers@[i]).allowed_ips@)
    }

    /// The peers built from the settings: each configured peer, or, when none is, the
    /// single peer of the older form.
    pub open spec fn peers_from(&self, s: OutboundSettings) -> bool {
        if configured_peers(s).len() > 0 {
            &&& self.peers@.len() == configured_peers(s).len()
            &&& forall|i: int| 0 <= i < self.peers@.len()
                ==> peer_from_config(#[trigger] self.peers@[i], configured_peers(s)[i], s)
        } else {
            &&& self.peers@.len() == 1
            &&& peer_from_settings(self.peers@[0], s)
        }
    }

    /// Builds the outbound: the private key, then each configured peer (its public
    /// key, its preshared key, its endpoint or the default one, and the allowed
    /// networks that parse), or, when no peer is configured, one peer for every
    /// address from the older single-peer settings. The MTU defaults to 1420.
    pub fn new(config: &OutboundConfig) -> (r: Result<Self, &'static str>)
        ensures
            r is Ok <==> wg_settings_ok(config.settings),
            config.settings.private_key is None ==> r == Err::<Self, &'static str>("wireguard outbound missing 'private_key'"),
            (config.settings.private_key matches Some(k) && key_of(k@) is Some)
                && configured_peers(config.settings).len() == 0 && config.settings.peer_public_key is None
                ==> r == Err::<Self, &'static str>("wireguard outbound missing 'peer_public_key'"),
            r matches Ok(o) ==> {
                &&& o.tag@ == config.tag@
                &&& config.settings.private_key matches Some(k) && key_of(k@) == Some(o.private_key@)
                &&& o.public_key@ == x25519_public_of(o.private_key@)
                &&& o.peers_from(config.settings)
                &&& opt_view(o.local_address) == opt_view(config.settings.local_address)
                &&& o.mtu == (match config.settings.mtu {
                    Some(m) => m,
                    None => 1420u16,
                })
                &&& o.wf()
            },
    {
        let settings = &config.settings;
        let private_key_str = match &settings.private_key {
            Some(k) => k,
            None => {
                return Err("wireguard outbound missing 'private_key'");
            },
        };
        let private_key = match parse_base64_key(private_key_str.as_str()) {
            Ok(k) => k,
            Err(e) => {
                return Err(e);
            },
        };
        let public_key = x25519_public(&private_key);

        let default_host = match &settings.address {
            Some(a) => a.as_str(),
            None => "127.0.0.1",
        };
        let default_port = match settings.port {
            Some(p) => p,
            None => 51820,
        };
        let ghost cps = configured_peers(*settings);

        let mut peers: Vec<WireGuardPeer> = Vec::new();
        match &settings.peers {
            Some(peer_configs) => {
                let mut i: usize = 0;
                while i < peer_configs.len()
                    invariant
                        i <= peer_configs@.len(),
                        cps == peer_configs@,
                        *settings == config.settings,
                        cps == configured_peers(config.settings),
                        config.settings.private_key matches Some(k) && key_of(k@) is Some,
                        default_host@ == (match settings.address {
                            Some(a) => a@,
                            None => "127.0.0.1"@,
                        }),
                        default_port == (match settings.port {
                            Some(p) => p,
                            None => 51820u16,
                        }),
                        peers@.len() == i,
                        forall|j: int| 0 <= j < i ==> peer_config_ok(#[trigger] cps[j]),
                        forall|j: int| 0 <= j < i ==> peer_from_config(#[trigger] peers@[j], cps[j], *settings),
                        forall|j: int| 0 <= j < i ==> nets_wf((#[trigger] peers@[j]).allowed_ips@),
                    decreases peer_configs@.len() - i,
                {
                    let pc = &peer_configs[i];
                    let peer_pub = match parse_base64_key(pc.public_key.as_str()) {
                        Ok(k) => k,
                        Err(e) => {
                            proof {
                                assert(!peer_config_ok(cps[i as int]));
                            }
                            return Err(e);
                        },
                    };
                    let preshared_key = match &pc.preshared_key {
                        Some(psk) => match parse_base64_key(psk.as_str()) {
                            Ok(k) => k,
                            Err(e) => {
                                proof {
                                    assert(!peer_config_ok(cps[i as int]));
                                }
                                return Err(e);
                            },
                        },
                        None => {
                            let z = [0u8; 32];
                            proof {
                                assert(z@ =~= Seq::new(32, |k: int| 0u8));
                            }
                            z
                        },
                    };
                    let endpoint = match &pc.endpoint {
                        Some(e) => e.clone(),
                        None => host_port(default_host, default_port),
                    };
                    let allowed_ips = parse_nets(&pc.allowed_ips);
                    let peer = WireGuardPeer {
                        public_key: peer_pub,
                        preshared_key,
                        endpoint,
                        allowed_ips,
                        keepalive: pc.keepalive,
                    };
                    peers.push(peer);
                    proof {
                        assert(peer_from_config(peers@[i as int], cps[i as int], *settings));
                    }
                    i = i + 1;
                }
            },
            None => {},
        }

        if peers.len() == 0 {
            let peer_public_str = match &settings.peer_public_key {
                Some(k) => k,
                None => {
                    return Err("wireguard outbound missing 'peer_public_key'");
                },
            };
            let peer_public_key = match parse_base64_key(peer_public_str.as_str()) {
                Ok(k) => k,
                Err(e) => {
                    return Err(e);
                },
            };
            let preshared_key = match &settings.preshared_key {
                Some(psk) => match parse_base64_key(psk.as_str()) {
                    Ok(k) => k,
                    Err(e) => {
                        return Err(e);
                    },
                },
                None => {
                    let z = [0u8; 32];
                    proof {
                        assert(z@ =~= Seq::new(32, |k: int| 0u8));
                    }
                    z
                },
            };
            let endpoint = host_port(default_host, default_port);
            let mut allowed_ips: Vec<IpNet> = Vec::new();
            allowed_ips.push(IpNet { addr: IpAddr::V4([0u8; 4]), prefix_len: 0 });
            allowed_ips.push(IpNet { addr: IpAddr::V6([0u8; 16]), prefix_len: 0 });
            proof {
                assert(ip_bytes(allowed_ips@[0].addr) =~= Seq::new(4, |i: int| 0u8));
                assert(ip_bytes(allowed_ips@[1].addr) =~= Seq::new(16, |i: int| 0u8));
                assert(nets_view(allowed_ips@) =~= seq![(Seq::new(4, |i: int| 0u8), 0u8), (Seq::new(16, |i: int| 0u8), 0u8)]);
            }
            peers.push(WireGuardPeer {
                public_key: peer_public_key,
                preshared_key,
                endpoint,
                allowed_ips,
                keepalive: settings.keepalive,
            });
        }

        let mtu = match settings.mtu {
            Some(m) => m,
            None => 1420,
        };
        Ok(WireGuardOutbound {
            tag: config.tag.clone(),
            private_key,
            public_key,
            peers,
            local_address: clone_opt(&settings.local_address),
            mtu,
        })
    }

    /// The outbound's tag.
    pub fn tag(&self) -> (r: &str)
        ensures
            r@ == self.tag@,
    {
        self.tag.as_str()
    }

    /// Whether network `j` of peer `i` holds `t`.
    pub open spec fn hit(&self, i: int, j: int, t: IpAddr) -> bool {
        &&& 0 <= i < self.peers@.len()
        &&& 0 <= j < self.peers@[i].allowed_ips@.len()
        &&& self.peers@[i].allowed_ips@[j].spec_contains(t)
    }

    /// The prefix length of network `j` of peer `i`.
    pub open spec fn prefix_of(&self, i: int, j: int) -> u8 {
        self.peers@[i].allowed_ips@[j].prefix_len
    }

    /// The peer for `target`: the one with the longest allowed network that holds it,
    /// the earliest such peer on a tie; with no network holding it, the first peer.
    pub fn select_peer_index(&self, target: &IpAddr) -> (r: Option<usize>)
        requires
            self.wf(),
        ensures
            (forall|i: int, j: int| !self.hit(i, j, *target)) ==> r == (if self.peers@.len() > 0 {
                Some(0usize)
            } else {
                None::<usize>
            }),
            (exists|i: int, j: int| self.hit(i, j, *target)) ==> (r matches Some(b) && {
                &&& exists|j: int| #[trigger] self.hit(b as int, j, *target) && (forall|i2: int, j2: int|
                    #[trigger] self.hit(i2, j2, *target) ==> self.prefix_of(i2, j2) <= self.prefix_of(b as int, j))
                    && (forall|i2: int, j2: int| #[trigger] self.hit(i2, j2, *target) && i2 < b ==> self.prefix_of(i2, j2)
                    < self.prefix_of(b as int, j))
            }),
    {
        let mut best: Option<(usize, u8)> = None;
        let ghost mut best_j: int = 0;
        let mut i: usize = 0;
        while i < self.peers.len()
            invariant
                self.wf(),
                i <= self.peers@.len(),
                best is None ==> forall|i2: int, j2: int| 0 <= i2 < i ==> !#[trigger] self.hit(i2, j2, *target),
                best matches Some((b, p)) ==> {
                    &&& b < i
                    &&& self.hit(b as int, best_j, *target)
                    &&& self.prefix_of(b as int, best_j) == p
                    &&& forall|i2: int, j2: int| 0 <= i2 < i && #[trigger] self.hit(i2, j2, *target) ==> self.prefix_of(i2, j2) <= p
                    &&& forall|i2: int, j2: int| 0 <= i2 < b && #[trigger] self.hit(i2, j2, *target) ==> self.prefix_of(i2, j2) < p
                },
            decreases self.peers@.len() - i,
        {
            let peer = &self.peers[i];
            let mut j: usize = 0;
            while j < peer.allowed_ips.len()
                invariant
                    self.wf(),
                    i < self.peers@.len(),
                    *peer == self.peers@[i as int],
                    j <= peer.allowed_ips@.len(),
                    best is None ==> forall|i2: int, j2: int|
                        (0 <= i2 < i || (i2 == i && 0 <= j2 < j)) ==> !#[trigger] self.hit(i2, j2, *target),
                    best matches Some((b, p)) ==> {
                        &&& b <= i
                        &&& self.hit(b as int, best_j, *target)
                        &&& self.prefix_of(b as int, best_j) == p
                        &&& forall|i2: int, j2: int| (0 <= i2 < i || (i2 == i && 0 <= j2 < j)) && #[trigger] self.hit(i2, j2, *target)
                            ==> self.prefix_of(i2, j2) <= p
                        &&& forall|i2: int, j2: int| 0 <= i2 < b && #[trigger] self.hit(i2, j2, *target) ==> self.prefix_of(i2, j2) < p
                    },
                decreases peer.allowed_ips@.len() - j,
            {
                let net = &peer.allowed_ips[j];
                proof {
                    assert(nets_wf(self.peers@[i as int].allowed_ips@));
                    assert(net.wf());
                }
                if net.contains(target) {
                    let prefix = net.prefix_len;
                    let better = match best {
                        None => true,
                        Some((_, p)) => prefix > p,
                    };
                    if better {
                        best = Some((i, prefix));
                        proof {
                            best_j = j as int;
                        }
                    }
                }
                j = j + 1;
            }
            proof {
                assert forall|i2: int, j2: int| i2 == i && #[trigger] self.hit(i2, j2, *target) implies 0 <= j2 < peer.allowed_ips@.len() by {}
            }
            i = i + 1;
        }
        proof {
            if let Some((b, p)) = best {
                assert(self.hit(b as int, best_j, *target));
                assert(forall|i2: int, j2: int| #[trigger] self.hit(i2, j2, *target) ==> self.prefix_of(i2, j2) <= self.prefix_of(b as int, best_j));
                assert(forall|i2: int, j2: int| #[trigger] self.hit(i2, j2, *target) && i2 < b ==> self.prefix_of(i2, j2) < self.prefix_of(b as int, best_j));
                assert(exists|j: int| #[trigger] self.hit(b as int, j, *target) && (forall|i2: int, j2: int|
                    #[trigger] self.hit(i2, j2, *target) ==> self.prefix_of(i2, j2) <= self.prefix_of(b as int, j))
                    && (forall|i2: int, j2: int| #[trigger] self.hit(i2, j2, *target) && i2 < b ==> self.prefix_of(i2, j2)
                    < self.prefix_of(b as int, j)));
            } else {
                assert(forall|i2: int, j2: int| !#[trigger] self.hit(i2, j2, *target));
            }
        }
        let res = match best {
            Some((b, _)) => Some(b),
            None => {
                if self.peers.len() > 0 {
                    Some(0)
                } else {
                    None
                }
            },
        };
        proof {
            if let Some(b) = res {
                if exists|i: int, j: int| self.hit(i, j, *target) {
                    assert(best is Some);
                    assert(exists|j: int| #[trigger] self.hit(b as int, j, *target) && (forall|i2: int, j2: int|
                        #[trigger] self.hit(i2, j2, *target) ==> self.prefix_of(i2, j2) <= self.prefix_of(b as int, j))
                        && (forall|i2: int, j2: int| #[trigger] self.hit(i2, j2, *target) && i2 < b ==> self.prefix_of(i2, j2)
                        < self.prefix_of(b as int, j)));
                }
            }
        }
        res
    }

    /// The peer for `target`, as `select_peer_index` chooses it.
    pub fn select_peer(&self, target: &IpAddr) -> (r: Option<&WireGuardPeer>)
        requires
            self.wf(),
        ensures
            (forall|i: int, j: int| !self.hit(i, j, *target)) ==> (self.peers@.len() > 0 <==> r is Some),
            r matches Some(p) ==> exists|b: int| 0 <= b < self.peers@.len() && *p == self.peers@[b] && ((exists|i: int, j: int| self.hit(i, j, *target)) ==> {
                &&& exists|j: int| #[trigger] self.hit(b, j, *target) && (forall|i2: int, j2: int|
                    #[trigger] self.hit(i2, j2, *target) ==> self.prefix_of(i2, j2) <= self.prefix_of(b, j))
                    && (forall|i2: int, j2: int| #[trigger] self.hit(i2, j2, *target) && i2 < b ==> self.prefix_of(i2, j2)
                    < self.prefix_of(b, j))
            }) && ((forall|i: int, j: int| !self.hit(i, j, *target)) ==> b == 0),
            (exists|i: int, j: int| self.hit(i, j, *target)) ==> r is Some,
    {
        match self.select_peer_index(target) {
            Some(b) => Some(&self.peers[b]),
            None => None,
        }
    }

    /// The keys of a handshake with the first peer, which is the one the outbound
    /// dials; an error when there is no peer.
    pub fn handshake_keys(&self) -> (r: Result<WireGuardKeys, &'static str>)
        ensures
            r is Ok <==> self.peers@.len() > 0,
            r matches Ok(k) ==> {
                &&& k.private_key == self.private_key
                &&& k.public_key == self.public_key
                &&& k.peer_public_key == self.peers@[0].public_key
                &&& k.preshared_key == self.peers@[0].preshared_key
            },
    {
        if self.peers.len() == 0 {
            return Err("wireguard: no peers configured");
        }
        Ok(WireGuardKeys {
            private_key: self.private_key,
            public_key: self.public_key,
            peer_public_key: self.peers[0].public_key,
            preshared_key: self.peers[0].preshared_key,
        })
    }
}

} // verus!
