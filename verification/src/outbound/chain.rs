//! A proxy chain: traffic goes through a series of outbounds in order, each hop
//! dialing the server of the next one and the last hop dialing the target.

use vstd::prelude::*;

use crate::address::Address;
use crate::config::{strings_view, OutboundConfig};
use crate::text::{lower, lower_eq};

verus! {

/// A chain of outbounds, by tag.
pub struct ProxyChain {
    tag: String,
    chain: Vec<String>,
}

impl ProxyChain {
    pub closed spec fn spec_tag(&self) -> Seq<char> {
        self.tag@
    }

    /// The tags of the hops, in order.
    pub closed spec fn hops(&self) -> Seq<Seq<char>> {
        strings_view(self.chain@)
    }

    /// A chain of at least one hop.
    pub fn new(tag: String, chain: Vec<String>) -> (r: Result<Self, &'static str>)
        ensures
            r is Ok <==> chain@.len() > 0,
            r matches Ok(c) ==> c.spec_tag() == tag@ && c.hops() == strings_view(chain@),
    {
        if chain.len() == 0 {
            return Err("proxy chain requires at least one outbound");
        }
        Ok(ProxyChain { tag, chain })
    }

    /// The chain's own tag.
    pub fn tag(&self) -> (r: &str)
        ensures
            r@ == self.spec_tag(),
    {
        self.tag.as_str()
    }

    /// The tags of the hops, in order.
    pub fn chain_tags(&self) -> (r: Vec<&str>)
        ensures
            r@.len() == self.hops().len(),
            forall|i: int| 0 <= i < r@.len() ==> (#[trigger] r@[i])@ == self.hops()[i],
    {
        let mut r: Vec<&str> = Vec::new();
        let mut i: usize = 0;
        while i < self.chain.len()
            invariant
                i <= self.chain@.len(),
                r@.len() == i,
                self.hops() == strings_view(self.chain@),
                forall|k: int| 0 <= k < i ==> (#[trigger] r@[k])@ == self.hops()[k],
            decreases self.chain@.len() - i,
        {
            r.push(self.chain[i].as_str());
            i = i + 1;
        }
        r
    }

    /// The number of hops.
    pub fn chain_len(&self) -> (r: usize)
        ensures
            r == self.hops().len(),
    {
        self.chain.len()
    }

    /// The server that a hop's outbound listens on: for Tor its SOCKS port (9050 when
    /// absent) on its address (127.0.0.1 when absent); a direct outbound has none;
    /// any other needs its address and port.
    pub fn resolve_hop_server_target(outbound: &OutboundConfig) -> (r: Result<Address, &'static str>)
        ensures
            lower(outbound.protocol@) == "tor"@ ==> (r matches Ok(Address::Domain(h, p)) && h@ == (match outbound.settings.address {
                Some(a) => a@,
                None => "127.0.0.1"@,
            }) && p == (match outbound.settings.socks_port {
                Some(p) => p,
                None => 9050u16,
            })),
            lower(outbound.protocol@) == "direct"@ ==> r == Err::<Address, &'static str>("chain hop uses direct and has no server endpoint"),
            lower(outbound.protocol@) != "tor"@ && lower(outbound.protocol@) != "direct"@ ==> match (outbound.settings.address, outbound.settings.port) {
                (None, _) => r == Err::<Address, &'static str>("chain hop missing address in outbound settings"),
                (Some(_), None) => r == Err::<Address, &'static str>("chain hop missing port in outbound settings"),
                (Some(a), Some(p)) => (r matches Ok(Address::Domain(h, q)) && h@ == a@ && q == p),
            },
    {
        let settings = &outbound.settings;
        if lower_eq(outbound.protocol.as_str(), "tor") {
            proof {
                reveal_strlit("direct");
                reveal_strlit("tor");
                assert("tor"@.len() != "direct"@.len());
            }
            let host = match &settings.address {
                Some(a) => a.clone(),
                None => "127.0.0.1".to_string(),
            };
            let port = match settings.socks_port {
                Some(p) => p,
                None => 9050,
            };
            return Ok(Address::Domain(host, port));
        }
        if lower_eq(outbound.protocol.as_str(), "direct") {
            return Err("chain hop uses direct and has no server endpoint");
        }
        let address = match &settings.address {
            Some(a) => a,
            None => {
                return Err("chain hop missing address in outbound settings");
            },
        };
        let port = match settings.port {
            Some(p) => p,
            None => {
                return Err("chain hop missing port in outbound settings");
            },
        };
        Ok(Address::Domain(address.clone(), port))
    }
}

/// How an intermediate hop talks to the next server over the stream it was given.
#[derive(Debug, Clone, Copy, PartialEq, Eq, Structural)]
pub enum HopProtocol {
    HttpConnect,
    Socks5,
    Vless,
    Trojan,
}

/// The protocol an intermediate hop speaks, by its outbound's protocol name (in any
/// case); others cannot stand in the middle of a chain.
pub fn intermediate_hop_protocol(protocol: &str) -> (r: Option<HopProtocol>)
    ensures
        r == (if lower(protocol@) == "http"@ || lower(protocol@) == "https"@ {
            Some(HopProtocol::HttpConnect)
        } else if lower(protocol@) == "tor"@ {
            Some(HopProtocol::Socks5)
        } else if lower(protocol@) == "vless"@ {
            Some(HopProtocol::Vless)
        } else if lower(protocol@) == "trojan"@ {
            Some(HopProtocol::Trojan)
        } else {
            None
        }),
{
    if lower_eq(protocol, "http") || lower_eq(protocol, "https") {
        Some(HopProtocol::HttpConnect)
    } else if lower_eq(protocol, "tor") {
        Some(HopProtocol::Socks5)
    } else if lower_eq(protocol, "vless") {
        Some(HopProtocol::Vless)
    } else if lower_eq(protocol, "trojan") {
        Some(HopProtocol::Trojan)
    } else {
        None
    }
}

/// The result of checking one hop.
#[derive(Debug, Clone)]
pub struct HopResult {
    pub name: String,
    pub latency: Option<u64>,
    pub healthy: bool,
}

/// The result of checking a chain hop by hop.
#[derive(Debug, Clone)]
pub struct ChainHealthResult {
    pub chain_tag: String,
    pub healthy: bool,
    pub hops: Vec<HopResult>,
    pub total_latency: Option<u64>,
}

/// The sum of the latencies that the hops report.
pub open spec fn latency_sum(hops: Seq<HopResult>) -> nat
    decreases hops.len(),
{
    if hops.len() == 0 {
        0
    } else {
        latency_sum(hops.drop_last()) + match hops.last().latency {
            Some(l) => l as nat,
            None => 0,
        }
    }
}

impl ChainHealthResult {
    /// The verdict on the hops checked in order, the check having stopped at the first
    /// unhealthy one: the chain is healthy when every hop is, and then its latency is
    /// the sum of theirs.
    pub fn from_hops(chain_tag: String, hops: Vec<HopResult>) -> (r: Self)
        requires
            latency_sum(hops@) <= u64::MAX,
        ensures
            r.chain_tag@ == chain_tag@,
            r.hops@ == hops@,
            r.healthy == (forall|i: int| 0 <= i < hops@.len() ==> (#[trigger] hops@[i]).healthy),
            r.total_latency == (if r.healthy {
                Some(latency_sum(hops@) as u64)
            } else {
                None::<u64>
            }),
    {
        let mut healthy = true;
        let mut total: u64 = 0;
        let mut i: usize = 0;
        while i < hops.len()
            invariant
                i <= hops@.len(),
                latency_sum(hops@) <= u64::MAX,
                healthy == (forall|k: int| 0 <= k < i ==> (#[trigger] hops@[k]).healthy),
                total == latency_sum(hops@.subrange(0, i as int)),
            decreases hops@.len() - i,
        {
            proof {
                let sub = hops@.subrange(0, i + 1);
                assert(sub.drop_last() =~= hops@.subrange(0, i as int));
                lemma_latency_sum_prefix(hops@, i + 1);
            }
            if !hops[i].healthy {
                healthy = false;
            }
            match hops[i].latency {
                Some(l) => {
                    total = total + l;
                },
                None => {},
            }
            i = i + 1;
        }
        proof {
            assert(hops@.subrange(0, hops@.len() as int) =~= hops@);
        }
        ChainHealthResult {
            chain_tag,
            healthy,
            hops,
            total_latency: if healthy {
                Some(total)
            } else {
                None
            },
        }
    }
}

/// A prefix's latencies sum to no more than the whole's.
proof fn lemma_latency_sum_prefix(hops: Seq<HopResult>, n: int)
    requires
        0 <= n <= hops.len(),
    ensures
        latency_sum(hops.subrange(0, n)) <= latency_sum(hops),
    decreases hops.len(),
{
    if n < hops.len() {
        assert(hops.drop_last().subrange(0, n) =~= hops.subrange(0, n));
        lemma_latency_sum_prefix(hops.drop_last(), n);
    } else {
        assert(hops.subrange(0, n) =~= hops);
    }
}

impl HopResult {
    /// A hop's result from the latency its probe measured: no latency means the
    /// hop is unhealthy.
    pub fn from_latency(name: String, latency: Option<u64>) -> (r: Self)
        ensures
            r.name@ == name@,
            r.latency == latency,
            r.healthy == (latency is Some),
    {
        let healthy = latency.is_some();
        HopResult { name, latency, healthy }
    }
}

/// What a chain health check does after a hop was checked.
#[derive(Debug, Clone, Copy, PartialEq, Eq, Structural)]
pub enum HealthAction {
    /// Probe the next hop.
    CheckNext,
    /// Stop and give the verdict on the hops checked (`ChainHealthResult::from_hops`).
    Finish,
}

/// Records the hop just checked in a chain of `chain_len` hops. The check goes on
/// only while that hop is healthy and hops remain: one failed hop makes the whole
/// chain unusable.
pub fn health_step(done: &mut Vec<HopResult>, next: HopResult, chain_len: usize) -> (r: HealthAction)
    ensures
        final(done)@ == old(done)@.push(next),
        r == (if next.healthy && final(done)@.len() < chain_len {
            HealthAction::CheckNext
        } else {
            HealthAction::Finish
        }),
{
    let healthy = next.healthy;
    done.push(next);
    if healthy && done.len() < chain_len {
        HealthAction::CheckNext
    } else {
        HealthAction::Finish
    }
}

/// Along a check driven by `health_step`, every hop recorded before the last one is
/// healthy: a check that goes on has seen no failure.
pub proof fn lemma_health_steps_healthy(done: Seq<HopResult>, next: HopResult, chain_len: usize)
    requires
        forall|i: int| 0 <= i < done.len() ==> (#[trigger] done[i]).healthy,
        next.healthy && done.len() + 1 < chain_len,
    ensures
        forall|i: int| 0 <= i < done.push(next).len() ==> (#[trigger] done.push(next)[i]).healthy,
{
    assert forall|i: int| 0 <= i < done.push(next).len() implies (#[trigger] done.push(next)[i]).healthy by {
        if i < done.len() {
            assert(done.push(next)[i] == done[i]);
        }
    }
}

} // verus!
