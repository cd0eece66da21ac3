use openworld::address::Address;
use openworld::config::{OutboundConfig, OutboundSettings};
use openworld::outbound::chain::{intermediate_hop_protocol, ChainHealthResult, HopProtocol, HopResult, ProxyChain};

#[test]
fn proxy_chain_creation() {
    let chain = ProxyChain::new("chain".to_string(), vec!["hop1".to_string(), "hop2".to_string()]).unwrap();
    assert_eq!(chain.tag(), "chain");
    assert_eq!(chain.chain_len(), 2);
    assert_eq!(chain.chain_tags(), vec!["hop1", "hop2"]);
}

#[test]
fn proxy_chain_empty_fails() {
    let result = ProxyChain::new("empty".to_string(), vec![]);
    assert!(result.is_err());
}

#[test]
fn proxy_chain_single_hop() {
    let chain = ProxyChain::new("single".to_string(), vec!["hop1".to_string()]).unwrap();
    assert_eq!(chain.chain_len(), 1);
}

fn ob(protocol: &str, settings: OutboundSettings) -> OutboundConfig {
    OutboundConfig { tag: "hop".to_string(), protocol: protocol.to_string(), settings }
}

#[test]
fn hop_server_target_by_protocol() {
    let tor = ProxyChain::resolve_hop_server_target(&ob("TOR", OutboundSettings::default())).unwrap();
    match tor {
        Address::Domain(h, p) => {
            assert_eq!(h, "127.0.0.1");
            assert_eq!(p, 9050);
        }
        _ => panic!("expected a domain"),
    }
    assert!(ProxyChain::resolve_hop_server_target(&ob("direct", OutboundSettings::default())).is_err());
    let missing_port = ob("vless", OutboundSettings { address: Some("a.example".to_string()), ..Default::default() });
    assert_eq!(
        ProxyChain::resolve_hop_server_target(&missing_port).err(),
        Some("chain hop missing port in outbound settings")
    );
    let full = ob("trojan", OutboundSettings { address: Some("a.example".to_string()), port: Some(443), ..Default::default() });
    match ProxyChain::resolve_hop_server_target(&full).unwrap() {
        Address::Domain(h, p) => {
            assert_eq!(h, "a.example");
            assert_eq!(p, 443);
        }
        _ => panic!("expected a domain"),
    }
}

#[test]
fn intermediate_hop_protocols() {
    assert_eq!(intermediate_hop_protocol("HTTPS"), Some(HopProtocol::HttpConnect));
    assert_eq!(intermediate_hop_protocol("tor"), Some(HopProtocol::Socks5));
    assert_eq!(intermediate_hop_protocol("Vless"), Some(HopProtocol::Vless));
    assert_eq!(intermediate_hop_protocol("trojan"), Some(HopProtocol::Trojan));
    assert_eq!(intermediate_hop_protocol("ssh"), None);
}

#[test]
fn chain_health_sums_latencies() {
    let hop = |name: &str, latency: Option<u64>| HopResult { name: name.to_string(), latency, healthy: latency.is_some() };
    let ok = ChainHealthResult::from_hops("c".to_string(), vec![hop("a", Some(10)), hop("b", Some(32))]);
    assert!(ok.healthy);
    assert_eq!(ok.total_latency, Some(42));
    let bad = ChainHealthResult::from_hops("c".to_string(), vec![hop("a", Some(10)), hop("b", None)]);
    assert!(!bad.healthy);
    assert_eq!(bad.total_latency, None);
    assert_eq!(bad.hops.len(), 2);
}
