use openworld::address::IpAddr;
use openworld::netaddr::{ipv4_to_string, parse_ipv4};
use openworld::outbound::pool::{BindInterface, ConnectionPool};

// Streams are stood for by numbers: the pool only carries them.

#[test]
fn pool_basic_put_get() {
    let mut pool: ConnectionPool<u32> = ConnectionPool::with_defaults();
    assert_eq!(pool.idle_count(), 0);

    pool.put("example.com:443", 1, 0);
    assert_eq!(pool.idle_count(), 1);
    assert_eq!(pool.target_count(), 1);

    let conn = pool.get("example.com:443", 0);
    assert!(conn.is_some());
    assert_eq!(pool.idle_count(), 0);
}

#[test]
fn pool_get_nonexistent() {
    let mut pool: ConnectionPool<u32> = ConnectionPool::with_defaults();
    assert!(pool.get("nonexistent:80", 0).is_none());
}

#[test]
fn pool_multiple_targets() {
    let mut pool: ConnectionPool<u32> = ConnectionPool::with_defaults();

    pool.put("a.com:443", 1, 0);
    pool.put("b.com:443", 2, 0);
    pool.put("a.com:443", 3, 0);

    assert_eq!(pool.idle_count(), 3);
    assert_eq!(pool.target_count(), 2);
}

#[test]
fn pool_max_idle_per_host() {
    let mut pool: ConnectionPool<u32> = ConnectionPool::new(2, 60);

    pool.put("x.com:80", 1, 0);
    pool.put("x.com:80", 2, 0);
    pool.put("x.com:80", 3, 0); // evicts oldest

    assert_eq!(pool.idle_count(), 2);
}

#[test]
fn pool_expired_connections() {
    let mut pool: ConnectionPool<u32> = ConnectionPool::new(10, 0); // 0 second timeout

    pool.put("expire.com:443", 1, 1_000);

    // expired connection should not be returned
    assert!(pool.get("expire.com:443", 1_010).is_none());
}

#[test]
fn pool_cleanup() {
    let mut pool: ConnectionPool<u32> = ConnectionPool::new(10, 0);

    pool.put("a.com:80", 1, 1_000);
    pool.put("b.com:80", 2, 1_000);

    let cleaned = pool.cleanup(1_010);
    assert_eq!(cleaned, 2);
    assert_eq!(pool.idle_count(), 0);
}

#[test]
fn pool_clear() {
    let mut pool: ConnectionPool<u32> = ConnectionPool::with_defaults();
    pool.put("a.com:80", 1, 0);
    pool.put("b.com:80", 2, 0);

    pool.clear();
    assert_eq!(pool.idle_count(), 0);
    assert_eq!(pool.target_count(), 0);
}

#[test]
fn pool_hands_out_in_return_order() {
    let mut pool: ConnectionPool<u32> = ConnectionPool::new(2, 60);
    pool.put("x.com:80", 1, 0);
    pool.put("x.com:80", 2, 0);
    pool.put("x.com:80", 3, 0);
    // the oldest (1) was evicted; the next oldest comes out first
    assert_eq!(pool.get("x.com:80", 0), Some(2));
    assert_eq!(pool.get("x.com:80", 0), Some(3));
    assert_eq!(pool.get("x.com:80", 0), None);
    assert_eq!(pool.target_count(), 0);
}

#[test]
fn pool_get_skips_and_drops_stale() {
    let mut pool: ConnectionPool<u32> = ConnectionPool::new(10, 1);
    pool.put("x.com:80", 1, 0);
    pool.put("x.com:80", 2, 5_000);
    pool.put("x.com:80", 3, 5_000);
    // at 5.5 s the first is stale (5.5 s idle), the others fresh
    assert_eq!(pool.get("x.com:80", 5_500), Some(2));
    assert_eq!(pool.idle_count(), 1);
    // exactly the timeout is stale
    assert_eq!(pool.get("x.com:80", 6_000), None);
    assert_eq!(pool.target_count(), 0);
}

#[test]
fn pool_cleanup_keeps_fresh() {
    let mut pool: ConnectionPool<u32> = ConnectionPool::new(10, 2);
    pool.put("a.com:80", 1, 0);
    pool.put("a.com:80", 2, 1_500);
    pool.put("b.com:80", 3, 0);
    assert_eq!(pool.cleanup(2_500), 2);
    assert_eq!(pool.idle_count(), 1);
    assert_eq!(pool.target_count(), 1);
    assert_eq!(pool.get("a.com:80", 2_500), Some(2));
}

#[test]
fn pool_zero_limit_keeps_one() {
    let mut pool: ConnectionPool<u32> = ConnectionPool::new(0, 60);
    pool.put("x.com:80", 1, 0);
    pool.put("x.com:80", 2, 0);
    assert_eq!(pool.idle_count(), 1);
    assert_eq!(pool.get("x.com:80", 0), Some(2));
}

#[test]
fn bind_interface_none() {
    let b = BindInterface::none();
    assert!(!b.has_binding());
}

#[test]
fn bind_interface_with_name() {
    let b = BindInterface::with_interface("eth0");
    assert!(b.has_binding());
    assert_eq!(b.interface_name.unwrap(), "eth0");
}

#[test]
fn bind_interface_with_addr() {
    let b = BindInterface::with_bind_addr(IpAddr::V4(parse_ipv4("192.168.1.1").unwrap()));
    assert!(b.has_binding());
    match b.bind_addr.unwrap() {
        IpAddr::V4(o) => assert_eq!(ipv4_to_string(o), "192.168.1.1"),
        IpAddr::V6(_) => panic!("expected an IPv4 address"),
    }
}

#[test]
fn bind_interface_routing_mark_only() {
    let b = BindInterface { interface_name: None, bind_addr: None, routing_mark: Some(7) };
    assert!(b.has_binding());
}

#[test]
fn pool_put_then_get_same_instant() {
    let mut pool: ConnectionPool<u32> = ConnectionPool::new(1, 1);
    pool.put("x.com:80", 1, 0);
    // stale by now, then replaced at the limit by a fresh one
    pool.put("x.com:80", 2, 10_000);
    assert_eq!(pool.get("x.com:80", 10_000), Some(2));
}
