use openworld::relay::{
    token_wait_ms, use_plain_copy, BufferPool, CopyEvent, RelayAction, RelayState, RelayStats, BUF_SIZE, BUF_SIZE_LARGE,
    BUF_SIZE_SMALL,
};

#[test]
fn buffer_pool_get_put() {
    let mut pool = BufferPool::new(4);
    let buf = pool.get();
    assert_eq!(buf.len(), BUF_SIZE);
    pool.put(buf);
    let buf2 = pool.get();
    assert_eq!(buf2.len(), BUF_SIZE);
}

#[test]
fn buffer_pool_overflow() {
    let mut pool = BufferPool::new(8);
    let b1 = pool.get();
    let b2 = pool.get();
    let b3 = pool.get();
    pool.put(b1);
    pool.put(b2);
    pool.put(b3);
    let _ = pool.get();
    let _ = pool.get();
    let b = pool.get();
    assert_eq!(b.len(), BUF_SIZE);
}

#[test]
fn buffer_pool_tiered_small() {
    let mut pool = BufferPool::new(8);
    let buf = pool.get_small();
    assert_eq!(buf.len(), BUF_SIZE_SMALL);
    pool.put(buf);
    let buf2 = pool.get_small();
    assert_eq!(buf2.len(), BUF_SIZE_SMALL);
}

#[test]
fn buffer_pool_tiered_large() {
    let mut pool = BufferPool::new(8);
    let buf = pool.get_large();
    assert_eq!(buf.len(), BUF_SIZE_LARGE);
    pool.put(buf);
    let buf2 = pool.get_large();
    assert_eq!(buf2.len(), BUF_SIZE_LARGE);
}

#[test]
fn buffer_pool_stats() {
    let mut pool = BufferPool::new(4);
    let _ = pool.get();
    let (hits, misses) = pool.stats();
    assert_eq!(hits, 0);
    assert_eq!(misses, 1);

    let buf = pool.get();
    pool.put(buf);
    let _ = pool.get();
    let (hits, misses) = pool.stats();
    assert_eq!(hits, 1);
    assert_eq!(misses, 2);
}

// Own tests.

#[test]
fn buffer_pool_small_tier_limit_is_quarter() {
    let mut pool = BufferPool::new(4);
    let a = pool.get_small();
    let b = pool.get_small();
    pool.put_with_capacity(a, BUF_SIZE_SMALL);
    pool.put_with_capacity(b, BUF_SIZE_SMALL);
    let _ = pool.get_small();
    let _ = pool.get_small();
    assert_eq!(pool.stats(), (1, 3));
}

#[test]
fn buffer_pool_odd_capacity_dropped() {
    let mut pool = BufferPool::new(4);
    pool.put_with_capacity(vec![0u8; 10], 10);
    let _ = pool.get_small();
    assert_eq!(pool.stats(), (0, 1));
}

#[test]
fn relay_stats_counts() {
    let stats = RelayStats::new();
    assert_eq!(stats.upload(), 0);
    let mut s = RelayStats { upload: 0, download: 5 };
    s.add_upload(7);
    s.add_download(u64::MAX);
    assert_eq!(s.upload(), 7);
    assert_eq!(s.download(), 4);
    assert_eq!(stats.download(), 0);
}

#[test]
fn relay_state_machine_half_close() {
    let mut s = RelayState::new();
    assert_eq!(s.step(CopyEvent::ClientRead(Some(5))), RelayAction::SendToRemote(5));
    assert_eq!(s.step(CopyEvent::RemoteRead(Some(7))), RelayAction::SendToClient(7));
    assert_eq!(s.step(CopyEvent::ClientRead(Some(0))), RelayAction::ShutdownRemote);
    assert!(!s.finished());
    assert!(!s.reading_client());
    assert!(s.reading_remote());
    assert_eq!(s.step(CopyEvent::RemoteRead(Some(0))), RelayAction::ShutdownClient);
    assert!(s.finished());
    assert_eq!((s.upload, s.download), (5, 7));
}

#[test]
fn relay_state_machine_stops() {
    let mut s = RelayState::new();
    assert_eq!(s.step(CopyEvent::IdleTimeout), RelayAction::Stop);
    assert_eq!(s.step(CopyEvent::Cancelled), RelayAction::Stop);
    assert_eq!(s.step(CopyEvent::ClientRead(None)), RelayAction::Stop);
    assert_eq!(s.step(CopyEvent::RemoteRead(None)), RelayAction::Stop);
    assert_eq!((s.upload, s.download, s.client_done, s.remote_done), (0, 0, false, false));
}

#[test]
fn relay_plain_copy_and_wait() {
    assert!(use_plain_copy(false, false, false));
    assert!(!use_plain_copy(true, false, false));
    assert!(!use_plain_copy(false, false, true));
    assert_eq!(token_wait_ms(10, 1000), 10);
    assert_eq!(token_wait_ms(0, 1000), 1);
    assert_eq!(token_wait_ms(1_000_000, 1000), 100);
    assert_eq!(token_wait_ms(5, 0), 100);
}

#[test]
fn buffer_pool_small_comes_back_full_size() {
    let mut pool = BufferPool::new(8);
    pool.put(Vec::with_capacity(4096));
    let b = pool.get_small();
    assert_eq!(b.len(), BUF_SIZE_SMALL);
}

#[test]
fn buffer_pool_large_returns_to_large_tier() {
    let mut pool = BufferPool::new(8);
    let b = pool.get_large();
    pool.put_with_capacity(b, BUF_SIZE_LARGE);
    let again = pool.get_large();
    assert_eq!(again.len(), BUF_SIZE_LARGE);
    assert_eq!(pool.stats(), (1, 1));
    assert_eq!(pool.get().len(), BUF_SIZE);
}
