use vstd::prelude::*;

verus! {

/// Small buffers: 4 KiB, for control messages and handshakes.
pub const BUF_SIZE_SMALL: usize = 4096;

/// Default buffers: 32 KiB, a typical TCP window or TLS record size.
pub const BUF_SIZE: usize = 32768;

/// Large buffers: 64 KiB, for high-throughput relaying.
pub const BUF_SIZE_LARGE: usize = 65536;

/// How many buffers the shared pool keeps per tier.
pub const POOL_MAX: usize = 512;

/// The tier that a request for `size` bytes is served from, and the size of a buffer
/// allocated for it: 0 small, 1 medium, 2 large.
pub open spec fn request_tier(size: usize) -> (int, usize) {
    if size <= BUF_SIZE_SMALL {
        (0, BUF_SIZE_SMALL)
    } else if size <= BUF_SIZE {
        (1, BUF_SIZE)
    } else {
        (2, BUF_SIZE_LARGE)
    }
}

/// The tier that a returned buffer of capacity `cap` belongs to, if any, with that
/// tier's limit for a pool of capacity `max`: the largest tier whose buffer size the
/// capacity holds, up to four times that size (twice for the small tier); so each
/// buffer a tier hands out comes back to that tier.
pub open spec fn return_tier(cap: usize, max: usize) -> Option<(int, int)> {
    if BUF_SIZE_LARGE <= cap <= BUF_SIZE_LARGE * 4 {
        Some((2, max as int / 4))
    } else if BUF_SIZE <= cap < BUF_SIZE_LARGE {
        Some((1, max as int))
    } else if BUF_SIZE_SMALL <= cap <= BUF_SIZE_SMALL * 2 {
        Some((0, max as int / 4))
    } else {
        None
    }
}

/// A buffer of a tier's size, returned at that capacity, goes back to that tier.
pub proof fn lemma_tier_size_returns(size: usize, max: usize)
    ensures
        return_tier(request_tier(size).1, max) matches Some((t, _)) && t == request_tier(size).0,
{
}

/// A reused buffer brought to `n` bytes: cut to its first `n` bytes, or filled up
/// with zeros.
pub open spec fn fitted(s: Seq<u8>, n: nat) -> Seq<u8> {
    if s.len() >= n {
        s.subrange(0, n as int)
    } else {
        s + Seq::new((n - s.len()) as nat, |i: int| 0u8)
    }
}

/// `n` zero bytes.
pub fn zeroed(n: usize) -> (r: Vec<u8>)
    ensures
        r@ == Seq::new(n as nat, |i: int| 0u8),
{
    let r = vec![0u8; n];
    proof {
        assert forall|i: int| 0 <= i < n implies r@[i] == 0u8 by {
            assert(vstd::pervasive::cloned(0u8, r@[i]));
        }
        assert(r@ =~= Seq::new(n as nat, |i: int| 0u8));
    }
    r
}

/// `std::vec::Vec::capacity`: at least the length.
#[verifier::external_body]
fn vec_capacity(buf: &Vec<u8>) -> (r: usize)
    ensures
        r >= buf@.len(),
{
    buf.capacity()
}

/// A pool of reusable byte buffers in three size tiers, with hit and miss counts.
pub struct BufferPool {
    small: Vec<Vec<u8>>,
    medium: Vec<Vec<u8>>,
    large: Vec<Vec<u8>>,
    max: usize,
    hits: u64,
    misses: u64,
}

impl BufferPool {
    /// The buffers held in tier `t`.
    pub closed spec fn tier(&self, t: int) -> Seq<Vec<u8>> {
        if t == 0 {
            self.small@
        } else if t == 1 {
            self.medium@
        } else {
            self.large@
        }
    }

    pub closed spec fn spec_max(&self) -> usize {
        self.max
    }

    pub closed spec fn spec_hits(&self) -> u64 {
        self.hits
    }

    pub closed spec fn spec_misses(&self) -> u64 {
        self.misses
    }

    /// An empty pool that keeps up to `capacity` medium and `capacity / 4` small and
    /// large buffers.
    pub fn new(capacity: usize) -> (r: Self)
        ensures
            r.spec_max() == capacity,
            r.tier(0).len() == 0,
            r.tier(1).len() == 0,
            r.tier(2).len() == 0,
            r.spec_hits() == 0,
            r.spec_misses() == 0,
    {
        BufferPool {
            small: Vec::with_capacity(capacity / 4),
            medium: Vec::with_capacity(capacity),
            large: Vec::with_capacity(capacity / 4),
            max: capacity,
            hits: 0,
            misses: 0,
        }
    }

    /// A default (32 KiB tier) buffer.
    pub fn get(&mut self) -> (r: Vec<u8>)
        ensures
            get_post(*old(self), *final(self), BUF_SIZE, r),
    {
        self.get_sized(BUF_SIZE)
    }

    /// A buffer of the tier that fits `size`, of the tier's size: the most recently
    /// returned one of that tier brought to that size (a hit), or else a new zeroed
    /// one (a miss).
    pub fn get_sized(&mut self, size: usize) -> (r: Vec<u8>)
        ensures
            get_post(*old(self), *final(self), size, r),
    {
        let alloc_size = if size <= BUF_SIZE_SMALL {
            BUF_SIZE_SMALL
        } else if size <= BUF_SIZE {
            BUF_SIZE
        } else {
            BUF_SIZE_LARGE
        };
        let popped = if size <= BUF_SIZE_SMALL {
            self.small.pop()
        } else if size <= BUF_SIZE {
            self.medium.pop()
        } else {
            self.large.pop()
        };
        match popped {
            Some(buf) => {
                self.hits = self.hits.wrapping_add(1);
                let ghost before = buf@;
                let mut b = buf;
                b.resize(alloc_size, 0u8);
                proof {
                    if before.len() < alloc_size {
                        assert forall|i: int| before.len() <= i < alloc_size implies b@[i] == 0u8 by {
                            assert(vstd::pervasive::cloned(0u8, b@[i]));
                        }
                        assert(b@ =~= fitted(before, alloc_size as nat));
                    }
                }
                b
            },
            None => {
                self.misses = self.misses.wrapping_add(1);
                zeroed(alloc_size)
            },
        }
    }

    /// A small (4 KiB tier) buffer.
    pub fn get_small(&mut self) -> (r: Vec<u8>)
        ensures
            get_post(*old(self), *final(self), BUF_SIZE_SMALL, r),
    {
        self.get_sized(BUF_SIZE_SMALL)
    }

    /// A large (64 KiB tier) buffer.
    pub fn get_large(&mut self) -> (r: Vec<u8>)
        ensures
            get_post(*old(self), *final(self), BUF_SIZE_LARGE, r),
    {
        self.get_sized(BUF_SIZE_LARGE)
    }

    /// Returns a buffer of capacity `cap` to the pool: it joins its tier unless the
    /// tier is full; a buffer of no tier is dropped.
    pub fn put_with_capacity(&mut self, buf: Vec<u8>, cap: usize)
        ensures
            put_post(*old(self), *final(self), buf, cap),
    {
        let large = BUF_SIZE_LARGE <= cap && cap <= BUF_SIZE_LARGE * 4;
        let medium = BUF_SIZE <= cap && cap < BUF_SIZE_LARGE;
        let small = BUF_SIZE_SMALL <= cap && cap <= BUF_SIZE_SMALL * 2;
        if large {
            if self.large.len() < self.max / 4 {
                self.large.push(buf);
            }
        } else if medium {
            if self.medium.len() < self.max {
                self.medium.push(buf);
            }
        } else if small {
            if self.small.len() < self.max / 4 {
                self.small.push(buf);
            }
        }
    }

    /// Returns a buffer to the pool, filed by its capacity (see `put_with_capacity`).
    pub fn put(&mut self, buf: Vec<u8>)
        ensures
            exists|cap: usize| cap >= buf@.len() && put_post(*old(self), *final(self), buf, cap),
    {
        let cap = vec_capacity(&buf);
        self.put_with_capacity(buf, cap);
    }

    /// (hits, misses) so far.
    pub fn stats(&self) -> (r: (u64, u64))
        ensures
            r == (self.spec_hits(), self.spec_misses()),
    {
        (self.hits, self.misses)
    }
}

/// `x + 1`, wrapping to 0 past the largest `u64`.
pub open spec fn wrapping_inc(x: u64) -> u64 {
    if x == 0xffff_ffff_ffff_ffffu64 {
        0
    } else {
        (x + 1) as u64
    }
}

/// What `get_sized(size)` does to the pool and returns.
pub open spec fn get_post(pre: BufferPool, post: BufferPool, size: usize, r: Vec<u8>) -> bool {
    let (t, alloc) = request_tier(size);
    &&& post.spec_max() == pre.spec_max()
    &&& forall|u: int| 0 <= u < 3 && u != t ==> post.tier(u) == pre.tier(u)
    &&& r@.len() == alloc
    &&& if pre.tier(t).len() > 0 {
        &&& r@ == fitted(pre.tier(t).last()@, alloc as nat)
        &&& post.tier(t) == pre.tier(t).drop_last()
        &&& post.spec_hits() == wrapping_inc(pre.spec_hits())
        &&& post.spec_misses() == pre.spec_misses()
    } else {
        &&& r@ == Seq::new(alloc as nat, |i: int| 0u8)
        &&& post.tier(t) == pre.tier(t)
        &&& post.spec_misses() == wrapping_inc(pre.spec_misses())
        &&& post.spec_hits() == pre.spec_hits()
    }
}

/// What returning `buf`, of capacity `cap`, does to the pool.
pub open spec fn put_post(pre: BufferPool, post: BufferPool, buf: Vec<u8>, cap: usize) -> bool {
    &&& post.spec_max() == pre.spec_max()
    &&& post.spec_hits() == pre.spec_hits()
    &&& post.spec_misses() == pre.spec_misses()
    &&& match return_tier(cap, pre.spec_max()) {
        Some((t, limit)) => {
            &&& forall|u: int| 0 <= u < 3 && u != t ==> post.tier(u) == pre.tier(u)
            &&& if pre.tier(t).len() < limit {
                post.tier(t) == pre.tier(t).push(buf)
            } else {
                post.tier(t) == pre.tier(t)
            }
        },
        None => forall|u: int| 0 <= u < 3 ==> post.tier(u) == pre.tier(u),
    }
}

/// Byte counts of a relay session.
#[derive(Debug)]
pub struct RelayStats {
    pub upload: u64,
    pub download: u64,
}

impl RelayStats {
    /// Fresh counters, shared.
    pub fn new() -> (r: std::sync::Arc<Self>)
        ensures
            r.upload == 0,
            r.download == 0,
    {
        std::sync::Arc::new(RelayStats { upload: 0, download: 0 })
    }

    /// Bytes sent from client to remote.
    pub fn upload(&self) -> (r: u64)
        ensures
            r == self.upload,
    {
        self.upload
    }

    /// Bytes sent from remote to client.
    pub fn download(&self) -> (r: u64)
        ensures
            r == self.download,
    {
        self.download
    }

    /// Counts `n` more uploaded bytes (wrapping, as an atomic counter does).
    pub fn add_upload(&mut self, n: u64)
        ensures
            final(self).upload == (old(self).upload + n) % 0x1_0000_0000_0000_0000,
            final(self).download == old(self).download,
    {
        self.upload = self.upload.wrapping_add(n);
    }

    /// Counts `n` more downloaded bytes (wrapping, as an atomic counter does).
    pub fn add_download(&mut self, n: u64)
        ensures
            final(self).download == (old(self).download + n) % 0x1_0000_0000_0000_0000,
            final(self).upload == old(self).upload,
    {
        self.download = self.download.wrapping_add(n);
    }
}

/// The idle timeout of a relay session unless configured: five minutes.
pub const DEFAULT_IDLE_TIMEOUT_SECS: u64 = 300;

/// Whether the relay can hand both directions to plain copies: nothing to count
/// and nothing to limit.
pub fn use_plain_copy(has_upload_limiter: bool, has_download_limiter: bool, has_stats: bool) -> (r: bool)
    ensures
        r == (!has_upload_limiter && !has_download_limiter && !has_stats),
{
    !has_upload_limiter && !has_download_limiter && !has_stats
}

/// What happened while the relay waited: a read on one side (`None` for a read
/// error, `Some(0)` for end of stream), the shutdown signal, or the idle timeout.
#[derive(Debug, Clone, Copy, PartialEq, Eq, Structural)]
pub enum CopyEvent {
    ClientRead(Option<usize>),
    RemoteRead(Option<usize>),
    Cancelled,
    IdleTimeout,
}

/// What the relay does next.
#[derive(Debug, Clone, Copy, PartialEq, Eq, Structural)]
pub enum RelayAction {
    /// Close the write half toward the remote (the client finished).
    ShutdownRemote,
    /// Close the write half toward the client (the remote finished).
    ShutdownClient,
    /// Write the `n` bytes read from the client to the remote, after the upload
    /// limiter allows them.
    SendToRemote(usize),
    /// Write the `n` bytes read from the remote to the client, after the download
    /// limiter allows them.
    SendToClient(usize),
    /// End the session.
    Stop,
}

/// The relay's counters and which sides reached end of stream.
#[derive(Debug, Clone, Copy, PartialEq, Eq, Structural)]
pub struct RelayState {
    pub upload: u64,
    pub download: u64,
    pub client_done: bool,
    pub remote_done: bool,
}

/// The next state and action for an event.
pub open spec fn relay_step(s: RelayState, e: CopyEvent) -> (RelayState, RelayAction) {
    match e {
        CopyEvent::IdleTimeout => (s, RelayAction::Stop),
        CopyEvent::Cancelled => (s, RelayAction::Stop),
        CopyEvent::ClientRead(None) => (s, RelayAction::Stop),
        CopyEvent::RemoteRead(None) => (s, RelayAction::Stop),
        CopyEvent::ClientRead(Some(n)) => if n == 0 {
            (RelayState { client_done: true, ..s }, RelayAction::ShutdownRemote)
        } else {
            (RelayState { upload: (s.upload + n) as u64, ..s }, RelayAction::SendToRemote(n))
        },
        CopyEvent::RemoteRead(Some(n)) => if n == 0 {
            (RelayState { remote_done: true, ..s }, RelayAction::ShutdownClient)
        } else {
            (RelayState { download: (s.download + n) as u64, ..s }, RelayAction::SendToClient(n))
        },
    }
}

impl RelayState {
    pub fn new() -> (r: Self)
        ensures
            r == (RelayState { upload: 0, download: 0, client_done: false, remote_done: false }),
    {
        RelayState { upload: 0, download: 0, client_done: false, remote_done: false }
    }

    /// Both sides reached end of stream: the session is over.
    pub fn finished(&self) -> (r: bool)
        ensures
            r == (self.client_done && self.remote_done),
    {
        self.client_done && self.remote_done
    }

    /// Whether the client side is still read.
    pub fn reading_client(&self) -> (r: bool)
        ensures
            r == !self.client_done,
    {
        !self.client_done
    }

    /// Whether the remote side is still read.
    pub fn reading_remote(&self) -> (r: bool)
        ensures
            r == !self.remote_done,
    {
        !self.remote_done
    }

    /// Handles one event: counts what was read, marks a side finished at end of
    /// stream, and stops on an error, the shutdown signal or the idle timeout.
    /// The counts of what a session can move fit in 64 bits.
    pub fn step(&mut self, e: CopyEvent) -> (r: RelayAction)
        requires
            e matches CopyEvent::ClientRead(Some(n)) ==> old(self).upload + n <= u64::MAX,
            e matches CopyEvent::RemoteRead(Some(n)) ==> old(self).download + n <= u64::MAX,
        ensures
            (*final(self), r) == relay_step(*old(self), e),
    {
        match e {
            CopyEvent::IdleTimeout => RelayAction::Stop,
            CopyEvent::Cancelled => RelayAction::Stop,
            CopyEvent::ClientRead(None) => RelayAction::Stop,
            CopyEvent::RemoteRead(None) => RelayAction::Stop,
            CopyEvent::ClientRead(Some(n)) => {
                if n == 0 {
                    self.client_done = true;
                    RelayAction::ShutdownRemote
                } else {
                    self.upload = self.upload + n as u64;
                    RelayAction::SendToRemote(n)
                }
            },
            CopyEvent::RemoteRead(Some(n)) => {
                if n == 0 {
                    self.remote_done = true;
                    RelayAction::ShutdownClient
                } else {
                    self.download = self.download + n as u64;
                    RelayAction::SendToClient(n)
                }
            },
        }
    }
}

/// The upload count only grows, and by exactly what was read from the client;
/// the download count likewise by what was read from the remote.
pub proof fn lemma_counts_are_bytes_moved(s: RelayState, e: CopyEvent)
    requires
        e matches CopyEvent::ClientRead(Some(n)) ==> s.upload + n <= u64::MAX,
        e matches CopyEvent::RemoteRead(Some(n)) ==> s.download + n <= u64::MAX,
    ensures
        ({
            let (t, a) = relay_step(s, e);
            &&& t.upload == s.upload + (match a {
                RelayAction::SendToRemote(n) => n as int,
                _ => 0,
            })
            &&& t.download == s.download + (match a {
                RelayAction::SendToClient(n) => n as int,
                _ => 0,
            })
            &&& (s.client_done ==> t.client_done)
            &&& (s.remote_done ==> t.remote_done)
        }),
{
}

/// How long to wait for the limiter to refill `remaining` bytes at `rate` bytes
/// a second: the time that takes in milliseconds, between 1 and 100.
pub open spec fn token_wait_ms_spec(remaining: u64, rate: u64) -> int {
    let r = if rate < 1 { 1 } else { rate as int };
    let w = (remaining as int * 1000) / r;
    if w < 1 { 1 } else if w > 100 { 100 } else { w }
}

pub fn token_wait_ms(remaining: u64, rate: u64) -> (r: u64)
    ensures
        r as int == token_wait_ms_spec(remaining, rate),
        1 <= r <= 100,
{
    let r: u128 = if rate < 1 { 1 } else { rate as u128 };
    let w = (remaining as u128 * 1000) / r;
    if w < 1 {
        1
    } else if w > 100 {
        100
    } else {
        w as u64
    }
}

} // verus!
