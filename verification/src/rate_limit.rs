use vstd::prelude::*;

verus! {

/// `std::time::SystemTime::now`, as milliseconds since the Unix epoch (0 before it).
#[verifier::external_body]
pub(crate) fn now_millis() -> u64 {
    match std::time::SystemTime::now().duration_since(std::time::UNIX_EPOCH) {
        Ok(d) => d.as_millis() as u64,
        Err(_) => 0,
    }
}

/// `std::time::SystemTime::now` as seconds and nanoseconds since the Unix epoch;
/// nothing before it.
#[verifier::external_body]
pub(crate) fn now_since_epoch() -> (r: Option<(u64, u32)>)
    ensures
        r matches Some((s, n)) ==> n < 1_000_000_000,
{
    match std::time::SystemTime::now().duration_since(std::time::UNIX_EPOCH) {
        Ok(d) => Some((d.as_secs(), d.subsec_nanos())),
        Err(_) => None,
    }
}

/// A token bucket that lets through at most `max_rate` bytes per second, with a
/// burst of at most one second's worth.
pub struct RateLimiter {
    max_rate: u64,
    tokens: u64,
    last_ms: u64,
}

impl RateLimiter {
    /// The bucket never holds more than one second's worth of tokens.
    pub closed spec fn wf(&self) -> bool {
        self.tokens <= self.max_rate
    }

    pub closed spec fn spec_max_rate(&self) -> u64 {
        self.max_rate
    }

    pub closed spec fn spec_tokens(&self) -> u64 {
        self.tokens
    }

    pub closed spec fn spec_last_ms(&self) -> u64 {
        self.last_ms
    }

    /// A full bucket for `max_rate` bytes per second, last filled at `now_ms`.
    pub fn new_at(max_rate: u64, now_ms: u64) -> (r: Self)
        ensures
            r.wf(),
            r.spec_max_rate() == max_rate,
            r.spec_tokens() == max_rate,
            r.spec_last_ms() == now_ms,
    {
        RateLimiter { max_rate, tokens: max_rate, last_ms: now_ms }
    }

    /// A full bucket for `max_rate` bytes per second.
    pub fn new(max_rate: u64) -> (r: Self)
        ensures
            r.wf(),
            r.spec_max_rate() == max_rate,
            r.spec_tokens() == max_rate,
    {
        Self::new_at(max_rate, now_millis())
    }

    /// Adds the tokens earned since the last fill, up to one second's worth.
    pub fn refill_at(&mut self, now_ms: u64)
        requires
            old(self).wf(),
        ensures
            final(self).wf(),
            final(self).spec_max_rate() == old(self).spec_max_rate(),
            now_ms <= old(self).spec_last_ms() ==> *final(self) == *old(self),
            now_ms > old(self).spec_last_ms() ==> {
                &&& final(self).spec_last_ms() == now_ms
                &&& final(self).spec_tokens() == refilled(
                    old(self).spec_tokens(),
                    old(self).spec_max_rate(),
                    (now_ms - old(self).spec_last_ms()) as u64,
                )
            },
    {
        if now_ms > self.last_ms {
            let elapsed = now_ms - self.last_ms;
            let e = elapsed as u128;
            let m = self.max_rate as u128;
            proof {
                assert(e * m <= 0xffff_ffff_ffff_ffffu128 * 0xffff_ffff_ffff_ffffu128) by (nonlinear_arith)
                    requires
                        e <= 0xffff_ffff_ffff_ffffu128,
                        m <= 0xffff_ffff_ffff_ffffu128,
                ;
            }
            let earned = e * m / 1000;
            let room = (self.max_rate - self.tokens) as u128;
            if earned >= room {
                self.tokens = self.max_rate;
            } else {
                self.tokens = self.tokens + (earned as u64);
            }
            self.last_ms = now_ms;
        }
    }

    /// Takes up to `bytes` tokens after a refill at `now_ms`; returns how many it took.
    pub fn try_consume_at(&mut self, bytes: u64, now_ms: u64) -> (r: u64)
        requires
            old(self).wf(),
        ensures
            final(self).wf(),
            final(self).spec_max_rate() == old(self).spec_max_rate(),
            ({
                let avail = if now_ms > old(self).spec_last_ms() {
                    refilled(
                        old(self).spec_tokens(),
                        old(self).spec_max_rate(),
                        (now_ms - old(self).spec_last_ms()) as u64,
                    )
                } else {
                    old(self).spec_tokens()
                };
                &&& r == (if bytes <= avail {
                    bytes
                } else {
                    avail
                })
                &&& final(self).spec_tokens() == avail - r
            }),
    {
        self.refill_at(now_ms);
        let n = if bytes <= self.tokens {
            bytes
        } else {
            self.tokens
        };
        self.tokens = self.tokens - n;
        n
    }

    /// Takes up to `bytes` tokens now; returns how many it took.  What is taken is at
    /// most `bytes`, and at most what the bucket held plus what the elapsed time earned.
    pub fn try_consume(&mut self, bytes: u64) -> (r: u64)
        requires
            old(self).wf(),
        ensures
            final(self).wf(),
            final(self).spec_max_rate() == old(self).spec_max_rate(),
            r <= bytes,
            r <= old(self).spec_max_rate(),
            old(self).spec_tokens() >= bytes ==> r == bytes,
            final(self).spec_tokens() + r >= old(self).spec_tokens(),
    {
        let now = now_millis();
        self.try_consume_at(bytes, now)
    }

    /// The tokens in the bucket.
    pub fn available(&self) -> (r: u64)
        ensures
            r == self.spec_tokens(),
    {
        self.tokens
    }

    /// The configured rate, in bytes per second.
    pub fn max_rate(&self) -> (r: u64)
        ensures
            r == self.spec_max_rate(),
    {
        self.max_rate
    }
}

/// Tokens after `elapsed_ms` milliseconds at `rate` bytes per second, capped at `rate`.
pub open spec fn refilled(tokens: u64, rate: u64, elapsed_ms: u64) -> u64 {
    let earned = elapsed_ms as int * rate as int / 1000;
    if tokens as int + earned >= rate as int {
        rate
    } else {
        (tokens as int + earned) as u64
    }
}

} // verus!
