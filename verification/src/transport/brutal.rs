use vstd::prelude::*;

verus! {

/// Makes Brutal congestion controllers for a target send rate in bytes per second.
#[derive(Debug, Clone)]
pub struct BrutalControllerFactory {
    send_bps: u64,
}

impl BrutalControllerFactory {
    pub closed spec fn spec_send_bps(&self) -> u64 {
        self.send_bps
    }

    /// A factory for `send_rate_mbps` megabits per second: 125000 bytes per second
    /// each, saturating at `u64::MAX`.
    pub fn new(send_rate_mbps: u64) -> (r: Self)
        ensures
            r.spec_send_bps() == (if send_rate_mbps * 125000 > u64::MAX { u64::MAX as int } else { send_rate_mbps * 125000 }),
    {
        let send_bps = match send_rate_mbps.checked_mul(125_000) {
            Some(v) => v,
            None => u64::MAX,
        };
        BrutalControllerFactory { send_bps }
    }

    pub fn from_bps(send_bps: u64) -> (r: Self)
        ensures
            r.spec_send_bps() == send_bps,
    {
        BrutalControllerFactory { send_bps }
    }

    pub fn send_bps(&self) -> (r: u64)
        ensures
            r == self.spec_send_bps(),
    {
        self.send_bps
    }
}

} // verus!
