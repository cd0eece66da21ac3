use vstd::prelude::*;

use crate::address::{push_socks_addr, socks_addr_bytes, Address};
use crate::config::OutboundConfig;

verus! {

/// An outbound into the Tor network through its local SOCKS5 port.
pub struct TorOutbound {
    pub tag: String,
    pub socks_host: String,
    pub socks_port: u16,
}

impl TorOutbound {
    /// Builds the outbound: the SOCKS5 host is `address` (default 127.0.0.1), the port
    /// `socks_port` (default 9050).
    pub fn new(config: &OutboundConfig) -> (r: Result<Self, &'static str>)
        ensures
            r is Ok,
            r->Ok_0.tag@ == config.tag@,
            r->Ok_0.socks_host@ == (match config.settings.address {
                Some(a) => a@,
                None => "127.0.0.1"@,
            }),
            r->Ok_0.socks_port == (match config.settings.socks_port {
                Some(p) => p,
                None => 9050u16,
            }),
    {
        let socks_port = match config.settings.socks_port {
            Some(p) => p,
            None => 9050,
        };
        let socks_host = match &config.settings.address {
            Some(a) => a.clone(),
            None => "127.0.0.1".to_owned(),
        };
        Ok(TorOutbound { tag: config.tag.clone(), socks_host, socks_port })
    }

    pub fn tag(&self) -> (r: &str)
        ensures
            r@ == self.tag@,
    {
        self.tag.as_str()
    }
}

/// The Tor SOCKS port must accept "no authentication": version 5, method 0.
pub fn check_method_reply(resp: [u8; 2]) -> (r: Result<(), &'static str>)
    ensures
        r is Ok <==> (resp@[0] == 5 && resp@[1] == 0),
{
    if resp[0] != 0x05 || resp[1] != 0x00 {
        return Err("tor socks5 auth failed");
    }
    Ok(())
}

/// What follows the first four reply bytes and is skipped: a fixed count, or a
/// domain whose length byte is read first.
#[derive(Debug, Clone, Copy, PartialEq, Eq, Structural)]
pub enum BindSkip {
    Fixed(usize),
    DomainThenLen,
}

/// Reads the first four bytes of the reply to CONNECT: the status byte must be 0;
/// the address type then says how much of the bound address to skip (6 for IPv4,
/// 18 for IPv6, nothing for an unknown type).
pub fn check_connect_reply(resp: [u8; 4]) -> (r: Result<BindSkip, &'static str>)
    ensures
        resp@[1] != 0 ==> r is Err,
        resp@[1] == 0 ==> r == Ok::<BindSkip, &'static str>(
            if resp@[3] == 1 {
                BindSkip::Fixed(6)
            } else if resp@[3] == 3 {
                BindSkip::DomainThenLen
            } else if resp@[3] == 4 {
                BindSkip::Fixed(18)
            } else {
                BindSkip::Fixed(0)
            },
        ),
{
    if resp[1] != 0x00 {
        return Err("tor socks5 connect failed");
    }
    if resp[3] == 0x01 {
        Ok(BindSkip::Fixed(6))
    } else if resp[3] == 0x03 {
        Ok(BindSkip::DomainThenLen)
    } else if resp[3] == 0x04 {
        Ok(BindSkip::Fixed(18))
    } else {
        Ok(BindSkip::Fixed(0))
    }
}

/// How many bytes follow a domain's length byte: the name and the port.
pub fn domain_skip(len: u8) -> (r: usize)
    ensures
        r == len as int + 2,
{
    len as usize + 2
}

/// The CONNECT request: version 5, command 1, a reserved zero, the target in SOCKS
/// form.
pub fn connect_request(target: &Address) -> (r: Vec<u8>)
    ensures
        r@ == seq![5u8, 1u8, 0u8] + socks_addr_bytes(*target),
{
    let mut req: Vec<u8> = vec![0x05, 0x01, 0x00];
    push_socks_addr(&mut req, target);
    proof {
        assert(req@ =~= seq![5u8, 1u8, 0u8] + socks_addr_bytes(*target));
    }
    req
}

} // verus!
