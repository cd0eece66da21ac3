use vstd::prelude::*;
use vstd::utf8::encode_utf8;

use crate::address::{push_all, push_socks_addr, socks_addr_bytes, Address};
use crate::bytes_util::{be_bytes, push_be};
use crate::config::{clone_opt, opt_view, OutboundConfig};

verus! {

/// Protocol version sent in the authentication request.
pub const HYSTERIA_V1_VERSION: u8 = 3;

/// Command byte of a TCP request.
pub const HYSTERIA_V1_CMD_TCP: u8 = 0x01;

/// Command byte of a UDP request.
pub const HYSTERIA_V1_CMD_UDP: u8 = 0x02;

/// Status byte of a successful authentication.
pub const HYSTERIA_V1_STATUS_OK: u8 = 0x00;

/// A Hysteria v1 outbound.
pub struct HysteriaV1Outbound {
    pub tag: String,
    pub server_addr: String,
    pub server_port: u16,
    pub auth_str: String,
    pub obfs: Option<String>,
    pub obfs_password: Option<String>,
    pub up_mbps: u64,
    pub down_mbps: u64,
    pub sni: String,
    pub allow_insecure: bool,
}

/// The authentication request: version, upload and download Mbps (as 32-bit, big
/// endian), the auth string's byte length (16-bit) and the auth string.
pub open spec fn auth_request_bytes(up: u64, down: u64, auth: Seq<u8>) -> Seq<u8> {
    seq![3u8] + be_bytes((up % 0x1_0000_0000) as nat, 4) + be_bytes((down % 0x1_0000_0000) as nat, 4)
        + be_bytes((auth.len() % 0x1_0000) as nat, 2) + auth
}

/// `data` XORed, byte by byte, with the key repeated; unchanged for an empty key.
pub open spec fn obfs_spec(data: Seq<u8>, key: Seq<u8>) -> Seq<u8> {
    if key.len() == 0 {
        data
    } else {
        Seq::new(data.len(), |i: int| data[i] ^ key[i % key.len() as int])
    }
}

impl HysteriaV1Outbound {
    /// Builds the outbound: `address` and `port` are required; the auth string is the
    /// password, else the uuid, else empty; the SNI defaults to the address; the
    /// bandwidth defaults to 100 Mbps up and 200 down.
    pub fn new(config: &OutboundConfig) -> (r: Result<Self, &'static str>)
        ensures
            match (config.settings.address, config.settings.port) {
                (Some(a), Some(p)) => r is Ok && ({
                    let o = r->Ok_0;
                    let s = config.settings;
                    &&& o.tag@ == config.tag@
                    &&& o.server_addr@ == a@
                    &&& o.server_port == p
                    &&& o.auth_str@ == (match (s.password, s.uuid) {
                        (Some(pw), _) => pw@,
                        (None, Some(u)) => u@,
                        (None, None) => Seq::<char>::empty(),
                    })
                    &&& opt_view(o.obfs) == opt_view(s.obfs)
                    &&& opt_view(o.obfs_password) == opt_view(s.obfs_password)
                    &&& o.up_mbps == (match s.up_mbps {
                        Some(u) => u,
                        None => 100u64,
                    })
                    &&& o.down_mbps == (match s.down_mbps {
                        Some(d) => d,
                        None => 200u64,
                    })
                    &&& o.sni@ == (match s.sni {
                        Some(n) => n@,
                        None => a@,
                    })
                    &&& o.allow_insecure == s.allow_insecure
                }),
                _ => r is Err,
            },
    {
        let settings = &config.settings;
        let address = match &settings.address {
            Some(a) => a,
            None => return Err("hysteria v1: address is required"),
        };
        let port = match settings.port {
            Some(p) => p,
            None => return Err("hysteria v1: port is required"),
        };
        let auth_str = match &settings.password {
            Some(pw) => pw.clone(),
            None => match &settings.uuid {
                Some(u) => u.clone(),
                None => String::new(),
            },
        };
        let sni = match &settings.sni {
            Some(n) => n.clone(),
            None => address.clone(),
        };
        Ok(HysteriaV1Outbound {
            tag: config.tag.clone(),
            server_addr: address.clone(),
            server_port: port,
            auth_str,
            obfs: clone_opt(&settings.obfs),
            obfs_password: clone_opt(&settings.obfs_password),
            up_mbps: match settings.up_mbps {
                Some(u) => u,
                None => 100,
            },
            down_mbps: match settings.down_mbps {
                Some(d) => d,
                None => 200,
            },
            sni,
            allow_insecure: settings.allow_insecure,
        })
    }

    pub fn tag(&self) -> (r: &str)
        ensures
            r@ == self.tag@,
    {
        self.tag.as_str()
    }

    /// The authentication request of this outbound.
    pub fn build_auth_request(&self) -> (r: Vec<u8>)
        ensures
            r@ == auth_request_bytes(self.up_mbps, self.down_mbps, encode_utf8(self.auth_str@)),
    {
        let mut buf: Vec<u8> = Vec::new();
        buf.push(HYSTERIA_V1_VERSION);
        push_be(&mut buf, self.up_mbps % 0x1_0000_0000, 4);
        push_be(&mut buf, self.down_mbps % 0x1_0000_0000, 4);
        let auth = self.auth_str.as_str().as_bytes();
        push_be(&mut buf, (auth.len() % 0x1_0000) as u64, 2);
        push_all(&mut buf, auth);
        proof {
            assert(buf@ =~= auth_request_bytes(
                self.up_mbps,
                self.down_mbps,
                encode_utf8(self.auth_str@),
            ));
        }
        buf
    }

    /// Reads the authentication response: success when its first byte is 0; an empty
    /// response and any other status are errors.
    pub fn parse_auth_response(data: &[u8]) -> (r: Result<bool, &'static str>)
        ensures
            r is Ok <==> (data@.len() > 0 && data@[0] == 0),
            r is Ok ==> r->Ok_0,
    {
        if data.len() == 0 {
            return Err("hysteria v1: empty auth response");
        }
        if data[0] == HYSTERIA_V1_STATUS_OK {
            Ok(true)
        } else {
            Err("hysteria v1 auth failed")
        }
    }

    /// The request for a TCP stream: the TCP command and the SOCKS-style address.
    pub fn encode_tcp_request(addr: &Address) -> (r: Vec<u8>)
        ensures
            r@ == seq![HYSTERIA_V1_CMD_TCP] + socks_addr_bytes(*addr),
    {
        let mut buf: Vec<u8> = Vec::new();
        buf.push(HYSTERIA_V1_CMD_TCP);
        push_socks_addr(&mut buf, addr);
        proof {
            assert(buf@ =~= seq![HYSTERIA_V1_CMD_TCP] + socks_addr_bytes(*addr));
        }
        buf
    }

    /// Salamander obfuscation: XORs `data` with the password repeated.
    pub fn apply_obfs(data: &mut Vec<u8>, password: &str)
        ensures
            final(data)@ == obfs_spec(old(data)@, encode_utf8(password@)),
    {
        let key = password.as_bytes();
        if key.len() == 0 {
            return;
        }
        let mut i: usize = 0;
        while i < data.len()
            invariant
                key@.len() > 0,
                key@ == encode_utf8(password@),
                data@.len() == old(data)@.len(),
                i <= data@.len(),
                forall|k: int| 0 <= k < i ==> data@[k] == old(data)@[k] ^ key@[k % key@.len() as int],
                forall|k: int| i <= k < data@.len() ==> data@[k] == old(data)@[k],
            decreases data@.len() - i,
        {
            let b = data[i] ^ key[i % key.len()];
            data.set(i, b);
            i = i + 1;
        }
        proof {
            assert(data@ =~= obfs_spec(old(data)@, key@));
        }
    }
}

/// Obfuscating twice with the same password gives the data back.
pub proof fn lemma_obfs_involution(data: Seq<u8>, key: Seq<u8>)
    ensures
        obfs_spec(obfs_spec(data, key), key) == data,
{
    if key.len() > 0 {
        let once = obfs_spec(data, key);
        let twice = obfs_spec(once, key);
        assert forall|i: int| 0 <= i < data.len() implies twice[i] == data[i] by {
            let a = data[i];
            let k = key[i % key.len() as int];
            assert((a ^ k) ^ k == a) by (bit_vector);
        }
        assert(twice =~= data);
    }
}

/// With a non-empty key the obfuscation XORs byte `i` of the data with byte
/// `i mod key.len()` of the key: the first `key.len()` output bytes are the data
/// XOR the key itself, and the mask repeats with the key's period.
pub proof fn lemma_obfs_keystream(data: Seq<u8>, key: Seq<u8>)
    requires
        key.len() > 0,
    ensures
        obfs_spec(data, key).len() == data.len(),
        forall|i: int| 0 <= i < data.len() && i < key.len() ==> #[trigger] obfs_spec(data, key)[i] == data[i] ^ key[i],
        forall|i: int| 0 <= i < data.len() - key.len() ==>
            (#[trigger] obfs_spec(data, key)[i + key.len()]) ^ data[i + key.len()] == obfs_spec(data, key)[i] ^ data[i],
{
    let n = key.len() as int;
    let o = obfs_spec(data, key);
    assert forall|i: int| 0 <= i < data.len() && i < key.len() implies #[trigger] o[i] == data[i] ^ key[i] by {
        vstd::arithmetic::div_mod::lemma_small_mod(i as nat, n as nat);
    }
    assert forall|i: int| 0 <= i < data.len() - key.len() implies
        (#[trigger] o[i + key.len()]) ^ data[i + key.len()] == o[i] ^ data[i] by {
        vstd::arithmetic::div_mod::lemma_mod_add_multiples_vanish(i, n);
        let a = data[i + n];
        let b = data[i];
        let k = key[i % n];
        assert(o[i + n] == a ^ k);
        assert(o[i] == b ^ k);
        assert((a ^ k) ^ a == (b ^ k) ^ b) by (bit_vector);
    }
}

} // verus!
