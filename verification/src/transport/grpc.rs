use vstd::prelude::*;

use crate::address::push_all;
use crate::bytes_util::{be32, be_bytes, be_value, copy_range, lemma_be_roundtrip, pow256, push_be};
use crate::config::TlsConfig;

verus! {

/// The gRPC service name used when none is configured.
pub const DEFAULT_SERVICE_NAME: &'static str = "GunService";

/// gRPC ("gun") streams over HTTP/2.
pub struct GrpcTransport {
    pub server_addr: String,
    pub server_port: u16,
    pub service_name: String,
    pub host: String,
    pub tls_config: Option<TlsConfig>,
}

impl GrpcTransport {
    /// The host defaults to the server address and the service name to "GunService".
    pub fn new(
        server_addr: String,
        server_port: u16,
        service_name: Option<String>,
        host: Option<String>,
        tls_config: Option<TlsConfig>,
    ) -> (r: Self)
        ensures
            r.server_addr@ == server_addr@,
            r.server_port == server_port,
            r.service_name@ == (match service_name {
                Some(s) => s@,
                None => DEFAULT_SERVICE_NAME@,
            }),
            r.host@ == (match host {
                Some(h) => h@,
                None => server_addr@,
            }),
            r.tls_config == tls_config,
    {
        let host = match host {
            Some(h) => h,
            None => server_addr.clone(),
        };
        let service_name = match service_name {
            Some(s) => s,
            None => DEFAULT_SERVICE_NAME.to_string(),
        };
        GrpcTransport { server_addr, server_port, service_name, host, tls_config }
    }
}

/// A gRPC message: a zero "compressed" flag, the payload's length in four
/// big-endian bytes (modulo 2^32), then the payload.
pub open spec fn grpc_frame(payload: Seq<u8>) -> Seq<u8> {
    seq![0u8] + be_bytes(payload.len(), 4) + payload
}

/// One message framed whole.
pub fn encode_frame(payload: &[u8]) -> (r: Vec<u8>)
    ensures
        r@ == grpc_frame(payload@),
{
    let mut out: Vec<u8> = Vec::new();
    out.push(0x00);
    push_be(&mut out, payload.len() as u64, 4);
    push_all(&mut out, payload);
    proof {
        assert(out@ =~= grpc_frame(payload@));
    }
    out
}

/// The smaller of two numbers.
pub open spec fn min_int(a: int, b: int) -> int {
    if a < b { a } else { b }
}

/// Frames as much of `buf` as a send window of `capacity` bytes allows: nothing
/// while the window cannot hold the header and one byte, else the first
/// `min(capacity - 5, buf.len())` bytes, with that count.
pub fn frame_for_capacity(buf: &[u8], capacity: usize) -> (r: Option<(Vec<u8>, usize)>)
    ensures
        capacity < 6 ==> r is None,
        capacity >= 6 ==> (r matches Some((f, n)) && n == min_int(capacity - 5, buf@.len() as int) && f@ == grpc_frame(
            buf@.subrange(0, n as int),
        )),
{
    if capacity < 6 {
        return None;
    }
    let n = if capacity - 5 < buf.len() { capacity - 5 } else { buf.len() };
    let part = copy_range(buf, 0, n);
    let f = encode_frame(part.as_slice());
    Some((f, n))
}

/// What one decoding step takes from the front of the received bytes: the
/// payload of the first message and what remains, once the message is complete.
pub open spec fn decode_step(buf: Seq<u8>) -> Option<(Seq<u8>, Seq<u8>)> {
    if buf.len() < 5 {
        None
    } else {
        let n = be32(buf, 1);
        if buf.len() < 5 + n {
            None
        } else {
            Some((buf.subrange(5, 5 + n), buf.subrange(5 + n, buf.len() as int)))
        }
    }
}

/// A message followed by anything decodes to its payload, leaving what followed.
pub proof fn lemma_frame_decodes(payload: Seq<u8>, rest: Seq<u8>)
    requires
        payload.len() < 0x1_0000_0000,
    ensures
        decode_step(grpc_frame(payload) + rest) == Some((payload, rest)),
{
    let b = grpc_frame(payload) + rest;
    reveal_with_fuel(pow256, 5);
    lemma_be_roundtrip(payload.len(), 4);
    let h = be_bytes(payload.len(), 4);
    reveal_with_fuel(be_value, 5);
    assert(h.drop_last().drop_last().drop_last().drop_last() =~= Seq::<u8>::empty());
    assert(be_value(h) == be32(h, 0));
    assert(b.subrange(1, 5) =~= h);
    assert(be32(b, 1) == be32(h, 0));
    assert(b.subrange(5, 5 + payload.len() as int) =~= payload);
    assert(b.subrange(5 + payload.len() as int, b.len() as int) =~= rest);
}

/// The receiving side of a gRPC stream: bytes as they come, and payloads taken
/// out of complete messages, read from `out_pos` on.
pub struct GrpcDecoder {
    pub recv_buf: Vec<u8>,
    pub out_buf: Vec<u8>,
    pub out_pos: usize,
}

impl GrpcDecoder {
    pub open spec fn wf(&self) -> bool {
        self.out_pos <= self.out_buf@.len()
    }

    /// The decoded bytes not yet read.
    pub open spec fn pending(&self) -> Seq<u8> {
        self.out_buf@.subrange(self.out_pos as int, self.out_buf@.len() as int)
    }

    pub fn new() -> (r: Self)
        ensures
            r.wf(),
            r.recv_buf@ == Seq::<u8>::empty(),
            r.pending() == Seq::<u8>::empty(),
    {
        let r = GrpcDecoder { recv_buf: Vec::new(), out_buf: Vec::new(), out_pos: 0 };
        proof {
            assert(r.pending() =~= Seq::<u8>::empty());
        }
        r
    }

    /// Bytes from the HTTP/2 stream.
    pub fn feed(&mut self, data: &[u8])
        requires
            old(self).wf(),
        ensures
            final(self).wf(),
            final(self).recv_buf@ == old(self).recv_buf@ + data@,
            final(self).pending() == old(self).pending(),
    {
        push_all(&mut self.recv_buf, data);
    }

    /// Takes one complete message off the received bytes, if there is one, and
    /// appends its payload to what is waiting to be read.
    pub fn try_decode_frame(&mut self) -> (r: bool)
        requires
            old(self).wf(),
        ensures
            final(self).wf(),
            r == decode_step(old(self).recv_buf@) is Some,
            r ==> (decode_step(old(self).recv_buf@) matches Some((p, rest)) && final(self).pending() == old(
                self,
            ).pending() + p && final(self).recv_buf@ == rest),
            !r ==> final(self).pending() == old(self).pending() && final(self).recv_buf@ == old(self).recv_buf@,
    {
        let len = self.recv_buf.len();
        if len < 5 {
            return false;
        }
        let n64: u64 = (self.recv_buf[1] as u64) * 16777216 + (self.recv_buf[2] as u64) * 65536
            + (self.recv_buf[3] as u64) * 256 + (self.recv_buf[4] as u64);
        if ((len - 5) as u64) < n64 {
            return false;
        }
        let n = n64 as usize;
        let payload = copy_range(self.recv_buf.as_slice(), 5, 5 + n);
        let rest = copy_range(self.recv_buf.as_slice(), 5 + n, len);
        let ghost old_pending = self.pending();
        push_all(&mut self.out_buf, payload.as_slice());
        self.recv_buf = rest;
        proof {
            assert(self.pending() =~= old_pending + payload@);
        }
        true
    }

    /// Reads up to `max` decoded bytes; the buffer is emptied once all were read.
    pub fn read_out(&mut self, max: usize) -> (r: Vec<u8>)
        requires
            old(self).wf(),
        ensures
            final(self).wf(),
            r@ == old(self).pending().subrange(0, min_int(max as int, old(self).pending().len() as int)),
            final(self).pending() == old(self).pending().subrange(r@.len() as int, old(self).pending().len() as int),
            final(self).recv_buf@ == old(self).recv_buf@,
    {
        let avail = self.out_buf.len() - self.out_pos;
        let n = if max < avail { max } else { avail };
        let r = copy_range(self.out_buf.as_slice(), self.out_pos, self.out_pos + n);
        let ghost old_pending = self.pending();
        self.out_pos = self.out_pos + n;
        if self.out_pos >= self.out_buf.len() {
            self.out_buf = Vec::new();
            self.out_pos = 0;
        }
        proof {
            assert(r@ =~= old_pending.subrange(0, n as int));
            assert(self.pending() =~= old_pending.subrange(n as int, old_pending.len() as int));
        }
        r
    }
}

} // verus!
