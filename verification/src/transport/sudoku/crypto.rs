//! The AEAD layer above the obfuscation: frames of a two-byte big-endian length and
//! the sealed payload, under AES-128-GCM, ChaCha20-Poly1305 or no cipher at all.

use vstd::prelude::*;
use vstd::utf8::encode_utf8;

use crate::address::push_all;
use crate::bytes_util::{be_bytes, le_bytes, lemma_le_roundtrip, pow256, push_be, push_le, take12, take16};
use crate::crypto::{
    aes128gcm_decrypt, aes128gcm_encrypt, aes128gcm_seal, chacha20poly1305_decrypt, chacha20poly1305_encrypt,
    chacha20poly1305_seal, sha256, sha256_hash,
};
use crate::text::str_eq;

verus! {

/// The longest payload of one frame.
pub const MAX_PAYLOAD_SIZE: usize = 16384;

/// The cipher of the AEAD layer.
#[derive(Debug, Clone, Copy, PartialEq, Eq, Structural)]
pub enum AeadKind {
    Aes128Gcm,
    ChaCha20Poly1305,
    Plain,
}

/// The AEAD layer's state: its cipher and key, and the counters of frames written
/// and read.
pub struct SudokuAead {
    pub kind: AeadKind,
    /// The first 16 (AES) or 32 (ChaCha20) bytes of the SHA-256 digest of the key
    /// material; empty without a cipher.
    pub key: Vec<u8>,
    pub write_nonce: u64,
    pub read_nonce: u64,
}

/// The nonce of frame `counter`: the counter little-endian, then four zero bytes.
pub open spec fn frame_nonce(counter: u64) -> Seq<u8> {
    le_bytes(counter as nat, 8) + seq![0u8, 0u8, 0u8, 0u8]
}

/// The nonce of a counter.
fn make_nonce(counter: u64) -> (r: [u8; 12])
    ensures
        r@ == frame_nonce(counter),
{
    let mut v: Vec<u8> = Vec::new();
    push_le(&mut v, counter, 8);
    v.push(0);
    v.push(0);
    v.push(0);
    v.push(0);
    proof {
        reveal_with_fuel(pow256, 9);
        lemma_le_roundtrip(counter as nat, 8);
        assert(v@ =~= frame_nonce(counter));
    }
    take12(v.as_slice())
}

/// The key of a cipher: the first `len` bytes of the SHA-256 digest of the material.
pub open spec fn derived_key(material: Seq<char>, len: nat) -> Seq<u8> {
    sha256_hash(encode_utf8(material)).subrange(0, len as int)
}

fn derive_key(material: &str, len: usize) -> (r: Vec<u8>)
    requires
        len <= 32,
    ensures
        r@ == derived_key(material@, len as nat),
        r@.len() == len,
{
    let digest = sha256(material.as_bytes());
    let mut out: Vec<u8> = Vec::new();
    let mut i: usize = 0;
    while i < len
        invariant
            i <= len <= 32,
            out@ == digest@.subrange(0, i as int),
        decreases len - i,
    {
        out.push(digest[i]);
        proof {
            assert(out@ =~= digest@.subrange(0, i + 1));
        }
        i = i + 1;
    }
    out
}

fn key16(v: &Vec<u8>) -> (r: [u8; 16])
    requires
        v@.len() == 16,
    ensures
        r@ == v@,
{
    let r = take16(v.as_slice());
    proof {
        assert(v@.subrange(0, 16) =~= v@);
    }
    r
}

fn key32(v: &Vec<u8>) -> (r: [u8; 32])
    requires
        v@.len() == 32,
    ensures
        r@ == v@,
{
    let r = crate::bytes_util::take32_at(v.as_slice(), 0);
    proof {
        assert(v@.subrange(0, 32) =~= v@);
    }
    r
}

/// A sealed frame of `payload` under the state's cipher with nonce `counter`: the
/// big-endian length of what follows, then the payload sealed (or as it is).
pub open spec fn sealed_frame(kind: AeadKind, key: Seq<u8>, counter: u64, payload: Seq<u8>) -> Seq<u8> {
    let body = match kind {
        AeadKind::Plain => payload,
        AeadKind::Aes128Gcm => aes128gcm_seal(key, frame_nonce(counter), payload),
        AeadKind::ChaCha20Poly1305 => chacha20poly1305_seal(key, frame_nonce(counter), Seq::empty(), payload),
    };
    be_bytes((body.len() % 65536) as nat, 2) + body
}

impl SudokuAead {
    /// The key matches the cipher.
    pub open spec fn wf(&self) -> bool {
        match self.kind {
            AeadKind::Aes128Gcm => self.key@.len() == 16,
            AeadKind::ChaCha20Poly1305 => self.key@.len() == 32,
            AeadKind::Plain => true,
        }
    }

    /// The layer for `method` ("aes-128-gcm", "chacha20-poly1305" or "none"), its key
    /// derived from `key_material`; other methods are refused.
    pub fn new(key_material: &str, method: &str) -> (r: Result<Self, &'static str>)
        ensures
            r is Ok <==> (method@ == "aes-128-gcm"@ || method@ == "chacha20-poly1305"@ || method@ == "none"@),
            r matches Ok(a) ==> a.wf() && a.write_nonce == 0 && a.read_nonce == 0 && (if method@ == "aes-128-gcm"@ {
                a.kind == AeadKind::Aes128Gcm && a.key@ == derived_key(key_material@, 16)
            } else if method@ == "chacha20-poly1305"@ {
                a.kind == AeadKind::ChaCha20Poly1305 && a.key@ == derived_key(key_material@, 32)
            } else {
                a.kind == AeadKind::Plain
            }),
    {
        if str_eq(method, "aes-128-gcm") {
            let key = derive_key(key_material, 16);
            Ok(SudokuAead { kind: AeadKind::Aes128Gcm, key, write_nonce: 0, read_nonce: 0 })
        } else if str_eq(method, "chacha20-poly1305") {
            let key = derive_key(key_material, 32);
            Ok(SudokuAead { kind: AeadKind::ChaCha20Poly1305, key, write_nonce: 0, read_nonce: 0 })
        } else if str_eq(method, "none") {
            Ok(SudokuAead { kind: AeadKind::Plain, key: Vec::new(), write_nonce: 0, read_nonce: 0 })
        } else {
            Err("unsupported AEAD method")
        }
    }

    /// Seals the first (at most 16384) bytes of `buf` as one frame; gives the frame and
    /// how many bytes it took. A cipher's write counter advances by one.
    pub fn seal(&mut self, buf: &[u8]) -> (r: (Vec<u8>, usize))
        requires
            old(self).wf(),
            old(self).kind != AeadKind::Plain ==> old(self).write_nonce < u64::MAX,
        ensures
            final(self).wf(),
            final(self).kind == old(self).kind && final(self).key@ == old(self).key@,
            final(self).read_nonce == old(self).read_nonce,
            final(self).write_nonce == if old(self).kind == AeadKind::Plain {
                old(self).write_nonce
            } else {
                (old(self).write_nonce + 1) as u64
            },
            r.1 == if buf@.len() > MAX_PAYLOAD_SIZE { MAX_PAYLOAD_SIZE } else { buf@.len() as usize },
            r.0@ == sealed_frame(old(self).kind, old(self).key@, old(self).write_nonce, buf@.subrange(0, r.1 as int)),
    {
        let n = if buf.len() > MAX_PAYLOAD_SIZE { MAX_PAYLOAD_SIZE } else { buf.len() };
        let payload = crate::bytes_util::copy_range(buf, 0, n);
        let body = match self.kind {
            AeadKind::Plain => payload,
            AeadKind::Aes128Gcm => {
                let nonce = make_nonce(self.write_nonce);
                self.write_nonce = self.write_nonce + 1;
                let key = key16(&self.key);
                match aes128gcm_encrypt(&key, &nonce, payload.as_slice()) {
                    Some(c) => c,
                    None => {
                        proof {
                            assert(false);
                        }
                        Vec::new()
                    },
                }
            },
            AeadKind::ChaCha20Poly1305 => {
                let nonce = make_nonce(self.write_nonce);
                self.write_nonce = self.write_nonce + 1;
                let key = key32(&self.key);
                let empty: Vec<u8> = Vec::new();
                proof {
                    assert(empty@ =~= Seq::<u8>::empty());
                }
                match chacha20poly1305_encrypt(&key, &nonce, empty.as_slice(), payload.as_slice()) {
                    Some(c) => c,
                    None => {
                        proof {
                            assert(false);
                        }
                        Vec::new()
                    },
                }
            },
        };
        let mut frame: Vec<u8> = Vec::new();
        push_be(&mut frame, (body.len() % 65536) as u64, 2);
        push_all(&mut frame, body.as_slice());
        (frame, n)
    }

    /// Opens one frame's body; a cipher's read counter advances by one whether or not
    /// it opens.
    pub fn open(&mut self, frame: &[u8]) -> (r: Result<Vec<u8>, &'static str>)
        requires
            old(self).wf(),
            old(self).kind != AeadKind::Plain ==> old(self).read_nonce < u64::MAX,
        ensures
            final(self).wf(),
            final(self).kind == old(self).kind && final(self).key@ == old(self).key@,
            final(self).write_nonce == old(self).write_nonce,
            final(self).read_nonce == if old(self).kind == AeadKind::Plain {
                old(self).read_nonce
            } else {
                (old(self).read_nonce + 1) as u64
            },
            old(self).kind == AeadKind::Plain ==> (r matches Ok(p) && p@ == frame@),
            old(self).kind == AeadKind::Aes128Gcm ==> (r matches Ok(p) ==> aes128gcm_seal(old(self).key@, frame_nonce(old(self).read_nonce), p@) == frame@),
            old(self).kind == AeadKind::ChaCha20Poly1305 ==> (r matches Ok(p) ==> chacha20poly1305_seal(old(self).key@, frame_nonce(old(self).read_nonce), Seq::empty(), p@) == frame@),
            old(self).kind == AeadKind::Aes128Gcm && (exists|p: Seq<u8>| p.len() <= crate::crypto::AES_GCM_P_MAX
                && #[trigger] aes128gcm_seal(old(self).key@, frame_nonce(old(self).read_nonce), p) == frame@) ==> r is Ok,
            old(self).kind == AeadKind::ChaCha20Poly1305 && (exists|p: Seq<u8>| p.len() <= crate::crypto::CHACHA_P_MAX
                && #[trigger] chacha20poly1305_seal(old(self).key@, frame_nonce(old(self).read_nonce), Seq::empty(), p) == frame@) ==> r is Ok,
    {
        match self.kind {
            AeadKind::Plain => Ok(crate::bytes_util::copy_range(frame, 0, frame.len())),
            AeadKind::Aes128Gcm => {
                let nonce = make_nonce(self.read_nonce);
                self.read_nonce = self.read_nonce + 1;
                let key = key16(&self.key);
                match aes128gcm_decrypt(&key, &nonce, frame) {
                    Some(p) => Ok(p),
                    None => Err("AEAD decrypt failed"),
                }
            },
            AeadKind::ChaCha20Poly1305 => {
                let nonce = make_nonce(self.read_nonce);
                self.read_nonce = self.read_nonce + 1;
                let key = key32(&self.key);
                let empty: Vec<u8> = Vec::new();
                proof {
                    assert(empty@ =~= Seq::<u8>::empty());
                }
                match chacha20poly1305_decrypt(&key, &nonce, empty.as_slice(), frame) {
                    Some(p) => Ok(p),
                    None => Err("AEAD decrypt failed"),
                }
            },
        }
    }
}

/// The length of a frame from its two-byte header; zero and lengths past the payload
/// limit, its tag and 64 bytes of slack are refused.
pub fn check_frame_len(header: [u8; 2]) -> (r: Result<usize, &'static str>)
    ensures
        ({
            let n = header@[0] as int * 256 + header@[1] as int;
            &&& r is Ok <==> (n != 0 && n <= MAX_PAYLOAD_SIZE + 16 + 64)
            &&& r matches Ok(m) ==> m == n
        }),
{
    let n = (header[0] as usize) * 256 + header[1] as usize;
    if n == 0 || n > MAX_PAYLOAD_SIZE + 16 + 64 {
        return Err("invalid frame length");
    }
    Ok(n)
}

} // verus!
