//! Shadowsocks AEAD ciphers, key derivation and the per-direction chunk cipher.

use vstd::prelude::*;
use vstd::utf8::encode_utf8;

use crate::address::push_all;
use crate::bytes_util::take16;
use crate::crypto::{
    aes128gcm_decrypt, aes128gcm_encrypt, aes128gcm_seal, aes256gcm_decrypt, aes256gcm_encrypt,
    aes256gcm_seal, chacha20poly1305_decrypt, chacha20poly1305_encrypt, chacha20poly1305_seal,
    hkdf_sha1, hkdf_sha1_okm, md5, md5_hash, AES_GCM_P_MAX, CHACHA_P_MAX,
};
use crate::text::{lower, lower_eq};

verus! {

/// The AEAD cipher of a connection.
#[derive(Debug, Clone, Copy, PartialEq, Eq, Structural)]
pub enum CipherKind {
    Aes128Gcm,
    Aes256Gcm,
    ChaCha20Poly1305,
}

/// The cipher a method name gives, case-insensitively.
pub open spec fn cipher_of(s: Seq<char>) -> Option<CipherKind> {
    let l = lower(s);
    if l == "aes-128-gcm"@ {
        Some(CipherKind::Aes128Gcm)
    } else if l == "aes-256-gcm"@ {
        Some(CipherKind::Aes256Gcm)
    } else if l == "chacha20-ietf-poly1305"@ || l == "chacha20-poly1305"@ {
        Some(CipherKind::ChaCha20Poly1305)
    } else {
        None
    }
}

impl CipherKind {
    pub fn from_str(s: &str) -> (r: Result<Self, &'static str>)
        ensures
            match r {
                Ok(k) => cipher_of(s@) == Some(k),
                Err(_) => cipher_of(s@) is None,
            },
    {
        if lower_eq(s, "aes-128-gcm") {
            Ok(CipherKind::Aes128Gcm)
        } else if lower_eq(s, "aes-256-gcm") {
            Ok(CipherKind::Aes256Gcm)
        } else if lower_eq(s, "chacha20-ietf-poly1305") || lower_eq(s, "chacha20-poly1305") {
            Ok(CipherKind::ChaCha20Poly1305)
        } else {
            Err("unsupported shadowsocks cipher")
        }
    }

    pub open spec fn spec_key_len(self) -> usize {
        match self {
            CipherKind::Aes128Gcm => 16,
            CipherKind::Aes256Gcm => 32,
            CipherKind::ChaCha20Poly1305 => 32,
        }
    }

    pub fn key_len(&self) -> (r: usize)
        ensures
            r == self.spec_key_len(),
    {
        match self {
            CipherKind::Aes128Gcm => 16,
            CipherKind::Aes256Gcm => 32,
            CipherKind::ChaCha20Poly1305 => 32,
        }
    }

    /// The salt is as long as the key.
    pub fn salt_len(&self) -> (r: usize)
        ensures
            r == self.spec_key_len(),
    {
        self.key_len()
    }

    pub fn tag_len(&self) -> (r: usize)
        ensures
            r == 16,
    {
        16
    }
}

/// OpenSSL's `EVP_BytesToKey` with MD5 and one round: the `k`-th block is the MD5
/// of the previous block (none for the first) followed by the password.
pub open spec fn evp_block(password: Seq<u8>, k: nat) -> Seq<u8>
    decreases k,
{
    if k == 0 {
        md5_hash(password)
    } else {
        md5_hash(evp_block(password, (k - 1) as nat) + password)
    }
}

/// The first `k` blocks, joined.
pub open spec fn evp_stream(password: Seq<u8>, k: nat) -> Seq<u8>
    decreases k,
{
    if k == 0 {
        Seq::empty()
    } else {
        evp_stream(password, (k - 1) as nat) + evp_block(password, (k - 1) as nat)
    }
}

/// The key: the first `key_len` bytes of the joined blocks, taking as many 16-byte
/// blocks as needed.
pub open spec fn evp_key(password: Seq<u8>, key_len: nat) -> Seq<u8> {
    evp_stream(password, (key_len + 15) / 16).subrange(0, key_len as int)
}

proof fn lemma_evp_stream_len(password: Seq<u8>, k: nat)
    requires
        forall|j: nat| j < k ==> (#[trigger] evp_block(password, j)).len() == 16,
    ensures
        evp_stream(password, k).len() == 16 * k,
    decreases k,
{
    if k > 0 {
        lemma_evp_stream_len(password, (k - 1) as nat);
    }
}

pub fn evp_bytes_to_key(password: &[u8], key_len: usize) -> (r: Vec<u8>)
    requires
        key_len <= usize::MAX - 16,
    ensures
        r@ == evp_key(password@, key_len as nat),
{
    let mut key: Vec<u8> = Vec::new();
    let mut prev: Vec<u8> = Vec::new();
    let mut k: usize = 0;
    while key.len() < key_len
        invariant
            key_len <= usize::MAX - 16,
            key@ == evp_stream(password@, k as nat),
            key@.len() == 16 * k,
            k > 0 ==> prev@ == evp_block(password@, (k - 1) as nat),
            key@.len() < key_len + 16,
        decreases key_len + 16 - key@.len(),
    {
        let mut input: Vec<u8> = Vec::new();
        if k > 0 {
            push_all(&mut input, prev.as_slice());
        }
        push_all(&mut input, password);
        let hash = md5(input.as_slice());
        proof {
            if k == 0 {
                assert(input@ =~= password@);
            }
        }
        push_all(&mut key, hash.as_slice());
        prev = vstd::slice::slice_to_vec(hash.as_slice());
        k = k + 1;
    }
    proof {
        assert(k as nat == (key_len as nat + 15) / 16) by (nonlinear_arith)
            requires
                16 * k >= key_len,
                16 * k < key_len + 16,
        ;
    }
    key.truncate(key_len);
    proof {
        assert(key@ =~= evp_stream(password@, k as nat).subrange(0, key_len as int));
    }
    key
}

/// The per-connection subkey: HKDF-SHA1 of the key with the salt and info "ss-subkey".
pub fn derive_subkey(key: &[u8], salt: &[u8], key_len: usize) -> (r: Result<Vec<u8>, &'static str>)
    ensures
        r is Ok <==> key_len <= 5100,
        r matches Ok(v) ==> v@ == hkdf_sha1_okm(salt@, key@, encode_utf8("ss-subkey"@), key_len as nat) && v@.len() == key_len,
{
    match hkdf_sha1(salt, key, "ss-subkey".as_bytes(), key_len) {
        Some(v) => Ok(v),
        None => Err("HKDF expand failed"),
    }
}

/// A chunk sealed by a cipher.
pub open spec fn ss_seal(kind: CipherKind, key: Seq<u8>, nonce: Seq<u8>, pt: Seq<u8>) -> Seq<u8> {
    match kind {
        CipherKind::Aes128Gcm => aes128gcm_seal(key, nonce, pt),
        CipherKind::Aes256Gcm => aes256gcm_seal(key, nonce, pt),
        CipherKind::ChaCha20Poly1305 => chacha20poly1305_seal(key, nonce, Seq::empty(), pt),
    }
}

/// The longest plaintext a cipher seals.
pub open spec fn ss_fits(kind: CipherKind, len: nat) -> bool {
    match kind {
        CipherKind::ChaCha20Poly1305 => len <= CHACHA_P_MAX,
        _ => len <= AES_GCM_P_MAX,
    }
}

/// The nonce for counter `n`: its eight little-endian bytes, then four zeros.
pub open spec fn ss_nonce(n: u64) -> Seq<u8> {
    Seq::new(12, |j: int| if j < 8 { ((n as nat / pow2_8(j as nat)) % 256) as u8 } else { 0u8 })
}

/// `256` to the power `j`.
pub open spec fn pow2_8(j: nat) -> nat
    decreases j,
{
    if j == 0 {
        1
    } else {
        256 * pow2_8((j - 1) as nat)
    }
}

/// Seals and opens the chunks of one direction under a subkey, counting nonces.
pub struct AeadCipher {
    pub cipher_kind: CipherKind,
    pub key: Vec<u8>,
    pub nonce: u64,
}

fn copy32(v: &[u8]) -> (r: [u8; 32])
    requires
        v@.len() == 32,
    ensures
        r@ == v@,
{
    let mut a = [0u8; 32];
    let mut i: usize = 0;
    while i < 32
        invariant
            i <= 32,
            v@.len() == 32,
            forall|k: int| 0 <= k < i ==> a@[k] == v@[k],
        decreases 32 - i,
    {
        a[i] = v[i];
        i = i + 1;
    }
    proof {
        assert(a@ =~= v@);
    }
    a
}

impl AeadCipher {
    pub closed spec fn spec_kind(&self) -> CipherKind {
        self.cipher_kind
    }

    pub closed spec fn spec_key(&self) -> Seq<u8> {
        self.key@
    }

    pub closed spec fn spec_nonce(&self) -> u64 {
        self.nonce
    }

    /// The subkey has the length the cipher wants.
    pub open spec fn wf(&self) -> bool {
        self.spec_key().len() == self.spec_kind().spec_key_len()
    }

    pub fn new(cipher_kind: CipherKind, subkey: Vec<u8>) -> (r: Self)
        ensures
            r.spec_kind() == cipher_kind,
            r.spec_key() == subkey@,
            r.spec_nonce() == 0,
    {
        AeadCipher { cipher_kind, key: subkey, nonce: 0 }
    }

    pub fn nonce_bytes(&self) -> (r: [u8; 12])
        ensures
            r@ == ss_nonce(self.spec_nonce()),
    {
        let mut nonce = [0u8; 12];
        let mut n = self.nonce;
        let mut i: usize = 0;
        assert(self.nonce as nat / pow2_8(0) == self.nonce as nat) by {
            assert(pow2_8(0) == 1);
            vstd::arithmetic::div_mod::lemma_div_basics(self.nonce as int);
        }
        while i < 8
            invariant
                i <= 8,
                nonce@.len() == 12,
                n as nat == self.nonce as nat / pow2_8(i as nat),
                forall|k: int| 0 <= k < i ==> nonce@[k] == ((self.nonce as nat / pow2_8(k as nat)) % 256) as u8,
                forall|k: int| 8 <= k < 12 ==> nonce@[k] == 0u8,
            decreases 8 - i,
        {
            nonce[i] = (n % 256) as u8;
            proof {
                assert(self.nonce as nat / pow2_8((i + 1) as nat) == (self.nonce as nat / pow2_8(i as nat)) / 256) by {
                    lemma_pow2_8_pos(i as nat);
                    vstd::arithmetic::div_mod::lemma_div_denominator(self.nonce as int, pow2_8(i as nat) as int, 256);
                    assert(pow2_8((i + 1) as nat) == 256 * pow2_8(i as nat));
                    vstd::arithmetic::mul::lemma_mul_is_commutative(256, pow2_8(i as nat) as int);
                }
            }
            n = n / 256;
            i = i + 1;
        }
        proof {
            assert(nonce@ =~= ss_nonce(self.nonce));
        }
        nonce
    }

    /// Seals `plaintext` under the current nonce, then counts it.
    pub fn encrypt(&mut self, plaintext: &[u8]) -> (r: Result<Vec<u8>, &'static str>)
        requires
            old(self).wf(),
            old(self).spec_nonce() < u64::MAX,
        ensures
            final(self).wf(),
            final(self).spec_kind() == old(self).spec_kind(),
            final(self).spec_key() == old(self).spec_key(),
            final(self).spec_nonce() == old(self).spec_nonce() + 1,
            r is Ok <==> ss_fits(old(self).spec_kind(), plaintext@.len()),
            r matches Ok(v) ==> v@ == ss_seal(old(self).spec_kind(), old(self).spec_key(), ss_nonce(old(self).spec_nonce()), plaintext@)
                && v@.len() == plaintext@.len() + 16,
    {
        let nonce = self.nonce_bytes();
        self.nonce = self.nonce + 1;
        let r = match self.cipher_kind {
            CipherKind::Aes128Gcm => {
                let k = take16(self.key.as_slice());
                proof {
                    assert(k@ =~= self.key@);
                }
                aes128gcm_encrypt(&k, &nonce, plaintext)
            },
            CipherKind::Aes256Gcm => {
                let k = copy32(self.key.as_slice());
                aes256gcm_encrypt(&k, &nonce, plaintext)
            },
            CipherKind::ChaCha20Poly1305 => {
                let k = copy32(self.key.as_slice());
                chacha20poly1305_encrypt(&k, &nonce, Vec::<u8>::new().as_slice(), plaintext)
            },
        };
        match r {
            Some(v) => Ok(v),
            None => Err("AEAD encrypt failed"),
        }
    }

    /// Opens a sealed chunk. A chunk shorter than the tag is refused without
    /// counting; otherwise the nonce is counted whatever the outcome.
    pub fn decrypt(&mut self, ciphertext_with_tag: &[u8]) -> (r: Result<Vec<u8>, &'static str>)
        requires
            old(self).wf(),
            old(self).spec_nonce() < u64::MAX,
        ensures
            final(self).wf(),
            final(self).spec_kind() == old(self).spec_kind(),
            final(self).spec_key() == old(self).spec_key(),
            final(self).spec_nonce() == (if ciphertext_with_tag@.len() < 16 { old(self).spec_nonce() as int } else { old(self).spec_nonce() + 1 }),
            ciphertext_with_tag@.len() < 16 ==> r is Err,
            r matches Ok(v) ==> ss_seal(old(self).spec_kind(), old(self).spec_key(), ss_nonce(old(self).spec_nonce()), v@) == ciphertext_with_tag@
                && v@.len() + 16 == ciphertext_with_tag@.len()
                && (forall|p: Seq<u8>| #[trigger] ss_seal(old(self).spec_kind(), old(self).spec_key(), ss_nonce(old(self).spec_nonce()), p) == ciphertext_with_tag@ ==> p == v@),
            r is Ok <== (ciphertext_with_tag@.len() >= 16 && exists|p: Seq<u8>| ss_fits(old(self).spec_kind(), p.len())
                && #[trigger] ss_seal(old(self).spec_kind(), old(self).spec_key(), ss_nonce(old(self).spec_nonce()), p) == ciphertext_with_tag@),
    {
        if ciphertext_with_tag.len() < 16 {
            return Err("ciphertext too short");
        }
        let nonce = self.nonce_bytes();
        self.nonce = self.nonce + 1;
        let r = match self.cipher_kind {
            CipherKind::Aes128Gcm => {
                let k = take16(self.key.as_slice());
                proof {
                    assert(k@ =~= self.key@);
                }
                aes128gcm_decrypt(&k, &nonce, ciphertext_with_tag)
            },
            CipherKind::Aes256Gcm => {
                let k = copy32(self.key.as_slice());
                aes256gcm_decrypt(&k, &nonce, ciphertext_with_tag)
            },
            CipherKind::ChaCha20Poly1305 => {
                let k = copy32(self.key.as_slice());
                chacha20poly1305_decrypt(&k, &nonce, Vec::<u8>::new().as_slice(), ciphertext_with_tag)
            },
        };
        match r {
            Some(v) => Ok(v),
            None => Err("AEAD decrypt failed"),
        }
    }
}

proof fn lemma_pow2_8_pos(j: nat)
    ensures
        pow2_8(j) > 0,
    decreases j,
{
    if j > 0 {
        lemma_pow2_8_pos((j - 1) as nat);
    }
}

} // verus!
