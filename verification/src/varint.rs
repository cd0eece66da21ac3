use vstd::prelude::*;

use crate::bytes_util::{be_bytes, be_value, lemma_be_len, lemma_be_roundtrip, pow256, push_be};

verus! {

/// 2^62: QUIC variable-length integers hold values below this.
pub open spec fn varint_limit() -> nat {
    0x4000_0000_0000_0000
}

/// How many bytes the encoding of `v` takes (RFC 9000, section 16).
pub open spec fn varint_len(v: u64) -> nat {
    if v <= 63 {
        1
    } else if v <= 16383 {
        2
    } else if v <= 1073741823 {
        4
    } else {
        8
    }
}

/// The two-bit length prefix for an encoding of `n` bytes.
pub open spec fn varint_tag(n: nat) -> nat {
    if n == 1 {
        0
    } else if n == 2 {
        1
    } else if n == 4 {
        2
    } else {
        3
    }
}

/// The encoding of `v`: its shortest form, the length prefix in the top two bits.
/// Values of 2^62 and above lose their two top bits to the prefix.
pub open spec fn varint_encoding(v: u64) -> Seq<u8> {
    let n = varint_len(v);
    be_bytes(
        (v as nat % (64 * pow256((n - 1) as nat))) + varint_tag(n) * 64 * pow256((n - 1) as nat),
        n,
    )
}

/// The byte count that a first byte announces: 1, 2, 4 or 8.
pub open spec fn announced_len(first: u8) -> nat {
    if first < 64 {
        1
    } else if first < 128 {
        2
    } else if first < 192 {
        4
    } else {
        8
    }
}

/// The value and length of the varint at the start of `buf`: the announced number of
/// bytes, read big-endian with the prefix bits of the first byte cleared.
pub open spec fn varint_decoding(buf: Seq<u8>) -> Option<(u64, nat)> {
    if buf.len() == 0 {
        None
    } else {
        let n = announced_len(buf[0]);
        if buf.len() < n {
            None
        } else {
            Some(
                (
                    be_value(seq![(buf[0] % 64) as u8] + buf.subrange(1, n as int)) as u64,
                    n,
                ),
            )
        }
    }
}

/// Appends the encoding of `value`.
pub fn push_varint(out: &mut Vec<u8>, value: u64)
    ensures
        final(out)@ == old(out)@ + varint_encoding(value),
{
    proof {
        reveal_pows();
    }
    if value <= 63 {
        proof {
            vstd::arithmetic::div_mod::lemma_small_mod(value as nat, 64);
            assert(varint_len(value) == 1);
            assert(varint_tag(1) == 0);
            let p = pow256((1 - 1) as nat);
            assert(p == 1);
            assert(value as nat % (64 * p) == value as nat);
            assert(varint_encoding(value) == be_bytes(value as nat, 1));
        }
        push_be(out, value, 1);
    } else if value <= 16383 {
        proof {
            vstd::arithmetic::div_mod::lemma_small_mod(value as nat, 16384);
            assert(varint_encoding(value) == be_bytes((value + 0x4000) as nat, 2));
        }
        push_be(out, value + 0x4000, 2);
    } else if value <= 1073741823 {
        proof {
            vstd::arithmetic::div_mod::lemma_small_mod(value as nat, 0x4000_0000);
            assert(varint_len(value) == 4);
            let p = pow256((4 - 1) as nat);
            assert(p == 0x0100_0000);
            assert(64 * p == 0x4000_0000);
            assert(value as nat % (64 * p) == value as nat);
            assert(varint_tag(4) * 64 * p == 0x8000_0000);
            assert(varint_encoding(value) == be_bytes((value + 0x8000_0000) as nat, 4));
        }
        push_be(out, value + 0x8000_0000, 4);
    } else {
        let low = value % 0x4000_0000_0000_0000;
        proof {
            assert(varint_len(value) == 8);
            let p = pow256((8 - 1) as nat);
            assert(p == 0x0100_0000_0000_0000);
            assert(64 * p == 0x4000_0000_0000_0000);
            assert(varint_tag(8) * 64 * p == 0xC000_0000_0000_0000);
            assert(varint_encoding(value) == be_bytes((low + 0xC000_0000_0000_0000) as nat, 8));
        }
        push_be(out, low + 0xC000_0000_0000_0000, 8);
    }
}

proof fn reveal_pows()
    ensures
        pow256(0) == 1,
        pow256(1) == 256,
        pow256(3) == 0x0100_0000,
        pow256(7) == 0x0100_0000_0000_0000,
{
    assert(pow256(1) == 256 * pow256(0));
    assert(pow256(2) == 256 * pow256(1));
    assert(pow256(3) == 256 * pow256(2));
    assert(pow256(4) == 256 * pow256(3));
    assert(pow256(5) == 256 * pow256(4));
    assert(pow256(6) == 256 * pow256(5));
    assert(pow256(7) == 256 * pow256(6));
}

/// The number spelled by a byte in front of other bytes.
pub proof fn lemma_be_value_prepend(c: u8, s: Seq<u8>)
    ensures
        be_value(seq![c] + s) == c as nat * pow256(s.len()) + be_value(s),
    decreases s.len(),
{
    if s.len() == 0 {
        assert(seq![c] + s =~= seq![c]);
        assert(seq![c].drop_last() =~= Seq::<u8>::empty());
        assert(be_value(Seq::<u8>::empty()) == 0);
        assert(be_value(seq![c]) == be_value(seq![c].drop_last()) * 256 + seq![c].last() as nat);
        assert(pow256(0) == 1);
    } else {
        let t = s.drop_last();
        lemma_be_value_prepend(c, t);
        assert((seq![c] + s).drop_last() =~= seq![c] + t);
        assert((seq![c] + s).last() == s.last());
        let pk = pow256(t.len());
        assert(pow256(s.len()) == 256 * pk);
        let bt = be_value(t);
        assert(be_value(seq![c] + s) == be_value(seq![c] + t) * 256 + s.last() as nat);
        assert(be_value(seq![c] + t) == c as nat * pk + bt);
        assert(be_value(s) == bt * 256 + s.last() as nat);
        assert((c as nat * pk + bt) * 256 + s.last() as nat == c as nat * (256 * pk) + (bt * 256
            + s.last() as nat)) by (nonlinear_arith);
    }
}

/// A number below `256^n` has a big-endian value below `256^n`.
pub proof fn lemma_be_value_bound(s: Seq<u8>)
    ensures
        be_value(s) < pow256(s.len()),
    decreases s.len(),
{
    if s.len() > 0 {
        lemma_be_value_bound(s.drop_last());
        let p = pow256((s.len() - 1) as nat);
        assert(pow256(s.len()) == 256 * p);
        assert(be_value(s.drop_last()) * 256 + (s.last() as nat) < 256 * p) by (nonlinear_arith)
            requires
                be_value(s.drop_last()) < p,
                s.last() < 256,
        ;
    }
}

/// The first byte of `be_bytes(x, n)` is `x / 256^(n-1)`; the rest spells the remainder.
pub proof fn lemma_be_split_first(x: nat, n: nat)
    requires
        n >= 1,
        x < pow256(n),
    ensures
        be_bytes(x, n) == seq![(x / pow256((n - 1) as nat)) as u8] + be_bytes(
            x % pow256((n - 1) as nat),
            (n - 1) as nat,
        ),
    decreases n,
{
    lemma_pow_pos(n);
    if n == 1 {
        assert(be_bytes(x / 256, 0) =~= Seq::<u8>::empty());
        assert(be_bytes(x, 1) =~= seq![(x % 256) as u8]);
        assert(be_bytes(x % 1, 0) =~= Seq::<u8>::empty());
        assert(seq![(x / 1) as u8] + Seq::<u8>::empty() =~= seq![(x / 1) as u8]);
    } else {
        let p = pow256((n - 1) as nat);
        let q = pow256((n - 2) as nat);
        lemma_pow_pos((n - 2) as nat);
        assert(p == 256 * q);
        assert(x / 256 < p) by (nonlinear_arith)
            requires
                x < 256 * p,
                p == pow256((n - 1) as nat),
                pow256(n) == 256 * p,
                x < pow256(n),
        ;
        lemma_be_split_first(x / 256, (n - 1) as nat);
        // be_bytes(x / 256, n - 1) == [x/256/q] + be_bytes((x/256) % q, n - 2)
        assert(x / 256 / q == x / p) by {
            vstd::arithmetic::div_mod::lemma_div_denominator(x as int, 256, q as int);
            assert(256 * q == q * 256) by (nonlinear_arith);
        }
        assert((x % p) / 256 == (x / 256) % q) by {
            lemma_mod_div_256(x, q);
        }
        assert((x % p) % 256 == x % 256) by {
            vstd::arithmetic::div_mod::lemma_mod_mod(x as int, 256, q as int);
            assert(256 * q == p);
        }
        let rest = be_bytes(x % p, (n - 1) as nat);
        assert(rest == be_bytes((x % p) / 256, (n - 2) as nat).push(((x % p) % 256) as u8));
        assert(be_bytes(x, n) == be_bytes(x / 256, (n - 1) as nat).push((x % 256) as u8));
        assert(be_bytes(x, n) =~= seq![(x / p) as u8] + rest);
    }
}

proof fn lemma_mod_div_256(x: nat, q: nat)
    requires
        q > 0,
    ensures
        (x % (256 * q)) / 256 == (x / 256) % q,
{
    vstd::arithmetic::div_mod::lemma_breakdown(x as int, 256, q as int);
    let a = x as int;
    let q = q as int;
    assert(0 <= a % 256 < 256);
    assert(a % (256 * q) == 256 * ((a / 256) % q) + a % 256);
    assert((256 * ((a / 256) % q) + a % 256) / 256 == (a / 256) % q) by {
        vstd::arithmetic::div_mod::lemma_fundamental_div_mod_converse(
            256 * ((a / 256) % q) + a % 256,
            256,
            (a / 256) % q,
            a % 256,
        );
    }
}

pub proof fn lemma_pow_pos(n: nat)
    ensures
        pow256(n) > 0,
    decreases n,
{
    if n > 0 {
        lemma_pow_pos((n - 1) as nat);
    }
}

/// Decoding the encoding of a value below 2^62 gives the value back, with the length
/// that the encoding took.
pub proof fn lemma_varint_roundtrip(v: u64)
    requires
        v < varint_limit(),
    ensures
        varint_encoding(v).len() == varint_len(v),
        varint_decoding(varint_encoding(v)) == Some((v, varint_len(v))),
{
    reveal_pows();
    let n = varint_len(v);
    let p = pow256((n - 1) as nat);
    let t = varint_tag(n);
    lemma_pow_pos((n - 1) as nat);
    assert(pow256(n) == 256 * p);
    assert(v < 64 * p && t <= 3) by {
        if n == 1 {
        } else if n == 2 {
        } else if n == 4 {
        } else {
        }
    }
    vstd::arithmetic::div_mod::lemma_small_mod(v as nat, 64 * p);
    assert(v as nat % (64 * p) == v as nat);
    let x = v as nat + t * 64 * p;
    assert(x < pow256(n)) by (nonlinear_arith)
        requires
            x == v as nat + t * 64 * p,
            v < 64 * p,
            t <= 3,
            pow256(n) == 256 * p,
    ;
    lemma_be_len(x, n);
    lemma_be_split_first(x, n);
    let enc = varint_encoding(v);
    let b0 = (x / p) as u8;
    let rest = be_bytes(x % p, (n - 1) as nat);
    lemma_be_len(x % p, (n - 1) as nat);
    assert(enc == seq![b0] + rest);
    // x / p = t * 64 + v / p, x % p = v % p
    assert(x / p == t * 64 + v as nat / p && x % p == v as nat % p) by {
        vstd::arithmetic::div_mod::lemma_fundamental_div_mod(v as int, p as int);
        vstd::arithmetic::div_mod::lemma_mod_bound(v as int, p as int);
        assert(x == (t * 64 + v as nat / p) * p + v as nat % p) by (nonlinear_arith)
            requires
                x == v as nat + t * 64 * p,
                v as nat == p * (v as nat / p) + v as nat % p,
        ;
        vstd::arithmetic::div_mod::lemma_fundamental_div_mod_converse(
            x as int,
            p as int,
            (t * 64 + v as nat / p) as int,
            (v as nat % p) as int,
        );
    }
    assert(v as nat / p < 64) by {
        vstd::arithmetic::div_mod::lemma_fundamental_div_mod(v as int, p as int);
        vstd::arithmetic::div_mod::lemma_mod_bound(v as int, p as int);
        let q = v as int / p as int;
        let r = v as int % p as int;
        assert(q < 64) by (nonlinear_arith)
            requires
                v as int == p * q + r,
                r >= 0,
                (v as int) < 64 * p,
                p > 0,
        ;
    }
    assert(b0 as nat == t * 64 + v as nat / p);
    assert(announced_len(b0) == n);
    assert(enc[0] == b0);
    assert(enc.subrange(1, n as int) =~= rest);
    lemma_be_value_prepend((b0 % 64) as u8, rest);
    assert((b0 % 64) as nat == v as nat / p);
    vstd::arithmetic::div_mod::lemma_mod_bound(x as int, p as int);
    lemma_be_roundtrip(x % p, (n - 1) as nat);
    assert(be_value(seq![(enc[0] % 64) as u8] + enc.subrange(1, n as int)) == v as nat) by {
        vstd::arithmetic::div_mod::lemma_fundamental_div_mod(v as int, p as int);
        assert((v as nat / p) * p == p * (v as nat / p)) by (nonlinear_arith);
    }
}

/// Reads the varint at the start of `buf`: its value and length.
pub fn read_varint(buf: &[u8]) -> (r: Option<(u64, usize)>)
    ensures
        match r {
            Some((v, n)) => varint_decoding(buf@) == Some((v, n as nat)),
            None => varint_decoding(buf@) is None,
        },
{
    if buf.len() == 0 {
        return None;
    }
    let first = buf[0];
    let n: usize = if first < 64 {
        1
    } else if first < 128 {
        2
    } else if first < 192 {
        4
    } else {
        8
    };
    if buf.len() < n {
        return None;
    }
    let ghost head = seq![(first % 64) as u8];
    let mut value: u64 = (first % 64) as u64;
    let mut i: usize = 1;
    proof {
        assert(head.drop_last() =~= Seq::<u8>::empty());
        assert(head + buf@.subrange(1, 1) =~= head);
        assert(be_value(head) == be_value(head.drop_last()) * 256 + head.last() as nat);
        assert(be_value(Seq::<u8>::empty()) == 0);
    }
    while i < n
        invariant
            1 <= i <= n <= 8,
            n <= buf@.len(),
            head == seq![(buf@[0] % 64) as u8],
            value as nat == be_value(head + buf@.subrange(1, i as int)),
        decreases n - i,
    {
        let ghost s = head + buf@.subrange(1, i as int);
        proof {
            lemma_be_value_bound(s);
            reveal_pows();
            lemma_pow_mono(s.len(), 7);
            assert((head + buf@.subrange(1, i + 1)).drop_last() =~= s);
        }
        value = value * 256 + buf[i] as u64;
        i = i + 1;
    }
    proof {
        reveal_pows();
    }
    Some((value, n))
}

proof fn lemma_pow_mono(a: nat, b: nat)
    requires
        a <= b,
    ensures
        pow256(a) <= pow256(b),
    decreases b,
{
    if a < b {
        lemma_pow_mono(a, (b - 1) as nat);
        lemma_pow_pos((b - 1) as nat);
    }
}

} // verus!
