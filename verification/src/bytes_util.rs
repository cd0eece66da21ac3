use vstd::prelude::*;

verus! {

/// `needle` occurs as a contiguous run somewhere inside `haystack`.
pub open spec fn occurs_at(haystack: Seq<u8>, needle: Seq<u8>, i: int) -> bool {
    0 <= i && i + needle.len() <= haystack.len() && haystack.subrange(i, i + needle.len()) =~= needle
}

pub open spec fn occurs_in(haystack: Seq<u8>, needle: Seq<u8>) -> bool {
    exists|i: int| occurs_at(haystack, needle, i)
}

/// Whether the bytes of `haystack` starting at `i` equal `needle`.
pub fn matches_at(haystack: &[u8], needle: &[u8], i: usize) -> (r: bool)
    requires
        i + needle.len() <= haystack.len(),
    ensures
        r == occurs_at(haystack@, needle@, i as int),
{
    let mut j: usize = 0;
    while j < needle.len()
        invariant
            j <= needle@.len(),
            i + needle.len() <= haystack.len(),
            forall|k: int| 0 <= k < j ==> haystack@[i + k] == needle@[k],
        decreases needle@.len() - j,
    {
        if haystack[i + j] != needle[j] {
            proof {
                assert(haystack@.subrange(i as int, i + needle@.len())[j as int] != needle@[j as int]);
            }
            return false;
        }
        j = j + 1;
    }
    proof {
        assert(haystack@.subrange(i as int, i + needle@.len()) =~= needle@);
    }
    true
}

/// Searches `haystack` for a contiguous occurrence of `needle`.
pub fn find_subsequence(haystack: &[u8], needle: &[u8]) -> (r: bool)
    ensures
        r == occurs_in(haystack@, needle@),
{
    if needle.len() > haystack.len() {
        proof {
            assert forall|i: int| !occurs_at(haystack@, needle@, i) by {}
        }
        return false;
    }
    let last = haystack.len() - needle.len();
    let mut i: usize = 0;
    while i <= last
        invariant
            last == haystack@.len() - needle@.len(),
            i <= last,
            forall|k: int| 0 <= k < i ==> !occurs_at(haystack@, needle@, k),
        ensures
            i == last,
            forall|k: int| 0 <= k <= last ==> !occurs_at(haystack@, needle@, k),
        decreases last + 1 - i,
    {
        if matches_at(haystack, needle, i) {
            return true;
        }
        if i == last {
            break;
        }
        i = i + 1;
    }
    proof {
        assert forall|k: int| !occurs_at(haystack@, needle@, k) by {
            if 0 <= k <= last {
            }
        }
    }
    false
}


/// Big-endian 16-bit value of `s[i]`, `s[i + 1]`.
pub open spec fn be16(s: Seq<u8>, i: int) -> int {
    s[i] as int * 256 + s[i + 1] as int
}

/// Big-endian 24-bit value of `s[i]`, `s[i + 1]`, `s[i + 2]`.
pub open spec fn be24(s: Seq<u8>, i: int) -> int {
    s[i] as int * 65536 + s[i + 1] as int * 256 + s[i + 2] as int
}

/// Big-endian 32-bit value of four bytes starting at `i`.
pub open spec fn be32(s: Seq<u8>, i: int) -> int {
    s[i] as int * 16777216 + s[i + 1] as int * 65536 + s[i + 2] as int * 256 + s[i + 3] as int
}

/// `p` is a prefix of `s`.
pub open spec fn starts_with(s: Seq<u8>, p: Seq<u8>) -> bool {
    p.len() <= s.len() && s.subrange(0, p.len() as int) =~= p
}

pub fn read_be16(data: &[u8], i: usize) -> (r: usize)
    requires
        i + 2 <= data@.len(),
    ensures
        r as int == be16(data@, i as int),
        r < 65536,
{
    (data[i] as usize) * 256 + (data[i + 1] as usize)
}

pub fn read_be24(data: &[u8], i: usize) -> (r: usize)
    requires
        i + 3 <= data@.len(),
    ensures
        r as int == be24(data@, i as int),
        r < 16777216,
{
    (data[i] as usize) * 65536 + (data[i + 1] as usize) * 256 + (data[i + 2] as usize)
}

pub fn has_prefix(data: &[u8], p: &[u8]) -> (r: bool)
    ensures
        r == starts_with(data@, p@),
{
    if p.len() > data.len() {
        return false;
    }
    matches_at(data, p, 0)
}

/// A copy of `data[start..end]`.
pub fn copy_range(data: &[u8], start: usize, end: usize) -> (r: Vec<u8>)
    requires
        start <= end <= data@.len(),
    ensures
        r@ == data@.subrange(start as int, end as int),
{
    let mut r: Vec<u8> = Vec::new();
    let mut i = start;
    while i < end
        invariant
            start <= i <= end <= data@.len(),
            r@ == data@.subrange(start as int, i as int),
        decreases end - i,
    {
        r.push(data[i]);
        i = i + 1;
    }
    r
}


/// The `n` low-order bytes of `x`, most significant first.
pub open spec fn be_bytes(x: nat, n: nat) -> Seq<u8>
    decreases n,
{
    if n == 0 {
        Seq::empty()
    } else {
        be_bytes(x / 256, (n - 1) as nat).push((x % 256) as u8)
    }
}

/// The number that the bytes of `s` spell, most significant first.
pub open spec fn be_value(s: Seq<u8>) -> nat
    decreases s.len(),
{
    if s.len() == 0 {
        0
    } else {
        be_value(s.drop_last()) * 256 + s.last() as nat
    }
}

/// `256` to the power `n`.
pub open spec fn pow256(n: nat) -> nat
    decreases n,
{
    if n == 0 {
        1
    } else {
        256 * pow256((n - 1) as nat)
    }
}

/// Reading back the bytes of a number that fits gives the number.
pub proof fn lemma_be_roundtrip(x: nat, n: nat)
    requires
        x < pow256(n),
    ensures
        be_bytes(x, n).len() == n,
        be_value(be_bytes(x, n)) == x,
    decreases n,
{
    if n > 0 {
        assert(x / 256 < pow256((n - 1) as nat)) by (nonlinear_arith)
            requires
                x < 256 * pow256((n - 1) as nat),
        ;
        lemma_be_roundtrip(x / 256, (n - 1) as nat);
        let b = be_bytes(x, n);
        assert(b.drop_last() =~= be_bytes(x / 256, (n - 1) as nat));
    }
}

/// The length of `be_bytes`.
pub proof fn lemma_be_len(x: nat, n: nat)
    ensures
        be_bytes(x, n).len() == n,
    decreases n,
{
    if n > 0 {
        lemma_be_len(x / 256, (n - 1) as nat);
    }
}

/// Appends the `n` low-order bytes of `x`, most significant first.
pub fn push_be(out: &mut Vec<u8>, x: u64, n: usize)
    ensures
        final(out)@ == old(out)@ + be_bytes(x as nat, n as nat),
    decreases n,
{
    if n == 0 {
        proof {
            assert(old(out)@ + be_bytes(x as nat, 0) =~= old(out)@);
        }
        return;
    }
    push_be(out, x / 256, n - 1);
    out.push((x % 256) as u8);
    proof {
        assert(be_bytes(x as nat, n as nat) == be_bytes((x / 256) as nat, (n - 1) as nat).push(
            (x % 256) as u8,
        ));
        assert(final(out)@ =~= old(out)@ + be_bytes(x as nat, n as nat));
    }
}


/// The `n` low-order bytes of `x`, least significant first.
pub open spec fn le_bytes(x: nat, n: nat) -> Seq<u8>
    decreases n,
{
    if n == 0 {
        Seq::empty()
    } else {
        seq![(x % 256) as u8] + le_bytes(x / 256, (n - 1) as nat)
    }
}

/// The number that the bytes of `s` spell, least significant first.
pub open spec fn le_value(s: Seq<u8>) -> nat
    decreases s.len(),
{
    if s.len() == 0 {
        0
    } else {
        s[0] as nat + 256 * le_value(s.drop_first())
    }
}

/// The length of `le_bytes`.
pub proof fn lemma_le_len(x: nat, n: nat)
    ensures
        le_bytes(x, n).len() == n,
    decreases n,
{
    if n > 0 {
        lemma_le_len(x / 256, (n - 1) as nat);
    }
}

/// Reading back the little-endian bytes of a number that fits gives the number.
pub proof fn lemma_le_roundtrip(x: nat, n: nat)
    requires
        x < pow256(n),
    ensures
        le_bytes(x, n).len() == n,
        le_value(le_bytes(x, n)) == x,
    decreases n,
{
    if n > 0 {
        assert(x / 256 < pow256((n - 1) as nat)) by (nonlinear_arith)
            requires
                x < 256 * pow256((n - 1) as nat),
        ;
        lemma_le_roundtrip(x / 256, (n - 1) as nat);
        let b = le_bytes(x, n);
        assert(b.drop_first() =~= le_bytes(x / 256, (n - 1) as nat));
    }
}

/// A little-endian number of `s.len()` bytes is below `256` to that power.
pub proof fn lemma_le_bound(s: Seq<u8>)
    ensures
        le_value(s) < pow256(s.len()),
    decreases s.len(),
{
    if s.len() > 0 {
        lemma_le_bound(s.drop_first());
    }
}

/// `pow256` grows with its exponent.
pub proof fn lemma_pow256_mono(a: nat, b: nat)
    requires
        a <= b,
    ensures
        pow256(a) <= pow256(b),
    decreases b,
{
    if a < b {
        lemma_pow256_mono(a, (b - 1) as nat);
    }
}

/// Appends the `n` low-order bytes of `x`, least significant first.
pub fn push_le(out: &mut Vec<u8>, x: u64, n: usize)
    ensures
        final(out)@ == old(out)@ + le_bytes(x as nat, n as nat),
    decreases n,
{
    if n == 0 {
        proof {
            assert(old(out)@ + le_bytes(x as nat, 0) =~= old(out)@);
        }
        return;
    }
    out.push((x % 256) as u8);
    push_le(out, x / 256, n - 1);
    proof {
        assert(final(out)@ =~= old(out)@ + le_bytes(x as nat, n as nat));
    }
}

/// The little-endian number in the `n` bytes of `data` from `i`.
pub fn read_le(data: &[u8], i: usize, n: usize) -> (r: u64)
    requires
        i + n <= data@.len(),
        n <= 8,
    ensures
        r as nat == le_value(data@.subrange(i as int, i + n)),
    decreases n,
{
    if n == 0 {
        return 0;
    }
    let _len = data.len();
    let rest = read_le(data, i + 1, n - 1);
    proof {
        let s = data@.subrange(i as int, i + n);
        assert(s.drop_first() =~= data@.subrange(i + 1, i + n));
        lemma_le_bound(data@.subrange(i + 1, i + n));
        lemma_pow256_mono((n - 1) as nat, 7);
        reveal_with_fuel(pow256, 8);
        assert(rest < 72057594037927936);
    }
    data[i] as u64 + 256 * rest
}

} // verus!

verus! {

/// The first 16 bytes of `v`.
pub fn take16(v: &[u8]) -> (r: [u8; 16])
    requires
        v@.len() >= 16,
    ensures
        r@ == v@.subrange(0, 16),
{
    let mut a = [0u8; 16];
    let mut i: usize = 0;
    while i < 16
        invariant
            i <= 16,
            v@.len() >= 16,
            forall|k: int| 0 <= k < i ==> a@[k] == v@[k],
        decreases 16 - i,
    {
        a[i] = v[i];
        i = i + 1;
    }
    proof {
        assert(a@ =~= v@.subrange(0, 16));
    }
    a
}

/// The first 12 bytes of `v`.
pub fn take12(v: &[u8]) -> (r: [u8; 12])
    requires
        v@.len() >= 12,
    ensures
        r@ == v@.subrange(0, 12),
{
    let mut a = [0u8; 12];
    let mut i: usize = 0;
    while i < 12
        invariant
            i <= 12,
            v@.len() >= 12,
            forall|k: int| 0 <= k < i ==> a@[k] == v@[k],
        decreases 12 - i,
    {
        a[i] = v[i];
        i = i + 1;
    }
    proof {
        assert(a@ =~= v@.subrange(0, 12));
    }
    a
}

} // verus!

verus! {

/// The 32 bytes of `v` from `at`.
pub fn take32_at(v: &[u8], at: usize) -> (r: [u8; 32])
    requires
        at + 32 <= v@.len(),
    ensures
        r@ == v@.subrange(at as int, at + 32),
{
    let mut a = [0u8; 32];
    let len = v.len();
    let mut i: usize = 0;
    while i < 32
        invariant
            i <= 32,
            len == v@.len(),
            at + 32 <= v@.len(),
            forall|k: int| 0 <= k < i ==> a@[k] == v@[at + k],
        decreases 32 - i,
    {
        a[i] = v[at + i];
        i = i + 1;
    }
    proof {
        assert(a@ =~= v@.subrange(at as int, at + 32));
    }
    a
}

} // verus!
