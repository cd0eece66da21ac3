//! A lenient base64 decoder: standard and URL-safe alphabets alike, line breaks and
//! spaces skipped, no padding required.

use vstd::prelude::*;

verus! {

/// The six-bit value of a base64 character of either alphabet.
pub open spec fn sextet(c: char) -> Option<u32> {
    if 'A' <= c <= 'Z' {
        Some((c as u32 - 'A' as u32) as u32)
    } else if 'a' <= c <= 'z' {
        Some((c as u32 - 'a' as u32 + 26) as u32)
    } else if '0' <= c <= '9' {
        Some((c as u32 - '0' as u32 + 52) as u32)
    } else if c == '+' || c == '-' {
        Some(62)
    } else if c == '/' || c == '_' {
        Some(63)
    } else {
        None
    }
}

/// Characters that the decoder passes over.
pub open spec fn skipped(c: char) -> bool {
    c == '\n' || c == '\r' || c == ' '
}

/// The decoder's state: pending bits, how many, and the bytes so far.
pub struct B64State {
    pub buf: u32,
    pub bits: u32,
    pub out: Seq<u8>,
}

/// Takes in one sextet: once eight bits are pending, the top eight become a byte.
pub open spec fn b64_step(st: B64State, v: u32) -> B64State {
    let buf = (st.buf << 6u32) | v;
    let bits = (st.bits + 6) as u32;
    if bits >= 8 {
        let rest = (bits - 8) as u32;
        B64State { buf: buf & (((1u32 << rest) - 1) as u32), bits: rest, out: st.out.push((buf >> rest) as u8) }
    } else {
        B64State { buf, bits, out: st.out }
    }
}

/// Decodes `s` left to right; `None` at the first character that is neither base64
/// nor skipped.
pub open spec fn b64_fold(s: Seq<char>) -> Option<B64State>
    decreases s.len(),
{
    if s.len() == 0 {
        Some(B64State { buf: 0, bits: 0, out: Seq::empty() })
    } else {
        match b64_fold(s.drop_last()) {
            None => None,
            Some(st) => if skipped(s.last()) {
                Some(st)
            } else {
                match sextet(s.last()) {
                    None => None,
                    Some(v) => Some(b64_step(st, v)),
                }
            },
        }
    }
}

/// The bytes that `s` decodes to.
pub open spec fn b64_decode(s: Seq<char>) -> Option<Seq<u8>> {
    match b64_fold(s) {
        Some(st) => Some(st.out),
        None => None,
    }
}

/// `s` without its trailing `=` signs.
pub open spec fn strip_padding(s: Seq<char>) -> Seq<char>
    decreases s.len(),
{
    if s.len() > 0 && s.last() == '=' {
        strip_padding(s.drop_last())
    } else {
        s
    }
}

fn sextet_exec(c: char) -> (r: Option<u32>)
    ensures
        r == sextet(c),
{
    if 'A' <= c && c <= 'Z' {
        Some((c as u32) - ('A' as u32))
    } else if 'a' <= c && c <= 'z' {
        Some((c as u32) - ('a' as u32) + 26)
    } else if '0' <= c && c <= '9' {
        Some((c as u32) - ('0' as u32) + 52)
    } else if c == '+' || c == '-' {
        Some(62)
    } else if c == '/' || c == '_' {
        Some(63)
    } else {
        None
    }
}

/// Decodes `v[lo..hi]`.
pub fn decode_range(v: &Vec<char>, lo: usize, hi: usize) -> (r: Option<Vec<u8>>)
    requires
        lo <= hi <= v@.len(),
    ensures
        r matches Some(o) ==> b64_decode(v@.subrange(lo as int, hi as int)) == Some(o@),
        r is None ==> b64_decode(v@.subrange(lo as int, hi as int)) is None,
{
    let mut out: Vec<u8> = Vec::new();
    let mut buf: u32 = 0;
    let mut bits: u32 = 0;
    let mut i = lo;
    assert((1u32 << 0u32) == 1) by (bit_vector);
    while i < hi
        invariant
            lo <= i <= hi <= v@.len(),
            bits < 8,
            buf < (1u32 << bits),
            b64_fold(v@.subrange(lo as int, i as int)) == Some(B64State { buf, bits, out: out@ }),
        decreases hi - i,
    {
        let c = v[i];
        proof {
            assert(v@.subrange(lo as int, i + 1).drop_last() =~= v@.subrange(lo as int, i as int));
            assert(v@.subrange(lo as int, i + 1).last() == c);
        }
        if c == '\n' || c == '\r' || c == ' ' {
            i = i + 1;
            continue;
        }
        let val = match sextet_exec(c) {
            Some(x) => x,
            None => {
                proof {
                    lemma_fold_none_extends(v@.subrange(lo as int, i + 1), v@.subrange(lo as int, hi as int));
                }
                return None;
            },
        };
        assert(val < 64);
        let nb = (buf << 6) | val;
        let nbits = bits + 6;
        assert(nb < (1u32 << nbits)) by (bit_vector)
            requires
                bits < 8,
                buf < (1u32 << bits),
                val < 64,
                nb == (buf << 6) | val,
                nbits == bits + 6,
        ;
        if nbits >= 8 {
            let rest = nbits - 8;
            assert((nb >> rest) < 256 && (1u32 << rest) >= 1) by (bit_vector)
                requires
                    nb < (1u32 << nbits),
                    nbits < 14,
                    nbits >= 8,
                    rest == nbits - 8,
            ;
            out.push((nb >> rest) as u8);
            buf = nb & ((1u32 << rest) - 1);
            bits = rest;
            assert(buf < (1u32 << bits)) by (bit_vector)
                requires
                    bits < 8,
                    buf == nb & (((1u32 << bits) - 1) as u32),
            ;
        } else {
            buf = nb;
            bits = nbits;
        }
        i = i + 1;
    }
    Some(out)
}

/// A prefix that fails to decode makes every extension fail.
proof fn lemma_fold_none_extends(a: Seq<char>, b: Seq<char>)
    requires
        a.len() <= b.len(),
        a =~= b.subrange(0, a.len() as int),
        b64_fold(a) is None,
    ensures
        b64_fold(b) is None,
    decreases b.len() - a.len(),
{
    if a.len() < b.len() {
        assert(a =~= b.drop_last().subrange(0, a.len() as int));
        lemma_fold_none_extends(a, b.drop_last());
    } else {
        assert(a =~= b);
    }
}


/// The end of `v[lo..hi]` once trailing `=` signs are dropped.
pub fn strip_padding_end(v: &Vec<char>, lo: usize, hi: usize) -> (r: usize)
    requires
        lo <= hi <= v@.len(),
    ensures
        lo <= r <= hi,
        strip_padding(v@.subrange(lo as int, hi as int)) == v@.subrange(lo as int, r as int),
{
    let mut b = hi;
    while b > lo && v[b - 1] == '='
        invariant
            lo <= b <= hi <= v@.len(),
            strip_padding(v@.subrange(lo as int, hi as int)) == strip_padding(v@.subrange(lo as int, b as int)),
        decreases b - lo,
    {
        proof {
            assert(v@.subrange(lo as int, b as int).drop_last() =~= v@.subrange(lo as int, b - 1));
        }
        b = b - 1;
    }
    b
}

} // verus!
