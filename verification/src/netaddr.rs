//! Text forms of IP addresses: dotted decimal for IPv4; for IPv6 hexadecimal groups
//! separated by colons, one `::` standing for a run of zero groups, and an optional
//! dotted-decimal tail. Reading follows the grammar of the standard library's address
//! parser; writing gives the canonical form (RFC 5952) that its `Display` writes.

use vstd::prelude::*;
use vstd::utf8::{encode_utf8, encode_utf8_decode_utf8, encode_utf8_valid_utf8};

use crate::text::{decimal, lemma_encode_ascii, lemma_encode_concat, push_decimal, string_from_utf8};

verus! {

/// The value of a digit character in base 10 or 16 (either case).
pub open spec fn digit_value(c: char, radix: nat) -> Option<nat> {
    if '0' <= c <= '9' {
        Some((c as u32 - '0' as u32) as nat)
    } else if radix == 16 && 'a' <= c <= 'f' {
        Some((c as u32 - 'a' as u32 + 10) as nat)
    } else if radix == 16 && 'A' <= c <= 'F' {
        Some((c as u32 - 'A' as u32 + 10) as nat)
    } else {
        None
    }
}

/// Where the run of digits starting at `i` ends.
pub open spec fn digits_end(s: Seq<char>, i: int, radix: nat) -> int
    decreases s.len() - i,
{
    if 0 <= i < s.len() && digit_value(s[i], radix) is Some {
        digits_end(s, i + 1, radix)
    } else {
        i
    }
}

/// The value of the digits `s[i..j]`.
pub open spec fn digits_value(s: Seq<char>, i: int, j: int, radix: nat) -> nat
    decreases j - i,
{
    if j <= i {
        0
    } else {
        digits_value(s, i, j - 1, radix) * radix + digit_value(s[j - 1], radix)->Some_0
    }
}

/// Reads a number at `i`: all the digits there, between one and `max` of them, with
/// no leading zero unless allowed (or the number is "0"), and at most `limit`. Gives
/// the value and where it ends.
pub open spec fn read_number(s: Seq<char>, i: int, radix: nat, max: nat, zero_prefix: bool, limit: nat) -> Option<(nat, int)> {
    let j = digits_end(s, i, radix);
    let n = j - i;
    if n == 0 || n > max || (!zero_prefix && s[i] == '0' && n > 1) {
        None
    } else {
        let v = digits_value(s, i, j, radix);
        if v > limit { None } else { Some((v, j)) }
    }
}

/// Reads `sep` (unless `first`) and then what `read` reads.
pub open spec fn after_sep(s: Seq<char>, i: int, sep: char, first: bool) -> Option<int> {
    if first {
        Some(i)
    } else if 0 <= i < s.len() && s[i] == sep {
        Some(i + 1)
    } else {
        None
    }
}

/// Reads a dotted-decimal IPv4 address at `i`: four decimal numbers up to 255, of at
/// most three digits and without leading zeros, separated by dots.
pub open spec fn read_ipv4(s: Seq<char>, i: int) -> Option<(Seq<u8>, int)> {
    read_ipv4_from(s, i, 0, Seq::empty())
}

/// The four bytes that `s` spells as a whole in dotted decimal.
pub open spec fn ipv4_of(s: Seq<char>) -> Option<Seq<u8>> {
    match read_ipv4(s, 0) {
        Some((o, e)) => if e == s.len() { Some(o) } else { None },
        None => None,
    }
}

/// A run of IPv6 groups read from `i`, the `k`-th of at most `limit`: each group is
/// one to four hex digits, groups are separated by colons, and where two or more
/// groups are still allowed a dotted-decimal IPv4 address may stand for the last
/// two. Gives the groups, whether they ended in IPv4, and where reading stopped.
pub open spec fn read_groups(s: Seq<char>, i: int, k: nat, limit: nat) -> (Seq<u16>, bool, int)
    decreases limit - k,
{
    if k >= limit {
        (Seq::empty(), false, i)
    } else {
        let v4 = if k + 1 < limit {
            match after_sep(s, i, ':', k == 0) {
                Some(p) => read_ipv4(s, p),
                None => None,
            }
        } else {
            None
        };
        match v4 {
            Some((o, e)) => (seq![(o[0] as int * 256 + o[1] as int) as u16, (o[2] as int * 256 + o[3] as int) as u16], true, e),
            None => match after_sep(s, i, ':', k == 0) {
                None => (Seq::empty(), false, i),
                Some(p) => match read_number(s, p, 16, 4, true, 65535) {
                    None => (Seq::empty(), false, i),
                    Some((g, e)) => {
                        let rest = read_groups(s, e, k + 1, limit);
                        (seq![g as u16] + rest.0, rest.1, rest.2)
                    },
                },
            },
        }
    }
}

/// The eight groups that IPv6 text spells as a whole: eight groups, or groups before
/// and after a `::` that stands for at least one zero group.
pub open spec fn ipv6_groups_of(s: Seq<char>) -> Option<Seq<u16>> {
    let (head, head_v4, e) = read_groups(s, 0, 0, 8);
    if head.len() == 8 {
        if e == s.len() { Some(head) } else { None }
    } else if head_v4 {
        None
    } else if !(e + 1 < s.len() && s[e] == ':' && s[e + 1] == ':') {
        None
    } else {
        let (tail, _, e2) = read_groups(s, e + 2, 0, (8 - (head.len() + 1)) as nat);
        if e2 == s.len() {
            Some(head + Seq::new((8 - head.len() - tail.len()) as nat, |j: int| 0u16) + tail)
        } else {
            None
        }
    }
}

/// The sixteen bytes of eight groups, each big-endian.
pub open spec fn groups_bytes(g: Seq<u16>) -> Seq<u8> {
    Seq::new(16, |j: int| if j % 2 == 0 { (g[j / 2] / 256) as u8 } else { (g[j / 2] % 256) as u8 })
}

/// The sixteen bytes that IPv6 text spells.
pub open spec fn ipv6_of(s: Seq<char>) -> Option<Seq<u8>> {
    match ipv6_groups_of(s) {
        Some(g) => Some(groups_bytes(g)),
        None => None,
    }
}

/// `b` to the power `e`.
pub open spec fn rpow(b: nat, e: nat) -> nat
    decreases e,
{
    if e == 0 {
        1
    } else {
        b * rpow(b, (e - 1) as nat)
    }
}

proof fn lemma_rpow_le(b: nat, e: nat)
    requires
        2 <= b <= 16,
        e <= 4,
    ensures
        rpow(b, e) <= rpow(16, e) <= 65536,
        rpow(b, e) >= 1,
    decreases e,
{
    reveal_with_fuel(rpow, 5);
    if e > 0 {
        lemma_rpow_le(b, (e - 1) as nat);
        assert(b * rpow(b, (e - 1) as nat) >= 1) by (nonlinear_arith)
            requires
                b >= 2,
                rpow(b, (e - 1) as nat) >= 1,
        ;
        assert(b * rpow(b, (e - 1) as nat) <= 16 * rpow(16, (e - 1) as nat)) by (nonlinear_arith)
            requires
                b <= 16,
                rpow(b, (e - 1) as nat) <= rpow(16, (e - 1) as nat),
        ;
        if e == 1 {
        } else if e == 2 {
        } else if e == 3 {
        } else {
        }
    }
}

proof fn lemma_digits_end_ge(s: Seq<char>, i: int, radix: nat)
    ensures
        digits_end(s, i, radix) >= i,
        0 <= i ==> digits_end(s, i, radix) <= if i <= s.len() { s.len() as int } else { i },
    decreases s.len() - i,
{
    if 0 <= i < s.len() && digit_value(s[i], radix) is Some {
        lemma_digits_end_ge(s, i + 1, radix);
    }
}

/// The value of a digit character, as the parser reads it.
fn digit_of(c: char, radix: u32) -> (r: Option<u32>)
    requires
        radix == 10 || radix == 16,
    ensures
        r is Some <==> digit_value(c, radix as nat) is Some,
        r matches Some(v) ==> v as nat == digit_value(c, radix as nat)->Some_0 && (v as nat) < radix,
{
    if '0' <= c && c <= '9' {
        Some(c as u32 - '0' as u32)
    } else if radix == 16 && 'a' <= c && c <= 'f' {
        Some(c as u32 - 'a' as u32 + 10)
    } else if radix == 16 && 'A' <= c && c <= 'F' {
        Some(c as u32 - 'A' as u32 + 10)
    } else {
        None
    }
}

/// Reads a number at `i` as `read_number` does.
fn read_number_at(s: &Vec<char>, i: usize, radix: u32, max: usize, zero_prefix: bool, limit: u32) -> (r: Option<(u32, usize)>)
    requires
        i <= s@.len(),
        radix == 10 || radix == 16,
        1 <= max <= 4,
    ensures
        match read_number(s@, i as int, radix as nat, max as nat, zero_prefix, limit as nat) {
            Some((v, j)) => r == Some((v as u32, j as usize)),
            None => r is None,
        },
{
    let mut j = i;
    let mut value: u32 = 0;
    proof {
        reveal_with_fuel(rpow, 2);
    }
    while j < s.len() && digit_of(s[j], radix).is_some()
        invariant
            i <= j <= s@.len(),
            j - i <= max,
            radix == 10 || radix == 16,
            1 <= max <= 4,
            digits_end(s@, i as int, radix as nat) == digits_end(s@, j as int, radix as nat),
            value as nat == digits_value(s@, i as int, j as int, radix as nat),
            (value as nat) < rpow(radix as nat, (j - i) as nat),
        decreases s@.len() - j,
    {
        let d = match digit_of(s[j], radix) {
            Some(d) => d,
            None => 0,
        };
        if j - i + 1 > max {
            proof {
                lemma_digits_end_ge(s@, j + 1, radix as nat);
            }
            return None;
        }
        proof {
            lemma_rpow_le(radix as nat, (j - i) as nat);
            lemma_rpow_le(radix as nat, (j + 1 - i) as nat);
            assert(value * radix + d < rpow(radix as nat, (j + 1 - i) as nat)) by (nonlinear_arith)
                requires
                    value < rpow(radix as nat, (j - i) as nat),
                    d < radix,
                    rpow(radix as nat, (j + 1 - i) as nat) == radix * rpow(radix as nat, (j - i) as nat),
            ;
        }
        value = value * radix + d;
        j = j + 1;
    }
    proof {
        lemma_digits_end_ge(s@, j as int, radix as nat);
        assert(digits_end(s@, j as int, radix as nat) == j);
    }
    let n = j - i;
    if n == 0 {
        return None;
    }
    if !zero_prefix && s[i] == '0' && n > 1 {
        return None;
    }
    if value > limit {
        return None;
    }
    Some((value, j))
}

/// Reads `sep` at `i` unless `first`.
fn after_sep_at(s: &Vec<char>, i: usize, sep: char, first: bool) -> (r: Option<usize>)
    requires
        i <= s@.len(),
    ensures
        match after_sep(s@, i as int, sep, first) {
            Some(p) => r == Some(p as usize),
            None => r is None,
        },
{
    if first {
        Some(i)
    } else if i < s.len() && s[i] == sep {
        Some(i + 1)
    } else {
        None
    }
}

/// Reads a dotted-decimal IPv4 address at `i` as `read_ipv4` does.
fn read_ipv4_at(s: &Vec<char>, i: usize) -> (r: Option<([u8; 4], usize)>)
    requires
        i <= s@.len(),
    ensures
        match read_ipv4(s@, i as int) {
            Some((o, e)) => r matches Some((a, j)) && a@ == o && j == e,
            None => r is None,
        },
{
    let slen = s.len();
    let mut out = [0u8; 4];
    let mut p = i;
    let mut k: usize = 0;
    proof {
        assert(out@.subrange(0, 0) =~= Seq::<u8>::empty());
    }
    while k < 4
        invariant
            k <= 4,
            slen == s@.len(),
            i <= p <= s@.len(),
            read_ipv4(s@, i as int) == read_ipv4_from(s@, p as int, k as nat, out@.subrange(0, k as int)),
        decreases 4 - k,
    {
        let q = match after_sep_at(s, p, '.', k == 0) {
            Some(q) => q,
            None => {
                return None;
            },
        };
        let (v, e) = match read_number_at(s, q, 10, 3, false, 255) {
            Some(x) => x,
            None => {
                return None;
            },
        };
        proof {
            lemma_digits_end_ge(s@, q as int, 10);
            assert(e as int == digits_end(s@, q as int, 10));
            assert(v <= 255);
        }
        let ghost prev = out@.subrange(0, k as int);
        out[k] = v as u8;
        proof {
            assert(out@.subrange(0, k + 1) =~= prev.push(v as u8));
        }
        p = e;
        k = k + 1;
    }
    proof {
        assert(out@.subrange(0, 4) =~= out@);
    }
    Some((out, p))
}

/// The rest of `read_ipv4` from the `k`-th number on, with the numbers `got` read so
/// far, reading at `i`.
pub open spec fn read_ipv4_from(s: Seq<char>, i: int, k: nat, got: Seq<u8>) -> Option<(Seq<u8>, int)>
    decreases 4 - k,
{
    if k >= 4 {
        Some((got, i))
    } else {
        match after_sep(s, i, '.', k == 0) {
            None => None,
            Some(p) => match read_number(s, p, 10, 3, false, 255) {
                None => None,
                Some((v, e)) => read_ipv4_from(s, e, k + 1, got.push(v as u8)),
            },
        }
    }
}

/// `read_groups` continued: the groups `acc` read so far, then what reading from
/// group `k` at `i` gives.
pub open spec fn with_prefix(acc: Seq<u16>, r: (Seq<u16>, bool, int)) -> (Seq<u16>, bool, int) {
    (acc + r.0, r.1, r.2)
}

/// Reads IPv6 groups at `i` as `read_groups` does, at most `limit` of them.
fn read_groups_at(s: &Vec<char>, i: usize, limit: usize) -> (r: (Vec<u16>, bool, usize))
    requires
        i <= s@.len(),
        limit <= 8,
    ensures
        (r.0@, r.1, r.2 as int) == read_groups(s@, i as int, 0, limit as nat),
        r.0@.len() <= limit,
        i <= r.2 <= s@.len(),
{
    let slen = s.len();
    let mut acc: Vec<u16> = Vec::new();
    let mut p = i;
    let mut k: usize = 0;
    proof {
        assert(with_prefix(acc@, read_groups(s@, p as int, 0, limit as nat)) =~= read_groups(s@, i as int, 0, limit as nat));
    }
    while k < limit
        invariant
            k <= limit <= 8,
            slen == s@.len(),
            i <= p <= s@.len(),
            acc@.len() == k,
            read_groups(s@, i as int, 0, limit as nat) == with_prefix(acc@, read_groups(s@, p as int, k as nat, limit as nat)),
        decreases limit - k,
    {
        let ghost before = acc@;
        if k + 1 < limit {
            match after_sep_at(s, p, ':', k == 0) {
                Some(q) => {
                    match read_ipv4_at(s, q) {
                        Some((o, e)) => {
                            acc.push((o[0] as u16) * 256 + o[1] as u16);
                            acc.push((o[2] as u16) * 256 + o[3] as u16);
                            proof {
                                lemma_read_ipv4_end(s@, q as int);
                                let v4 = seq![(o@[0] as int * 256 + o@[1] as int) as u16, (o@[2] as int * 256 + o@[3] as int) as u16];
                                assert(read_groups(s@, p as int, k as nat, limit as nat) == (v4, true, e as int));
                                assert(acc@ =~= before + v4);
                            }
                            return (acc, true, e);
                        },
                        None => {},
                    }
                },
                None => {},
            }
        }
        let q = match after_sep_at(s, p, ':', k == 0) {
            Some(q) => q,
            None => {
                proof {
                    assert(acc@ + Seq::<u16>::empty() =~= acc@);
                }
                return (acc, false, p);
            },
        };
        let (g, e) = match read_number_at(s, q, 16, 4, true, 65535) {
            Some(x) => x,
            None => {
                proof {
                    assert(acc@ + Seq::<u16>::empty() =~= acc@);
                }
                return (acc, false, p);
            },
        };
        proof {
            lemma_digits_end_ge(s@, q as int, 16);
        }
        acc.push(g as u16);
        proof {
            let rest = read_groups(s@, e as int, (k + 1) as nat, limit as nat);
            assert(read_groups(s@, p as int, k as nat, limit as nat) == (seq![g as u16] + rest.0, rest.1, rest.2));
            assert(before + (seq![g as u16] + rest.0) =~= acc@ + rest.0);
        }
        p = e;
        k = k + 1;
    }
    proof {
        assert(acc@ + Seq::<u16>::empty() =~= acc@);
    }
    (acc, false, p)
}

proof fn lemma_read_ipv4_end(s: Seq<char>, i: int)
    requires
        0 <= i <= s.len(),
    ensures
        read_ipv4(s, i) matches Some((o, e)) ==> i <= e <= s.len() && o.len() == 4,
{
    lemma_read_ipv4_from_end(s, i, 0, Seq::empty());
}

proof fn lemma_read_ipv4_from_end(s: Seq<char>, i: int, k: nat, got: Seq<u8>)
    requires
        0 <= i <= s.len(),
        k <= 4,
        got.len() == k,
    ensures
        read_ipv4_from(s, i, k, got) matches Some((o, e)) ==> i <= e <= s.len() && o.len() == 4,
    decreases 4 - k,
{
    if k < 4 {
        match after_sep(s, i, '.', k == 0) {
            None => {},
            Some(p) => {
                lemma_digits_end_ge(s, p, 10);
                match read_number(s, p, 10, 3, false, 255) {
                    None => {},
                    Some((v, e)) => {
                        lemma_read_ipv4_from_end(s, e, k + 1, got.push(v as u8));
                    },
                }
            },
        }
    }
}

/// The sixteen bytes of eight groups.
fn groups_to_bytes(g: &Vec<u16>) -> (r: [u8; 16])
    requires
        g@.len() == 8,
    ensures
        r@ == groups_bytes(g@),
{
    let mut out = [0u8; 16];
    let mut k: usize = 0;
    while k < 8
        invariant
            k <= 8,
            g@.len() == 8,
            forall|j: int| 0 <= j < 2 * k ==> out@[j] == groups_bytes(g@)[j],
        decreases 8 - k,
    {
        out[2 * k] = (g[k] / 256) as u8;
        out[2 * k + 1] = (g[k] % 256) as u8;
        k = k + 1;
    }
    proof {
        assert(out@ =~= groups_bytes(g@));
    }
    out
}

/// The four bytes that `text` spells in dotted decimal, as a whole.
pub fn parse_ipv4(text: &str) -> (r: Option<[u8; 4]>)
    ensures
        match ipv4_of(text@) {
            Some(o) => r matches Some(a) && a@ == o,
            None => r is None,
        },
{
    let v = crate::text::chars_of(text);
    match read_ipv4_at(&v, 0) {
        Some((o, e)) => {
            if e == v.len() {
                Some(o)
            } else {
                None
            }
        },
        None => None,
    }
}

/// The sixteen bytes that `text` spells as an IPv6 address, as a whole.
pub fn parse_ipv6(text: &str) -> (r: Option<[u8; 16]>)
    ensures
        match ipv6_of(text@) {
            Some(o) => r matches Some(a) && a@ == o,
            None => r is None,
        },
{
    let v = crate::text::chars_of(text);
    let (head, head_v4, e) = read_groups_at(&v, 0, 8);
    if head.len() == 8 {
        if e == v.len() {
            return Some(groups_to_bytes(&head));
        }
        return None;
    }
    if head_v4 {
        return None;
    }
    if !(e < v.len() && e + 1 < v.len() && v[e] == ':' && v[e + 1] == ':') {
        return None;
    }
    let limit = 8 - (head.len() + 1);
    let (tail, _, e2) = read_groups_at(&v, e + 2, limit);
    if e2 != v.len() {
        return None;
    }
    let mut groups: Vec<u16> = Vec::new();
    let mut k: usize = 0;
    while k < head.len()
        invariant
            k <= head@.len() < 8,
            groups@ == head@.subrange(0, k as int),
        decreases head@.len() - k,
    {
        groups.push(head[k]);
        proof {
            assert(groups@ =~= head@.subrange(0, k + 1));
        }
        k = k + 1;
    }
    let zeros = 8 - head.len() - tail.len();
    let mut z: usize = 0;
    while z < zeros
        invariant
            z <= zeros,
            zeros == 8 - head@.len() - tail@.len(),
            groups@ == head@ + Seq::new(z as nat, |j: int| 0u16),
        decreases zeros - z,
    {
        groups.push(0);
        proof {
            assert(groups@ =~= head@ + Seq::new((z + 1) as nat, |j: int| 0u16));
        }
        z = z + 1;
    }
    let mut t: usize = 0;
    while t < tail.len()
        invariant
            t <= tail@.len(),
            groups@ == head@ + Seq::new(zeros as nat, |j: int| 0u16) + tail@.subrange(0, t as int),
        decreases tail@.len() - t,
    {
        groups.push(tail[t]);
        proof {
            assert(groups@ =~= head@ + Seq::new(zeros as nat, |j: int| 0u16) + tail@.subrange(0, t + 1));
        }
        t = t + 1;
    }
    proof {
        assert(head@.subrange(0, head@.len() as int) =~= head@);
        assert(tail@.subrange(0, tail@.len() as int) =~= tail@);
    }
    Some(groups_to_bytes(&groups))
}

/// The lower-case hexadecimal digit of `d < 16`.
pub open spec fn hex_digit(d: nat) -> char {
    if d < 10 {
        (d + 48) as char
    } else {
        (d + 87) as char
    }
}

/// `n` in lower-case hexadecimal, without leading zeros.
pub open spec fn hex(n: nat) -> Seq<char>
    decreases n,
{
    if n < 16 {
        seq![hex_digit(n)]
    } else {
        hex(n / 16).push(hex_digit(n % 16))
    }
}

/// Groups in hexadecimal, separated by colons.
pub open spec fn join_hex(g: Seq<u16>) -> Seq<char>
    decreases g.len(),
{
    if g.len() == 0 {
        Seq::empty()
    } else if g.len() == 1 {
        hex(g[0] as nat)
    } else {
        join_hex(g.drop_last()) + seq![':'] + hex(g.last() as nat)
    }
}

/// Dotted decimal.
pub open spec fn ipv4_text(o: Seq<u8>) -> Seq<char> {
    decimal(o[0] as nat) + seq!['.'] + decimal(o[1] as nat) + seq!['.'] + decimal(o[2] as nat) + seq!['.']
        + decimal(o[3] as nat)
}

/// The eight groups of sixteen bytes, each big-endian.
pub open spec fn segments(o: Seq<u8>) -> Seq<u16> {
    Seq::new(8, |i: int| (o[2 * i] as int * 256 + o[2 * i + 1] as int) as u16)
}

/// The first of the longest runs of zero groups, scanning from group `i` with the
/// longest run so far at `ls` of length `ll` and the current run at `cs` of length
/// `cl`: its start and length.
pub open spec fn zero_run_from(g: Seq<u16>, i: int, ls: int, ll: int, cs: int, cl: int) -> (int, int)
    decreases g.len() - i,
{
    if i < 0 || i >= g.len() {
        (ls, ll)
    } else if g[i] == 0 {
        let ncs = if cl == 0 { i } else { cs };
        if cl + 1 > ll {
            zero_run_from(g, i + 1, ncs, cl + 1, ncs, cl + 1)
        } else {
            zero_run_from(g, i + 1, ls, ll, ncs, cl + 1)
        }
    } else {
        zero_run_from(g, i + 1, ls, ll, 0, 0)
    }
}

/// An IPv4-mapped address: five zero groups, then `ffff`.
pub open spec fn is_ipv4_mapped(o: Seq<u8>) -> bool {
    (forall|i: int| 0 <= i < 10 ==> #[trigger] o[i] == 0) && o[10] == 0xff && o[11] == 0xff
}

/// The canonical text of an IPv6 address: an IPv4-mapped one as `::ffff:` and its
/// dotted decimal; any other in hexadecimal groups, the first longest run of two or
/// more zero groups written `::`.
pub open spec fn ipv6_text(o: Seq<u8>) -> Seq<char> {
    let g = segments(o);
    if is_ipv4_mapped(o) {
        seq![':', ':', 'f', 'f', 'f', 'f', ':'] + ipv4_text(o.subrange(12, 16))
    } else {
        let (st, ln) = zero_run_from(g, 0, 0, 0, 0, 0);
        if ln > 1 {
            join_hex(g.subrange(0, st)) + seq![':', ':'] + join_hex(g.subrange(st + ln, 8))
        } else {
            join_hex(g)
        }
    }
}

/// Appends the ASCII character `c`.
fn push_ascii(out: &mut Vec<u8>, c: char)
    requires
        (c as u32) < 128,
    ensures
        final(out)@ == old(out)@ + encode_utf8(seq![c]),
{
    proof {
        lemma_encode_ascii(c);
    }
    out.push(c as u8);
    proof {
        assert(final(out)@ =~= old(out)@ + seq![(c as u32) as u8]);
    }
}

/// Appends `n` in hexadecimal.
fn push_hex(out: &mut Vec<u8>, n: u16)
    ensures
        final(out)@ == old(out)@ + encode_utf8(hex(n as nat)),
    decreases n,
{
    let d = (n % 16) as u32;
    let c = if d < 10 {
        char_of_ascii(d + 48)
    } else {
        char_of_ascii(d + 87)
    };
    proof {
        assert(c == hex_digit(d as nat));
    }
    if n >= 16 {
        push_hex(out, n / 16);
        push_ascii(out, c);
        proof {
            lemma_encode_concat(hex((n / 16) as nat), seq![c]);
            assert(hex(n as nat) =~= hex((n / 16) as nat) + seq![c]);
            assert(final(out)@ =~= old(out)@ + encode_utf8(hex(n as nat)));
        }
    } else {
        push_ascii(out, c);
        proof {
            assert(hex(n as nat) == seq![c]);
        }
    }
}

fn char_of_ascii(u: u32) -> (r: char)
    requires
        u < 128,
    ensures
        r == u as char,
        (r as u32) < 128,
{
    (u as u8) as char
}

/// Appends groups `g[lo..hi]` in hexadecimal, separated by colons.
fn push_join_hex(out: &mut Vec<u8>, g: &Vec<u16>, lo: usize, hi: usize)
    requires
        lo <= hi <= g@.len(),
    ensures
        final(out)@ == old(out)@ + encode_utf8(join_hex(g@.subrange(lo as int, hi as int))),
{
    let mut k = lo;
    proof {
        assert(g@.subrange(lo as int, lo as int) =~= Seq::<u16>::empty());
        assert(old(out)@ + encode_utf8(Seq::<char>::empty()) =~= old(out)@);
    }
    while k < hi
        invariant
            lo <= k <= hi <= g@.len(),
            out@ == old(out)@ + encode_utf8(join_hex(g@.subrange(lo as int, k as int))),
        decreases hi - k,
    {
        let ghost before = out@;
        let ghost prev = join_hex(g@.subrange(lo as int, k as int));
        let ghost sub = g@.subrange(lo as int, k + 1);
        proof {
            assert(sub.drop_last() =~= g@.subrange(lo as int, k as int));
            assert(sub.last() == g@[k as int]);
        }
        if k > lo {
            push_ascii(out, ':');
        }
        push_hex(out, g[k]);
        proof {
            if k > lo {
                lemma_encode_concat(prev, seq![':']);
                lemma_encode_concat(prev + seq![':'], hex(g@[k as int] as nat));
                assert(out@ =~= old(out)@ + encode_utf8(join_hex(sub)));
            } else {
                assert(sub.len() == 1);
                assert(out@ =~= old(out)@ + encode_utf8(join_hex(sub)));
            }
        }
        k = k + 1;
    }
}

/// The string of ASCII bytes that encode `chars`.
fn ascii_string(bytes: Vec<u8>, Ghost(chars): Ghost<Seq<char>>) -> (r: String)
    requires
        bytes@ == encode_utf8(chars),
    ensures
        r@ == chars,
{
    proof {
        encode_utf8_valid_utf8(chars);
        encode_utf8_decode_utf8(chars);
    }
    match string_from_utf8(bytes) {
        Some(s) => s,
        None => String::new(),
    }
}

/// Appends `o` in dotted decimal.
fn push_ipv4(out: &mut Vec<u8>, o: &[u8])
    requires
        o@.len() == 4,
    ensures
        final(out)@ == old(out)@ + encode_utf8(ipv4_text(o@)),
{
    push_decimal(out, o[0] as u64);
    push_ascii(out, '.');
    push_decimal(out, o[1] as u64);
    push_ascii(out, '.');
    push_decimal(out, o[2] as u64);
    push_ascii(out, '.');
    push_decimal(out, o[3] as u64);
    proof {
        let d0 = decimal(o@[0] as nat);
        let d1 = decimal(o@[1] as nat);
        let d2 = decimal(o@[2] as nat);
        let d3 = decimal(o@[3] as nat);
        let dot = seq!['.'];
        lemma_encode_concat(d0, dot);
        lemma_encode_concat(d0 + dot, d1);
        lemma_encode_concat(d0 + dot + d1, dot);
        lemma_encode_concat(d0 + dot + d1 + dot, d2);
        lemma_encode_concat(d0 + dot + d1 + dot + d2, dot);
        lemma_encode_concat(d0 + dot + d1 + dot + d2 + dot, d3);
        assert(final(out)@ =~= old(out)@ + encode_utf8(ipv4_text(o@)));
    }
}

/// The dotted-decimal text of an IPv4 address.
pub fn ipv4_to_string(o: [u8; 4]) -> (r: String)
    ensures
        r@ == ipv4_text(o@),
{
    let mut out: Vec<u8> = Vec::new();
    push_ipv4(&mut out, o.as_slice());
    proof {
        assert(out@ =~= encode_utf8(ipv4_text(o@)));
    }
    ascii_string(out, Ghost(ipv4_text(o@)))
}

/// Whether an address is IPv4-mapped.
fn ipv4_mapped(o: &[u8; 16]) -> (r: bool)
    ensures
        r == is_ipv4_mapped(o@),
{
    let mut mapped = o[10] == 0xff && o[11] == 0xff;
    let mut i: usize = 0;
    while i < 10
        invariant
            i <= 10,
            mapped == (o@[10] == 0xff && o@[11] == 0xff && forall|j: int| 0 <= j < i ==> o@[j] == 0),
        decreases 10 - i,
    {
        if o[i] != 0 {
            mapped = false;
        }
        i = i + 1;
    }
    mapped
}

/// The text of an IPv4-mapped address.
fn mapped_text_bytes(o: &[u8; 16]) -> (r: Vec<u8>)
    requires
        is_ipv4_mapped(o@),
    ensures
        r@ == encode_utf8(ipv6_text(o@)),
{
    let mut out: Vec<u8> = Vec::new();
    push_ascii(&mut out, ':');
    push_ascii(&mut out, ':');
    push_ascii(&mut out, 'f');
    push_ascii(&mut out, 'f');
    push_ascii(&mut out, 'f');
    push_ascii(&mut out, 'f');
    push_ascii(&mut out, ':');
    let ghost prefix = out@;
    let tail = [o[12], o[13], o[14], o[15]];
    push_ipv4(&mut out, tail.as_slice());
    proof {
        assert(tail@ =~= o@.subrange(12, 16));
        let p = seq![':', ':', 'f', 'f', 'f', 'f', ':'];
        lemma_encode_ascii(':');
        lemma_encode_ascii('f');
        assert(prefix =~= seq![58u8, 58u8, 102u8, 102u8, 102u8, 102u8, 58u8]);
        lemma_encode_concat(seq![':'], p.subrange(1, 7));
        lemma_encode_concat(seq![':'], p.subrange(2, 7));
        lemma_encode_concat(seq!['f'], p.subrange(3, 7));
        lemma_encode_concat(seq!['f'], p.subrange(4, 7));
        lemma_encode_concat(seq!['f'], p.subrange(5, 7));
        lemma_encode_concat(seq!['f'], p.subrange(6, 7));
        assert(p =~= seq![':'] + p.subrange(1, 7));
        assert(p.subrange(1, 7) =~= seq![':'] + p.subrange(2, 7));
        assert(p.subrange(2, 7) =~= seq!['f'] + p.subrange(3, 7));
        assert(p.subrange(3, 7) =~= seq!['f'] + p.subrange(4, 7));
        assert(p.subrange(4, 7) =~= seq!['f'] + p.subrange(5, 7));
        assert(p.subrange(5, 7) =~= seq!['f'] + p.subrange(6, 7));
        assert(p.subrange(6, 7) =~= seq![':']);
        assert(encode_utf8(p) =~= prefix);
        lemma_encode_concat(p, ipv4_text(o@.subrange(12, 16)));
        assert(out@ =~= encode_utf8(ipv6_text(o@)));
    }
    out
}

/// The eight groups of an address.
fn segments_of(o: &[u8; 16]) -> (g: Vec<u16>)
    ensures
        g@ == segments(o@),
{
    let mut g: Vec<u16> = Vec::new();
    let mut k: usize = 0;
    while k < 8
        invariant
            k <= 8,
            g@ == segments(o@).subrange(0, k as int),
        decreases 8 - k,
    {
        g.push((o[2 * k] as u16) * 256 + o[2 * k + 1] as u16);
        proof {
            assert(g@ =~= segments(o@).subrange(0, k + 1));
        }
        k = k + 1;
    }
    proof {
        assert(g@ =~= segments(o@));
    }
    g
}

/// The first longest run of zero groups: its start and length.
fn zero_run(g: &Vec<u16>) -> (r: (usize, usize))
    requires
        g@.len() == 8,
    ensures
        (r.0 as int, r.1 as int) == zero_run_from(g@, 0, 0, 0, 0, 0),
        r.0 + r.1 <= 8,
{
    let mut ls: usize = 0;
    let mut ll: usize = 0;
    let mut cs: usize = 0;
    let mut cl: usize = 0;
    let mut j: usize = 0;
    while j < 8
        invariant
            j <= 8,
            g@.len() == 8,
            zero_run_from(g@, 0, 0, 0, 0, 0) == zero_run_from(g@, j as int, ls as int, ll as int, cs as int, cl as int),
            cl <= j,
            cl > 0 ==> cs + cl == j,
            ls + ll <= j,
        decreases 8 - j,
    {
        if g[j] == 0 {
            if cl == 0 {
                cs = j;
            }
            cl = cl + 1;
            if cl > ll {
                ls = cs;
                ll = cl;
            }
        } else {
            cs = 0;
            cl = 0;
        }
        j = j + 1;
    }
    (ls, ll)
}

/// The canonical text of an address that is not IPv4-mapped.
fn groups_text_bytes(o: &[u8; 16]) -> (r: Vec<u8>)
    requires
        !is_ipv4_mapped(o@),
    ensures
        r@ == encode_utf8(ipv6_text(o@)),
{
    let g = segments_of(o);
    let (ls, ll) = zero_run(&g);
    let mut out: Vec<u8> = Vec::new();
    if ll > 1 {
        push_join_hex(&mut out, &g, 0, ls);
        push_ascii(&mut out, ':');
        push_ascii(&mut out, ':');
        push_join_hex(&mut out, &g, ls + ll, 8);
        proof {
            let a = join_hex(g@.subrange(0, ls as int));
            let b = join_hex(g@.subrange(ls + ll, 8));
            let cc = seq![':', ':'];
            assert(cc =~= seq![':'] + seq![':']);
            lemma_encode_concat(seq![':'], seq![':']);
            lemma_encode_concat(a, cc);
            lemma_encode_concat(a + cc, b);
            assert(out@ =~= encode_utf8(ipv6_text(o@)));
        }
    } else {
        push_join_hex(&mut out, &g, 0, 8);
        proof {
            assert(g@.subrange(0, 8) =~= g@);
            assert(out@ =~= encode_utf8(ipv6_text(o@)));
        }
    }
    out
}

/// The canonical text of an IPv6 address.
pub fn ipv6_to_string(o: [u8; 16]) -> (r: String)
    ensures
        r@ == ipv6_text(o@),
{
    let out = if ipv4_mapped(&o) {
        mapped_text_bytes(&o)
    } else {
        groups_text_bytes(&o)
    };
    ascii_string(out, Ghost(ipv6_text(o@)))
}

} // verus!
