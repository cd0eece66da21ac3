use vstd::prelude::*;
use vstd::string::StrSliceExecFns;
use vstd::utf8::*;

verus! {

/// The characters of `s`, in order.
pub fn chars_of(s: &str) -> (v: Vec<char>)
    ensures
        v@ == s@,
{
    let mut v: Vec<char> = Vec::new();
    for c in it: s.chars()
        invariant
            v@ == it.seq().take(it.index() as int),
            it.seq() == s@,
    {
        v.push(c);
    }
    v
}


/// `std::string::String::from_utf8`: succeeds exactly on well-formed UTF-8, and the
/// string then holds the characters that the bytes encode.
#[verifier::external_body]
pub fn string_from_utf8(bytes: Vec<u8>) -> (r: Option<String>)
    ensures
        r is Some <==> valid_utf8(bytes@),
        r matches Some(s) ==> s@ == decode_utf8(bytes@),
{
    String::from_utf8(bytes).ok()
}

/// The characters that `String::from_utf8_lossy` reads from `bytes`: invalid
/// sequences become the replacement character.
pub uninterp spec fn utf8_lossy(bytes: Seq<u8>) -> Seq<char>;

/// `String::from_utf8_lossy`: well-formed UTF-8 reads as itself.
#[verifier::external_body]
pub fn string_from_utf8_lossy(bytes: &[u8]) -> (r: String)
    ensures
        r@ == utf8_lossy(bytes@),
        valid_utf8(bytes@) ==> r@ == decode_utf8(bytes@),
{
    String::from_utf8_lossy(bytes).into_owned()
}

/// `std::str::from_utf8`: succeeds exactly on well-formed UTF-8, and the string slice
/// then holds the characters that the bytes encode.
#[verifier::external_body]
pub fn str_from_utf8(bytes: &[u8]) -> (r: Option<&str>)
    ensures
        r is Some <==> valid_utf8(bytes@),
        r matches Some(s) ==> s@ == decode_utf8(bytes@),
{
    std::str::from_utf8(bytes).ok()
}

/// Whether two strings hold the same characters.
pub fn str_eq(a: &str, b: &str) -> (r: bool)
    ensures
        r == (a@ == b@),
{
    let x = a.as_bytes();
    let y = b.as_bytes();
    proof {
        encode_utf8_decode_utf8(a@);
        encode_utf8_decode_utf8(b@);
    }
    if x.len() != y.len() {
        proof {
            assert(x@ != y@);
        }
        return false;
    }
    let mut i: usize = 0;
    while i < x.len()
        invariant
            x@.len() == y@.len(),
            x@ == encode_utf8(a@),
            y@ == encode_utf8(b@),
            i <= x@.len(),
            forall|k: int| 0 <= k < i ==> x@[k] == y@[k],
        decreases x@.len() - i,
    {
        if x[i] != y[i] {
            proof {
                assert(x@ != y@);
            }
            return false;
        }
        i = i + 1;
    }
    proof {
        assert(x@ =~= y@);
    }
    true
}

/// The ASCII lower-case form of a character; other characters are unchanged.
pub open spec fn ascii_lower(c: char) -> char {
    if 'A' <= c <= 'Z' {
        ((c as u32) + 32) as char
    } else {
        c
    }
}

/// `s`, lower-cased.  The keywords that the library compares against are ASCII and
/// hold no `k`. Outside ASCII only the Kelvin sign lower-cases to ASCII text alone
/// (to `k`), so a string lower-cases to one of the keywords in the Unicode sense
/// exactly when it does in the ASCII sense.
pub open spec fn lower(s: Seq<char>) -> Seq<char> {
    s.map_values(|c: char| ascii_lower(c))
}

pub fn char_ascii_lower(c: char) -> (r: char)
    ensures
        r == ascii_lower(c),
{
    if 'A' <= c && c <= 'Z' {
        let u = (c as u32) + 32;
        proof {
            assert(0x61 <= u <= 0x7a);
        }
        char_from_u32_ascii(u)
    } else {
        c
    }
}

fn char_from_u32_ascii(u: u32) -> (r: char)
    requires
        u < 128,
    ensures
        r == u as char,
{
    (u as u8) as char
}

/// Whether `s`, lower-cased, is the keyword `kw`.
pub fn lower_eq(s: &str, kw: &str) -> (r: bool)
    ensures
        r == (lower(s@) == kw@),
{
    let a = chars_of(s);
    let b = chars_of(kw);
    if a.len() != b.len() {
        proof {
            assert(lower(s@).len() == s@.len());
        }
        return false;
    }
    let mut i: usize = 0;
    while i < a.len()
        invariant
            a@ == s@,
            b@ == kw@,
            a@.len() == b@.len(),
            i <= a@.len(),
            forall|k: int| 0 <= k < i ==> ascii_lower(a@[k]) == b@[k],
        decreases a@.len() - i,
    {
        if char_ascii_lower(a[i]) != b[i] {
            proof {
                assert(lower(s@)[i as int] != kw@[i as int]);
            }
            return false;
        }
        i = i + 1;
    }
    proof {
        assert(lower(s@) =~= kw@);
    }
    true
}


/// Unicode `White_Space` characters, the set that `str::trim` removes.
pub open spec fn is_ws(c: char) -> bool {
    ('\t' <= c <= '\r') || c == ' ' || c == '\u{85}' || c == '\u{a0}' || c == '\u{1680}'
        || ('\u{2000}' <= c <= '\u{200a}') || c == '\u{2028}' || c == '\u{2029}'
        || c == '\u{202f}' || c == '\u{205f}' || c == '\u{3000}'
}

pub fn char_is_ws(c: char) -> (r: bool)
    ensures
        r == is_ws(c),
{
    ('\t' <= c && c <= '\r') || c == ' ' || c == '\u{85}' || c == '\u{a0}' || c == '\u{1680}'
        || ('\u{2000}' <= c && c <= '\u{200a}') || c == '\u{2028}' || c == '\u{2029}'
        || c == '\u{202f}' || c == '\u{205f}' || c == '\u{3000}'
}

/// `s` without its leading white space.
pub open spec fn trim_start(s: Seq<char>) -> Seq<char>
    decreases s.len(),
{
    if s.len() > 0 && is_ws(s[0]) {
        trim_start(s.drop_first())
    } else {
        s
    }
}

/// `s` without its trailing white space.
pub open spec fn trim_end(s: Seq<char>) -> Seq<char>
    decreases s.len(),
{
    if s.len() > 0 && is_ws(s.last()) {
        trim_end(s.drop_last())
    } else {
        s
    }
}

/// `s` without leading and trailing white space, as `str::trim` gives it.
pub open spec fn trim(s: Seq<char>) -> Seq<char> {
    trim_end(trim_start(s))
}

/// The bounds of `v[lo..hi]` once white space is trimmed from both ends.
pub fn trim_bounds(v: &Vec<char>, lo: usize, hi: usize) -> (r: (usize, usize))
    requires
        lo <= hi <= v@.len(),
    ensures
        lo <= r.0 <= r.1 <= hi,
        trim(v@.subrange(lo as int, hi as int)) == v@.subrange(r.0 as int, r.1 as int),
{
    let mut a = lo;
    while a < hi && char_is_ws(v[a])
        invariant
            lo <= a <= hi <= v@.len(),
            trim_start(v@.subrange(lo as int, hi as int)) == trim_start(v@.subrange(a as int, hi as int)),
        decreases hi - a,
    {
        proof {
            assert(v@.subrange(a as int, hi as int).drop_first() =~= v@.subrange(a + 1, hi as int));
        }
        a = a + 1;
    }
    let mut b = hi;
    while b > a && char_is_ws(v[b - 1])
        invariant
            lo <= a <= b <= hi <= v@.len(),
            trim_end(v@.subrange(a as int, hi as int)) == trim_end(v@.subrange(a as int, b as int)),
        decreases b - a,
    {
        proof {
            assert(v@.subrange(a as int, b as int).drop_last() =~= v@.subrange(a as int, b - 1));
        }
        b = b - 1;
    }
    (a, b)
}

/// The index of the last `c` in `s`.
pub open spec fn last_index_of(s: Seq<char>, c: char) -> Option<int>
    decreases s.len(),
{
    if s.len() == 0 {
        None
    } else if s.last() == c {
        Some(s.len() - 1)
    } else {
        last_index_of(s.drop_last(), c)
    }
}

/// The index of the last `c` inside `v[lo..hi]`, counted from the start of `v`.
pub fn rfind_char(v: &Vec<char>, lo: usize, hi: usize, c: char) -> (r: Option<usize>)
    requires
        lo <= hi <= v@.len(),
    ensures
        match r {
            Some(k) => lo <= k < hi && last_index_of(v@.subrange(lo as int, hi as int), c) == Some(
                k - lo,
            ),
            None => last_index_of(v@.subrange(lo as int, hi as int), c) is None,
        },
{
    let mut b = hi;
    while b > lo
        invariant
            lo <= b <= hi <= v@.len(),
            last_index_of(v@.subrange(lo as int, hi as int), c) == last_index_of(
                v@.subrange(lo as int, b as int),
                c,
            ),
        decreases b - lo,
    {
        if v[b - 1] == c {
            return Some(b - 1);
        }
        proof {
            assert(v@.subrange(lo as int, b as int).drop_last() =~= v@.subrange(lo as int, b - 1));
        }
        b = b - 1;
    }
    None
}

/// Every character of `s` is an ASCII digit.
pub open spec fn all_digits(s: Seq<char>) -> bool {
    forall|i: int| 0 <= i < s.len() ==> '0' <= #[trigger] s[i] <= '9'
}

pub fn range_all_digits(v: &Vec<char>, lo: usize, hi: usize) -> (r: bool)
    requires
        lo <= hi <= v@.len(),
    ensures
        r == all_digits(v@.subrange(lo as int, hi as int)),
{
    let mut i = lo;
    while i < hi
        invariant
            lo <= i <= hi <= v@.len(),
            forall|k: int| lo <= k < i ==> '0' <= #[trigger] v@[k] <= '9',
        decreases hi - i,
    {
        if !('0' <= v[i] && v[i] <= '9') {
            proof {
                assert(!('0' <= v@.subrange(lo as int, hi as int)[i - lo] <= '9'));
            }
            return false;
        }
        i = i + 1;
    }
    proof {
        assert forall|k: int| 0 <= k < hi - lo implies '0' <= #[trigger] v@.subrange(
            lo as int,
            hi as int,
        )[k] <= '9' by {
            assert(v@.subrange(lo as int, hi as int)[k] == v@[lo + k]);
        }
    }
    true
}

/// Whether `v[lo..hi]` starts with the characters of `p`.
pub fn range_starts_with(v: &Vec<char>, lo: usize, hi: usize, p: &Vec<char>) -> (r: bool)
    requires
        lo <= hi <= v@.len(),
    ensures
        r == (p@.len() <= hi - lo && v@.subrange(lo as int, lo + p@.len()) == p@),
{
    if p.len() > hi - lo {
        return false;
    }
    let mut j: usize = 0;
    while j < p.len()
        invariant
            lo + p@.len() <= hi <= v@.len(),
            j <= p@.len(),
            forall|k: int| 0 <= k < j ==> v@[lo + k] == p@[k],
        decreases p@.len() - j,
    {
        if v[lo + j] != p[j] {
            proof {
                assert(v@.subrange(lo as int, lo + p@.len())[j as int] != p@[j as int]);
            }
            return false;
        }
        j = j + 1;
    }
    proof {
        assert(v@.subrange(lo as int, lo + p@.len()) =~= p@);
    }
    true
}

/// `s` without leading and trailing white space.
pub fn trim_str(s: &str) -> (r: &str)
    ensures
        r@ == trim(s@),
{
    let v = chars_of(s);
    let (a, b) = trim_bounds(&v, 0, v.len());
    proof {
        assert(v@.subrange(0, v@.len() as int) =~= v@);
    }
    s.substring_char(a, b)
}

/// The decimal digit character of `d < 10`.
pub open spec fn digit_char(d: nat) -> char {
    (d + 48) as char
}

/// The decimal numeral of `n`, without leading zeros.
pub open spec fn decimal(n: nat) -> Seq<char>
    decreases n,
{
    if n < 10 {
        seq![digit_char(n)]
    } else {
        decimal(n / 10).push(digit_char(n % 10))
    }
}

/// The UTF-8 encoding of a concatenation is the concatenation of the encodings.
pub proof fn lemma_encode_concat(a: Seq<char>, b: Seq<char>)
    ensures
        encode_utf8(a + b) == encode_utf8(a) + encode_utf8(b),
    decreases a.len(),
{
    if a.len() == 0 {
        assert(a + b =~= b);
    } else {
        assert((a + b).drop_first() =~= a.drop_first() + b);
        assert((a + b)[0] == a[0]);
        lemma_encode_concat(a.drop_first(), b);
    }
}

/// An ASCII character is encoded as its own code, one byte.
pub proof fn lemma_encode_ascii(c: char)
    requires
        (c as u32) < 128,
    ensures
        encode_utf8(seq![c]) == seq![(c as u32) as u8],
{
    let u = c as u32;
    assert((u & 0x7F) as u8 == u as u8) by (bit_vector)
        requires
            u < 128,
    ;
    let s = seq![c];
    assert(s.drop_first() =~= Seq::<char>::empty());
    assert(encode_utf8(s.drop_first()) =~= Seq::<u8>::empty());
    assert(s[0] == c);
    assert(has_width_1_encoding(u));
    assert(encode_scalar(u) == seq![leading_byte_width_1(u)]);
    assert(encode_utf8(s) == encode_scalar(u) + encode_utf8(s.drop_first()));
    assert(encode_utf8(s) =~= seq![(c as u32) as u8]);
}

/// Appends the UTF-8 bytes of the decimal numeral of `n`.
pub fn push_decimal(out: &mut Vec<u8>, n: u64)
    ensures
        final(out)@ == old(out)@ + encode_utf8(decimal(n as nat)),
    decreases n,
{
    let d = n % 10;
    proof {
        lemma_encode_ascii(digit_char(d as nat));
    }
    if n >= 10 {
        push_decimal(out, n / 10);
        out.push((d + 48) as u8);
        proof {
            lemma_encode_concat(decimal((n / 10) as nat), seq![digit_char(d as nat)]);
            assert(decimal(n as nat) =~= decimal((n / 10) as nat) + seq![digit_char(d as nat)]);
            assert(final(out)@ =~= old(out)@ + encode_utf8(decimal(n as nat)));
        }
    } else {
        out.push((d + 48) as u8);
        proof {
            assert(final(out)@ =~= old(out)@ + encode_utf8(decimal(n as nat)));
        }
    }
}

/// `host`, a colon and the decimal port: the text form of an endpoint.
pub fn host_port(host: &str, port: u16) -> (r: String)
    ensures
        r@ == host@ + seq![':'] + decimal(port as nat),
{
    let mut bytes: Vec<u8> = Vec::new();
    let hb = host.as_bytes();
    let mut i: usize = 0;
    while i < hb.len()
        invariant
            i <= hb@.len(),
            bytes@ == hb@.subrange(0, i as int),
        decreases hb@.len() - i,
    {
        bytes.push(hb[i]);
        proof {
            assert(bytes@ =~= hb@.subrange(0, i + 1));
        }
        i = i + 1;
    }
    bytes.push(58u8);
    push_decimal(&mut bytes, port as u64);
    let ghost chars = host@ + seq![':'] + decimal(port as nat);
    proof {
        lemma_encode_ascii(':');
        lemma_encode_concat(host@, seq![':']);
        lemma_encode_concat(host@ + seq![':'], decimal(port as nat));
        assert(hb@.subrange(0, hb@.len() as int) =~= hb@);
        assert(bytes@ =~= encode_utf8(chars));
        encode_utf8_valid_utf8(chars);
        encode_utf8_decode_utf8(chars);
    }
    match string_from_utf8(bytes) {
        Some(s) => s,
        None => String::new(),
    }
}

/// The decimal numeral of `n` as a string.
pub fn decimal_string(n: u64) -> (r: String)
    ensures
        r@ == decimal(n as nat),
{
    let mut bytes: Vec<u8> = Vec::new();
    push_decimal(&mut bytes, n);
    proof {
        assert(bytes@ =~= encode_utf8(decimal(n as nat)));
        encode_utf8_valid_utf8(decimal(n as nat));
        encode_utf8_decode_utf8(decimal(n as nat));
    }
    match string_from_utf8(bytes) {
        Some(s) => s,
        None => String::new(),
    }
}

} // verus!
