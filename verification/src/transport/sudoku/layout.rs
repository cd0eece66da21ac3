//! How a hint (a value 0 to 3 and a cell 0 to 15) is written as one byte, and how
//! hint bytes are told from padding bytes. Three layouts: printable ASCII, low
//! entropy, and a custom one given by an 8-letter pattern.

use vstd::prelude::*;

use crate::text::{chars_of, lower, lower_eq, trim, trim_str};

verus! {

/// Where a custom layout puts its bits: the two marker bits, set in every hint; the
/// two bits of the value, high first; the four bits of the cell, high first.
#[derive(Debug, Clone, Copy, PartialEq, Eq, Structural)]
pub struct CustomBits {
    pub x_mask: u8,
    pub p0: u8,
    pub p1: u8,
    pub v0: u8,
    pub v1: u8,
    pub v2: u8,
    pub v3: u8,
}

/// The three kinds of layout.
#[derive(Debug, Clone, Copy, PartialEq, Eq, Structural)]
pub enum LayoutKind {
    Ascii,
    Entropy,
    Custom(CustomBits),
}

/// A byte layout.
pub struct ByteLayout {
    pub name: &'static str,
    /// A byte is a hint when its bits under the mask are the value.
    pub hint_mask: u8,
    pub hint_value: u8,
    pub padding_pool: Vec<u8>,
    pub kind: LayoutKind,
    /// ASCII layouts write the would-be DEL byte as a newline.
    pub is_ascii: bool,
}

/// The byte with only bit `b` set.
pub open spec fn bit(b: u8) -> u8 {
    (1u8 << b) as u8
}

/// The hint byte of a custom layout, with the marker bit `drop` cleared when given
/// (such bytes serve as padding).
pub open spec fn custom_bits_byte(c: CustomBits, val: u8, pos: u8, drop: Option<u8>) -> u8 {
    let base = match drop {
        Some(d) => c.x_mask & !bit(d),
        None => c.x_mask,
    };
    base | (if val & 2 != 0 { bit(c.p0) } else { 0 }) | (if val & 1 != 0 { bit(c.p1) } else { 0 })
        | (if (pos >> 3u8) & 1 == 1 { bit(c.v0) } else { 0 }) | (if (pos >> 2u8) & 1 == 1 { bit(c.v1) } else { 0 })
        | (if (pos >> 1u8) & 1 == 1 { bit(c.v2) } else { 0 }) | (if pos & 1 == 1 { bit(c.v3) } else { 0 })
}

/// The ASCII hint: `0x40`, the value in bits 4-5, the cell in bits 0-3; `0x7F`
/// becomes a newline.
pub open spec fn ascii_hint(val: u8, pos: u8) -> u8 {
    let b = 0x40u8 | (((val & 3u8) << 4u8) as u8) | (pos & 0x0Fu8);
    if b == 0x7F { 0x0Au8 } else { b }
}

/// The low-entropy hint: the value in bits 5-6, the cell in bits 0-3.
pub open spec fn entropy_hint(val: u8, pos: u8) -> u8 {
    (((val & 3u8) << 5u8) as u8) | (pos & 0x0Fu8)
}

/// The custom hint, as a table of the 64 hints of values below 4 and cells below
/// 16 keyed by `val << 4 | pos` gives it: keys past the table give 0.
pub open spec fn custom_hint(c: CustomBits, val: u8, pos: u8) -> u8 {
    let key = (((val as u16) << 4u16) as u16) | (pos as u16);
    if key < 64 {
        custom_bits_byte(c, (key >> 4u16) as u8, (key & 15u16) as u8, None)
    } else {
        0
    }
}

impl ByteLayout {
    pub open spec fn spec_encode_hint(&self, val: u8, pos: u8) -> u8 {
        match self.kind {
            LayoutKind::Ascii => ascii_hint(val, pos),
            LayoutKind::Entropy => entropy_hint(val, pos),
            LayoutKind::Custom(c) => custom_hint(c, val, pos),
        }
    }

    pub open spec fn spec_is_hint(&self, b: u8) -> bool {
        (b & self.hint_mask) == self.hint_value || (self.is_ascii && b == 0x0A)
    }

    /// Whether `b` is a hint byte.
    pub fn is_hint(&self, b: u8) -> (r: bool)
        ensures
            r == self.spec_is_hint(b),
    {
        if (b & self.hint_mask) == self.hint_value {
            return true;
        }
        self.is_ascii && b == 0x0A
    }

    /// The hint byte of value `val` (0 to 3) in cell `pos` (0 to 15).
    pub fn encode_hint(&self, val: u8, pos: u8) -> (r: u8)
        ensures
            r == self.spec_encode_hint(val, pos),
    {
        match self.kind {
            LayoutKind::Ascii => ascii_encode_hint(val, pos),
            LayoutKind::Entropy => entropy_encode_hint(val, pos),
            LayoutKind::Custom(c) => custom_encode_hint(&c, val, pos),
        }
    }
}

fn ascii_encode_hint(val: u8, pos: u8) -> (r: u8)
    ensures
        r == ascii_hint(val, pos),
{
    let b = 0x40u8 | ((val & 0x03) << 4) | (pos & 0x0F);
    if b == 0x7F {
        0x0A
    } else {
        b
    }
}

fn entropy_encode_hint(val: u8, pos: u8) -> (r: u8)
    ensures
        r == entropy_hint(val, pos),
{
    ((val & 0x03) << 5) | (pos & 0x0F)
}

fn bit_of(b: u8) -> (r: u8)
    requires
        b < 8,
    ensures
        r == bit(b),
{
    1u8 << b
}

fn custom_bits(c: &CustomBits, val: u8, pos: u8, drop: Option<u8>) -> (r: u8)
    ensures
        r == custom_bits_byte(*c, val, pos, drop),
{
    let base = match drop {
        Some(d) => c.x_mask & !shifted_bit(d),
        None => c.x_mask,
    };
    let a = if val & 2 != 0 { shifted_bit(c.p0) } else { 0 };
    let b = if val & 1 != 0 { shifted_bit(c.p1) } else { 0 };
    let e = if (pos >> 3u8) & 1 == 1 { shifted_bit(c.v0) } else { 0 };
    let f = if (pos >> 2u8) & 1 == 1 { shifted_bit(c.v1) } else { 0 };
    let g = if (pos >> 1u8) & 1 == 1 { shifted_bit(c.v2) } else { 0 };
    let h = if pos & 1 == 1 { shifted_bit(c.v3) } else { 0 };
    base | a | b | e | f | g | h
}

/// The bit positions of a custom layout are bits of a byte.
pub open spec fn custom_wf(c: CustomBits) -> bool {
    c.p0 < 8 && c.p1 < 8 && c.v0 < 8 && c.v1 < 8 && c.v2 < 8 && c.v3 < 8
}

fn custom_encode_hint(c: &CustomBits, val: u8, pos: u8) -> (r: u8)
    ensures
        r == custom_hint(*c, val, pos),
{
    let key: u16 = ((val as u16) << 4) | (pos as u16);
    if key < 64 {
        custom_bits(c, (key >> 4) as u8, (key & 15) as u8, None)
    } else {
        0
    }
}

fn shifted_bit(b: u8) -> (r: u8)
    ensures
        r == bit(b),
{
    if b < 8 {
        1u8 << b
    } else {
        proof {
            assert((1u8 << b) as u8 == 0) by (bit_vector)
                requires
                    b >= 8,
            ;
        }
        0
    }
}

/// The ASCII layout: hints and padding are printable characters (or a newline).
pub fn new_ascii_layout() -> (r: ByteLayout)
    ensures
        r.kind == LayoutKind::Ascii,
        r.hint_mask == 0x40 && r.hint_value == 0x40 && r.is_ascii,
        r.padding_pool@ == Seq::new(32, |i: int| (0x20 + i) as u8),
        r.name@ == "ascii"@,
{
    let mut padding: Vec<u8> = Vec::new();
    let mut i: u8 = 0;
    while i < 32
        invariant
            i <= 32,
            padding@ == Seq::new(i as nat, |k: int| (0x20 + k) as u8),
        decreases 32 - i,
    {
        padding.push(0x20 + i);
        proof {
            assert(padding@ =~= Seq::new((i + 1) as nat, |k: int| (0x20 + k) as u8));
        }
        i = i + 1;
    }
    ByteLayout { name: "ascii", hint_mask: 0x40, hint_value: 0x40, padding_pool: padding, kind: LayoutKind::Ascii, is_ascii: true }
}

/// The low-entropy layout: hints have bits 7 and 4 clear.
pub fn new_entropy_layout() -> (r: ByteLayout)
    ensures
        r.kind == LayoutKind::Entropy,
        r.hint_mask == 0x90 && r.hint_value == 0x00 && !r.is_ascii,
        r.padding_pool@ == Seq::new(16, |i: int| if i % 2 == 0 { (0x80 + i / 2) as u8 } else { (0x10 + i / 2) as u8 }),
        r.name@ == "entropy"@,
{
    let mut padding: Vec<u8> = Vec::new();
    let mut i: u8 = 0;
    while i < 8
        invariant
            i <= 8,
            padding@ == Seq::new(2 * i as nat, |k: int| if k % 2 == 0 { (0x80 + k / 2) as u8 } else { (0x10 + k / 2) as u8 }),
        decreases 8 - i,
    {
        padding.push(0x80 + i);
        padding.push(0x10 + i);
        proof {
            assert(padding@ =~= Seq::new(2 * (i + 1) as nat, |k: int| if k % 2 == 0 { (0x80 + k / 2) as u8 } else { (0x10 + k / 2) as u8 }));
        }
        i = i + 1;
    }
    ByteLayout { name: "entropy", hint_mask: 0x90, hint_value: 0x00, padding_pool: padding, kind: LayoutKind::Entropy, is_ascii: false }
}

/// Every hint of the ASCII and low-entropy layouts is recognized as a hint, and an
/// ASCII hint is printable (or a newline).
pub proof fn lemma_builtin_hints(val: u8, pos: u8)
    requires
        val < 4,
        pos < 16,
    ensures
        0x20 <= ascii_hint(val, pos) <= 0x7E || ascii_hint(val, pos) == 0x0A,
        (ascii_hint(val, pos) & 0x40u8) == 0x40u8 || ascii_hint(val, pos) == 0x0A,
        (entropy_hint(val, pos) & 0x90u8) == 0u8,
{
    assert(0x20 <= ascii_hint(val, pos) <= 0x7E || ascii_hint(val, pos) == 0x0A) by (bit_vector)
        requires
            val < 4,
            pos < 16,
    ;
    assert((ascii_hint(val, pos) & 0x40u8) == 0x40u8 || ascii_hint(val, pos) == 0x0A) by (bit_vector)
        requires
            val < 4,
            pos < 16,
    ;
    assert((entropy_hint(val, pos) & 0x90u8) == 0u8) by (bit_vector);
}

/// No padding byte of the ASCII or the low-entropy layout is taken for a hint.
pub proof fn lemma_builtin_padding(k: u8)
    ensures
        k < 32 ==> ((((0x20 + k) as u8) & 0x40u8) != 0x40u8 && (0x20 + k) as u8 != 0x0Au8),
        k < 8 ==> ((((0x80 + k) as u8) & 0x90u8) != 0u8 && (((0x10 + k) as u8) & 0x90u8) != 0u8),
{
    assert(k < 32 ==> ((((0x20 + k) as u8) & 0x40u8) != 0x40u8 && (0x20 + k) as u8 != 0x0Au8)) by (bit_vector);
    assert(k < 8 ==> ((((0x80 + k) as u8) & 0x90u8) != 0u8 && (((0x10 + k) as u8) & 0x90u8) != 0u8)) by (bit_vector);
}

/// A custom pattern once trimmed, with spaces removed and lower-cased.
pub open spec fn cleaned_pattern(pattern: Seq<char>) -> Seq<char> {
    lower(trim(pattern).filter(|c: char| c != ' '))
}

/// The positions (bit 7 first) at which a pattern has `c`.
pub open spec fn bits_of(s: Seq<char>, c: char) -> Seq<u8>
    decreases s.len(),
{
    if s.len() == 0 {
        Seq::empty()
    } else {
        let rest = bits_of(s.drop_last(), c);
        if s.last() == c {
            rest.push((7 - (s.len() - 1)) as u8)
        } else {
            rest
        }
    }
}

/// A pattern of eight letters `x`, `p` and `v` (any case, spaces ignored): two `x`,
/// two `p`, four `v`.
pub open spec fn pattern_ok(pattern: Seq<char>) -> bool {
    let s = cleaned_pattern(pattern);
    &&& s.len() == 8
    &&& forall|i: int| 0 <= i < 8 ==> (#[trigger] s[i] == 'x' || s[i] == 'p' || s[i] == 'v')
    &&& bits_of(s, 'x').len() == 2
    &&& bits_of(s, 'p').len() == 2
    &&& bits_of(s, 'v').len() == 4
}

/// The number of set bits of `b`.
pub open spec fn popcount(b: u8) -> nat
    decreases b,
{
    if b == 0 {
        0
    } else {
        (b % 2) as nat + popcount(b / 2)
    }
}

proof fn lemma_popcount_le(b: u8)
    ensures
        popcount(b) <= b,
    decreases b,
{
    if b > 0 {
        lemma_popcount_le(b / 2);
    }
}

fn count_ones(b: u8) -> (r: u32)
    ensures
        r == popcount(b),
{
    let mut x = b;
    let mut n: u32 = 0;
    proof {
        lemma_popcount_le(b);
    }
    while x != 0
        invariant
            n + popcount(x) == popcount(b),
            popcount(b) <= 255,
        decreases x,
    {
        n = n + (x % 2) as u32;
        x = x / 2;
    }
    n
}

/// `s` with each value kept at its first occurrence only.
pub open spec fn dedup(s: Seq<u8>) -> Seq<u8>
    decreases s.len(),
{
    if s.len() == 0 {
        Seq::empty()
    } else {
        let r = dedup(s.drop_last());
        if r.contains(s.last()) {
            r
        } else {
            r.push(s.last())
        }
    }
}

/// The padding candidates of a custom layout: each hint with one of the two marker
/// bits cleared, first marker first, then by value and cell.
pub open spec fn padding_candidates(c: CustomBits, x_bits: Seq<u8>) -> Seq<u8> {
    Seq::new(128, |i: int| custom_bits_byte(c, ((i / 16) % 4) as u8, (i % 16) as u8, Some(x_bits[i / 64])))
}

/// The padding of a custom layout: the candidates with at least five bits set, each
/// once.
pub open spec fn custom_padding(c: CustomBits, x_bits: Seq<u8>) -> Seq<u8> {
    dedup(padding_candidates(c, x_bits).filter(|b: u8| popcount(b) >= 5))
}

/// The layout that a valid pattern describes.
pub open spec fn pattern_bits(pattern: Seq<char>) -> CustomBits {
    let s = cleaned_pattern(pattern);
    let x = bits_of(s, 'x');
    let p = bits_of(s, 'p');
    let v = bits_of(s, 'v');
    CustomBits { x_mask: bit(x[0]) | bit(x[1]), p0: p[0], p1: p[1], v0: v[0], v1: v[1], v2: v[2], v3: v[3] }
}

proof fn lemma_bits_of_bounded(s: Seq<char>, c: char)
    requires
        s.len() <= 8,
    ensures
        forall|i: int| 0 <= i < bits_of(s, c).len() ==> #[trigger] bits_of(s, c)[i] < 8,
        bits_of(s, c).len() <= s.len(),
    decreases s.len(),
{
    if s.len() > 0 {
        lemma_bits_of_bounded(s.drop_last(), c);
    }
}

/// The characters of `pattern` trimmed, without spaces, lower-cased.
fn clean_pattern(pattern: &str) -> (r: Vec<char>)
    ensures
        r@ == cleaned_pattern(pattern@),
{
    let t = chars_of(trim_str(pattern));
    let ghost f = t@.filter(|c: char| c != ' ');
    let mut out: Vec<char> = Vec::new();
    let mut i: usize = 0;
    while i < t.len()
        invariant
            i <= t@.len(),
            out@ == lower(t@.subrange(0, i as int).filter(|c: char| c != ' ')),
        decreases t@.len() - i,
    {
        let c = t[i];
        proof {
            let sub = t@.subrange(0, i + 1);
            assert(sub.drop_last() =~= t@.subrange(0, i as int));
            assert(sub.last() == c);
            reveal(Seq::filter);
        }
        if c != ' ' {
            out.push(crate::text::char_ascii_lower(c));
            proof {
                assert(out@ =~= lower(t@.subrange(0, i + 1).filter(|c: char| c != ' ')));
            }
        } else {
            proof {
                assert(out@ =~= lower(t@.subrange(0, i + 1).filter(|c: char| c != ' ')));
            }
        }
        i = i + 1;
    }
    proof {
        assert(t@.subrange(0, t@.len() as int) =~= t@);
    }
    out
}

/// The custom layout of an 8-letter pattern of `x` (marker), `p` (value) and `v`
/// (cell) bits, most significant bit first.
pub fn new_custom_layout(pattern: &str) -> (r: Result<ByteLayout, String>)
    ensures
        r is Ok <==> pattern_ok(pattern@),
        r matches Ok(l) ==> {
            let c = pattern_bits(pattern@);
            &&& l.kind == LayoutKind::Custom(c)
            &&& custom_wf(c)
            &&& l.hint_mask == c.x_mask && l.hint_value == c.x_mask && !l.is_ascii
            &&& l.padding_pool@ == custom_padding(c, bits_of(cleaned_pattern(pattern@), 'x'))
            &&& l.name@ == "custom"@
        },
{
    let cleaned = clean_pattern(pattern);
    let ghost s = cleaned@;
    if cleaned.len() != 8 {
        return Err("custom table must have 8 characters".to_string());
    }
    let mut x_bits: Vec<u8> = Vec::new();
    let mut p_bits: Vec<u8> = Vec::new();
    let mut v_bits: Vec<u8> = Vec::new();
    let mut i: usize = 0;
    while i < 8
        invariant
            i <= 8,
            s.len() == 8,
            cleaned@ == s,
            s == cleaned_pattern(pattern@),
            forall|k: int| 0 <= k < i ==> (#[trigger] s[k] == 'x' || s[k] == 'p' || s[k] == 'v'),
            x_bits@ == bits_of(s.subrange(0, i as int), 'x'),
            p_bits@ == bits_of(s.subrange(0, i as int), 'p'),
            v_bits@ == bits_of(s.subrange(0, i as int), 'v'),
        decreases 8 - i,
    {
        let c = cleaned[i];
        let b = (7 - i) as u8;
        proof {
            let sub = s.subrange(0, i + 1);
            assert(sub.drop_last() =~= s.subrange(0, i as int));
            assert(sub.last() == c);
        }
        if c == 'x' {
            x_bits.push(b);
        } else if c == 'p' {
            p_bits.push(b);
        } else if c == 'v' {
            v_bits.push(b);
        } else {
            proof {
                assert(!(s[i as int] == 'x' || s[i as int] == 'p' || s[i as int] == 'v'));
            }
            return Err("invalid character in custom table".to_string());
        }
        i = i + 1;
    }
    proof {
        assert(s.subrange(0, 8) =~= s);
        lemma_bits_of_bounded(s, 'x');
        lemma_bits_of_bounded(s, 'p');
        lemma_bits_of_bounded(s, 'v');
    }
    if x_bits.len() != 2 || p_bits.len() != 2 || v_bits.len() != 4 {
        return Err("custom table must hold exactly 2 x, 2 p and 4 v".to_string());
    }
    let x_mask = bit_of(x_bits[0]) | bit_of(x_bits[1]);
    let bits = CustomBits { x_mask, p0: p_bits[0], p1: p_bits[1], v0: v_bits[0], v1: v_bits[1], v2: v_bits[2], v3: v_bits[3] };
    proof {
        assert(bits == pattern_bits(pattern@));
    }
    let ghost cands = padding_candidates(bits, x_bits@);
    let mut padding: Vec<u8> = Vec::new();
    let mut k: usize = 0;
    while k < 128
        invariant
            k <= 128,
            custom_wf(bits),
            x_bits@.len() == 2,
            forall|j: int| 0 <= j < 2 ==> #[trigger] x_bits@[j] < 8,
            cands == padding_candidates(bits, x_bits@),
            padding@ == dedup(cands.subrange(0, k as int).filter(|b: u8| popcount(b) >= 5)),
        decreases 128 - k,
    {
        let drop = k / 64;
        let val = ((k / 16) % 4) as u8;
        let pos = (k % 16) as u8;
        let b = custom_bits(&bits, val, pos, Some(x_bits[drop]));
        let ghost prev = cands.subrange(0, k as int).filter(|b: u8| popcount(b) >= 5);
        proof {
            assert(b == cands[k as int]);
            let sub = cands.subrange(0, k + 1);
            assert(sub.drop_last() =~= cands.subrange(0, k as int));
            assert(sub.last() == b);
            reveal(Seq::filter);
        }
        if count_ones(b) >= 5 {
            proof {
                assert(cands.subrange(0, k + 1).filter(|b: u8| popcount(b) >= 5) =~= prev.push(b));
            }
            proof {
                assert(prev.push(b).drop_last() =~= prev);
            }
            if !vec_contains(&padding, b) {
                padding.push(b);
            }
        } else {
            proof {
                assert(cands.subrange(0, k + 1).filter(|b: u8| popcount(b) >= 5) =~= prev);
            }
        }
        k = k + 1;
    }
    proof {
        assert(cands.subrange(0, 128) =~= cands);
    }
    Ok(ByteLayout { name: "custom", hint_mask: x_mask, hint_value: x_mask, padding_pool: padding, kind: LayoutKind::Custom(bits), is_ascii: false })
}

fn vec_contains(v: &Vec<u8>, b: u8) -> (r: bool)
    ensures
        r == v@.contains(b),
{
    let mut i: usize = 0;
    while i < v.len()
        invariant
            i <= v@.len(),
            forall|k: int| 0 <= k < i ==> v@[k] != b,
        decreases v@.len() - i,
    {
        if v[i] == b {
            return true;
        }
        i = i + 1;
    }
    false
}

/// The layout that a table type names (in any case): ASCII for "ascii" or
/// "prefer_ascii"; for "entropy", "prefer_entropy" or nothing, the custom layout of
/// the pattern when one is given, else the low-entropy one; other names are refused.
pub fn resolve_layout(mode: &str, custom_pattern: &str) -> (r: Result<ByteLayout, String>)
    ensures
        lower(mode@) == "ascii"@ || lower(mode@) == "prefer_ascii"@ ==> (r matches Ok(l) && l.kind == LayoutKind::Ascii),
        !(lower(mode@) == "ascii"@ || lower(mode@) == "prefer_ascii"@)
            && (lower(mode@) == "entropy"@ || lower(mode@) == "prefer_entropy"@ || mode@.len() == 0) ==> if trim(custom_pattern@).len() > 0 {
            (r is Ok <==> pattern_ok(custom_pattern@)) && (r matches Ok(l) ==> l.kind == LayoutKind::Custom(pattern_bits(custom_pattern@)))
        } else {
            r matches Ok(l) && l.kind == LayoutKind::Entropy
        },
        !(lower(mode@) == "ascii"@ || lower(mode@) == "prefer_ascii"@ || lower(mode@) == "entropy"@
            || lower(mode@) == "prefer_entropy"@ || mode@.len() == 0) ==> r is Err,
        r matches Ok(l) ==> l.name@ == (match l.kind {
            LayoutKind::Ascii => "ascii"@,
            LayoutKind::Entropy => "entropy"@,
            LayoutKind::Custom(_) => "custom"@,
        }),
        r matches Ok(l) ==> hints_injective(l),
{
    if lower_eq(mode, "ascii") || lower_eq(mode, "prefer_ascii") {
        let l = new_ascii_layout();
        proof {
            lemma_layout_injective(l, custom_pattern@);
        }
        return Ok(l);
    }
    if lower_eq(mode, "entropy") || lower_eq(mode, "prefer_entropy") || mode.is_empty() {
        let t = trim_str(custom_pattern);
        if !t.is_empty() {
            let r = new_custom_layout(custom_pattern);
            proof {
                if r is Ok {
                    lemma_layout_injective(r->Ok_0, custom_pattern@);
                }
            }
            return r;
        } else {
            let l = new_entropy_layout();
            proof {
                lemma_layout_injective(l, custom_pattern@);
            }
            return Ok(l);
        }
    }
    Err("invalid table-type".to_string())
}

} // verus!

verus! {

/// No two (value, cell) pairs of a layout share a hint byte.
pub open spec fn hints_injective(l: ByteLayout) -> bool {
    forall|v1: u8, p1: u8, v2: u8, p2: u8|
        v1 < 4 && p1 < 16 && v2 < 4 && p2 < 16 && #[trigger] l.spec_encode_hint(v1, p1) == #[trigger] l.spec_encode_hint(v2, p2)
            ==> v1 == v2 && p1 == p2
}

/// The hint byte of a custom layout spelled out over its bit positions.
spec fn custom_byte(x0: u8, x1: u8, p0: u8, p1: u8, v0: u8, v1: u8, v2: u8, v3: u8, val: u8, pos: u8) -> u8 {
    ((1u8 << x0) as u8 | (1u8 << x1) as u8) | (if val & 2 != 0 { (1u8 << p0) as u8 } else { 0 }) | (if val & 1 != 0 {
        (1u8 << p1) as u8
    } else {
        0
    }) | (if (pos >> 3u8) & 1 == 1 { (1u8 << v0) as u8 } else { 0 }) | (if (pos >> 2u8) & 1 == 1 { (1u8 << v1) as u8 } else { 0 })
        | (if (pos >> 1u8) & 1 == 1 { (1u8 << v2) as u8 } else { 0 }) | (if pos & 1 == 1 { (1u8 << v3) as u8 } else { 0 })
}

/// With eight different bit positions, a custom hint byte gives back its value and
/// cell.
proof fn lemma_custom_byte_injective(
    x0: u8, x1: u8, p0: u8, p1: u8, v0: u8, v1: u8, v2: u8, v3: u8, a1: u8, b1: u8, a2: u8, b2: u8,
)
    by (bit_vector)
    requires
        x0 < 8 && x1 < 8 && p0 < 8 && p1 < 8 && v0 < 8 && v1 < 8 && v2 < 8 && v3 < 8,
        x0 != p0 && x0 != p1 && x0 != v0 && x0 != v1 && x0 != v2 && x0 != v3,
        x1 != p0 && x1 != p1 && x1 != v0 && x1 != v1 && x1 != v2 && x1 != v3,
        p0 != p1 && p0 != v0 && p0 != v1 && p0 != v2 && p0 != v3,
        p1 != v0 && p1 != v1 && p1 != v2 && p1 != v3,
        v0 != v1 && v0 != v2 && v0 != v3 && v1 != v2 && v1 != v3 && v2 != v3,
        a1 < 4 && a2 < 4 && b1 < 16 && b2 < 16,
        custom_byte(x0, x1, p0, p1, v0, v1, v2, v3, a1, b1) == custom_byte(x0, x1, p0, p1, v0, v1, v2, v3, a2, b2),
    ensures
        a1 == a2 && b1 == b2,
{
}

/// The bit positions a pattern lists for a letter: one per occurrence, bit 7 for the
/// first character, each the position of a character that is that letter, strictly
/// decreasing.
proof fn lemma_bits_of_positions(s: Seq<char>, c: char)
    requires
        s.len() <= 8,
    ensures
        forall|k: int| 0 <= k < bits_of(s, c).len() ==> #[trigger] bits_of(s, c)[k] <= 7 && 7 - bits_of(s, c)[k] < s.len()
            && s[7 - bits_of(s, c)[k]] == c,
        forall|k1: int, k2: int| 0 <= k1 < k2 < bits_of(s, c).len() ==> #[trigger] bits_of(s, c)[k1] > #[trigger] bits_of(s, c)[k2],
    decreases s.len(),
{
    if s.len() > 0 {
        let t = s.drop_last();
        lemma_bits_of_positions(t, c);
        assert forall|k: int| 0 <= k < bits_of(t, c).len() implies s[7 - bits_of(t, c)[k]] == c by {
            assert(s[7 - bits_of(t, c)[k]] == t[7 - bits_of(t, c)[k]]);
        }
    }
}

/// The hints of a valid custom pattern are all different.
proof fn lemma_pattern_injective(pattern: Seq<char>)
    requires
        pattern_ok(pattern),
    ensures
        forall|a1: u8, b1: u8, a2: u8, b2: u8|
            a1 < 4 && b1 < 16 && a2 < 4 && b2 < 16 && #[trigger] custom_hint(pattern_bits(pattern), a1, b1) == #[trigger] custom_hint(
                pattern_bits(pattern),
                a2,
                b2,
            ) ==> a1 == a2 && b1 == b2,
{
    let s = cleaned_pattern(pattern);
    let x = bits_of(s, 'x');
    let p = bits_of(s, 'p');
    let v = bits_of(s, 'v');
    lemma_bits_of_positions(s, 'x');
    lemma_bits_of_positions(s, 'p');
    lemma_bits_of_positions(s, 'v');
    let c = pattern_bits(pattern);
    assert(x[0] > x[1] && p[0] > p[1] && v[0] > v[1] && v[1] > v[2] && v[2] > v[3] && v[0] > v[2] && v[0] > v[3] && v[1] > v[3]);
    assert(s[7 - p[0]] == 'p' && s[7 - p[1]] == 'p');
    assert(s[7 - x[0]] == 'x' && s[7 - x[1]] == 'x');
    assert(s[7 - v[0]] == 'v' && s[7 - v[1]] == 'v' && s[7 - v[2]] == 'v' && s[7 - v[3]] == 'v');
    assert(p[0] != v[0] && p[0] != v[1] && p[0] != v[2] && p[0] != v[3]);
    assert(p[1] != v[0] && p[1] != v[1] && p[1] != v[2] && p[1] != v[3]);
    assert(x[0] != v[0] && x[0] != v[1] && x[0] != v[2] && x[0] != v[3]);
    assert(x[1] != v[0] && x[1] != v[1] && x[1] != v[2] && x[1] != v[3]);
    assert(x[0] != p[0] && x[0] != p[1] && x[1] != p[0] && x[1] != p[1]);
    assert forall|a1: u8, b1: u8, a2: u8, b2: u8|
        a1 < 4 && b1 < 16 && a2 < 4 && b2 < 16 && #[trigger] custom_hint(c, a1, b1) == #[trigger] custom_hint(c, a2, b2)
        implies a1 == a2 && b1 == b2 by {
        lemma_custom_hint_unfold(c, a1, b1);
        lemma_custom_hint_unfold(c, a2, b2);
        assert(custom_hint(c, a1, b1) == custom_byte(x[0], x[1], p[0], p[1], v[0], v[1], v[2], v[3], a1, b1));
        assert(custom_hint(c, a2, b2) == custom_byte(x[0], x[1], p[0], p[1], v[0], v[1], v[2], v[3], a2, b2));
        lemma_custom_byte_injective(x[0], x[1], p[0], p[1], v[0], v[1], v[2], v[3], a1, b1, a2, b2);
    }
}

/// A custom hint of a value below 4 and a cell below 16 is its bits byte.
proof fn lemma_custom_hint_unfold(c: CustomBits, val: u8, pos: u8)
    requires
        val < 4,
        pos < 16,
    ensures
        custom_hint(c, val, pos) == custom_bits_byte(c, val, pos, None),
{
    let key = (((val as u16) << 4u16) as u16) | (pos as u16);
    assert(key < 64 && (key >> 4u16) as u8 == val && (key & 15u16) as u8 == pos) by (bit_vector)
        requires
            val < 4,
            pos < 16,
            key == (((val as u16) << 4u16) as u16) | (pos as u16),
    ;
}

/// The ASCII and the low-entropy layout give different bytes to different hints.
proof fn lemma_builtin_injective(a1: u8, b1: u8, a2: u8, b2: u8)
    requires
        a1 < 4 && b1 < 16 && a2 < 4 && b2 < 16,
    ensures
        ascii_hint(a1, b1) == ascii_hint(a2, b2) ==> a1 == a2 && b1 == b2,
        entropy_hint(a1, b1) == entropy_hint(a2, b2) ==> a1 == a2 && b1 == b2,
{
    assert(ascii_hint(a1, b1) == ascii_hint(a2, b2) ==> a1 == a2 && b1 == b2) by (bit_vector)
        requires
            a1 < 4 && b1 < 16 && a2 < 4 && b2 < 16,
    ;
    assert(entropy_hint(a1, b1) == entropy_hint(a2, b2) ==> a1 == a2 && b1 == b2) by (bit_vector)
        requires
            a1 < 4 && b1 < 16 && a2 < 4 && b2 < 16,
    ;
}

/// The layouts that `resolve_layout` gives have injective hints.
pub proof fn lemma_layout_injective(l: ByteLayout, pattern: Seq<char>)
    requires
        l.kind == LayoutKind::Ascii || l.kind == LayoutKind::Entropy || (pattern_ok(pattern) && l.kind
            == LayoutKind::Custom(pattern_bits(pattern))),
    ensures
        hints_injective(l),
{
    if l.kind is Custom {
        lemma_pattern_injective(pattern);
    }
    assert forall|v1: u8, p1: u8, v2: u8, p2: u8|
        v1 < 4 && p1 < 16 && v2 < 4 && p2 < 16 && #[trigger] l.spec_encode_hint(v1, p1) == #[trigger] l.spec_encode_hint(v2, p2)
        implies v1 == v2 && p1 == p2 by {
        lemma_builtin_injective(v1, p1, v2, p2);
    }
}

/// What `dedup` keeps was in its input.
proof fn lemma_dedup_subset(s: Seq<u8>)
    ensures
        forall|i: int| 0 <= i < dedup(s).len() ==> s.contains(#[trigger] dedup(s)[i]),
    decreases s.len(),
{
    if s.len() > 0 {
        let t = s.drop_last();
        lemma_dedup_subset(t);
        assert forall|i: int| 0 <= i < dedup(s).len() implies s.contains(#[trigger] dedup(s)[i]) by {
            if i < dedup(t).len() {
                assert(t.contains(dedup(t)[i]));
                let j = choose|j: int| 0 <= j < t.len() && t[j] == dedup(t)[i];
                assert(s[j] == t[j]);
            } else {
                assert(s[s.len() - 1] == s.last());
            }
        }
    }
}

/// A custom hint byte carries both marker bits.
proof fn lemma_custom_byte_marked(x0: u8, x1: u8, p0: u8, p1: u8, v0: u8, v1: u8, v2: u8, v3: u8, val: u8, pos: u8)
    by (bit_vector)
    ensures
        (custom_byte(x0, x1, p0, p1, v0, v1, v2, v3, val, pos) & ((1u8 << x0) as u8 | (1u8 << x1) as u8)) == ((1u8 << x0) as u8
            | (1u8 << x1) as u8),
{
}

/// A custom layout's bytes with one marker bit cleared are never hints.
proof fn lemma_cleared_marker_not_hint(x0: u8, x1: u8, p0: u8, p1: u8, v0: u8, v1: u8, v2: u8, v3: u8, d: u8, val: u8, pos: u8)
    by (bit_vector)
    requires
        x0 < 8 && x1 < 8 && p0 < 8 && p1 < 8 && v0 < 8 && v1 < 8 && v2 < 8 && v3 < 8,
        d == x0 || d == x1,
        x0 != x1,
        d != p0 && d != p1 && d != v0 && d != v1 && d != v2 && d != v3,
    ensures
        (((((1u8 << x0) as u8 | (1u8 << x1) as u8) & !((1u8 << d) as u8)) | (if val & 2 != 0 { (1u8 << p0) as u8 } else { 0 })
            | (if val & 1 != 0 { (1u8 << p1) as u8 } else { 0 }) | (if (pos >> 3u8) & 1 == 1 { (1u8 << v0) as u8 } else { 0 })
            | (if (pos >> 2u8) & 1 == 1 { (1u8 << v1) as u8 } else { 0 }) | (if (pos >> 1u8) & 1 == 1 {
            (1u8 << v2) as u8
        } else {
            0
        }) | (if pos & 1 == 1 { (1u8 << v3) as u8 } else { 0 })) & ((1u8 << x0) as u8 | (1u8 << x1) as u8)) != ((1u8
            << x0) as u8 | (1u8 << x1) as u8),
{
}

/// The layout of a valid custom pattern: every hint carries both marker bits and so
/// is taken for a hint, no two hints are one byte, and no padding byte is taken for a
/// hint.
pub proof fn lemma_custom_layout(l: ByteLayout, pattern: Seq<char>)
    requires
        pattern_ok(pattern),
        l.kind == LayoutKind::Custom(pattern_bits(pattern)),
        l.hint_mask == pattern_bits(pattern).x_mask,
        l.hint_value == pattern_bits(pattern).x_mask,
        !l.is_ascii,
        l.padding_pool@ == custom_padding(pattern_bits(pattern), bits_of(cleaned_pattern(pattern), 'x')),
    ensures
        forall|v: u8, p: u8| v < 4 && p < 16 ==> l.spec_is_hint(#[trigger] l.spec_encode_hint(v, p)),
        hints_injective(l),
        forall|k: int| 0 <= k < l.padding_pool@.len() ==> !l.spec_is_hint(#[trigger] l.padding_pool@[k]),
{
    let s = cleaned_pattern(pattern);
    let x = bits_of(s, 'x');
    let p = bits_of(s, 'p');
    let v = bits_of(s, 'v');
    let c = pattern_bits(pattern);
    lemma_bits_of_positions(s, 'x');
    lemma_bits_of_positions(s, 'p');
    lemma_bits_of_positions(s, 'v');
    lemma_layout_injective(l, pattern);
    assert(s[7 - p[0]] == 'p' && s[7 - p[1]] == 'p');
    assert(s[7 - x[0]] == 'x' && s[7 - x[1]] == 'x');
    assert(s[7 - v[0]] == 'v' && s[7 - v[1]] == 'v' && s[7 - v[2]] == 'v' && s[7 - v[3]] == 'v');
    assert(x[0] > x[1]);
    assert forall|vv: u8, pp: u8| vv < 4 && pp < 16 implies l.spec_is_hint(#[trigger] l.spec_encode_hint(vv, pp)) by {
        lemma_custom_hint_unfold(c, vv, pp);
        assert(custom_hint(c, vv, pp) == custom_byte(x[0], x[1], p[0], p[1], v[0], v[1], v[2], v[3], vv, pp));
        lemma_custom_byte_marked(x[0], x[1], p[0], p[1], v[0], v[1], v[2], v[3], vv, pp);
    }
    let cands = padding_candidates(c, x);
    let f = cands.filter(|b: u8| popcount(b) >= 5);
    lemma_dedup_subset(f);
    assert forall|k: int| 0 <= k < l.padding_pool@.len() implies !l.spec_is_hint(#[trigger] l.padding_pool@[k]) by {
        let e = l.padding_pool@[k];
        assert(f.contains(e));
        cands.lemma_filter_contains_rev(|b: u8| popcount(b) >= 5, e);
        assert(cands.contains(e));
        let j = choose|j: int| 0 <= j < cands.len() && cands[j] == e;
        let d = x[j / 64];
        lemma_cleared_marker_not_hint(x[0], x[1], p[0], p[1], v[0], v[1], v[2], v[3], d, ((j / 16) % 4) as u8, (j % 16) as u8);
    }
}

} // verus!
