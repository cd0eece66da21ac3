//! The coding table: every byte value stands for one Sudoku grid, chosen by a
//! keyed shuffle of all grids, and is sent as four hints (cell values) that single
//! that grid out among all valid grids.

use std::collections::HashMap;

use vstd::prelude::*;
use vstd::relations::{sorted_by, total_ordering};

use crate::bytes_util::{be_value, lemma_pow256_mono, pow256};
use crate::crypto::{sha256, sha256_hash};
use super::grid::{completions, generate_all_grids, grids_view, lex_lt, valid_grid, Grid};
use super::layout::{hints_injective, pattern_ok, resolve_layout, ByteLayout};
use crate::text::{lower, trim};

verus! {

broadcast use vstd::std_specs::hash::group_hash_axioms;

/// The order of bytes.
pub open spec fn byte_leq() -> spec_fn(u8, u8) -> bool {
    |a: u8, b: u8| a <= b
}

/// Four bytes packed big-endian.
pub open spec fn pack4(s: Seq<u8>) -> u32 {
    (s[0] as int * 0x1000000 + s[1] as int * 0x10000 + s[2] as int * 0x100 + s[3] as int) as u32
}

/// The key of four hints: the hints in increasing order, packed big-endian.
pub open spec fn hints_key(h: Seq<u8>) -> u32 {
    pack4(h.sort_by(byte_leq()))
}

proof fn lemma_byte_leq_total()
    ensures
        total_ordering(byte_leq()),
{
    reveal(vstd::relations::reflexive);
    reveal(vstd::relations::antisymmetric);
    reveal(vstd::relations::transitive);
    reveal(vstd::relations::strongly_connected);
}

/// Puts the smaller of cells `i` and `j` in `i` and the larger in `j`.
fn compare_exchange(h: &mut [u8; 4], i: usize, j: usize)
    requires
        i < j < 4,
    ensures
        final(h)@.to_multiset() == old(h)@.to_multiset(),
        final(h)@[i as int] <= final(h)@[j as int],
        final(h)@[i as int] == old(h)@[i as int] || final(h)@[i as int] == old(h)@[j as int],
        final(h)@[j as int] == old(h)@[i as int] || final(h)@[j as int] == old(h)@[j as int],
        final(h)@[i as int] <= old(h)@[i as int] && final(h)@[i as int] <= old(h)@[j as int],
        final(h)@[j as int] >= old(h)@[i as int] && final(h)@[j as int] >= old(h)@[j as int],
        forall|k: int| 0 <= k < 4 && k != i && k != j ==> final(h)@[k] == old(h)@[k],
{
    broadcast use vstd::seq_lib::to_multiset_update;
    broadcast use vstd::multiset::group_multiset_axioms;

    if h[i] > h[j] {
        let ghost s = h@;
        let t = h[i];
        h[i] = h[j];
        h[j] = t;
        proof {
            let u = s.update(i as int, s[j as int]);
            assert(h@ =~= u.update(j as int, s[i as int]));
            assert(u.to_multiset() == s.to_multiset().insert(s[j as int]).remove(s[i as int]));
            assert(h@.to_multiset() == u.to_multiset().insert(s[i as int]).remove(s[j as int]));
            broadcast use vstd::seq_lib::group_to_multiset_ensures;
            assert(s.contains(s[i as int]));
            assert(s.contains(s[j as int]));
            let m = s.to_multiset();
            assert(m.count(s[i as int]) > 0);
            assert(m.count(s[j as int]) > 0);
            assert forall|x: u8| h@.to_multiset().count(x) == m.count(x) by {}
            assert(h@.to_multiset() =~= s.to_multiset());
        }
    }
}

/// The key of four hints, whatever their order.
pub fn pack_hints_to_key(hints: [u8; 4]) -> (r: u32)
    ensures
        r == hints_key(hints@),
{
    let mut h = hints;
    compare_exchange(&mut h, 0, 1);
    compare_exchange(&mut h, 2, 3);
    compare_exchange(&mut h, 0, 2);
    compare_exchange(&mut h, 1, 3);
    compare_exchange(&mut h, 1, 2);
    proof {
        lemma_byte_leq_total();
        assert(sorted_by(h@, byte_leq()));
        hints@.lemma_sort_by_ensures(byte_leq());
        vstd::seq_lib::lemma_sorted_unique(h@, hints@.sort_by(byte_leq()), byte_leq());
    }
    let (a, b, c, d) = (h[0], h[1], h[2], h[3]);
    proof {
        assert(((a as u32) << 24u32 | (b as u32) << 16u32 | (c as u32) << 8u32 | d as u32)
            == (a as int * 0x1000000 + b as int * 0x10000 + c as int * 0x100 + d as int) as u32) by (bit_vector);
    }
    (a as u32) << 24 | (b as u32) << 16 | (c as u32) << 8 | d as u32
}

/// The key of four hints depends only on which hints they are, not on their order.
pub proof fn lemma_pack_order_independent(a: Seq<u8>, b: Seq<u8>)
    requires
        a.to_multiset() == b.to_multiset(),
    ensures
        hints_key(a) == hints_key(b),
{
    lemma_byte_leq_total();
    a.lemma_sort_by_ensures(byte_leq());
    b.lemma_sort_by_ensures(byte_leq());
    vstd::seq_lib::lemma_sorted_unique(a.sort_by(byte_leq()), b.sort_by(byte_leq()), byte_leq());
}

/// `k` positions below `n`, in increasing order.
pub open spec fn increasing_below(c: Seq<usize>, n: nat) -> bool {
    &&& forall|i: int| 0 <= i < c.len() ==> #[trigger] c[i] < n
    &&& forall|i: int, j: int| 0 <= i < j < c.len() ==> #[trigger] c[i] < #[trigger] c[j]
}

fn copy_positions(v: &Vec<usize>) -> (r: Vec<usize>)
    ensures
        r@ == v@,
{
    let mut r: Vec<usize> = Vec::new();
    let mut i: usize = 0;
    while i < v.len()
        invariant
            i <= v@.len(),
            r@ == v@.subrange(0, i as int),
        decreases v@.len() - i,
    {
        r.push(v[i]);
        proof {
            assert(r@ =~= v@.subrange(0, i + 1));
        }
        i = i + 1;
    }
    proof {
        assert(v@.subrange(0, v@.len() as int) =~= v@);
    }
    r
}

/// The increasing lists of `k` positions, each at least `i` and below `n`, in
/// lexicographic order: those that start with `i`, then those that start later.
pub open spec fn combos(i: int, n: int, k: nat) -> Seq<Seq<usize>>
    decreases k, n + 1 - i,
{
    if k == 0 {
        seq![Seq::empty()]
    } else if i > n - k {
        Seq::empty()
    } else {
        combos(i + 1, n, (k - 1) as nat).map_values(|c: Seq<usize>| seq![i as usize] + c) + combos(i + 1, n, k)
    }
}

/// The position lists that the vectors hold.
pub open spec fn position_views(v: Seq<Vec<usize>>) -> Seq<Seq<usize>> {
    v.map_values(|x: Vec<usize>| x@)
}

/// `prefix` put before each list.
pub open spec fn prefixed(prefix: Seq<usize>, cs: Seq<Seq<usize>>) -> Seq<Seq<usize>> {
    cs.map_values(|c: Seq<usize>| prefix + c)
}

/// Appends every way to extend `current` with `k` more increasing positions from
/// `start` up to `n - 1`, in increasing order.
fn combine(start: usize, n: usize, k: usize, current: &mut Vec<usize>, result: &mut Vec<Vec<usize>>)
    requires
        k <= n,
        increasing_below(old(current)@, n as nat),
        forall|i: int| 0 <= i < old(current)@.len() ==> #[trigger] old(current)@[i] < start,
        forall|i: int| 0 <= i < old(result)@.len() ==> (#[trigger] old(result)@[i])@.len() == old(current)@.len() + k
            && increasing_below(old(result)@[i]@, n as nat),
    ensures
        final(current)@ == old(current)@,
        position_views(final(result)@) == position_views(old(result)@) + prefixed(
            old(current)@,
            combos(start as int, n as int, k as nat),
        ),
        forall|i: int| 0 <= i < final(result)@.len() ==> (#[trigger] final(result)@[i])@.len() == old(current)@.len() + k
            && increasing_below(final(result)@[i]@, n as nat),
    decreases k,
{
    if k == 0 {
        let c = copy_positions(current);
        let ghost before = result@;
        result.push(c);
        proof {
            assert(position_views(result@) =~= position_views(before).push(c@));
            assert(prefixed(old(current)@, combos(start as int, n as int, 0)) =~= seq![old(current)@ + Seq::<usize>::empty()]);
            assert(old(current)@ + Seq::<usize>::empty() =~= old(current)@);
            assert(position_views(result@) =~= position_views(before) + prefixed(
                old(current)@,
                combos(start as int, n as int, 0),
            ));
        }
        return;
    }
    let mut i = start;
    while i <= n - k
        invariant
            1 <= k <= n,
            current@ == old(current)@,
            increasing_below(current@, n as nat),
            forall|m: int| 0 <= m < current@.len() ==> #[trigger] current@[m] < start,
            i >= start,
            forall|m: int| 0 <= m < result@.len() ==> (#[trigger] result@[m])@.len() == old(current)@.len() + k
                && increasing_below(result@[m]@, n as nat),
            position_views(old(result)@) + prefixed(old(current)@, combos(start as int, n as int, k as nat))
                == position_views(result@) + prefixed(old(current)@, combos(i as int, n as int, k as nat)),
        decreases n + 1 - i,
    {
        let ghost before = result@;
        current.push(i);
        proof {
            assert forall|a: int, b: int| 0 <= a < b < current@.len() implies #[trigger] current@[a] < #[trigger] current@[b] by {
                if b == current@.len() - 1 {
                    assert(current@[a] == old(current)@[a]);
                }
            }
        }
        let ghost cur_i = current@;
        combine(i + 1, n, k - 1, current, result);
        current.pop();
        proof {
            assert(current@ =~= old(current)@);
            let cur = old(current)@;
            let sub = combos(i + 1, n as int, (k - 1) as nat);
            let head = sub.map_values(|c: Seq<usize>| seq![i as usize] + c);
            let tail = combos(i + 1, n as int, k as nat);
            assert(combos(i as int, n as int, k as nat) == head + tail);
            assert(cur_i == cur.push(i));
            assert(prefixed(cur_i, sub) =~= prefixed(cur, head)) by {
                assert forall|j: int| 0 <= j < sub.len() implies prefixed(cur_i, sub)[j] == prefixed(cur, head)[j] by {
                    assert(cur.push(i) + sub[j] =~= cur + (seq![i as usize] + sub[j]));
                }
            }
            assert(prefixed(cur, head + tail) =~= prefixed(cur, head) + prefixed(cur, tail));
            assert(position_views(result@) == position_views(before) + prefixed(cur_i, sub));
        }
        i = i + 1;
    }
    proof {
        assert(combos(i as int, n as int, k as nat) =~= Seq::<Seq<usize>>::empty());
        assert(prefixed(old(current)@, Seq::<Seq<usize>>::empty()) =~= Seq::<Seq<usize>>::empty());
        assert(position_views(result@) + Seq::<Seq<usize>>::empty() =~= position_views(result@));
    }
}

/// The `k`-element sets of positions below `n`, each as its increasing list, in
/// lexicographic order.
pub fn generate_combinations(n: usize, k: usize) -> (r: Vec<Vec<usize>>)
    requires
        k <= n,
    ensures
        position_views(r@) == combos(0, n as int, k as nat),
        forall|i: int| 0 <= i < r@.len() ==> (#[trigger] r@[i])@.len() == k && increasing_below(r@[i]@, n as nat),
{
    let mut result: Vec<Vec<usize>> = Vec::new();
    let mut current: Vec<usize> = Vec::new();
    combine(0, n, k, &mut current, &mut result);
    proof {
        assert(position_views(Seq::<Vec<usize>>::empty()) =~= Seq::<Seq<usize>>::empty());
        let cs = combos(0, n as int, k as nat);
        assert(prefixed(Seq::<usize>::empty(), cs) =~= cs) by {
            assert forall|j: int| 0 <= j < cs.len() implies prefixed(Seq::<usize>::empty(), cs)[j] == cs[j] by {
                assert(Seq::<usize>::empty() + cs[j] =~= cs[j]);
            }
        }
        assert(Seq::<Seq<usize>>::empty() + cs =~= cs);
    }
    result
}

/// The first eight bytes of `d`, big-endian.
fn be64_prefix(d: &[u8; 32]) -> (r: u64)
    ensures
        r as nat == be_value(d@.subrange(0, 8)),
{
    let mut acc: u64 = 0;
    let mut i: usize = 0;
    while i < 8
        invariant
            i <= 8,
            acc as nat == be_value(d@.subrange(0, i as int)),
            (acc as nat) < pow256(i as nat),
        decreases 8 - i,
    {
        proof {
            let s = d@.subrange(0, i + 1);
            assert(s.drop_last() =~= d@.subrange(0, i as int));
            lemma_pow256_mono(i as nat, 7);
            reveal_with_fuel(pow256, 8);
        }
        acc = acc * 256 + d[i] as u64;
        i = i + 1;
    }
    acc
}

/// The order of all grids that a key's shuffle gives, by the generator that
/// `rand_chacha::ChaCha8Rng` seeded with `seed` drives.
pub uninterp spec fn shuffled_grids(grids: Seq<Seq<u8>>, seed: u64) -> Seq<Seq<u8>>;

/// `rand::seq::SliceRandom::shuffle` with `ChaCha8Rng::seed_from_u64(seed)`: a
/// Fisher-Yates shuffle, so the grids are rearranged, none lost or added.
#[verifier::external_body]
fn shuffle_grids(grids: &Vec<Grid>, seed: u64) -> (r: Vec<Grid>)
    ensures
        grids_view(r@) == shuffled_grids(grids_view(grids@), seed),
        grids_view(r@).to_multiset() == grids_view(grids@).to_multiset(),
{
    let mut v = grids.clone();
    rand::seq::SliceRandom::shuffle(v.as_mut_slice(), &mut <rand_chacha::ChaCha8Rng as rand::SeedableRng>::seed_from_u64(seed));
    v
}

/// The grid that byte `b` stands for under a key: the `b`-th of all valid grids, in
/// lexicographic order, after the shuffle seeded by the key's SHA-256 digest.
pub open spec fn grid_of(all: Seq<Seq<u8>>, key: Seq<char>, b: int) -> Seq<u8> {
    shuffled_grids(all, be_value(sha256_hash(vstd::utf8::encode_utf8(key)).subrange(0, 8)) as u64)[b]
}

/// Four hints single out `g`: they are the values of `g` in four distinct cells, and
/// no other valid grid has those values there.
pub open spec fn singles_out(g: Seq<u8>, cells: Seq<usize>) -> bool {
    &&& cells.len() == 4
    &&& increasing_below(cells, 16)
    &&& forall|g2: Seq<u8>| valid_grid(g2) && (forall|i: int| 0 <= i < 4 ==> g2[cells[i] as int] == #[trigger] g[cells[i] as int]) ==> g2 == g
}

/// The coding table of a key.
pub struct Table {
    /// For each byte, the hint quadruples that stand for it.
    pub encode_table: Vec<Vec<[u8; 4]>>,
    /// The byte of each hint key.
    pub decode_map: HashMap<u32, u8>,
    pub padding_pool: Vec<u8>,
    pub layout: ByteLayout,
}

/// All valid grids in lexicographic order.
pub open spec fn all_grids() -> Seq<Seq<u8>> {
    completions(Seq::empty())
}

/// The hints of grid `g` in `cells` under `layout`: each cell's value less one, and
/// the cell.
pub open spec fn cell_hints(layout: ByteLayout, g: Seq<u8>, cells: Seq<usize>) -> Seq<u8> {
    Seq::new(4, |i: int| layout.spec_encode_hint((g[cells[i] as int] - 1) as u8, cells[i] as u8))
}

/// `e` encodes grid `g`: it is the hints of four cells that single `g` out.
pub open spec fn encodes(layout: ByteLayout, g: Seq<u8>, e: Seq<u8>) -> bool {
    exists|cells: Seq<usize>| singles_out(g, cells) && e == #[trigger] cell_hints(layout, g, cells)
}

/// Some encoding of byte `b` in table `t` has the key `k`.
pub open spec fn encoded_key(t: Seq<Vec<[u8; 4]>>, b: int, k: u32) -> bool {
    exists|i: int| 0 <= i < t[b]@.len() && hints_key((#[trigger] t[b]@[i])@) == k
}

/// Some encoding in `encs` has the key `k`.
pub open spec fn key_among(encs: Seq<[u8; 4]>, k: u32) -> bool {
    exists|i: int| 0 <= i < encs.len() && hints_key((#[trigger] encs[i])@) == k
}

/// `g2` has the values of `g` in the four `cells`.
pub open spec fn agrees(g2: Seq<u8>, g: Seq<u8>, cells: Seq<usize>) -> bool {
    forall|i: int| 0 <= i < 4 ==> g2[cells[i] as int] == #[trigger] g[cells[i] as int]
}

/// Four bytes packed big-endian give back the bytes.
proof fn lemma_pack4_injective(a: Seq<u8>, b: Seq<u8>)
    requires
        a.len() == 4,
        b.len() == 4,
        pack4(a) == pack4(b),
    ensures
        a == b,
{
    let (a0, a1, a2, a3, b0, b1, b2, b3) = (a[0], a[1], a[2], a[3], b[0], b[1], b[2], b[3]);
    assert(a0 == b0 && a1 == b1 && a2 == b2 && a3 == b3) by (bit_vector)
        requires
            (a0 as int * 0x1000000 + a1 as int * 0x10000 + a2 as int * 0x100 + a3 as int) as u32 == (b0 as int
                * 0x1000000 + b1 as int * 0x10000 + b2 as int * 0x100 + b3 as int) as u32,
    ;
    assert(a =~= b);
}

/// Four hints with one key are the same hints, in some order.
proof fn lemma_key_same_hints(a: Seq<u8>, b: Seq<u8>)
    requires
        a.len() == 4,
        b.len() == 4,
        hints_key(a) == hints_key(b),
    ensures
        a.to_multiset() == b.to_multiset(),
{
    broadcast use vstd::seq_lib::to_multiset_len;

    lemma_byte_leq_total();
    a.lemma_sort_by_ensures(byte_leq());
    b.lemma_sort_by_ensures(byte_leq());
    assert(a.sort_by(byte_leq()).to_multiset().len() == a.to_multiset().len());
    assert(b.sort_by(byte_leq()).to_multiset().len() == b.to_multiset().len());
    lemma_pack4_injective(a.sort_by(byte_leq()), b.sort_by(byte_leq()));
}

/// Under a layout whose hints are all different, two valid grids with encodings of
/// one key are one grid: the key gives the cells and their values, and these single
/// the grid out.
pub proof fn lemma_same_key_same_grid(layout: ByteLayout, g1: Seq<u8>, e1: Seq<u8>, g2: Seq<u8>, e2: Seq<u8>)
    requires
        hints_injective(layout),
        valid_grid(g1),
        valid_grid(g2),
        encodes(layout, g1, e1),
        encodes(layout, g2, e2),
        hints_key(e1) == hints_key(e2),
    ensures
        g1 == g2,
{
    broadcast use vstd::seq_lib::group_to_multiset_ensures;

    let c1 = choose|cells: Seq<usize>| singles_out(g1, cells) && e1 == #[trigger] cell_hints(layout, g1, cells);
    let c2 = choose|cells: Seq<usize>| singles_out(g2, cells) && e2 == #[trigger] cell_hints(layout, g2, cells);
    lemma_key_same_hints(e1, e2);
    assert forall|i: int| 0 <= i < 4 implies g2[c1[i] as int] == #[trigger] g1[c1[i] as int] by {
        assert(e1.to_multiset().count(e1[i]) > 0);
        assert(e2.contains(e1[i]));
        let j = choose|j: int| 0 <= j < e2.len() && e2[j] == e1[i];
        assert(c1[i] < 16 && c2[j] < 16);
        assert(1 <= g1[c1[i] as int] <= 4 && 1 <= g2[c2[j] as int] <= 4);
        assert(layout.spec_encode_hint((g1[c1[i] as int] - 1) as u8, c1[i] as u8) == layout.spec_encode_hint(
            (g2[c2[j] as int] - 1) as u8,
            c2[j] as u8,
        ));
    }
}

/// The decoding map takes the key of hints `e` to byte `b`.
pub open spec fn decodes_to(m: Map<u32, u8>, e: Seq<u8>, b: int) -> bool {
    m.contains_key(hints_key(e)) && m[hints_key(e)] == b as u8
}

/// Some four cells, in increasing order, single `g` out.
pub open spec fn has_encoding(g: Seq<u8>) -> bool {
    exists|j: int| 0 <= j < combos(0, 16, 4).len() && singles_out(g, #[trigger] combos(0, 16, 4)[j])
}

/// The table type and pattern name a layout: an ASCII type, or an entropy type (or
/// none) with an empty pattern or a well-formed one.
pub open spec fn layout_resolves(mode: Seq<char>, pattern: Seq<char>) -> bool {
    ||| lower(mode) == "ascii"@
    ||| lower(mode) == "prefer_ascii"@
    ||| (lower(mode) == "entropy"@ || lower(mode) == "prefer_entropy"@ || mode.len() == 0) && (trim(pattern).len() == 0
        || pattern_ok(pattern))
}

/// A key gives a table: there are at least 256 grids, and the grid of every byte
/// has an encoding.
pub open spec fn key_gives_table(key: Seq<char>) -> bool {
    &&& all_grids().len() >= 256
    &&& forall|b: int| 0 <= b < 256 ==> #[trigger] has_encoding(grid_of(all_grids(), key, b))
}

impl Table {
    /// Every byte has at least one encoding.
    pub open spec fn wf(&self) -> bool {
        &&& self.encode_table@.len() == 256
        &&& forall|b: int| 0 <= b < 256 ==> (#[trigger] self.encode_table@[b])@.len() > 0
    }

    /// The table of `key`: each byte's encodings are the hints of its grid that single
    /// it out, and each key of the decoding map is the key of an encoding of the byte
    /// it maps to.
    pub open spec fn built_from(&self, key: Seq<char>) -> bool {
        &&& self.wf()
        &&& forall|b: int, i: int| 0 <= b < 256 && 0 <= i < self.encode_table@[b]@.len()
            ==> encodes(self.layout, grid_of(all_grids(), key, b), (#[trigger] self.encode_table@[b]@[i])@)
        &&& forall|k: u32| #[trigger] self.decode_map@.contains_key(k) ==> self.decode_map@[k] < 256
            && encoded_key(self.encode_table@, self.decode_map@[k] as int, k)
        &&& forall|b: int, i: int| 0 <= b < 256 && 0 <= i < self.encode_table@[b]@.len() ==> decodes_to(
            self.decode_map@,
            (#[trigger] self.encode_table@[b]@[i])@,
            b,
        )
        &&& self.padding_pool@ == self.layout.padding_pool@
    }

    /// Builds the table of `key` in the layout that `mode` and `custom_pattern` give:
    /// the bytes take the first 256 grids of the shuffled list of all grids, and
    /// every four cells (in increasing order) whose values single a byte's grid out
    /// give it one encoding.
    #[verifier::rlimit(60)]
    pub fn new(key: &str, mode: &str, custom_pattern: &str) -> (r: Result<Self, String>)
        ensures
            r is Ok <==> layout_resolves(mode@, custom_pattern@) && key_gives_table(key@),
            r matches Ok(t) ==> t.built_from(key@),
    {
        let layout = match resolve_layout(mode, custom_pattern) {
            Ok(l) => l,
            Err(e) => {
                return Err(e);
            },
        };
        let grid_list = generate_all_grids();
        let digest = sha256(key.as_bytes());
        let seed = be64_prefix(&digest);
        let shuffled = shuffle_grids(&grid_list, seed);
        let ghost all = grids_view(grid_list@);
        let ghost sh = grids_view(shuffled@);
        proof {
            assert(all == all_grids());
            assert(sh == shuffled_grids(all_grids(), be_value(sha256_hash(vstd::utf8::encode_utf8(key@)).subrange(0, 8)) as u64));
        }
        proof {
            broadcast use vstd::seq_lib::group_to_multiset_ensures;
            assert(sh.to_multiset().len() == all.to_multiset().len());
            assert(sh.len() == shuffled@.len());
            assert(all.len() == grid_list@.len());
            assert forall|i: int, j: int| 0 <= i < all.len() && 0 <= j < all.len() && i != j implies all[i] != all[j] by {
                if i < j {
                    assert(lex_lt(grid_list@[i]@, grid_list@[j]@));
                } else {
                    assert(lex_lt(grid_list@[j]@, grid_list@[i]@));
                }
            }
            all.lemma_multiset_has_no_duplicates();
            sh.lemma_multiset_has_no_duplicates_conv();
            assert forall|b: int| 0 <= b < sh.len() implies valid_grid(#[trigger] sh[b]) by {
                assert(sh.contains(sh[b]));
                assert(sh.to_multiset().count(sh[b]) > 0);
                assert(all.contains(sh[b]));
                let t = choose|t: int| 0 <= t < all.len() && all[t] == sh[b];
                assert(grid_list@[t]@ == sh[b]);
            }
        }
        if shuffled.len() < 256 {
            return Err("fewer grids than byte values".to_string());
        }
        let combinations = generate_combinations(16, 4);
        let mut encode_table: Vec<Vec<[u8; 4]>> = Vec::new();
        let mut decode_map: HashMap<u32, u8> = HashMap::new();
        let mut byte_val: usize = 0;
        while byte_val < 256
            invariant
                byte_val <= 256,
                shuffled@.len() >= 256,
                all == grids_view(grid_list@),
                all == all_grids(),
                sh == grids_view(shuffled@),
                sh.to_multiset() == all.to_multiset(),
                forall|b: int| 0 <= b < 256 ==> #[trigger] sh[b] == grid_of(all_grids(), key@, b),
                forall|i: int| 0 <= i < grid_list@.len() ==> valid_grid((#[trigger] grid_list@[i])@),
                forall|x: Seq<u8>| valid_grid(x) ==> exists|i: int| 0 <= i < grid_list@.len() && (#[trigger] grid_list@[i])@ == x,
                forall|i: int| 0 <= i < combinations@.len() ==> (#[trigger] combinations@[i])@.len() == 4
                    && increasing_below(combinations@[i]@, 16),
                encode_table@.len() == byte_val,
                forall|b: int, i: int| 0 <= b < byte_val && 0 <= i < encode_table@[b]@.len()
                    ==> encodes(layout, sh[b], (#[trigger] encode_table@[b]@[i])@),
                forall|k: u32| #[trigger] decode_map@.contains_key(k) ==> decode_map@[k] < byte_val
                    && encoded_key(encode_table@, decode_map@[k] as int, k),
                position_views(combinations@) == combos(0, 16, 4),
                forall|i: int, j: int| 0 <= i < j < grid_list@.len() ==> lex_lt((#[trigger] grid_list@[i])@, (#[trigger] grid_list@[j])@),
                forall|b: int| 0 <= b < byte_val ==> ((#[trigger] encode_table@[b])@.len() > 0 <==> has_encoding(sh[b])),
                layout_resolves(mode@, custom_pattern@),
                all_grids().len() >= 256,
                sh.no_duplicates(),
                hints_injective(layout),
                forall|b: int| 0 <= b < sh.len() ==> valid_grid(#[trigger] sh[b]),
                forall|b: int, i: int| 0 <= b < byte_val && 0 <= i < encode_table@[b]@.len() ==> decodes_to(
                    decode_map@,
                    (#[trigger] encode_table@[b]@[i])@,
                    b,
                ),
            decreases 256 - byte_val,
        {
            let target: Grid = shuffled[byte_val];
            proof {
                broadcast use vstd::seq_lib::group_to_multiset_ensures;
                assert(sh[byte_val as int] == target@);
                assert(sh.contains(target@));
                assert(sh.to_multiset().count(target@) > 0);
                assert(all.contains(target@));
                let t = choose|t: int| 0 <= t < all.len() && all[t] == target@;
                assert(grid_list@[t]@ == target@);
                assert(valid_grid(target@));
            }
            let mut encs: Vec<[u8; 4]> = Vec::new();
            let mut ci: usize = 0;
            while ci < combinations.len()
                invariant
                    byte_val < 256,
                    valid_grid(target@),
                    exists|t: int| 0 <= t < grid_list@.len() && (#[trigger] grid_list@[t])@ == target@,
                    target@ == sh[byte_val as int],
                    forall|i: int| 0 <= i < grid_list@.len() ==> valid_grid((#[trigger] grid_list@[i])@),
                    forall|x: Seq<u8>| valid_grid(x) ==> exists|i: int| 0 <= i < grid_list@.len() && (#[trigger] grid_list@[i])@ == x,
                    forall|i: int| 0 <= i < combinations@.len() ==> (#[trigger] combinations@[i])@.len() == 4
                        && increasing_below(combinations@[i]@, 16),
                    ci <= combinations@.len(),
                    encode_table@.len() == byte_val,
                    forall|i: int| 0 <= i < encs@.len() ==> encodes(layout, target@, (#[trigger] encs@[i])@),
                    forall|k: u32| #[trigger] decode_map@.contains_key(k) ==> (decode_map@[k] < byte_val
                        && encoded_key(encode_table@, decode_map@[k] as int, k)) || (decode_map@[k] == byte_val
                        && key_among(encs@, k)),
                    forall|i: int, j: int| 0 <= i < j < grid_list@.len() ==> lex_lt((#[trigger] grid_list@[i])@, (#[trigger] grid_list@[j])@),
                    (encs@.len() > 0) == (exists|j: int| 0 <= j < ci && singles_out(target@, (#[trigger] combinations@[j])@)),
                    sh.no_duplicates(),
                    hints_injective(layout),
                    forall|b: int| 0 <= b < sh.len() ==> valid_grid(#[trigger] sh[b]),
                    sh.len() >= 256,
                    forall|b: int, i: int| 0 <= b < byte_val && 0 <= i < encode_table@[b]@.len() ==> encodes(
                        layout,
                        sh[b],
                        (#[trigger] encode_table@[b]@[i])@,
                    ),
                    forall|b: int, i: int| 0 <= b < byte_val && 0 <= i < encode_table@[b]@.len() ==> decodes_to(
                        decode_map@,
                        (#[trigger] encode_table@[b]@[i])@,
                        b,
                    ),
                    forall|i: int| 0 <= i < encs@.len() ==> decodes_to(decode_map@, (#[trigger] encs@[i])@, byte_val as int),
                decreases combinations@.len() - ci,
            {
                let positions = &combinations[ci];
                let ghost cells = positions@;
                let c0 = positions[0];
                let c1 = positions[1];
                let c2 = positions[2];
                let c3 = positions[3];
                let v0 = target[c0];
                let v1 = target[c1];
                let v2 = target[c2];
                let v3 = target[c3];
                let mut match_count: usize = 0;
                let ghost mut first: int = -1;
                let ghost mut second: int = -1;
                let mut gi: usize = 0;
                while gi < grid_list.len() && match_count <= 1
                    invariant
                        gi <= grid_list@.len(),
                        match_count <= 2,
                        cells.len() == 4,
                        c0 == cells[0] && c1 == cells[1] && c2 == cells[2] && c3 == cells[3],
                        c0 < 16 && c1 < 16 && c2 < 16 && c3 < 16,
                        v0 == target@[c0 as int] && v1 == target@[c1 as int] && v2 == target@[c2 as int] && v3 == target@[c3 as int],
                        match_count == 0 ==> forall|m: int| 0 <= m < gi ==> !agrees((#[trigger] grid_list@[m])@, target@, cells),
                        match_count == 1 ==> 0 <= first < gi && agrees(grid_list@[first]@, target@, cells)
                            && forall|m: int| 0 <= m < gi && m != first ==> !agrees((#[trigger] grid_list@[m])@, target@, cells),
                        match_count == 2 ==> 0 <= first < second < gi && agrees(grid_list@[first]@, target@, cells)
                            && agrees(grid_list@[second]@, target@, cells),
                    decreases grid_list@.len() - gi,
                {
                    let g = &grid_list[gi];
                    if g[c0] == v0 && g[c1] == v1 && g[c2] == v2 && g[c3] == v3 {
                        proof {
                            assert(agrees(grid_list@[gi as int]@, target@, cells));
                            if match_count == 0 {
                                first = gi as int;
                            } else {
                                second = gi as int;
                            }
                        }
                        match_count = match_count + 1;
                    } else {
                        proof {
                            assert(!agrees(grid_list@[gi as int]@, target@, cells)) by {
                                if g@[c0 as int] != v0 {
                                    assert(grid_list@[gi as int]@[cells[0] as int] != target@[cells[0] as int]);
                                } else if g@[c1 as int] != v1 {
                                    assert(grid_list@[gi as int]@[cells[1] as int] != target@[cells[1] as int]);
                                } else if g@[c2 as int] != v2 {
                                    assert(grid_list@[gi as int]@[cells[2] as int] != target@[cells[2] as int]);
                                } else {
                                    assert(grid_list@[gi as int]@[cells[3] as int] != target@[cells[3] as int]);
                                }
                            }
                        }
                    }
                    gi = gi + 1;
                }
                proof {
                    if match_count != 1 {
                        let t = choose|t: int| 0 <= t < grid_list@.len() && (#[trigger] grid_list@[t])@ == target@;
                        assert(agrees(grid_list@[t]@, target@, cells));
                        if match_count == 0 {
                            assert(!agrees(grid_list@[t]@, target@, cells));
                        }
                        assert(match_count == 2);
                        if singles_out(target@, cells) {
                            let g1 = grid_list@[first]@;
                            let g2 = grid_list@[second]@;
                            assert(forall|i: int| 0 <= i < 4 ==> g1[cells[i] as int] == #[trigger] target@[cells[i] as int]);
                            assert(forall|i: int| 0 <= i < 4 ==> g2[cells[i] as int] == #[trigger] target@[cells[i] as int]);
                            assert(g1 == target@);
                            assert(g2 == target@);
                            assert(lex_lt(g1, g2));
                        }
                        assert(!singles_out(target@, combinations@[ci as int]@));
                    }
                }
                let ghost encs_before = encs@.len();
                if match_count == 1 {
                    proof {
                        let t = choose|t: int| 0 <= t < grid_list@.len() && (#[trigger] grid_list@[t])@ == target@;
                        assert(agrees(grid_list@[t]@, target@, cells));
                        assert(gi == grid_list@.len());
                        assert(t == first);
                        assert forall|g2: Seq<u8>| valid_grid(g2) && (forall|i: int| 0 <= i < 4 ==> g2[cells[i] as int] == #[trigger] target@[cells[i] as int]) implies g2 == target@ by {
                            let m = choose|m: int| 0 <= m < grid_list@.len() && (#[trigger] grid_list@[m])@ == g2;
                            assert(agrees(grid_list@[m]@, target@, cells));
                        }
                        assert(singles_out(target@, cells));
                        assert(1 <= v0 <= 4 && 1 <= v1 <= 4 && 1 <= v2 <= 4 && 1 <= v3 <= 4);
                    }
                    let h0 = layout.encode_hint(v0 - 1, c0 as u8);
                    let h1 = layout.encode_hint(v1 - 1, c1 as u8);
                    let h2 = layout.encode_hint(v2 - 1, c2 as u8);
                    let h3 = layout.encode_hint(v3 - 1, c3 as u8);
                    let hints = [h0, h1, h2, h3];
                    proof {
                        assert(hints@ =~= cell_hints(layout, target@, cells));
                        assert(encodes(layout, target@, hints@));
                    }
                    let k = pack_hints_to_key(hints);
                    let ghost old_map = decode_map@;
                    let ghost old_encs = encs@;
                    encs.push(hints);
                    decode_map.insert(k, byte_val as u8);
                    proof {
                        assert forall|b: int, i: int| 0 <= b < byte_val && 0 <= i < encode_table@[b]@.len() implies decodes_to(
                            decode_map@,
                            (#[trigger] encode_table@[b]@[i])@,
                            b,
                        ) by {
                            let e = encode_table@[b]@[i]@;
                            assert(decodes_to(old_map, e, b));
                            if hints_key(e) == k {
                                lemma_same_key_same_grid(layout, sh[b], e, target@, hints@);
                                assert(sh[b] == sh[byte_val as int]);
                            }
                        }
                        assert forall|i: int| 0 <= i < encs@.len() implies decodes_to(decode_map@, (#[trigger] encs@[i])@, byte_val as int) by {
                            if i < old_encs.len() {
                                assert(encs@[i] == old_encs[i]);
                            }
                        }
                        let n = (encs@.len() - 1) as int;
                        assert(encs@[n] == hints);
                        assert(key_among(encs@, k));
                        assert forall|kk: u32| #[trigger] decode_map@.contains_key(kk) implies (decode_map@[kk] < byte_val
                            && encoded_key(encode_table@, decode_map@[kk] as int, kk)) || (decode_map@[kk] == byte_val
                            && key_among(encs@, kk)) by {
                            if kk != k {
                                assert(old_map_contains(old_map, kk));
                                if key_among(old_encs, kk) {
                                    let i = choose|i: int| 0 <= i < old_encs.len() && hints_key((#[trigger] old_encs[i])@) == kk;
                                    assert(encs@[i] == old_encs[i]);
                                }
                            }
                        }
                    }
                }
                proof {
                    if match_count == 1 {
                        assert(singles_out(target@, combinations@[ci as int]@));
                    }
                    assert((encs@.len() > 0) == (exists|j: int| 0 <= j < ci + 1 && singles_out(target@, (#[trigger] combinations@[j])@)));
                }
                ci = ci + 1;
            }
            proof {
                assert forall|j: int| 0 <= j < combinations@.len() implies combinations@[j]@ == #[trigger] combos(0, 16, 4)[j] by {
                    assert(position_views(combinations@)[j] == combinations@[j]@);
                }
                if has_encoding(sh[byte_val as int]) {
                    let j = choose|j: int| 0 <= j < combos(0, 16, 4).len() && singles_out(sh[byte_val as int], #[trigger] combos(0, 16, 4)[j]);
                    assert(singles_out(target@, combinations@[j]@));
                }
                if encs@.len() > 0 {
                    let j = choose|j: int| 0 <= j < combinations@.len() && singles_out(target@, (#[trigger] combinations@[j])@);
                    assert(combos(0, 16, 4)[j] == combinations@[j]@);
                }
            }
            let ghost old_table = encode_table@;
            encode_table.push(encs);
            proof {
                assert forall|b: int, i: int| 0 <= b < byte_val + 1 && 0 <= i < encode_table@[b]@.len() implies decodes_to(
                    decode_map@,
                    (#[trigger] encode_table@[b]@[i])@,
                    b,
                ) by {
                    if b == byte_val {
                        assert(encode_table@[b] == encs);
                    } else {
                        assert(encode_table@[b] == old_table[b]);
                    }
                }
                assert forall|b: int, i: int| 0 <= b < byte_val + 1 && 0 <= i < encode_table@[b]@.len()
                    implies encodes(layout, sh[b], (#[trigger] encode_table@[b]@[i])@) by {
                    if b == byte_val {
                        assert(encode_table@[b] == encs);
                    }
                }
                assert forall|k: u32| #[trigger] decode_map@.contains_key(k) implies decode_map@[k] < byte_val + 1
                    && encoded_key(encode_table@, decode_map@[k] as int, k) by {
                    let b = decode_map@[k] as int;
                    if b == byte_val {
                        let i = choose|i: int| 0 <= i < encs@.len() && hints_key((#[trigger] encs@[i])@) == k;
                        assert(encode_table@[b]@[i] == encs@[i]);
                    } else {
                        let i = choose|i: int| 0 <= i < old_table_entry(old_table, b)@.len() && hints_key((#[trigger] old_table_entry(old_table, b)@[i])@) == k;
                        assert(encode_table@[b] == old_table[b]);
                        assert(encode_table@[b]@[i] == old_table[b]@[i]);
                    }
                }
            }
            byte_val = byte_val + 1;
        }
        let mut b: usize = 0;
        while b < 256
            invariant
                encode_table@.len() == 256,
                b <= 256,
                forall|j: int| 0 <= j < b ==> (#[trigger] encode_table@[j])@.len() > 0,
                forall|j: int| 0 <= j < 256 ==> ((#[trigger] encode_table@[j])@.len() > 0 <==> has_encoding(
                    grid_of(all_grids(), key@, j),
                )),
                layout_resolves(mode@, custom_pattern@),
                all_grids().len() >= 256,
                forall|bb: int, i: int| 0 <= bb < 256 && 0 <= i < encode_table@[bb]@.len() ==> decodes_to(
                    decode_map@,
                    (#[trigger] encode_table@[bb]@[i])@,
                    bb,
                ),
            decreases 256 - b,
        {
            if encode_table[b].len() == 0 {
                proof {
                    assert(!has_encoding(grid_of(all_grids(), key@, b as int)));
                }
                return Err("a byte value has no encoding".to_string());
            }
            b = b + 1;
        }
        proof {
            assert forall|j: int| 0 <= j < 256 implies #[trigger] has_encoding(grid_of(all_grids(), key@, j)) by {
                assert(encode_table@[j]@.len() > 0);
            }
        }
        let padding_pool = copy_bytes(&layout.padding_pool);
        Ok(Table { encode_table, decode_map, padding_pool, layout })
    }

    /// The `idx`-th encoding of byte `b`.
    pub fn encode_byte(&self, b: u8, idx: usize) -> (r: [u8; 4])
        requires
            self.wf(),
            idx < self.encode_table@[b as int]@.len(),
        ensures
            r == self.encode_table@[b as int]@[idx as int],
    {
        self.encode_table[b as usize][idx]
    }

    /// The byte of four hints, in any order; nothing for hints that are no byte's.
    pub fn decode_hints(&self, hints: [u8; 4]) -> (r: Option<u8>)
        ensures
            r == (if self.decode_map@.contains_key(hints_key(hints@)) {
                Some(self.decode_map@[hints_key(hints@)])
            } else {
                None::<u8>
            }),
    {
        let key = pack_hints_to_key(hints);
        match self.decode_map.get(&key) {
            Some(v) => Some(*v),
            None => None,
        }
    }

    /// The `idx`-th padding byte.
    pub fn random_padding(&self, idx: usize) -> (r: u8)
        requires
            idx < self.padding_pool@.len(),
        ensures
            r == self.padding_pool@[idx as int],
    {
        self.padding_pool[idx]
    }
}

spec fn old_map_contains(m: Map<u32, u8>, k: u32) -> bool {
    m.contains_key(k)
}

spec fn old_table_entry(t: Seq<Vec<[u8; 4]>>, b: int) -> Vec<[u8; 4]> {
    t[b]
}

fn copy_bytes(v: &Vec<u8>) -> (r: Vec<u8>)
    ensures
        r@ == v@,
{
    let mut r: Vec<u8> = Vec::new();
    let mut i: usize = 0;
    while i < v.len()
        invariant
            i <= v@.len(),
            r@ == v@.subrange(0, i as int),
        decreases v@.len() - i,
    {
        r.push(v[i]);
        proof {
            assert(r@ =~= v@.subrange(0, i + 1));
        }
        i = i + 1;
    }
    proof {
        assert(v@.subrange(0, v@.len() as int) =~= v@);
    }
    r
}

/// Decoding gives back the byte: the hints of any encoding of byte `b`, in any
/// order, are in the decoding map and map to `b`.
pub proof fn lemma_table_roundtrip(t: Table, key: Seq<char>, b: int, i: int, h: Seq<u8>)
    requires
        t.built_from(key),
        0 <= b < 256,
        0 <= i < t.encode_table@[b]@.len(),
        h.to_multiset() == t.encode_table@[b]@[i]@.to_multiset(),
    ensures
        t.decode_map@.contains_key(hints_key(h)),
        t.decode_map@[hints_key(h)] == b as u8,
{
    lemma_pack_order_independent(h, t.encode_table@[b]@[i]@);
    assert(decodes_to(t.decode_map@, t.encode_table@[b]@[i]@, b));
}

} // verus!
