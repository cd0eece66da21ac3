//! The obfuscated stream: how written bytes become shuffled hints with padding, and
//! how read bytes are turned back, padding dropped and hints grouped by four.

use vstd::prelude::*;

use super::table::{hints_key, Table};

verus! {

/// The chance, out of `u64::MAX`, that a padding byte is slipped in: the midpoint of
/// the configured percentages; no padding when the maximum is zero.
pub open spec fn padding_threshold(min: u8, max: u8) -> u64 {
    if max == 0 {
        0
    } else {
        ((u64::MAX / 100) as int * ((min as int + max as int) / 2)) as u64
    }
}

pub fn pick_padding_threshold(min: u8, max: u8) -> (r: u64)
    requires
        max == 0 || (min as int + max as int) / 2 <= 100,
    ensures
        r == padding_threshold(min, max),
{
    if max == 0 {
        return 0;
    }
    let mid = ((min as u64) + (max as u64)) / 2;
    proof {
        assert(mid <= 100);
        assert(u64::MAX / 100 == 184467440737095516u64);
        assert(184467440737095516 * mid <= 18446744073709551615) by (nonlinear_arith)
            requires
                mid <= 100,
        ;
    }
    (u64::MAX / 100) * mid
}

/// Whether to pad, given a uniformly drawn `draw`.
pub fn should_pad(threshold: u64, draw: u64) -> (r: bool)
    ensures
        r == (threshold != 0 && draw < threshold),
{
    if threshold == 0 {
        return false;
    }
    draw < threshold
}

/// The `k`-th of the 24 orders of four items, in lexicographic order.
pub open spec fn perm4(k: usize) -> Seq<int> {
    match k {
        0 => seq![0int, 1int, 2int, 3int],
        1 => seq![0int, 1int, 3int, 2int],
        2 => seq![0int, 2int, 1int, 3int],
        3 => seq![0int, 2int, 3int, 1int],
        4 => seq![0int, 3int, 1int, 2int],
        5 => seq![0int, 3int, 2int, 1int],
        6 => seq![1int, 0int, 2int, 3int],
        7 => seq![1int, 0int, 3int, 2int],
        8 => seq![1int, 2int, 0int, 3int],
        9 => seq![1int, 2int, 3int, 0int],
        10 => seq![1int, 3int, 0int, 2int],
        11 => seq![1int, 3int, 2int, 0int],
        12 => seq![2int, 0int, 1int, 3int],
        13 => seq![2int, 0int, 3int, 1int],
        14 => seq![2int, 1int, 0int, 3int],
        15 => seq![2int, 1int, 3int, 0int],
        16 => seq![2int, 3int, 0int, 1int],
        17 => seq![2int, 3int, 1int, 0int],
        18 => seq![3int, 0int, 1int, 2int],
        19 => seq![3int, 0int, 2int, 1int],
        20 => seq![3int, 1int, 0int, 2int],
        21 => seq![3int, 1int, 2int, 0int],
        22 => seq![3int, 2int, 0int, 1int],
        _ => seq![3int, 2int, 1int, 0int],
    }
}

fn perm4_row(k: usize) -> (r: [usize; 4])
    requires
        k < 24,
    ensures
        forall|j: int| 0 <= j < 4 ==> r@[j] as int == #[trigger] perm4(k)[j],
        forall|j: int| 0 <= j < 4 ==> #[trigger] r@[j] < 4,
{
    match k {
        0 => [0, 1, 2, 3],
        1 => [0, 1, 3, 2],
        2 => [0, 2, 1, 3],
        3 => [0, 2, 3, 1],
        4 => [0, 3, 1, 2],
        5 => [0, 3, 2, 1],
        6 => [1, 0, 2, 3],
        7 => [1, 0, 3, 2],
        8 => [1, 2, 0, 3],
        9 => [1, 2, 3, 0],
        10 => [1, 3, 0, 2],
        11 => [1, 3, 2, 0],
        12 => [2, 0, 1, 3],
        13 => [2, 0, 3, 1],
        14 => [2, 1, 0, 3],
        15 => [2, 1, 3, 0],
        16 => [2, 3, 0, 1],
        17 => [2, 3, 1, 0],
        18 => [3, 0, 1, 2],
        19 => [3, 0, 2, 1],
        20 => [3, 1, 0, 2],
        21 => [3, 1, 2, 0],
        22 => [3, 2, 0, 1],
        _ => [3, 2, 1, 0],
    }
}

/// The hints of a byte in the order the `k`-th permutation gives.
pub fn permuted_hints(hints: [u8; 4], k: usize) -> (r: [u8; 4])
    requires
        k < 24,
    ensures
        forall|j: int| 0 <= j < 4 ==> r@[j] == hints@[#[trigger] perm4(k)[j]],
{
    let p = perm4_row(k);
    proof {
        assert(p@[0] < 4 && p@[1] < 4 && p@[2] < 4 && p@[3] < 4);
    }
    [hints[p[0]], hints[p[1]], hints[p[2]], hints[p[3]]]
}

/// The hints in read order: those still waiting in `buf`, then the hint bytes of
/// `data`, padding dropped.
pub open spec fn hint_stream(table: Table, buf: Seq<u8>, data: Seq<u8>) -> Seq<u8> {
    buf + data.filter(|b: u8| table.layout.spec_is_hint(b))
}

/// The byte that the `k`-th group of four hints of `s` stands for, if any.
pub open spec fn group_byte(table: Table, s: Seq<u8>, k: int) -> Option<u8> {
    let key = hints_key(s.subrange(4 * k, 4 * k + 4));
    if table.decode_map@.contains_key(key) {
        Some(table.decode_map@[key])
    } else {
        None
    }
}

/// Every complete group of `s` stands for a byte.
pub open spec fn groups_decode(table: Table, s: Seq<u8>) -> bool {
    forall|k: int| 0 <= k < s.len() / 4 ==> (#[trigger] group_byte(table, s, k)) is Some
}

/// The reading side: the hint bytes of an incomplete group.
pub struct SudokuDecoder {
    pub hint_buf: Vec<u8>,
}

impl SudokuDecoder {
    pub fn new() -> (r: Self)
        ensures
            r.hint_buf@.len() == 0,
    {
        SudokuDecoder { hint_buf: Vec::new() }
    }

    /// Takes in read bytes: padding is skipped, hints gather into groups of four, and
    /// each group gives its byte; a group that is no byte's ends the stream with an
    /// error. Returns the bytes decoded; the hints of an incomplete group wait.
    pub fn feed(&mut self, table: &Table, data: &[u8]) -> (r: Result<Vec<u8>, &'static str>)
        requires
            old(self).hint_buf@.len() < 4,
        ensures
            r is Ok <==> groups_decode(*table, hint_stream(*table, old(self).hint_buf@, data@)),
            r matches Ok(out) ==> {
                let s = hint_stream(*table, old(self).hint_buf@, data@);
                &&& out@.len() == s.len() / 4
                &&& forall|k: int| 0 <= k < out@.len() ==> group_byte(*table, s, k) == Some(#[trigger] out@[k])
                &&& final(self).hint_buf@ == s.subrange(4 * (s.len() / 4) as int, s.len() as int)
            },
    {
        let ghost buf0 = self.hint_buf@;
        let mut out: Vec<u8> = Vec::new();
        let mut i: usize = 0;
        while i < data.len()
            invariant
                i <= data@.len(),
                buf0 == old(self).hint_buf@,
                self.hint_buf@.len() < 4,
                ({
                    let s = hint_stream(*table, buf0, data@.subrange(0, i as int));
                    &&& out@.len() == s.len() / 4
                    &&& groups_decode(*table, s)
                    &&& forall|k: int| 0 <= k < out@.len() ==> group_byte(*table, s, k) == Some(#[trigger] out@[k])
                    &&& self.hint_buf@ == s.subrange(4 * (s.len() / 4) as int, s.len() as int)
                }),
            decreases data@.len() - i,
        {
            let b = data[i];
            let ghost s_prev = hint_stream(*table, buf0, data@.subrange(0, i as int));
            let ghost s_next = hint_stream(*table, buf0, data@.subrange(0, i + 1));
            proof {
                let sub = data@.subrange(0, i + 1);
                assert(sub.drop_last() =~= data@.subrange(0, i as int));
                assert(sub.last() == b);
                reveal(Seq::filter);
            }
            if table.layout.is_hint(b) {
                proof {
                    assert(s_next =~= s_prev.push(b));
                }
                self.hint_buf.push(b);
                if self.hint_buf.len() == 4 {
                    let hints = [self.hint_buf[0], self.hint_buf[1], self.hint_buf[2], self.hint_buf[3]];
                    let ghost k = out@.len() as int;
                    proof {
                        assert(hints@ =~= s_next.subrange(4 * k, 4 * k + 4));
                        assert(s_next.len() / 4 == k + 1);
                    }
                    match table.decode_hints(hints) {
                        Some(v) => {
                            out.push(v);
                            proof {
                                assert forall|kk: int| 0 <= kk < s_next.len() / 4 implies (#[trigger] group_byte(*table, s_next, kk)) is Some by {
                                    if kk < k {
                                        assert(s_next.subrange(4 * kk, 4 * kk + 4) =~= s_prev.subrange(4 * kk, 4 * kk + 4));
                                        assert(group_byte(*table, s_prev, kk) is Some);
                                    }
                                }
                                assert forall|kk: int| 0 <= kk < out@.len() implies group_byte(*table, s_next, kk) == Some(#[trigger] out@[kk]) by {
                                    if kk < k {
                                        assert(s_next.subrange(4 * kk, 4 * kk + 4) =~= s_prev.subrange(4 * kk, 4 * kk + 4));
                                    }
                                }
                            }
                        },
                        None => {
                            proof {
                                assert(group_byte(*table, s_next, k) is None);
                                lemma_groups_extend_fail(*table, s_next, data@, i as int, buf0, k);
                                assert(!groups_decode(*table, hint_stream(*table, buf0, data@)));
                            }
                            return Err("INVALID_SUDOKU_MAP_MISS");
                        },
                    }
                    self.hint_buf.clear();
                    proof {
                        assert(self.hint_buf@ =~= s_next.subrange(4 * (s_next.len() / 4) as int, s_next.len() as int));
                    }
                } else {
                    proof {
                        assert(s_next.len() / 4 == s_prev.len() / 4);
                        assert forall|kk: int| 0 <= kk < s_next.len() / 4 implies (#[trigger] group_byte(*table, s_next, kk)) is Some by {
                            assert(s_next.subrange(4 * kk, 4 * kk + 4) =~= s_prev.subrange(4 * kk, 4 * kk + 4));
                            assert(group_byte(*table, s_prev, kk) is Some);
                        }
                        assert forall|kk: int| 0 <= kk < out@.len() implies group_byte(*table, s_next, kk) == Some(#[trigger] out@[kk]) by {
                            assert(s_next.subrange(4 * kk, 4 * kk + 4) =~= s_prev.subrange(4 * kk, 4 * kk + 4));
                        }
                        assert(self.hint_buf@ =~= s_next.subrange(4 * (s_next.len() / 4) as int, s_next.len() as int));
                    }
                }
            } else {
                proof {
                    assert(s_next =~= s_prev);
                }
            }
            i = i + 1;
        }
        proof {
            assert(data@.subrange(0, data@.len() as int) =~= data@);
        }
        Ok(out)
    }
}

/// Once a complete group fails to decode, the whole stream fails whatever follows.
proof fn lemma_groups_extend_fail(table: Table, s: Seq<u8>, data: Seq<u8>, i: int, buf0: Seq<u8>, k: int)
    requires
        0 <= i < data.len(),
        s == hint_stream(table, buf0, data.subrange(0, i + 1)),
        0 <= k < s.len() / 4,
        group_byte(table, s, k) is None,
    ensures
        !groups_decode(table, hint_stream(table, buf0, data)),
{
    let full = hint_stream(table, buf0, data);
    let rest = data.subrange(i + 1, data.len() as int);
    assert(data =~= data.subrange(0, i + 1) + rest);
    Seq::filter_distributes_over_add(data.subrange(0, i + 1), rest, |b: u8| table.layout.spec_is_hint(b));
    assert(full.subrange(4 * k, 4 * k + 4) =~= s.subrange(4 * k, 4 * k + 4));
    assert(group_byte(table, full, k) is None);
}

} // verus!
