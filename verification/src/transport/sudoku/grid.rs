//! The valid 4x4 Sudoku grids: each row, each column and each 2x2 box holds 1 to 4
//! once. All of them are enumerated by backtracking, in lexicographic order.

use vstd::prelude::*;

verus! {

/// A 4x4 grid, row by row, each cell 1 to 4.
pub type Grid = [u8; 16];

/// Whether cells `i` and `j` share a row, a column or a 2x2 box.
pub open spec fn peers(i: int, j: int) -> bool {
    ||| i / 4 == j / 4
    ||| i % 4 == j % 4
    ||| (i / 8 == j / 8 && (i % 4) / 2 == (j % 4) / 2)
}

/// The cells filled so far hold 1 to 4 and no two peers hold the same value.
pub open spec fn consistent(p: Seq<u8>) -> bool {
    &&& p.len() <= 16
    &&& forall|i: int| 0 <= i < p.len() ==> 1 <= #[trigger] p[i] <= 4
    &&& forall|i: int, j: int| 0 <= i < p.len() && 0 <= j < p.len() && i != j && peers(i, j) ==> #[trigger] p[i] != #[trigger] p[j]
}

/// A valid Sudoku grid.
pub open spec fn valid_grid(g: Seq<u8>) -> bool {
    g.len() == 16 && consistent(g)
}

/// Whether `v` can go in the cell after the ones that `p` fills.
pub open spec fn fits(p: Seq<u8>, v: u8) -> bool {
    forall|j: int| 0 <= j < p.len() && peers(j, p.len() as int) ==> #[trigger] p[j] != v
}

/// `a` comes before `b` in lexicographic order.
pub open spec fn lex_lt(a: Seq<u8>, b: Seq<u8>) -> bool {
    exists|k: int| 0 <= k < 16 && (forall|m: int| 0 <= m < k ==> a[m] == b[m]) && #[trigger] a[k] < #[trigger] b[k]
}

/// `g` extends the prefix `p`.
pub open spec fn extends(g: Seq<u8>, p: Seq<u8>) -> bool {
    p.len() <= g.len() && forall|m: int| 0 <= m < p.len() ==> #[trigger] g[m] == p[m]
}

/// The completions of `p` into valid grids, in the order backtracking meets them.
pub open spec fn completions(p: Seq<u8>) -> Seq<Seq<u8>>
    decreases 16 - p.len(), 5int,
{
    if p.len() >= 16 {
        seq![p]
    } else {
        completions_from(p, 1)
    }
}

/// The completions of `p` whose next cell holds `v` or more.
pub open spec fn completions_from(p: Seq<u8>, v: u8) -> Seq<Seq<u8>>
    decreases 16 - p.len(), 5 - v,
{
    if p.len() >= 16 || v > 4 || v < 1 {
        Seq::empty()
    } else {
        (if fits(p, v) {
            completions(p.push(v))
        } else {
            Seq::empty()
        }) + completions_from(p, (v + 1) as u8)
    }
}

/// A sequence of grids in strictly increasing lexicographic order.
pub open spec fn sorted(s: Seq<Seq<u8>>) -> bool {
    forall|i: int, j: int| 0 <= i < j < s.len() ==> lex_lt(#[trigger] s[i], #[trigger] s[j])
}

proof fn lemma_sorted_concat(a: Seq<Seq<u8>>, b: Seq<Seq<u8>>)
    requires
        sorted(a),
        sorted(b),
        forall|i: int, j: int| 0 <= i < a.len() && 0 <= j < b.len() ==> lex_lt(#[trigger] a[i], #[trigger] b[j]),
    ensures
        sorted(a + b),
{
    let c = a + b;
    assert forall|i: int, j: int| 0 <= i < j < c.len() implies lex_lt(#[trigger] c[i], #[trigger] c[j]) by {
        if j < a.len() {
            assert(c[i] == a[i] && c[j] == a[j]);
        } else if i >= a.len() {
            assert(c[i] == b[i - a.len()] && c[j] == b[j - a.len()]);
        } else {
            assert(c[i] == a[i] && c[j] == b[j - a.len()]);
        }
    }
}

/// The completions of a consistent prefix are valid grids that extend it, in
/// increasing order, and every valid grid extending it is among them.
proof fn lemma_completions(p: Seq<u8>)
    requires
        consistent(p),
    ensures
        forall|i: int| 0 <= i < completions(p).len() ==> valid_grid(#[trigger] completions(p)[i]) && extends(completions(p)[i], p),
        sorted(completions(p)),
        forall|g: Seq<u8>| valid_grid(g) && extends(g, p) ==> completions(p).contains(g),
    decreases 16 - p.len(), 5int,
{
    if p.len() >= 16 {
        let c = completions(p);
        assert(c =~= seq![p]);
        assert forall|g: Seq<u8>| valid_grid(g) && extends(g, p) implies completions(p).contains(g) by {
            assert(g =~= p);
            assert(c[0] == g);
        }
    } else {
        lemma_completions_from(p, 1);
    }
}

proof fn lemma_completions_from(p: Seq<u8>, v: u8)
    requires
        consistent(p),
        p.len() < 16,
        1 <= v <= 5,
    ensures
        forall|i: int| 0 <= i < completions_from(p, v).len() ==> valid_grid(#[trigger] completions_from(p, v)[i])
            && extends(completions_from(p, v)[i], p) && completions_from(p, v)[i][p.len() as int] >= v,
        sorted(completions_from(p, v)),
        forall|g: Seq<u8>| valid_grid(g) && extends(g, p) && g[p.len() as int] >= v ==> completions_from(p, v).contains(g),
    decreases 16 - p.len(), 5 - v,
{
    if v > 4 {
        assert forall|g: Seq<u8>| valid_grid(g) && extends(g, p) && g[p.len() as int] >= v implies completions_from(p, v).contains(g) by {
            assert(1 <= g[p.len() as int] <= 4);
        }
    } else {
        let n = p.len() as int;
        let head = if fits(p, v) {
            completions(p.push(v))
        } else {
            Seq::<Seq<u8>>::empty()
        };
        let tail = completions_from(p, (v + 1) as u8);
        lemma_completions_from(p, (v + 1) as u8);
        if fits(p, v) {
            let q = p.push(v);
            assert(consistent(q)) by {
                assert forall|i: int, j: int| 0 <= i < q.len() && 0 <= j < q.len() && i != j && peers(i, j) implies #[trigger] q[i] != #[trigger] q[j] by {
                    if i == n {
                        assert(q[j] == p[j]);
                        assert(peers(j, n)) by {
                            assert(peers(i, j) ==> peers(j, i));
                        }
                    } else if j == n {
                        assert(q[i] == p[i]);
                    } else {
                        assert(q[i] == p[i] && q[j] == p[j]);
                    }
                }
            }
            lemma_completions(q);
            assert forall|i: int| 0 <= i < head.len() implies extends(#[trigger] head[i], p) && head[i][n] == v by {
                assert(extends(head[i], q));
                assert(head[i][n] == q[n]);
            }
        }
        let all = head + tail;
        assert(completions_from(p, v) == all);
        assert forall|i: int, j: int| 0 <= i < head.len() && 0 <= j < tail.len() implies lex_lt(#[trigger] head[i], #[trigger] tail[j]) by {
            let a = head[i];
            let b = tail[j];
            assert(a[n] == v);
            assert(b[n] >= v + 1);
            assert(forall|m: int| 0 <= m < n ==> a[m] == p[m] && b[m] == p[m]);
            assert(0 <= n < 16 && (forall|m: int| 0 <= m < n ==> a[m] == b[m]) && a[n] < b[n]);
        }
        lemma_sorted_concat(head, tail);
        assert forall|i: int| 0 <= i < all.len() implies valid_grid(#[trigger] all[i]) && extends(all[i], p) && all[i][n] >= v by {
            if i < head.len() {
                assert(all[i] == head[i]);
            } else {
                assert(all[i] == tail[i - head.len()]);
            }
        }
        assert forall|g: Seq<u8>| valid_grid(g) && extends(g, p) && g[n] >= v implies all.contains(g) by {
            if g[n] == v {
                assert(fits(p, v)) by {
                    assert forall|j: int| 0 <= j < p.len() && peers(j, n) implies #[trigger] p[j] != v by {
                        assert(g[j] == p[j]);
                        assert(g[j] != g[n]);
                    }
                }
                let q = p.push(v);
                assert(extends(g, q)) by {
                    assert forall|m: int| 0 <= m < q.len() implies #[trigger] g[m] == q[m] by {
                        if m < n {
                            assert(g[m] == p[m]);
                        }
                    }
                }
                assert(head.contains(g));
                let k = choose|k: int| 0 <= k < head.len() && head[k] == g;
                assert(all[k] == g);
            } else {
                assert(tail.contains(g));
                let k = choose|k: int| 0 <= k < tail.len() && tail[k] == g;
                assert(all[head.len() + k] == g);
            }
        }
    }
}

/// What a list of grids holds, grid by grid.
pub open spec fn grids_view(s: Seq<Grid>) -> Seq<Seq<u8>> {
    s.map_values(|g: Grid| g@)
}

/// Whether `num` can go in cell `idx` given the cells before it.
fn can_place(g: &Grid, idx: usize, num: u8) -> (r: bool)
    requires
        idx < 16,
    ensures
        r == fits(g@.subrange(0, idx as int), num),
{
    let mut j: usize = 0;
    while j < idx
        invariant
            j <= idx < 16,
            forall|k: int| 0 <= k < j && peers(k, idx as int) ==> g@[k] != num,
        decreases idx - j,
    {
        let same_row = j / 4 == idx / 4;
        let same_col = j % 4 == idx % 4;
        let same_box = j / 8 == idx / 8 && (j % 4) / 2 == (idx % 4) / 2;
        if (same_row || same_col || same_box) && g[j] == num {
            proof {
                assert(g@.subrange(0, idx as int)[j as int] == g@[j as int]);
            }
            return false;
        }
        j = j + 1;
    }
    proof {
        let p = g@.subrange(0, idx as int);
        assert forall|k: int| 0 <= k < p.len() && peers(k, p.len() as int) implies #[trigger] p[k] != num by {
            assert(p[k] == g@[k]);
        }
    }
    true
}

/// Appends, in order, the completions of the first `idx` cells of `g` (the others
/// being empty), leaving `g` as it was.
fn backtrack(g: &mut Grid, idx: usize, grids: &mut Vec<Grid>)
    requires
        idx <= 16,
        consistent(old(g)@.subrange(0, idx as int)),
    ensures
        final(g)@ == old(g)@,
        grids_view(final(grids)@) == grids_view(old(grids)@) + completions(old(g)@.subrange(0, idx as int)),
    decreases 16 - idx,
{
    if idx == 16 {
        grids.push(*g);
        proof {
            assert(old(g)@.subrange(0, 16) =~= old(g)@);
            assert(grids_view(final(grids)@) =~= grids_view(old(grids)@) + seq![old(g)@]);
        }
        return;
    }
    let ghost p = old(g)@.subrange(0, idx as int);
    let ghost start = grids_view(old(grids)@);
    let mut num: u8 = 1;
    while num <= 4
        invariant
            1 <= num <= 5,
            idx < 16,
            g@ == old(g)@,
            p == old(g)@.subrange(0, idx as int),
            consistent(p),
            grids_view(grids@) + completions_from(p, num) == start + completions_from(p, 1),
        decreases 5 - num,
    {
        let ghost before = grids_view(grids@);
        if can_place(g, idx, num) {
            let saved = g[idx];
            g[idx] = num;
            proof {
                assert(g@.subrange(0, idx + 1) =~= p.push(num));
                assert(consistent(p.push(num))) by {
                    let q = p.push(num);
                    let n = idx as int;
                    assert forall|i: int, j: int| 0 <= i < q.len() && 0 <= j < q.len() && i != j && peers(i, j) implies #[trigger] q[i] != #[trigger] q[j] by {
                        if i == n {
                            assert(q[j] == p[j]);
                            assert(peers(j, n));
                        } else if j == n {
                            assert(q[i] == p[i]);
                        } else {
                            assert(q[i] == p[i] && q[j] == p[j]);
                        }
                    }
                }
            }
            backtrack(g, idx + 1, grids);
            g[idx] = saved;
            proof {
                assert(g@ =~= old(g)@);
                assert(completions_from(p, num) == completions(p.push(num)) + completions_from(p, (num + 1) as u8));
                assert(grids_view(grids@) == before + completions(p.push(num)));
            }
        } else {
            proof {
                assert(completions_from(p, num) == Seq::<Seq<u8>>::empty() + completions_from(p, (num + 1) as u8));
            }
        }
        num = num + 1;
    }
    proof {
        assert(completions_from(p, 5) =~= Seq::<Seq<u8>>::empty());
        assert(grids_view(grids@) =~= grids_view(grids@) + completions_from(p, 5));
        assert(completions(p) == completions_from(p, 1));
    }
}

/// All valid 4x4 Sudoku grids, each once, in increasing lexicographic order.
pub fn generate_all_grids() -> (r: Vec<Grid>)
    ensures
        grids_view(r@) == completions(Seq::empty()),
        forall|i: int| 0 <= i < r@.len() ==> valid_grid((#[trigger] r@[i])@),
        forall|i: int, j: int| 0 <= i < j < r@.len() ==> lex_lt((#[trigger] r@[i])@, (#[trigger] r@[j])@),
        forall|x: Seq<u8>| valid_grid(x) ==> exists|i: int| 0 <= i < r@.len() && (#[trigger] r@[i])@ == x,
{
    let mut grids: Vec<Grid> = Vec::new();
    let mut g: Grid = [0u8; 16];
    proof {
        assert(g@.subrange(0, 0) =~= Seq::<u8>::empty());
    }
    backtrack(&mut g, 0, &mut grids);
    proof {
        let e = Seq::<u8>::empty();
        assert(g@.subrange(0, 0) =~= e);
        lemma_completions(e);
        assert(grids_view(grids@) =~= completions(e));
        assert forall|i: int| 0 <= i < grids@.len() implies valid_grid((#[trigger] grids@[i])@) by {
            assert(grids_view(grids@)[i] == grids@[i]@);
        }
        assert forall|i: int, j: int| 0 <= i < j < grids@.len() implies lex_lt((#[trigger] grids@[i])@, (#[trigger] grids@[j])@) by {
            assert(grids_view(grids@)[i] == grids@[i]@);
            assert(grids_view(grids@)[j] == grids@[j]@);
        }
        assert forall|x: Seq<u8>| valid_grid(x) implies exists|i: int| 0 <= i < grids@.len() && (#[trigger] grids@[i])@ == x by {
            assert(extends(x, e));
            assert(completions(e).contains(x));
            let k = choose|k: int| 0 <= k < completions(e).len() && completions(e)[k] == x;
            assert(grids_view(grids@)[k] == grids@[k]@);
        }
    }
    grids
}

} // verus!
