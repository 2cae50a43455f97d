use vstd::prelude::*;
use crate::cell::Cell;
use crate::board::{Board, count_cells, drawn, is_mine, picks_fit, swap_take};

verus! {

/// The candidates for a mine are increasing indices below `n`, none of them
/// the safe cell or a mine.
pub proof fn lemma_free_cells(b: Board, safe: int, n: nat)
    requires
        n <= b.cells.len() <= usize::MAX,
    ensures
        forall|j: int| 0 <= j < b.free_cells(safe, n).len() ==> {
            let e = #[trigger] b.free_cells(safe, n)[j];
            &&& e < n
            &&& e != safe
            &&& !(b.cells[e as int].content is Mine)
        },
        forall|i: int, j: int|
            0 <= i < j < b.free_cells(safe, n).len() ==> b.free_cells(safe, n)[i] < b.free_cells(
                safe,
                n,
            )[j],
        b.free_cells(safe, n).no_duplicates(),
    decreases n,
{
    let fc = b.free_cells(safe, n);
    if n > 0 {
        let i0 = n - 1;
        let prev = b.free_cells(safe, (n - 1) as nat);
        lemma_free_cells(b, safe, (n - 1) as nat);
        if i0 != safe && !(b.cells[i0].content is Mine) {
            assert(fc == prev.push(i0 as usize));
            assert forall|i: int, j: int| 0 <= i < j < fc.len() implies fc[i] < fc[j] by {
                assert(fc[i] == prev[i]);
                if j < prev.len() {
                    assert(fc[j] == prev[j]);
                } else {
                    assert(prev[i] < i0);
                }
            }
        } else {
            assert(fc == prev);
        }
    }
    assert forall|i: int, j: int| 0 <= i < fc.len() && 0 <= j < fc.len() && i != j implies fc[i] != fc[j] by {
        if i < j {
            assert(fc[i] < fc[j]);
        } else {
            assert(fc[j] < fc[i]);
        }
    }
}

/// Taking the `k`-th element out of a sequence without duplicates leaves the
/// others, still without duplicates.
pub proof fn lemma_swap_take(c: Seq<usize>, k: int)
    requires
        c.no_duplicates(),
        0 <= k < c.len(),
    ensures
        swap_take(c, k).len() == c.len() - 1,
        swap_take(c, k).no_duplicates(),
        forall|e: usize| #[trigger] swap_take(c, k).contains(e) <==> (c.contains(e) && e != c[k]),
{
    let s = swap_take(c, k);
    let last = c.len() - 1;
    assert forall|j: int| 0 <= j < s.len() implies #[trigger] s[j] == (if j == k { c[last] } else { c[j] }) by {}
    assert forall|i: int, j: int| 0 <= i < s.len() && 0 <= j < s.len() && i != j implies s[i] != s[j] by {
        let ci = if i == k { last } else { i };
        let cj = if j == k { last } else { j };
        assert(s[i] == c[ci]);
        assert(s[j] == c[cj]);
    }
    assert forall|e: usize| #[trigger] s.contains(e) <==> (c.contains(e) && e != c[k]) by {
        if s.contains(e) {
            let j = choose|j: int| 0 <= j < s.len() && s[j] == e;
            let cj = if j == k { last } else { j };
            assert(c[cj] == e);
        }
        if c.contains(e) && e != c[k] {
            let j = choose|j: int| 0 <= j < c.len() && c[j] == e;
            if j == last {
                assert(s[k] == e);
            } else {
                assert(s[j] == e);
            }
        }
    }
}

/// The drawn cells are as many as the picks, all different, all candidates.
pub proof fn lemma_drawn(c: Seq<usize>, picks: Seq<usize>)
    requires
        c.no_duplicates(),
        picks_fit(picks, c.len()),
    ensures
        drawn(c, picks).len() == picks.len(),
        drawn(c, picks).no_duplicates(),
        forall|e: usize| #[trigger] drawn(c, picks).contains(e) ==> c.contains(e),
    decreases picks.len(),
{
    if picks.len() > 0 {
        let k = picks[0] as int;
        assert(picks[0] + 0 < c.len());
        let rest = swap_take(c, k);
        let p1 = picks.drop_first();
        lemma_swap_take(c, k);
        assert forall|i: int| 0 <= i < p1.len() implies p1[i] + i < rest.len() by {
            assert(p1[i] == picks[i + 1]);
        }
        lemma_drawn(rest, p1);
        let d1 = drawn(rest, p1);
        let d = drawn(c, picks);
        assert(d == seq![c[k]] + d1);
        assert(!d1.contains(c[k]));
        vstd::seq_lib::lemma_no_dup_in_concat(seq![c[k]], d1);
        assert forall|e: usize| #[trigger] d.contains(e) implies c.contains(e) by {
            let j = choose|j: int| 0 <= j < d.len() && d[j] == e;
            if j == 0 {
                assert(c[k] == e);
            } else {
                assert(d1[j - 1] == e);
                assert(d1.contains(e));
            }
        }
    }
}

/// When exactly the cells listed in `d` (without duplicates, all inside)
/// are mines, there are as many mines as `d` is long.
pub proof fn lemma_mine_total(s: Seq<Cell>, d: Seq<usize>)
    requires
        s.len() <= usize::MAX,
        d.no_duplicates(),
        forall|e: usize| #[trigger] d.contains(e) ==> e < s.len(),
        forall|i: int| 0 <= i < s.len() ==> ((#[trigger] s[i]).content is Mine <==> d.contains(i as usize)),
    ensures
        count_cells(s, is_mine()) == d.len(),
    decreases s.len(),
{
    if s.len() == 0 {
        if d.len() > 0 {
            assert(d.contains(d[0]));
        }
    } else {
        let last = (s.len() - 1) as usize;
        let s1 = s.drop_last();
        if d.contains(last) {
            let j = choose|j: int| 0 <= j < d.len() && d[j] == last;
            let d1 = d.remove(j);
            assert forall|e: usize| #[trigger] d1.contains(e) <==> (d.contains(e) && e != last) by {
                if d1.contains(e) {
                    let t = choose|t: int| 0 <= t < d1.len() && d1[t] == e;
                    let u = if t < j { t } else { t + 1 };
                    assert(d[u] == e);
                }
                if d.contains(e) && e != last {
                    let t = choose|t: int| 0 <= t < d.len() && d[t] == e;
                    if t < j {
                        assert(d1[t] == e);
                    } else {
                        assert(d1[t - 1] == e);
                    }
                }
            }
            assert forall|i: int, k: int| 0 <= i < d1.len() && 0 <= k < d1.len() && i != k implies d1[i] != d1[k] by {
                let ui = if i < j { i } else { i + 1 };
                let uk = if k < j { k } else { k + 1 };
                assert(d1[i] == d[ui]);
                assert(d1[k] == d[uk]);
            }
            assert forall|i: int| 0 <= i < s1.len() implies ((#[trigger] s1[i]).content is Mine <==> d1.contains(i as usize)) by {
                assert(s1[i] == s[i]);
            }
            lemma_mine_total(s1, d1);
            assert(s.last() == s[s.len() - 1]);
        } else {
            assert forall|i: int| 0 <= i < s1.len() implies ((#[trigger] s1[i]).content is Mine <==> d.contains(i as usize)) by {
                assert(s1[i] == s[i]);
            }
            assert forall|e: usize| #[trigger] d.contains(e) implies e < s1.len() by {}
            lemma_mine_total(s1, d);
            assert(s.last() == s[s.len() - 1]);
        }
    }
}

/// On a board with no mine yet every cell but the safe one is a candidate.
pub proof fn lemma_free_cells_len(b: Board, safe: int, n: nat)
    requires
        n <= b.cells.len(),
        0 <= safe < n,
        forall|i: int| 0 <= i < b.cells.len() ==> !(#[trigger] b.cells[i].content is Mine),
    ensures
        b.free_cells(safe, n).len() == n - 1,
    decreases n,
{
    if n - 1 > safe {
        lemma_free_cells_len(b, safe, (n - 1) as nat);
    } else {
        lemma_free_cells_none(b, safe, (n - 1) as nat);
    }
}

proof fn lemma_free_cells_none(b: Board, safe: int, n: nat)
    requires
        n <= b.cells.len(),
        n <= safe,
        forall|i: int| 0 <= i < b.cells.len() ==> !(#[trigger] b.cells[i].content is Mine),
    ensures
        b.free_cells(safe, n).len() == n,
    decreases n,
{
    if n > 0 {
        lemma_free_cells_none(b, safe, (n - 1) as nat);
    }
}

/// The candidates for a mine depend only on where the mines are.
pub proof fn lemma_free_cells_same(b1: Board, b2: Board, safe: int, n: nat)
    requires
        n <= b1.cells.len(),
        n <= b2.cells.len(),
        forall|i: int| 0 <= i < n ==> (#[trigger] b1.cells[i].content is Mine) == (b2.cells[i].content is Mine),
    ensures
        b1.free_cells(safe, n) == b2.free_cells(safe, n),
    decreases n,
{
    if n > 0 {
        lemma_free_cells_same(b1, b2, safe, (n - 1) as nat);
        assert((b1.cells[n - 1].content is Mine) == (b2.cells[n - 1].content is Mine));
    }
}

} // verus!
