use vstd::prelude::*;
use crate::cell::Cell;
use crate::board::{count_around, count_cells, nb_x, nb_y};

verus! {

/// A cell inside a `w` by `h` grid has a row-major index inside it.
pub proof fn lemma_idx_in(w: int, h: int, x: int, y: int)
    by (nonlinear_arith)
    requires
        0 <= x < w,
        0 <= y < h,
    ensures
        0 <= y * w <= y * w + x < w * h,
{
}

/// Counting after one cell is replaced.
pub proof fn lemma_count_update(s: Seq<Cell>, i: int, c: Cell, p: spec_fn(Cell) -> bool)
    requires
        0 <= i < s.len(),
    ensures
        count_cells(s.update(i, c), p) + (if p(s[i]) { 1int } else { 0int }) == count_cells(s, p) + (
        if p(c) {
            1int
        } else {
            0int
        }),
    decreases s.len(),
{
    if i == s.len() - 1 {
        assert(s.update(i, c).drop_last() =~= s.drop_last());
    } else {
        lemma_count_update(s.drop_last(), i, c, p);
        assert(s.update(i, c).drop_last() =~= s.drop_last().update(i, c));
    }
}

/// Fewer cells satisfy `p` in `t` than in `s` when each one of `t` that does
/// sits where one of `s` does.
pub proof fn lemma_count_mono(s: Seq<Cell>, t: Seq<Cell>, p: spec_fn(Cell) -> bool)
    requires
        s.len() == t.len(),
        forall|i: int| 0 <= i < t.len() && #[trigger] p(t[i]) ==> p(s[i]),
    ensures
        count_cells(t, p) <= count_cells(s, p),
    decreases s.len(),
{
    if s.len() > 0 {
        let s1 = s.drop_last();
        let t1 = t.drop_last();
        assert forall|i: int| 0 <= i < t1.len() && #[trigger] p(t1[i]) implies p(s1[i]) by {
            assert(t1[i] == t[i]);
            assert(s1[i] == s[i]);
        }
        lemma_count_mono(s1, t1, p);
        assert(p(t.last()) ==> p(s.last())) by {
            assert(t.last() == t[t.len() - 1]);
        }
    }
}

/// The column and row of an index inside a `w` by `h` grid.
pub proof fn lemma_row_col(i: int, w: int, h: int)
    requires
        0 <= i < w * h,
        0 < w,
    ensures
        0 <= i % w < w,
        0 <= i / w < h,
        (i / w) * w + i % w == i,
{
    vstd::arithmetic::div_mod::lemma_fundamental_div_mod(i, w);
    vstd::arithmetic::div_mod::lemma_mod_pos_bound(i, w);
    vstd::arithmetic::div_mod::lemma_div_pos_is_pos(i, w);
    vstd::arithmetic::div_mod::lemma_multiply_divide_lt(i, w, h);
    vstd::arithmetic::mul::lemma_mul_is_commutative(w, i / w);
}

/// Counting around a cell reads the predicate only inside the grid.
pub proof fn lemma_count_around_agree(w: int, h: int, x: int, y: int, k: nat, p: spec_fn(int) -> bool, q: spec_fn(int) -> bool)
    requires
        forall|i: int| 0 <= i < w * h ==> #[trigger] p(i) == q(i),
    ensures
        count_around(w, h, x, y, k, p) == count_around(w, h, x, y, k, q),
    decreases k,
{
    if k > 0 {
        lemma_count_around_agree(w, h, x, y, (k - 1) as nat, p, q);
        let j = k - 1;
        let nx = nb_x(x, j);
        let ny = nb_y(y, j);
        if 0 <= nx < w && 0 <= ny < h {
            lemma_idx_in(w, h, nx, ny);
        }
    }
}

/// At most `k` of the first `k` cells around a cell are counted, the centre
/// (the fifth) never.
pub proof fn lemma_count_around_le(w: int, h: int, x: int, y: int, k: nat, p: spec_fn(int) -> bool)
    ensures
        count_around(w, h, x, y, k, p) <= if k >= 5 { k - 1 } else { k as int },
    decreases k,
{
    if k > 0 {
        lemma_count_around_le(w, h, x, y, (k - 1) as nat, p);
    }
}

/// When `p` implies `q` inside the grid, fewer cells around count for `p`;
/// and as many only when each counted cell for `q` also counts for `p`.
pub proof fn lemma_count_around_sub(w: int, h: int, x: int, y: int, k: nat, p: spec_fn(int) -> bool, q: spec_fn(int) -> bool)
    requires
        forall|i: int| 0 <= i < w * h && #[trigger] p(i) ==> q(i),
    ensures
        count_around(w, h, x, y, k, p) <= count_around(w, h, x, y, k, q),
        count_around(w, h, x, y, k, p) == count_around(w, h, x, y, k, q) ==> forall|j: int|
            0 <= j < k && j != 4 && 0 <= nb_x(x, j) < w && 0 <= nb_y(y, j) < h && #[trigger] q(
                nb_y(y, j) * w + nb_x(x, j),
            ) ==> p(nb_y(y, j) * w + nb_x(x, j)),
    decreases k,
{
    if k > 0 {
        lemma_count_around_sub(w, h, x, y, (k - 1) as nat, p, q);
        let j = k - 1;
        let nx = nb_x(x, j);
        let ny = nb_y(y, j);
        if 0 <= nx < w && 0 <= ny < h {
            lemma_idx_in(w, h, nx, ny);
        }
    }
}

/// Two cells inside a grid with the same row-major index are the same cell.
pub proof fn lemma_idx_inj(w: int, h: int, x1: int, y1: int, x2: int, y2: int)
    requires
        0 <= x1 < w,
        0 <= y1 < h,
        0 <= x2 < w,
        0 <= y2 < h,
        y1 * w + x1 == y2 * w + x2,
    ensures
        x1 == x2,
        y1 == y2,
{
    let i = y1 * w + x1;
    vstd::arithmetic::div_mod::lemma_fundamental_div_mod_converse_mod(i, w, y1, x1);
    vstd::arithmetic::div_mod::lemma_fundamental_div_mod_converse_div(i, w, y1, x1);
    vstd::arithmetic::div_mod::lemma_fundamental_div_mod_converse_mod(i, w, y2, x2);
    vstd::arithmetic::div_mod::lemma_fundamental_div_mod_converse_div(i, w, y2, x2);
}

} // verus!
