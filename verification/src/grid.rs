use vstd::prelude::*;
use crate::cell::{Cell, CellContent, CellState, GameStatus};
use crate::board::{Board, count_around, count_cells, drawn, is_flagged, nb_x, nb_y, picks_fit, swap_take};
use crate::lemmas::{lemma_count_around_agree, lemma_idx_in, lemma_row_col};
use crate::layout::{lemma_free_cells_len, lemma_free_cells_same};
use crate::laws::{lemma_clicked_shape, law_no_chord_unless_flags_match, no_chord_at};
use crate::rng::{random_below, thread_rng};
use crate::cascade::{lemma_hidden_mono, lemma_open_follows, lemma_reveal_one, lemma_follows_trans};

verus! {

pub struct Grid {
    pub width: usize,
    pub height: usize,
    pub cells: Vec<Cell>,
    pub status: GameStatus,
    pub mine_count: usize,
    pub first_click: bool,
    /// The mine whose reveal lost the game, if any.
    pub exploded_mine: Option<(usize, usize)>,
}

impl View for Grid {
    type V = Board;

    open spec fn view(&self) -> Board {
        Board {
            width: self.width,
            height: self.height,
            cells: self.cells@,
            status: self.status,
            mine_count: self.mine_count,
            first_click: self.first_click,
            exploded_mine: self.exploded_mine,
        }
    }
}

/// The `k`-th cell of the 3x3 block around `(x, y)`, if it lies inside a
/// `w` by `h` grid.
fn neighbor(x: usize, y: usize, k: usize, w: usize, h: usize) -> (r: Option<(usize, usize)>)
    requires
        k < 9,
        x < w,
        y < h,
    ensures
        match r {
            Some((nx, ny)) => nx == nb_x(x as int, k as int) && ny == nb_y(y as int, k as int)
                && nx < w && ny < h,
            None => !(0 <= nb_x(x as int, k as int) < w && 0 <= nb_y(y as int, k as int) < h),
        },
{
    let dx = k % 3;
    let dy = k / 3;
    if (dx == 0 && x == 0) || (dy == 0 && y == 0) {
        return None;
    }
    let nx = if dx == 0 { x - 1 } else { x + (dx - 1) };
    let ny = if dy == 0 { y - 1 } else { y + (dy - 1) };
    if nx >= w || ny >= h {
        None
    } else {
        Some((nx, ny))
    }
}

impl Grid {
    /// The row-major index of an in-bounds cell.
    fn index_of(&self, x: usize, y: usize) -> (i: usize)
        requires
            self@.wf(),
            x < self.width,
            y < self.height,
        ensures
            i == self@.idx(x as int, y as int),
            i < self.cells@.len(),
    {
        proof {
            lemma_idx_in(self.width as int, self.height as int, x as int, y as int);
            assert(y * self.width <= y * self.width + x);
            assert(y * self.width + x < self.cells.len());
        }
        let row = y * self.width;
        row + x
    }

    /// The cell at `(x, y)`, that is at index `y * width + x`.
    pub fn get_cell(&self, x: usize, y: usize) -> (c: &Cell)
        requires
            y * self.width + x < self.cells.len(),
        ensures
            *c == self.cells@[y * self.width + x],
    {
        proof {
            assert(y * self.width <= y * self.width + x);
        }
        let row = y * self.width;
        &self.cells[row + x]
    }

    /// The cell at `(x, y)`, to change in place.
    pub fn get_cell_mut(&mut self, x: usize, y: usize) -> (c: &mut Cell)
        requires
            y * old(self).width + x < old(self).cells.len(),
        ensures
            *c == old(self).cells@[y * old(self).width + x],
            final(self).cells@ == old(self).cells@.update(y * old(self).width + x, *final(c)),
            final(self).width == old(self).width,
            final(self).height == old(self).height,
            final(self).status == old(self).status,
            final(self).mine_count == old(self).mine_count,
            final(self).first_click == old(self).first_click,
            final(self).exploded_mine == old(self).exploded_mine,
    {
        proof {
            assert(y * self.width <= y * self.width + x);
        }
        let row = y * self.width;
        &mut self.cells[row + x]
    }

    /// The number of mines around `(x, y)`.
    pub fn count_neighbor_mines(&self, x: usize, y: usize) -> (n: u8)
        requires
            self@.wf(),
            x < self.width,
            y < self.height,
        ensures
            n == self@.adjacent_mines(x as int, y as int),
    {
        let mut count: u8 = 0;
        let mut k: usize = 0;
        while k < 9
            invariant
                self@.wf(),
                x < self.width,
                y < self.height,
                k <= 9,
                count <= k,
                count == count_around(self.width as int, self.height as int, x as int, y as int, k as nat, self@.mine_pred()),
            decreases 9 - k,
        {
            if k != 4 {
                if let Some((nx, ny)) = neighbor(x, y, k, self.width, self.height) {
                    let i = self.index_of(nx, ny);
                    if matches!(self.cells[i].content, CellContent::Mine) {
                        count = count + 1;
                    }
                }
            }
            k = k + 1;
        }
        count
    }

    /// The number of flags around `(x, y)`.
    pub fn count_neighbor_flags(&self, x: usize, y: usize) -> (n: u8)
        requires
            self@.wf(),
            x < self.width,
            y < self.height,
        ensures
            n == self@.adjacent_flags(x as int, y as int),
    {
        let mut count: u8 = 0;
        let mut k: usize = 0;
        while k < 9
            invariant
                self@.wf(),
                x < self.width,
                y < self.height,
                k <= 9,
                count <= k,
                count == count_around(self.width as int, self.height as int, x as int, y as int, k as nat, self@.flag_pred()),
            decreases 9 - k,
        {
            if k != 4 {
                if let Some((nx, ny)) = neighbor(x, y, k, self.width, self.height) {
                    let i = self.index_of(nx, ny);
                    if matches!(self.cells[i].state, CellState::Flagged) {
                        count = count + 1;
                    }
                }
            }
            k = k + 1;
        }
        count
    }

    /// Places a flag on a hidden cell or takes one off a flagged cell, while
    /// the game is in play.
    pub fn toggle_flag(&mut self, x: usize, y: usize)
        requires
            old(self).status == GameStatus::Playing ==> y * old(self).width + x < old(self).cells.len(),
        ensures
            final(self)@ == old(self)@.toggled(x as int, y as int),
            forall|a: int, b: int| #[trigger] final(self)@.free_list(a, b) == old(self)@.free_list(a, b),
    {
        if self.status != GameStatus::Playing {
            return;
        }
        let ghost b0 = self@;
        let cell = self.get_cell_mut(x, y);
        if cell.state == CellState::Hidden {
            cell.state = CellState::Flagged;
        } else if cell.state == CellState::Flagged {
            cell.state = CellState::Hidden;
        }
        proof {
            assert forall|a: int, b: int| #[trigger] self@.free_list(a, b) == b0.free_list(a, b) by {
                assert forall|i: int| 0 <= i < b0.cells.len() implies (#[trigger] self@.cells[i].content is Mine) == (b0.cells[i].content is Mine) by {
                    assert(self@.cells[i].content == b0.cells[i].content);
                }
                lemma_free_cells_same(self@, b0, self@.idx(a, b), b0.cells.len());
            }
        }
    }

    /// The number of flagged cells.
    pub fn flagged_count(&self) -> (n: usize)
        ensures
            n == self@.flagged_count(),
    {
        let mut n: usize = 0;
        let mut i: usize = 0;
        while i < self.cells.len()
            invariant
                i <= self.cells@.len(),
                n <= i,
                n == count_cells(self.cells@.take(i as int), is_flagged()),
            decreases self.cells@.len() - i,
        {
            assert(self.cells@.take(i + 1).drop_last() =~= self.cells@.take(i as int));
            if matches!(self.cells[i].state, CellState::Flagged) {
                n = n + 1;
            }
            i = i + 1;
        }
        assert(self.cells@.take(i as int) =~= self.cells@);
        n
    }

    /// A fresh grid: every cell hidden and empty, no mine laid yet.
    pub fn new(width: usize, height: usize, mine_count: usize) -> (g: Grid)
        requires
            width * height <= usize::MAX,
        ensures
            g@.wf(),
            g.width == width,
            g.height == height,
            g.mine_count == mine_count,
            g.status == GameStatus::Playing,
            g.first_click,
            g.exploded_mine is None,
            forall|i: int| 0 <= i < g.cells@.len() ==> g.cells@[i] == (Cell {
                state: CellState::Hidden,
                content: CellContent::Empty(0),
            }),
            g@.won_clean(),
            width * height > 0 ==> g@.status_consistent(),
            forall|x: int, y: int| g@.in_bounds(x, y) ==> #[trigger] g@.free_list(x, y).len() == width * height - 1,
    {
        let cells = vec![Cell { state: CellState::Hidden, content: CellContent::Empty(0) }; width * height];
        proof {
            if width * height > 0 {
                assert(!(cells@[0].content is Mine) && !(cells@[0].state is Revealed));
            }
        }
        let g = Grid {
            width,
            height,
            cells,
            status: GameStatus::Playing,
            mine_count,
            first_click: true,
            exploded_mine: None,
        };
        proof {
            assert forall|x: int, y: int| g@.in_bounds(x, y) implies #[trigger] g@.free_list(x, y).len() == width * height - 1 by {
                lemma_idx_in(width as int, height as int, x, y);
                lemma_free_cells_len(g@, g@.idx(x, y), g@.cells.len());
            }
        }
        g
    }

    /// Loses the game on the mine at `(x, y)`: every mine is shown.
    fn lose(&mut self, x: usize, y: usize)
        requires
            old(self)@.wf(),
            x < old(self).width,
            y < old(self).height,
            old(self)@.cell(x as int, y as int).content is Mine,
        ensures
            final(self)@ == old(self)@.lost_at(x, y),
    {
        let ghost b0 = self@;
        let ghost lost = b0.lost_at(x, y);
        let i = self.index_of(x, y);
        let c = self.cells[i];
        self.cells.set(i, Cell { state: CellState::Revealed, content: c.content });
        self.status = GameStatus::Lost;
        let n = self.cells.len();
        let mut j: usize = 0;
        while j < n
            invariant
                n == b0.cells.len(),
                self.cells@.len() == n,
                i < n,
                lost.cells.len() == n,
                self.width == b0.width,
                self.height == b0.height,
                self.mine_count == b0.mine_count,
                self.first_click == b0.first_click,
                self.exploded_mine == b0.exploded_mine,
                self.status == GameStatus::Lost,
                lost == b0.lost_at(x, y),
                b0.cells[i as int].content is Mine,
                j <= n,
                forall|t: int| 0 <= t < j ==> self.cells@[t] == lost.cells[t],
                forall|t: int| j <= t < n ==> self.cells@[t] == (if t == i { lost.cells[t] } else { b0.cells[t] }),
            decreases n - j,
        {
            let cj = self.cells[j];
            if matches!(cj.content, CellContent::Mine) {
                self.cells.set(j, Cell { state: CellState::Revealed, content: cj.content });
            }
            j = j + 1;
        }
        self.exploded_mine = Some((x, y));
        assert(self.cells@ =~= lost.cells);
    }

    /// Wins a game in play whose safe cells are all revealed; its mines are
    /// then shown flagged.
    fn check_win(&mut self)
        ensures
            final(self)@ == old(self)@.win_checked(),
    {
        if self.status != GameStatus::Playing {
            return;
        }
        let ghost b0 = self@;
        let n = self.cells.len();
        let mut all_safe_revealed = true;
        let mut j: usize = 0;
        while j < n
            invariant
                self@ == b0,
                n == b0.cells.len(),
                j <= n,
                all_safe_revealed == forall|t: int| 0 <= t < j && !(#[trigger] b0.cells[t].content is Mine) ==> b0.cells[t].state is Revealed,
            decreases n - j,
        {
            let cj = self.cells[j];
            if !matches!(cj.content, CellContent::Mine) && !matches!(cj.state, CellState::Revealed) {
                all_safe_revealed = false;
            }
            j = j + 1;
        }
        if all_safe_revealed {
            let ghost won = b0.win_checked();
            assert(b0.all_safe_revealed());
            self.status = GameStatus::Won;
            let mut j: usize = 0;
            while j < n
                invariant
                    n == b0.cells.len(),
                    self.cells@.len() == n,
                    won == b0.win_checked(),
                    b0.all_safe_revealed(),
                    b0.status == GameStatus::Playing,
                    self.width == b0.width,
                    self.height == b0.height,
                    self.mine_count == b0.mine_count,
                    self.first_click == b0.first_click,
                    self.exploded_mine == b0.exploded_mine,
                    self.status == GameStatus::Won,
                    j <= n,
                    forall|t: int| 0 <= t < j ==> self.cells@[t] == won.cells[t],
                    forall|t: int| j <= t < n ==> self.cells@[t] == b0.cells[t],
                decreases n - j,
            {
                let cj = self.cells[j];
                if matches!(cj.content, CellContent::Mine) {
                    self.cells.set(j, Cell { state: CellState::VictoryRevealed, content: cj.content });
                }
                j = j + 1;
            }
            assert(self.cells@ =~= won.cells);
        } else {
            assert(!b0.all_safe_revealed());
        }
    }

    /// Opens cell `(x, y)` as `Board::uncover` says; `fuel` only bounds the
    /// depth of the cascade, which `reveal_depth` always covers.
    fn open_cell(&mut self, x: usize, y: usize, Ghost(fuel): Ghost<nat>)
        requires
            old(self)@.wf(),
            x < old(self).width,
            y < old(self).height,
            fuel >= old(self)@.reveal_depth(x as int, y as int),
        ensures
            final(self)@ == old(self)@.uncover(x as int, y as int, fuel),
        decreases fuel,
    {
        if self.status != GameStatus::Playing {
            return;
        }
        let ghost b0 = self@;
        let i = self.index_of(x, y);
        let cell = self.cells[i];
        match cell.state {
            CellState::Revealed => {
                if let CellContent::Empty(count) = cell.content {
                    if count > 0 && self.count_neighbor_flags(x, y) == count {
                        let ghost f1 = (fuel - 1) as nat;
                        let ghost target = b0.chord(x as int, y as int, 0, f1);
                        let mut k: usize = 0;
                        while k < 9
                            invariant
                                b0.wf(),
                                self@.wf(),
                                self@.follows(b0),
                                x < self.width,
                                y < self.height,
                                k <= 9,
                                f1 + 1 == fuel,
                                f1 >= 2 * b0.hidden_count() + 1,
                                self@.chord(x as int, y as int, k as nat, f1) == target,
                            decreases 9 - k,
                        {
                            let ghost cur = self@;
                            if k != 4 {
                                if let Some((nx, ny)) = neighbor(x, y, k, self.width, self.height) {
                                    let j = self.index_of(nx, ny);
                                    if matches!(self.cells[j].state, CellState::Hidden) {
                                        proof {
                                            lemma_hidden_mono(cur, b0);
                                        }
                                        self.open_cell(nx, ny, Ghost(f1));
                                        proof {
                                            lemma_open_follows(cur, nx as int, ny as int, f1);
                                            lemma_follows_trans(self@, cur, b0);
                                        }
                                    }
                                }
                            }
                            k = k + 1;
                        }
                    }
                }
            },
            CellState::Hidden => {
                match cell.content {
                    CellContent::Mine => {
                        self.lose(x, y);
                    },
                    CellContent::Empty(count) => {
                        self.cells.set(i, Cell { state: CellState::Revealed, content: cell.content });
                        let ghost b1 = self@;
                        proof {
                            assert(b1 == b0.with_state(i as int, CellState::Revealed));
                            lemma_reveal_one(b0, i as int);
                        }
                        if count == 0 {
                            let ghost f1 = (fuel - 1) as nat;
                            let ghost target = b1.flood(x as int, y as int, 0, f1);
                            let mut k: usize = 0;
                            while k < 9
                                invariant
                                    b1.wf(),
                                    self@.wf(),
                                    self@.follows(b1),
                                    x < self.width,
                                    y < self.height,
                                    k <= 9,
                                    f1 + 1 == fuel,
                                    f1 >= 2 * b1.hidden_count() + 2,
                                    self@.flood(x as int, y as int, k as nat, f1) == target,
                                decreases 9 - k,
                            {
                                let ghost cur = self@;
                                if let Some((nx, ny)) = neighbor(x, y, k, self.width, self.height) {
                                    let j = self.index_of(nx, ny);
                                    if matches!(self.cells[j].state, CellState::Hidden) {
                                        proof {
                                            lemma_hidden_mono(cur, b1);
                                        }
                                        self.open_cell(nx, ny, Ghost(f1));
                                        proof {
                                            lemma_open_follows(cur, nx as int, ny as int, f1);
                                            lemma_follows_trans(self@, cur, b1);
                                        }
                                    }
                                }
                                k = k + 1;
                            }
                        }
                        self.check_win();
                    },
                }
            },
            _ => {},
        }
    }

    /// The candidates for a mine when `(safe_x, safe_y)` is to stay safe: the
    /// indices, in row-major order, of the cells that are neither a mine nor
    /// that cell.
    pub fn free_cells(&self, safe_x: usize, safe_y: usize) -> (v: Vec<usize>)
        requires
            self@.wf(),
            safe_x < self.width,
            safe_y < self.height,
        ensures
            v@ == self@.free_list(safe_x as int, safe_y as int),
    {
        let safe = self.index_of(safe_x, safe_y);
        let n = self.cells.len();
        let mut v: Vec<usize> = Vec::new();
        let mut i: usize = 0;
        while i < n
            invariant
                n == self.cells@.len(),
                safe == self@.idx(safe_x as int, safe_y as int),
                i <= n,
                v@ == self@.free_cells(safe as int, i as nat),
            decreases n - i,
        {
            if i != safe && !matches!(self.cells[i].content, CellContent::Mine) {
                v.push(i);
            }
            i = i + 1;
        }
        v
    }

    /// Lays the mines that `picks` draw from the candidates (see
    /// `free_cells`), then numbers every other cell with the mines around it.
    pub fn lay_mines(&mut self, safe_x: usize, safe_y: usize, picks: &Vec<usize>)
        requires
            old(self)@.wf(),
            safe_x < old(self).width,
            safe_y < old(self).height,
            old(self)@.valid_picks(safe_x as int, safe_y as int, picks@),
        ensures
            final(self)@ == old(self)@.with_mines(safe_x as int, safe_y as int, picks@),
    {
        let ghost b0 = self@;
        let ghost m = b0.mined(safe_x as int, safe_y as int, picks@);
        let mut cands = self.free_cells(safe_x, safe_y);
        let ghost c0 = cands@;
        let ghost all = drawn(c0, picks@);
        let ghost mut placed: Seq<usize> = seq![];
        let n = self.cells.len();
        proof {
            assert forall|j: int| 0 <= j < c0.len() implies c0[j] < n by {
                self@.lemma_free_cells_below(self@.idx(safe_x as int, safe_y as int), n as nat, j);
            }
            assert(picks@.skip(0) =~= picks@);
        }
        let mut t: usize = 0;
        while t < picks.len()
            invariant
                n == b0.cells.len(),
                self.cells@.len() == n,
                self.width == b0.width,
                self.height == b0.height,
                self.status == b0.status,
                self.mine_count == b0.mine_count,
                self.first_click == b0.first_click,
                self.exploded_mine == b0.exploded_mine,
                t <= picks@.len(),
                cands@.len() + t == c0.len(),
                picks_fit_from(picks@, c0.len(), t as int),
                forall|j: int| 0 <= j < cands@.len() ==> cands@[j] < n,
                placed + drawn(cands@, picks@.skip(t as int)) == all,
                all == drawn(c0, picks@),
                forall|i: int| 0 <= i < n ==> (#[trigger] self.cells@[i]).state == b0.cells[i].state,
                forall|i: int| 0 <= i < n ==> ((#[trigger] self.cells@[i]).content is Mine <==> (b0.cells[i].content is Mine || placed.contains(i as usize))),
            decreases picks@.len() - t,
        {
            let k = picks[t];
            let ghost before = cands@;
            proof {
                assert(picks@.skip(t as int)[0] == picks@[t as int]);
                assert(picks@.skip(t as int).drop_first() =~= picks@.skip(t + 1));
            }
            let cell_at = cands.swap_remove(k);
            let ghost prev = placed;
            proof {
                assert(cands@ == swap_take(before, k as int));
                assert(placed.push(cell_at) + drawn(cands@, picks@.skip(t + 1)) =~= placed + drawn(before, picks@.skip(t as int)));
                placed = placed.push(cell_at);
            }
            let ghost prev_cells = self.cells@;
            let c = self.cells[cell_at];
            self.cells.set(cell_at, Cell { state: c.state, content: CellContent::Mine });
            proof {
                assert(prev.push(cell_at) == placed);
                assert forall|i: int| 0 <= i < n implies ((#[trigger] self.cells@[i]).content is Mine <==> (b0.cells[i].content is Mine || placed.contains(i as usize))) by {
                    if i == cell_at {
                        assert(placed[placed.len() - 1] == cell_at);
                    } else {
                        assert(self.cells@[i] == prev_cells[i]);
                        if prev.contains(i as usize) {
                            let j = choose|j: int| 0 <= j < prev.len() && prev[j] == i as usize;
                            assert(placed[j] == i as usize);
                        }
                        if placed.contains(i as usize) {
                            let j = choose|j: int| 0 <= j < placed.len() && placed[j] == i as usize;
                            assert(prev[j] == i as usize);
                        }
                    }
                }
            }
            t = t + 1;
        }
        proof {
            assert(picks@.skip(t as int) =~= Seq::<usize>::empty());
            assert(placed =~= all);
            assert forall|i: int| 0 <= i < n implies ((#[trigger] self.cells@[i]).content is Mine <==> m(i)) by {}
        }
        let ghost target = b0.with_mines(safe_x as int, safe_y as int, picks@);
        let mut i: usize = 0;
        while i < n
            invariant
                n == b0.cells.len(),
                self@.wf(),
                b0.wf(),
                self.cells@.len() == n,
                target == b0.with_mines(safe_x as int, safe_y as int, picks@),
                m == b0.mined(safe_x as int, safe_y as int, picks@),
                self.width == b0.width,
                self.height == b0.height,
                self.status == b0.status,
                self.mine_count == b0.mine_count,
                self.first_click == b0.first_click,
                self.exploded_mine == b0.exploded_mine,
                i <= n,
                forall|j: int| 0 <= j < n ==> (#[trigger] self.cells@[j]).state == b0.cells[j].state,
                forall|j: int| 0 <= j < n ==> ((#[trigger] self.cells@[j]).content is Mine <==> m(j)),
                forall|j: int| 0 <= j < i ==> (#[trigger] self.cells@[j]) == target.cells[j],
            decreases n - i,
        {
            let c = self.cells[i];
            if !matches!(c.content, CellContent::Mine) {
                proof {
                    lemma_row_col(i as int, self.width as int, self.height as int);
                }
                let x = i % self.width;
                let y = i / self.width;
                let count = self.count_neighbor_mines(x, y);
                proof {
                    lemma_count_around_agree(self.width as int, self.height as int, x as int, y as int, 9, self@.mine_pred(), m);
                    vstd::arithmetic::mul::lemma_mul_is_commutative(y as int, self.width as int);
                }
                grid_set_cell_content(self, x, y, CellContent::Empty(count));
            }
            i = i + 1;
        }
        assert(self.cells@ =~= target.cells);
    }

    /// Lays `mine_count` mines at random, none on `(safe_x, safe_y)`: each in
    /// turn on a cell drawn uniformly among those still free.
    fn place_mines(&mut self, safe_x: usize, safe_y: usize)
        requires
            old(self)@.wf(),
            safe_x < old(self).width,
            safe_y < old(self).height,
            old(self).mine_count <= old(self)@.free_list(safe_x as int, safe_y as int).len(),
        ensures
            exists|picks: Seq<usize>|
                old(self)@.valid_picks(safe_x as int, safe_y as int, picks)
                    && final(self)@ == old(self)@.with_mines(safe_x as int, safe_y as int, picks),
    {
        let free = self.free_cells(safe_x, safe_y).len();
        let picks = draw_picks(free, self.mine_count);
        self.lay_mines(safe_x, safe_y, &picks);
    }

    /// A left click on `(x, y)` with the random draws of the first click
    /// given: on the first click the mines are laid from `picks` around the
    /// clicked cell, then the cell is opened (see `Board::uncover`).
    pub fn reveal_with_picks(&mut self, x: usize, y: usize, picks: &Vec<usize>)
        requires
            old(self)@.wf(),
            old(self).status == GameStatus::Playing ==> x < old(self).width && y < old(self).height,
            old(self).status == GameStatus::Playing && old(self).first_click
                ==> old(self)@.valid_picks(x as int, y as int, picks@),
        ensures
            final(self)@ == old(self)@.clicked(x as int, y as int, picks@),
            !old(self).first_click && old(self)@.in_bounds(x as int, y as int) && no_chord_at(old(self)@, x as int, y as int)
                ==> final(self)@ == old(self)@,
            final(self)@.wf(),
            final(self).width == old(self).width,
            final(self).height == old(self).height,
            final(self).mine_count == old(self).mine_count,
    {
        proof {
            lemma_clicked_shape(self@, x as int, y as int, picks@);
            if !self.first_click && self@.in_bounds(x as int, y as int) && no_chord_at(self@, x as int, y as int) {
                law_no_chord_unless_flags_match(self@, x as int, y as int, picks@);
            }
        }
        if self.status != GameStatus::Playing {
            return;
        }
        if self.first_click {
            self.lay_mines(x, y, picks);
            self.first_click = false;
        }
        self.open_cell(x, y, Ghost(self@.reveal_depth(x as int, y as int)));
    }

    /// A left click on `(x, y)`. On the first click the mines are laid at
    /// random, never on the clicked cell; then the cell is opened: a hidden
    /// mine loses the game, a hidden safe cell is revealed (with its
    /// surroundings when no mine touches it), a revealed number with as many
    /// flags around it as its number opens its hidden neighbours.
    pub fn reveal_cell(&mut self, x: usize, y: usize)
        requires
            old(self)@.wf(),
            old(self).status == GameStatus::Playing ==> x < old(self).width && y < old(self).height,
            old(self).status == GameStatus::Playing && old(self).first_click
                ==> old(self).mine_count <= old(self)@.free_list(x as int, y as int).len(),
        ensures
            old(self).status == GameStatus::Playing && old(self).first_click ==> exists|picks: Seq<usize>|
                old(self)@.valid_picks(x as int, y as int, picks)
                    && final(self)@ == old(self)@.clicked(x as int, y as int, picks),
            !(old(self).status == GameStatus::Playing && old(self).first_click)
                ==> final(self)@ == old(self)@.clicked(x as int, y as int, seq![]),
            !old(self).first_click && old(self)@.in_bounds(x as int, y as int) && no_chord_at(old(self)@, x as int, y as int)
                ==> final(self)@ == old(self)@,
            final(self)@.wf(),
            final(self).width == old(self).width,
            final(self).height == old(self).height,
            final(self).mine_count == old(self).mine_count,
    {
        let ghost g0 = self@;
        if self.status != GameStatus::Playing {
            return;
        }
        if self.first_click {
            self.place_mines(x, y);
            self.first_click = false;
        }
        self.open_cell(x, y, Ghost(self@.reveal_depth(x as int, y as int)));
        proof {
            if g0.first_click {
                let picks = choose|picks: Seq<usize>| g0.valid_picks(x as int, y as int, picks) && self@ == g0.clicked(x as int, y as int, picks);
                lemma_clicked_shape(g0, x as int, y as int, picks);
            } else {
                lemma_clicked_shape(g0, x as int, y as int, seq![]);
                if g0.in_bounds(x as int, y as int) && no_chord_at(g0, x as int, y as int) {
                    law_no_chord_unless_flags_match(g0, x as int, y as int, seq![]);
                }
            }
        }
    }
}

/// Sets the content of cell `(x, y)`, keeping its state.
fn grid_set_cell_content(grid: &mut Grid, x: usize, y: usize, content: CellContent)
    requires
        old(grid)@.wf(),
        x < old(grid).width,
        y < old(grid).height,
    ensures
        final(grid)@ == (Board {
            cells: old(grid)@.cells.update(
                old(grid)@.idx(x as int, y as int),
                Cell { state: old(grid)@.cell(x as int, y as int).state, content },
            ),
            ..old(grid)@
        }),
{
    let i = grid.index_of(x, y);
    let c = grid.cells[i];
    grid.cells.set(i, Cell { state: c.state, content });
}

/// Draws `count` picks at random, the `i`-th below `free - i`: each names,
/// among the candidates still left, the next cell to become a mine.
fn draw_picks(free: usize, count: usize) -> (picks: Vec<usize>)
    requires
        count <= free,
    ensures
        picks@.len() == count,
        picks_fit(picks@, free as nat),
{
    let mut rng = thread_rng();
    let mut picks: Vec<usize> = Vec::new();
    let mut i: usize = 0;
    while i < count
        invariant
            count <= free,
            i <= count,
            picks@.len() == i,
            forall|j: int| 0 <= j < i ==> picks@[j] + j < free,
        decreases count - i,
    {
        let r = random_below(&mut rng, free - i);
        picks.push(r);
        i = i + 1;
    }
    picks
}

/// The picks from the `t`-th on fit the candidates then left.
spec fn picks_fit_from(picks: Seq<usize>, n: nat, t: int) -> bool {
    forall|i: int| t <= i < picks.len() ==> picks[i] + i < n
}

} // verus!
