use vstd::prelude::*;
use crate::cell::{Cell, CellContent, CellState, GameStatus};

verus! {

/// The mathematical model of a grid: its fields, with the cells as a sequence
/// in row-major order (cell `(x, y)` is at index `y * width + x`).
#[verifier::ext_equal]
pub struct Board {
    pub width: usize,
    pub height: usize,
    pub cells: Seq<Cell>,
    pub status: GameStatus,
    pub mine_count: usize,
    pub first_click: bool,
    pub exploded_mine: Option<(usize, usize)>,
}

/// Column of the `k`-th cell of the 3x3 block centred on column `x`
/// (the block is walked row by row; `k == 4` is the centre itself).
pub open spec fn nb_x(x: int, k: int) -> int {
    x + k % 3 - 1
}

/// Row of the `k`-th cell of the 3x3 block centred on row `y`.
pub open spec fn nb_y(y: int, k: int) -> int {
    y + k / 3 - 1
}

/// How many of the first `k` cells of the 3x3 block around `(x, y)`, the
/// centre left out, lie inside a `w` by `h` grid and satisfy `p` (which
/// takes a row-major index).
pub open spec fn count_around(w: int, h: int, x: int, y: int, k: nat, p: spec_fn(int) -> bool) -> nat
    decreases k,
{
    if k == 0 {
        0
    } else {
        let j = k - 1;
        let nx = nb_x(x, j);
        let ny = nb_y(y, j);
        count_around(w, h, x, y, (k - 1) as nat, p) + if j != 4 && 0 <= nx < w && 0 <= ny < h && p(
            ny * w + nx,
        ) {
            1nat
        } else {
            0nat
        }
    }
}

/// The number of cells of `s` that satisfy `p`.
pub open spec fn count_cells(s: Seq<Cell>, p: spec_fn(Cell) -> bool) -> nat
    decreases s.len(),
{
    if s.len() == 0 {
        0
    } else {
        count_cells(s.drop_last(), p) + if p(s.last()) {
            1nat
        } else {
            0nat
        }
    }
}

pub open spec fn is_hidden() -> spec_fn(Cell) -> bool {
    |c: Cell| c.state is Hidden
}

pub open spec fn is_flagged() -> spec_fn(Cell) -> bool {
    |c: Cell| c.state is Flagged
}

pub open spec fn is_mine() -> spec_fn(Cell) -> bool {
    |c: Cell| c.content is Mine
}

/// `s` with its `k`-th element taken out and the last element moved into its place.
pub open spec fn swap_take(s: Seq<usize>, k: int) -> Seq<usize> {
    s.update(k, s.last()).drop_last()
}

/// The cells drawn from `cands` when each pick in turn names the position,
/// among the candidates still left, of the next cell to take.
pub open spec fn drawn(cands: Seq<usize>, picks: Seq<usize>) -> Seq<usize>
    decreases picks.len(),
{
    if picks.len() == 0 {
        seq![]
    } else {
        seq![cands[picks[0] as int]] + drawn(swap_take(cands, picks[0] as int), picks.drop_first())
    }
}

/// Each pick names a position among the candidates still left:
/// the `i`-th pick is below `n - i`.
pub open spec fn picks_fit(picks: Seq<usize>, n: nat) -> bool {
    forall|i: int| 0 <= i < picks.len() ==> picks[i] + i < n
}

impl Board {
    pub open spec fn wf(self) -> bool {
        &&& self.cells.len() == self.width * self.height
        &&& self.cells.len() <= usize::MAX
    }

    pub open spec fn in_bounds(self, x: int, y: int) -> bool {
        0 <= x < self.width && 0 <= y < self.height
    }

    pub open spec fn idx(self, x: int, y: int) -> int {
        y * self.width + x
    }

    pub open spec fn cell(self, x: int, y: int) -> Cell {
        self.cells[self.idx(x, y)]
    }

    /// Holds of the index of a cell that is a mine.
    pub open spec fn mine_pred(self) -> spec_fn(int) -> bool {
        |i: int| self.cells[i].content is Mine
    }

    /// Holds of the index of a flagged cell.
    pub open spec fn flag_pred(self) -> spec_fn(int) -> bool {
        |i: int| self.cells[i].state is Flagged
    }

    /// The number of mines among the (up to eight) cells around `(x, y)`.
    pub open spec fn adjacent_mines(self, x: int, y: int) -> nat {
        count_around(self.width as int, self.height as int, x, y, 9, self.mine_pred())
    }

    /// The number of flags among the (up to eight) cells around `(x, y)`.
    pub open spec fn adjacent_flags(self, x: int, y: int) -> nat {
        count_around(self.width as int, self.height as int, x, y, 9, self.flag_pred())
    }

    pub open spec fn hidden_count(self) -> nat {
        count_cells(self.cells, is_hidden())
    }

    pub open spec fn flagged_count(self) -> nat {
        count_cells(self.cells, is_flagged())
    }

    pub open spec fn mine_total(self) -> nat {
        count_cells(self.cells, is_mine())
    }

    /// `self` comes from `before` by play within one game: same shape, same
    /// mines and numbers, a game over stays over, no cell is hidden or flagged
    /// anew, a safe cell that is revealed or flagged stays so, a safe hidden
    /// cell can only become revealed, and only mines get won flags.
    pub open spec fn follows(self, before: Board) -> bool {
        &&& self.width == before.width
        &&& self.height == before.height
        &&& self.mine_count == before.mine_count
        &&& self.first_click == before.first_click
        &&& self.cells.len() == before.cells.len()
        &&& (self.status == GameStatus::Playing ==> before.status == GameStatus::Playing)
        &&& (before.status != GameStatus::Playing ==> self == before)
        &&& forall|i: int|
            0 <= i < self.cells.len() ==> (#[trigger] self.cells[i]).content
                == before.cells[i].content
        &&& forall|i: int|
            0 <= i < self.cells.len() && (#[trigger] self.cells[i]).state is Hidden
                ==> before.cells[i].state is Hidden
        &&& forall|i: int|
            0 <= i < self.cells.len() && !(before.cells[i].content is Mine)
                && before.cells[i].state is Revealed ==> (#[trigger] self.cells[i]).state is Revealed
        &&& forall|i: int|
            0 <= i < self.cells.len() && (#[trigger] self.cells[i]).state is Flagged
                ==> before.cells[i].state is Flagged
        &&& forall|i: int|
            0 <= i < self.cells.len() && !(before.cells[i].content is Mine)
                && before.cells[i].state is Flagged ==> (#[trigger] self.cells[i]).state is Flagged
        &&& forall|i: int|
            0 <= i < self.cells.len() && (#[trigger] self.cells[i]).state is VictoryRevealed
                ==> before.cells[i].state is VictoryRevealed || before.cells[i].content is Mine
        &&& forall|i: int|
            0 <= i < self.cells.len() && !(before.cells[i].content is Mine)
                && before.cells[i].state is Hidden && !((#[trigger] self.cells[i]).state is Hidden)
                ==> self.cells[i].state is Revealed
    }

    /// Every cell that `self` shows opened with no mine around it, and that
    /// `before` still hid, has no hidden cell left around it; unless the game
    /// is lost.
    pub open spec fn zeros_opened_since(self, before: Board) -> bool {
        self.status == GameStatus::Lost || forall|x: int, y: int|
            self.in_bounds(x, y) && (#[trigger] self.cell(x, y)) == (Cell {
                state: CellState::Revealed,
                content: CellContent::Empty(0),
            }) && before.cell(x, y).state is Hidden ==> forall|k: int|
                0 <= k < 9 && self.in_bounds(nb_x(x, k), nb_y(y, k)) ==> !((#[trigger] self.cell(
                    nb_x(x, k),
                    nb_y(y, k),
                )).state is Hidden)
    }

    /// Every flag stands on a mine.
    pub open spec fn flags_correct(self) -> bool {
        forall|i: int|
            0 <= i < self.cells.len() && (#[trigger] self.cells[i]).state is Flagged
                ==> self.cells[i].content is Mine
    }

    /// A won game shows every safe cell revealed and every mine flagged.
    pub open spec fn won_clean(self) -> bool {
        self.status == GameStatus::Won ==> forall|i: int|
            0 <= i < self.cells.len() ==> if (#[trigger] self.cells[i]).content is Mine {
                self.cells[i].state is VictoryRevealed
            } else {
                self.cells[i].state is Revealed
            }
    }

    /// A game still in play has some safe cell left to reveal.
    pub open spec fn status_consistent(self) -> bool {
        self.status == GameStatus::Playing ==> !self.all_safe_revealed()
    }

    /// Every safe cell shows the number of mines around it.
    pub open spec fn numbers_right(self) -> bool {
        forall|x: int, y: int|
            self.in_bounds(x, y) && !((#[trigger] self.cell(x, y)).content is Mine) ==> self.cell(x, y).content
                == CellContent::Empty(self.adjacent_mines(x, y) as u8)
    }

    /// The board with the state of cell `i` replaced.
    pub open spec fn with_state(self, i: int, s: CellState) -> Board {
        Board { cells: self.cells.update(i, Cell { state: s, content: self.cells[i].content }), ..self }
    }

    /// Every cell that is not a mine is revealed.
    pub open spec fn all_safe_revealed(self) -> bool {
        forall|i: int| 0 <= i < self.cells.len() && !(#[trigger] self.cells[i].content is Mine) ==> self.cells[i].state is Revealed
    }

    /// A game that has just been lost on the mine at `(x, y)`: every mine is shown.
    pub open spec fn lost_at(self, x: usize, y: usize) -> Board {
        Board {
            cells: Seq::new(
                self.cells.len(),
                |i: int|
                    if self.cells[i].content is Mine {
                        Cell { state: CellState::Revealed, content: self.cells[i].content }
                    } else {
                        self.cells[i]
                    },
            ),
            status: GameStatus::Lost,
            exploded_mine: Some((x, y)),
            ..self
        }
    }

    /// The win check: a game in play whose safe cells are all revealed is won,
    /// and its mines are then shown flagged.
    pub open spec fn win_checked(self) -> Board {
        if self.status == GameStatus::Playing && self.all_safe_revealed() {
            Board {
                cells: Seq::new(
                    self.cells.len(),
                    |i: int|
                        if self.cells[i].content is Mine {
                            Cell { state: CellState::VictoryRevealed, content: self.cells[i].content }
                        } else {
                            self.cells[i]
                        },
                ),
                status: GameStatus::Won,
                ..self
            }
        } else {
            self
        }
    }

    /// Opening cell `(x, y)`; `fuel` bounds the depth of the cascade
    /// (see `reveal_depth`, which is always enough).
    ///
    /// - A game that is not in play does not change.
    /// - A revealed number whose flagged neighbours are as many as its number
    ///   opens each of its hidden neighbours in turn (chording).
    /// - A hidden mine loses the game.
    /// - A hidden safe cell is revealed; if no mine touches it, each cell of
    ///   its 3x3 block still hidden is opened in turn; then the win is checked.
    /// - Anything else does not change.
    pub open spec fn uncover(self, x: int, y: int, fuel: nat) -> Board
        decreases fuel, 0nat,
    {
        if fuel == 0 || self.status != GameStatus::Playing || !self.in_bounds(x, y) {
            self
        } else {
            let c = self.cell(x, y);
            match c.state {
                CellState::Revealed => match c.content {
                    CellContent::Empty(n) => if n > 0 && self.adjacent_flags(x, y) == n {
                        self.chord(x, y, 0, (fuel - 1) as nat)
                    } else {
                        self
                    },
                    CellContent::Mine => self,
                },
                CellState::Hidden => match c.content {
                    CellContent::Mine => self.lost_at(x as usize, y as usize),
                    CellContent::Empty(n) => {
                        let b1 = self.with_state(self.idx(x, y), CellState::Revealed);
                        let b2 = if n == 0 {
                            b1.flood(x, y, 0, (fuel - 1) as nat)
                        } else {
                            b1
                        };
                        b2.win_checked()
                    },
                },
                _ => self,
            }
        }
    }

    /// Opening, from the `k`-th on, the hidden cells around `(x, y)`.
    pub open spec fn chord(self, x: int, y: int, k: nat, fuel: nat) -> Board
        decreases fuel, 10 - k,
    {
        if k >= 9 {
            self
        } else {
            let nx = nb_x(x, k as int);
            let ny = nb_y(y, k as int);
            let next = if k != 4 && self.in_bounds(nx, ny) && self.cell(nx, ny).state is Hidden {
                self.uncover(nx, ny, fuel)
            } else {
                self
            };
            next.chord(x, y, k + 1, fuel)
        }
    }

    /// Opening, from the `k`-th on, the cells of the 3x3 block around `(x, y)`
    /// that are still hidden when their turn comes.
    pub open spec fn flood(self, x: int, y: int, k: nat, fuel: nat) -> Board
        decreases fuel, 10 - k,
    {
        if k >= 9 {
            self
        } else {
            let nx = nb_x(x, k as int);
            let ny = nb_y(y, k as int);
            let next = if self.in_bounds(nx, ny) && self.cell(nx, ny).state is Hidden {
                self.uncover(nx, ny, fuel)
            } else {
                self
            };
            next.flood(x, y, k + 1, fuel)
        }
    }

    /// A depth of cascade that opening `(x, y)` never exceeds: each nested
    /// opening either reveals a hidden cell or is a chord on a revealed one.
    pub open spec fn reveal_depth(self, x: int, y: int) -> nat {
        2 * self.hidden_count() + if self.in_bounds(x, y) && self.cell(x, y).state is Hidden {
            1nat
        } else {
            2nat
        }
    }

    /// The effect of opening `(x, y)` on this board, mines already laid.
    pub open spec fn opened(self, x: int, y: int) -> Board {
        self.uncover(x, y, self.reveal_depth(x, y))
    }

    /// The candidates for a mine: the cells, in row-major order, that are
    /// neither a mine already nor the cell at index `safe`, among the first `n`.
    pub open spec fn free_cells(self, safe: int, n: nat) -> Seq<usize>
        decreases n,
    {
        if n == 0 {
            seq![]
        } else {
            let i = n - 1;
            let prev = self.free_cells(safe, (n - 1) as nat);
            if i != safe && !(self.cells[i].content is Mine) {
                prev.push(i as usize)
            } else {
                prev
            }
        }
    }

    pub proof fn lemma_free_cells_below(self, safe: int, n: nat, j: int)
        requires
            0 <= j < self.free_cells(safe, n).len(),
        ensures
            self.free_cells(safe, n)[j] < n,
        decreases n,
    {
        if n > 0 {
            let prev = self.free_cells(safe, (n - 1) as nat);
            if j < prev.len() {
                self.lemma_free_cells_below(safe, (n - 1) as nat, j);
            }
        }
    }

    /// The candidates for a mine when `(sx, sy)` is the cell to keep safe.
    pub open spec fn free_list(self, sx: int, sy: int) -> Seq<usize> {
        self.free_cells(self.idx(sx, sy), self.cells.len())
    }

    /// The cells that are mines once the picks have been drawn.
    pub open spec fn mined(self, sx: int, sy: int, picks: Seq<usize>) -> spec_fn(int) -> bool {
        |i: int|
            self.cells[i].content is Mine || drawn(self.free_list(sx, sy), picks).contains(
                i as usize,
            )
    }

    /// The board with the drawn mines laid and every other cell numbered with
    /// the mines around it; states do not change.
    pub open spec fn with_mines(self, sx: int, sy: int, picks: Seq<usize>) -> Board {
        let m = self.mined(sx, sy, picks);
        let w = self.width as int;
        let h = self.height as int;
        Board {
            cells: Seq::new(
                self.cells.len(),
                |i: int|
                    Cell {
                        state: self.cells[i].state,
                        content: if m(i) {
                            CellContent::Mine
                        } else {
                            CellContent::Empty(count_around(w, h, i % w, i / w, 9, m) as u8)
                        },
                    },
            ),
            ..self
        }
    }

    /// Picks that the first click on `(x, y)` can draw.
    pub open spec fn valid_picks(self, x: int, y: int, picks: Seq<usize>) -> bool {
        &&& picks.len() == self.mine_count
        &&& picks_fit(picks, self.free_list(x, y).len())
    }

    /// A click on `(x, y)`, with `picks` the random draws of the first click.
    pub open spec fn clicked(self, x: int, y: int, picks: Seq<usize>) -> Board {
        if self.status != GameStatus::Playing {
            self
        } else {
            let b = if self.first_click {
                Board { first_click: false, ..self.with_mines(x, y, picks) }
            } else {
                self
            };
            b.opened(x, y)
        }
    }

    /// Toggling the flag on `(x, y)`.
    pub open spec fn toggled(self, x: int, y: int) -> Board {
        if self.status != GameStatus::Playing {
            self
        } else {
            let i = self.idx(x, y);
            match self.cells[i].state {
                CellState::Hidden => self.with_state(i, CellState::Flagged),
                CellState::Flagged => self.with_state(i, CellState::Hidden),
                _ => self,
            }
        }
    }
}

} // verus!
