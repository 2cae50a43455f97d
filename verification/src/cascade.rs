use vstd::prelude::*;
use crate::cell::{Cell, CellContent, CellState, GameStatus};
use crate::board::{Board, count_cells, is_hidden, nb_x, nb_y};
use crate::lemmas::{lemma_count_around_le, lemma_count_around_sub, lemma_count_mono, lemma_count_update, lemma_idx_in, lemma_idx_inj};

verus! {

/// Play never hides a cell again, so the count of hidden cells only goes down.
pub proof fn lemma_hidden_mono(after: Board, before: Board)
    requires
        after.follows(before),
    ensures
        after.hidden_count() <= before.hidden_count(),
{
    assert forall|i: int| 0 <= i < after.cells.len() && #[trigger] is_hidden()(after.cells[i]) implies is_hidden()(before.cells[i]) by {
        assert(after.cells[i].state is Hidden);
    }
    lemma_count_mono(before.cells, after.cells, is_hidden());
}

/// Revealing one hidden cell leaves one hidden cell fewer.
pub proof fn lemma_reveal_one(b: Board, i: int)
    requires
        0 <= i < b.cells.len(),
        b.cells[i].state is Hidden,
    ensures
        b.with_state(i, CellState::Revealed).hidden_count() + 1 == b.hidden_count(),
{
    let c = Cell { state: CellState::Revealed, content: b.cells[i].content };
    lemma_count_update(b.cells, i, c, is_hidden());
}

pub proof fn lemma_follows_trans(c: Board, b: Board, a: Board)
    requires
        c.follows(b),
        b.follows(a),
    ensures
        c.follows(a),
{
    assert forall|i: int| 0 <= i < c.cells.len() implies (#[trigger] c.cells[i]).content == a.cells[i].content by {
        assert(b.cells[i].content == a.cells[i].content);
    }
    assert forall|i: int| 0 <= i < c.cells.len() && (#[trigger] c.cells[i]).state is Hidden implies a.cells[i].state is Hidden by {
        assert(b.cells[i].state is Hidden);
    }
    assert forall|i: int| 0 <= i < c.cells.len() && !(a.cells[i].content is Mine) && a.cells[i].state is Revealed implies (#[trigger] c.cells[i]).state is Revealed by {
        assert(b.cells[i].state is Revealed);
    }
    assert forall|i: int| 0 <= i < c.cells.len() && (#[trigger] c.cells[i]).state is Flagged implies a.cells[i].state is Flagged by {
        assert(b.cells[i].state is Flagged);
    }
    assert forall|i: int| 0 <= i < c.cells.len() && !(a.cells[i].content is Mine) && a.cells[i].state is Flagged implies (#[trigger] c.cells[i]).state is Flagged by {
        assert(b.cells[i].state is Flagged);
    }
    assert forall|i: int| 0 <= i < c.cells.len() && (#[trigger] c.cells[i]).state is VictoryRevealed implies a.cells[i].state is VictoryRevealed || a.cells[i].content is Mine by {
        assert(b.cells[i].state is VictoryRevealed || b.cells[i].content is Mine);
    }
    assert forall|i: int| 0 <= i < c.cells.len() && !(a.cells[i].content is Mine) && a.cells[i].state is Hidden && !((#[trigger] c.cells[i]).state is Hidden) implies c.cells[i].state is Revealed by {
        if b.cells[i].state is Hidden {
        } else {
            assert(b.cells[i].state is Revealed);
        }
    }
}

pub proof fn lemma_reveal_follows(b: Board, i: int)
    requires
        b.status == GameStatus::Playing,
        0 <= i < b.cells.len(),
        b.cells[i].state is Hidden,
    ensures
        b.with_state(i, CellState::Revealed).follows(b),
{
}

pub proof fn lemma_lost_follows(b: Board, x: usize, y: usize)
    requires
        b.status == GameStatus::Playing,
    ensures
        b.lost_at(x, y).follows(b),
{
}

pub proof fn lemma_win_follows(b: Board)
    ensures
        b.win_checked().follows(b),
{
}

/// Opening a cell is play: see `Board::follows`.
pub proof fn lemma_open_follows(b: Board, x: int, y: int, fuel: nat)
    requires
        b.wf(),
    ensures
        b.uncover(x, y, fuel).follows(b),
    decreases fuel, 0nat,
{
    if fuel == 0 || b.status != GameStatus::Playing || !b.in_bounds(x, y) {
    } else {
        let c = b.cell(x, y);
        match c.state {
            CellState::Revealed => match c.content {
                CellContent::Empty(n) => if n > 0 && b.adjacent_flags(x, y) == n {
                    lemma_chord_follows(b, x, y, 0, (fuel - 1) as nat);
                } else {
                },
                CellContent::Mine => {},
            },
            CellState::Hidden => match c.content {
                CellContent::Mine => {
                    lemma_lost_follows(b, x as usize, y as usize);
                },
                CellContent::Empty(n) => {
                    let b1 = b.with_state(b.idx(x, y), CellState::Revealed);
                    let b2 = if n == 0 {
                        b1.flood(x, y, 0, (fuel - 1) as nat)
                    } else {
                        b1
                    };
                    lemma_idx_in(b.width as int, b.height as int, x, y);
                    lemma_reveal_follows(b, b.idx(x, y));
                    if n == 0 {
                        lemma_flood_follows(b1, x, y, 0, (fuel - 1) as nat);
                        lemma_follows_trans(b2, b1, b);
                    }
                    lemma_win_follows(b2);
                    lemma_follows_trans(b2.win_checked(), b2, b);
                },
            },
            _ => {},
        }
    }
}

pub proof fn lemma_chord_follows(b: Board, x: int, y: int, k: nat, fuel: nat)
    requires
        b.wf(),
    ensures
        b.chord(x, y, k, fuel).follows(b),
    decreases fuel, 10 - k,
{
    if k < 9 {
        let nx = nb_x(x, k as int);
        let ny = nb_y(y, k as int);
        let next = if k != 4 && b.in_bounds(nx, ny) && b.cell(nx, ny).state is Hidden {
            b.uncover(nx, ny, fuel)
        } else {
            b
        };
        if k != 4 && b.in_bounds(nx, ny) && b.cell(nx, ny).state is Hidden {
            lemma_open_follows(b, nx, ny, fuel);
        }
        lemma_chord_follows(next, x, y, k + 1, fuel);
        lemma_follows_trans(next.chord(x, y, k + 1, fuel), next, b);
    }
}

pub proof fn lemma_flood_follows(b: Board, x: int, y: int, k: nat, fuel: nat)
    requires
        b.wf(),
    ensures
        b.flood(x, y, k, fuel).follows(b),
    decreases fuel, 10 - k,
{
    if k < 9 {
        let nx = nb_x(x, k as int);
        let ny = nb_y(y, k as int);
        let next = if b.in_bounds(nx, ny) && b.cell(nx, ny).state is Hidden {
            b.uncover(nx, ny, fuel)
        } else {
            b
        };
        if b.in_bounds(nx, ny) && b.cell(nx, ny).state is Hidden {
            lemma_open_follows(b, nx, ny, fuel);
        }
        lemma_flood_follows(next, x, y, k + 1, fuel);
        lemma_follows_trans(next.flood(x, y, k + 1, fuel), next, b);
    }
}

/// A game that is over does not change when a cell is opened.
pub proof fn lemma_over_fixed(b: Board, x: int, y: int, k: nat, fuel: nat)
    requires
        b.status != GameStatus::Playing,
    ensures
        b.uncover(x, y, fuel) == b,
        b.chord(x, y, k, fuel) == b,
        b.flood(x, y, k, fuel) == b,
    decreases 10 - k,
{
    if k < 9 {
        lemma_over_fixed(b, x, y, k + 1, fuel);
        assert(b.uncover(nb_x(x, k as int), nb_y(y, k as int), fuel) == b);
    }
}

pub proof fn lemma_win_checked_clean(b: Board)
    requires
        b.won_clean(),
    ensures
        b.win_checked().won_clean(),
        b.win_checked().status_consistent(),
{
}

/// Opening keeps a won game showing every safe cell and every mine.
pub proof fn lemma_open_clean(b: Board, x: int, y: int, fuel: nat)
    requires
        b.wf(),
        b.won_clean(),
    ensures
        b.uncover(x, y, fuel).won_clean(),
    decreases fuel, 0nat,
{
    if fuel == 0 || b.status != GameStatus::Playing || !b.in_bounds(x, y) {
    } else {
        let c = b.cell(x, y);
        match c.state {
            CellState::Revealed => match c.content {
                CellContent::Empty(n) => if n > 0 && b.adjacent_flags(x, y) == n {
                    lemma_chord_clean(b, x, y, 0, (fuel - 1) as nat);
                } else {
                },
                CellContent::Mine => {},
            },
            CellState::Hidden => match c.content {
                CellContent::Mine => {},
                CellContent::Empty(n) => {
                    let b1 = b.with_state(b.idx(x, y), CellState::Revealed);
                    lemma_idx_in(b.width as int, b.height as int, x, y);
                    if n == 0 {
                        lemma_flood_clean(b1, x, y, 0, (fuel - 1) as nat);
                        lemma_win_checked_clean(b1.flood(x, y, 0, (fuel - 1) as nat));
                    } else {
                        lemma_win_checked_clean(b1);
                    }
                },
            },
            _ => {},
        }
    }
}

pub proof fn lemma_chord_clean(b: Board, x: int, y: int, k: nat, fuel: nat)
    requires
        b.wf(),
        b.won_clean(),
    ensures
        b.chord(x, y, k, fuel).won_clean(),
    decreases fuel, 10 - k,
{
    if k < 9 {
        let nx = nb_x(x, k as int);
        let ny = nb_y(y, k as int);
        if k != 4 && b.in_bounds(nx, ny) && b.cell(nx, ny).state is Hidden {
            lemma_open_clean(b, nx, ny, fuel);
            lemma_open_follows(b, nx, ny, fuel);
            lemma_chord_clean(b.uncover(nx, ny, fuel), x, y, k + 1, fuel);
        } else {
            lemma_chord_clean(b, x, y, k + 1, fuel);
        }
    }
}

pub proof fn lemma_flood_clean(b: Board, x: int, y: int, k: nat, fuel: nat)
    requires
        b.wf(),
        b.won_clean(),
    ensures
        b.flood(x, y, k, fuel).won_clean(),
    decreases fuel, 10 - k,
{
    if k < 9 {
        let nx = nb_x(x, k as int);
        let ny = nb_y(y, k as int);
        if b.in_bounds(nx, ny) && b.cell(nx, ny).state is Hidden {
            lemma_open_clean(b, nx, ny, fuel);
            lemma_open_follows(b, nx, ny, fuel);
            lemma_flood_clean(b.uncover(nx, ny, fuel), x, y, k + 1, fuel);
        } else {
            lemma_flood_clean(b, x, y, k + 1, fuel);
        }
    }
}

/// Opening keeps a game in play with some safe cell left to reveal.
pub proof fn lemma_open_consistent(b: Board, x: int, y: int, fuel: nat)
    requires
        b.wf(),
        b.status_consistent(),
    ensures
        b.uncover(x, y, fuel).status_consistent(),
    decreases fuel, 0nat,
{
    if fuel == 0 || b.status != GameStatus::Playing || !b.in_bounds(x, y) {
    } else {
        let c = b.cell(x, y);
        match c.state {
            CellState::Revealed => match c.content {
                CellContent::Empty(n) => if n > 0 && b.adjacent_flags(x, y) == n {
                    lemma_chord_consistent(b, x, y, 0, (fuel - 1) as nat);
                } else {
                },
                CellContent::Mine => {},
            },
            _ => {},
        }
    }
}

pub proof fn lemma_chord_consistent(b: Board, x: int, y: int, k: nat, fuel: nat)
    requires
        b.wf(),
        b.status_consistent(),
    ensures
        b.chord(x, y, k, fuel).status_consistent(),
    decreases fuel, 10 - k,
{
    if k < 9 {
        let nx = nb_x(x, k as int);
        let ny = nb_y(y, k as int);
        if k != 4 && b.in_bounds(nx, ny) && b.cell(nx, ny).state is Hidden {
            lemma_open_consistent(b, nx, ny, fuel);
            lemma_open_follows(b, nx, ny, fuel);
            lemma_chord_consistent(b.uncover(nx, ny, fuel), x, y, k + 1, fuel);
        } else {
            lemma_chord_consistent(b, x, y, k + 1, fuel);
        }
    }
}

/// Opening a hidden cell reveals it, or loses the game.
pub proof fn lemma_open_settles(b: Board, x: int, y: int, fuel: nat)
    requires
        b.wf(),
        fuel > 0,
        b.status == GameStatus::Playing,
        b.in_bounds(x, y),
        b.cell(x, y).state is Hidden,
    ensures
        b.uncover(x, y, fuel).status == GameStatus::Lost || !(b.uncover(x, y, fuel).cell(x, y).state is Hidden),
{
    lemma_idx_in(b.width as int, b.height as int, x, y);
    lemma_open_follows(b, x, y, fuel);
    if !(b.cell(x, y).content is Mine) {
        let b1 = b.with_state(b.idx(x, y), CellState::Revealed);
        let n = b.cell(x, y).content->Empty_0;
        let b2 = if n == 0 {
            b1.flood(x, y, 0, (fuel - 1) as nat)
        } else {
            b1
        };
        lemma_reveal_follows(b, b.idx(x, y));
        if n == 0 {
            lemma_flood_follows(b1, x, y, 0, (fuel - 1) as nat);
        }
        lemma_win_follows(b2);
        lemma_follows_trans(b2.win_checked(), b2, b1);
        assert(b.uncover(x, y, fuel) == b2.win_checked());
    }
}

/// In a won game no cell is hidden.
pub proof fn lemma_won_nothing_hidden(b: Board, i: int)
    requires
        b.won_clean(),
        b.status == GameStatus::Won,
        0 <= i < b.cells.len(),
    ensures
        !(b.cells[i].state is Hidden),
{
}

/// After chording from the `k`-th neighbour on, each remaining neighbour
/// of `(x, y)` is no longer hidden, unless the game is lost.
pub proof fn lemma_chord_settles(b: Board, x: int, y: int, k: nat, fuel: nat)
    requires
        b.wf(),
        b.won_clean(),
        fuel > 0,
    ensures
        ({
            let r = b.chord(x, y, k, fuel);
            r.status == GameStatus::Lost || forall|j: int|
                k <= j < 9 && j != 4 && b.in_bounds(nb_x(x, j), nb_y(y, j))
                    ==> !((#[trigger] r.cell(nb_x(x, j), nb_y(y, j))).state is Hidden)
        }),
    decreases 10 - k,
{
    if k < 9 {
        let nx = nb_x(x, k as int);
        let ny = nb_y(y, k as int);
        let next = if k != 4 && b.in_bounds(nx, ny) && b.cell(nx, ny).state is Hidden {
            b.uncover(nx, ny, fuel)
        } else {
            b
        };
        let r = b.chord(x, y, k, fuel);
        assert(r == next.chord(x, y, k + 1, fuel));
        lemma_open_follows(b, nx, ny, fuel);
        lemma_open_clean(b, nx, ny, fuel);
        lemma_chord_settles(next, x, y, k + 1, fuel);
        lemma_chord_follows(next, x, y, k + 1, fuel);
        if r.status != GameStatus::Lost {
            assert forall|j: int| k + 1 <= j < 9 && j != 4 && b.in_bounds(nb_x(x, j), nb_y(y, j)) implies !((#[trigger] r.cell(nb_x(x, j), nb_y(y, j))).state is Hidden) by {
                assert(next.in_bounds(nb_x(x, j), nb_y(y, j)));
            }
        }
        if k != 4 && b.in_bounds(nx, ny) && r.status != GameStatus::Lost {
            lemma_idx_in(b.width as int, b.height as int, nx, ny);
            if b.status == GameStatus::Playing {
                if b.cell(nx, ny).state is Hidden {
                    lemma_open_settles(b, nx, ny, fuel);
                    if next.status == GameStatus::Lost {
                        lemma_over_fixed(next, x, y, k + 1, fuel);
                    }
                }
            } else {
                lemma_over_fixed(b, x, y, k, fuel);
                if b.status == GameStatus::Won {
                    lemma_won_nothing_hidden(b, b.idx(nx, ny));
                }
            }
        }
    }
}

/// After flooding from the `k`-th cell of the block on, each remaining cell
/// of the block around `(x, y)` is no longer hidden, unless the game is lost.
pub proof fn lemma_flood_settles(b: Board, x: int, y: int, k: nat, fuel: nat)
    requires
        b.wf(),
        b.won_clean(),
        fuel > 0,
    ensures
        ({
            let r = b.flood(x, y, k, fuel);
            r.status == GameStatus::Lost || forall|j: int|
                k <= j < 9 && b.in_bounds(nb_x(x, j), nb_y(y, j))
                    ==> !((#[trigger] r.cell(nb_x(x, j), nb_y(y, j))).state is Hidden)
        }),
    decreases 10 - k,
{
    if k < 9 {
        let nx = nb_x(x, k as int);
        let ny = nb_y(y, k as int);
        let next = if b.in_bounds(nx, ny) && b.cell(nx, ny).state is Hidden {
            b.uncover(nx, ny, fuel)
        } else {
            b
        };
        let r = b.flood(x, y, k, fuel);
        assert(r == next.flood(x, y, k + 1, fuel));
        lemma_open_follows(b, nx, ny, fuel);
        lemma_open_clean(b, nx, ny, fuel);
        lemma_flood_settles(next, x, y, k + 1, fuel);
        lemma_flood_follows(next, x, y, k + 1, fuel);
        if r.status != GameStatus::Lost {
            assert forall|j: int| k + 1 <= j < 9 && b.in_bounds(nb_x(x, j), nb_y(y, j)) implies !((#[trigger] r.cell(nb_x(x, j), nb_y(y, j))).state is Hidden) by {
                assert(next.in_bounds(nb_x(x, j), nb_y(y, j)));
            }
        }
        if b.in_bounds(nx, ny) && r.status != GameStatus::Lost {
            lemma_idx_in(b.width as int, b.height as int, nx, ny);
            if b.status == GameStatus::Playing {
                if b.cell(nx, ny).state is Hidden {
                    lemma_open_settles(b, nx, ny, fuel);
                    if next.status == GameStatus::Lost {
                        lemma_over_fixed(next, x, y, k + 1, fuel);
                    }
                }
            } else {
                lemma_over_fixed(b, x, y, k, fuel);
                if b.status == GameStatus::Won {
                    lemma_won_nothing_hidden(b, b.idx(nx, ny));
                }
            }
        }
    }
}

/// With right numbers, opening a hidden safe cell never loses: the cascade
/// only opens hidden cells around cells with no mine next to them.
pub proof fn lemma_uncover_hidden_safe(b: Board, x: int, y: int, fuel: nat)
    requires
        b.wf(),
        b.numbers_right(),
        b.status != GameStatus::Lost,
        b.in_bounds(x, y),
        b.cell(x, y).state is Hidden,
        !(b.cell(x, y).content is Mine),
    ensures
        b.uncover(x, y, fuel).status != GameStatus::Lost,
    decreases fuel, 0nat,
{
    if fuel == 0 || b.status != GameStatus::Playing {
    } else {
        let w = b.width as int;
        let h = b.height as int;
        let n = b.cell(x, y).content->Empty_0;
        lemma_idx_in(w, h, x, y);
        let b1 = b.with_state(b.idx(x, y), CellState::Revealed);
        lemma_reveal_follows(b, b.idx(x, y));
        lemma_numbers_follow_cascade(b1, b);
        if n == 0 {
            lemma_count_around_le(w, h, x, y, 9, b.mine_pred());
            assert(b.adjacent_mines(x, y) == 0);
            let none = |i: int| false;
            assert forall|i: int| 0 <= i < w * h && #[trigger] none(i) implies b.mine_pred()(i) by {}
            lemma_count_around_sub(w, h, x, y, 9, none, b.mine_pred());
            assert forall|j: int| 0 <= j < 9 && #[trigger] b1.in_bounds(nb_x(x, j), nb_y(y, j)) implies !(b1.cell(nb_x(x, j), nb_y(y, j)).content is Mine) by {
                lemma_idx_in(w, h, nb_x(x, j), nb_y(y, j));
                if j != 4 {
                    if b1.cell(nb_x(x, j), nb_y(y, j)).content is Mine {
                        assert(b.mine_pred()(nb_y(y, j) * w + nb_x(x, j)));
                    }
                }
            }
            lemma_flood_safe(b1, x, y, 0, (fuel - 1) as nat);
        }
    }
}

/// With right numbers and flags only on mines, opening anything but a hidden
/// mine never loses.
pub proof fn lemma_open_safe(b: Board, x: int, y: int, fuel: nat)
    requires
        b.wf(),
        b.numbers_right(),
        b.flags_correct(),
        b.status != GameStatus::Lost,
        b.in_bounds(x, y) ==> !(b.cell(x, y).state is Hidden && b.cell(x, y).content is Mine),
    ensures
        b.uncover(x, y, fuel).status != GameStatus::Lost,
{
    if fuel == 0 || b.status != GameStatus::Playing || !b.in_bounds(x, y) {
    } else {
        let w = b.width as int;
        let h = b.height as int;
        let c = b.cell(x, y);
        lemma_idx_in(w, h, x, y);
        lemma_count_around_le(w, h, x, y, 9, b.mine_pred());
        match c.state {
            CellState::Revealed => match c.content {
                CellContent::Empty(n) => if n > 0 && b.adjacent_flags(x, y) == n {
                    assert(n == b.adjacent_mines(x, y));
                    assert forall|i: int| 0 <= i < w * h && #[trigger] b.flag_pred()(i) implies b.mine_pred()(i) by {}
                    lemma_count_around_sub(w, h, x, y, 9, b.flag_pred(), b.mine_pred());
                    assert forall|j: int| 0 <= j < 9 && j != 4 && #[trigger] b.in_bounds(nb_x(x, j), nb_y(y, j)) && b.cell(nb_x(x, j), nb_y(y, j)).content is Mine implies !(b.cell(nb_x(x, j), nb_y(y, j)).state is Hidden) by {
                        assert(b.mine_pred()(nb_y(y, j) * w + nb_x(x, j)));
                    }
                    lemma_chord_safe(b, x, y, 0, (fuel - 1) as nat);
                } else {
                },
                CellContent::Mine => {},
            },
            CellState::Hidden => {
                lemma_uncover_hidden_safe(b, x, y, fuel);
            },
            _ => {},
        }
    }
}

/// Chording from the `k`-th neighbour on, when every mine among the
/// remaining neighbours is shown (flagged), never loses.
pub proof fn lemma_chord_safe(b: Board, x: int, y: int, k: nat, fuel: nat)
    requires
        b.wf(),
        b.numbers_right(),
        b.status != GameStatus::Lost,
        forall|j: int|
            k <= j < 9 && j != 4 && #[trigger] b.in_bounds(nb_x(x, j), nb_y(y, j)) && b.cell(nb_x(x, j), nb_y(y, j)).content is Mine
                ==> !(b.cell(nb_x(x, j), nb_y(y, j)).state is Hidden),
    ensures
        b.chord(x, y, k, fuel).status != GameStatus::Lost,
    decreases 10 - k,
{
    if k < 9 {
        let nx = nb_x(x, k as int);
        let ny = nb_y(y, k as int);
        if k != 4 && b.in_bounds(nx, ny) && b.cell(nx, ny).state is Hidden {
            let next = b.uncover(nx, ny, fuel);
            lemma_uncover_hidden_safe(b, nx, ny, fuel);
            lemma_open_follows(b, nx, ny, fuel);
            lemma_numbers_follow_cascade(next, b);
            assert forall|j: int| k + 1 <= j < 9 && j != 4 && #[trigger] next.in_bounds(nb_x(x, j), nb_y(y, j)) && next.cell(nb_x(x, j), nb_y(y, j)).content is Mine implies !(next.cell(nb_x(x, j), nb_y(y, j)).state is Hidden) by {
                lemma_idx_in(b.width as int, b.height as int, nb_x(x, j), nb_y(y, j));
                assert(b.in_bounds(nb_x(x, j), nb_y(y, j)));
            }
            lemma_chord_safe(next, x, y, k + 1, fuel);
        } else {
            assert forall|j: int| k + 1 <= j < 9 && j != 4 && #[trigger] b.in_bounds(nb_x(x, j), nb_y(y, j)) && b.cell(nb_x(x, j), nb_y(y, j)).content is Mine implies !(b.cell(nb_x(x, j), nb_y(y, j)).state is Hidden) by {}
            lemma_chord_safe(b, x, y, k + 1, fuel);
        }
    }
}

/// Flooding the block around a cell with no mine in it never loses.
pub proof fn lemma_flood_safe(b: Board, x: int, y: int, k: nat, fuel: nat)
    requires
        b.wf(),
        b.numbers_right(),
        b.status != GameStatus::Lost,
        forall|j: int|
            k <= j < 9 && #[trigger] b.in_bounds(nb_x(x, j), nb_y(y, j))
                ==> !(b.cell(nb_x(x, j), nb_y(y, j)).content is Mine),
    ensures
        b.flood(x, y, k, fuel).status != GameStatus::Lost,
    decreases fuel, 10 - k,
{
    if k < 9 {
        let nx = nb_x(x, k as int);
        let ny = nb_y(y, k as int);
        if b.in_bounds(nx, ny) && b.cell(nx, ny).state is Hidden {
            let next = b.uncover(nx, ny, fuel);
            lemma_uncover_hidden_safe(b, nx, ny, fuel);
            lemma_open_follows(b, nx, ny, fuel);
            lemma_numbers_follow_cascade(next, b);
            assert forall|j: int| k + 1 <= j < 9 && #[trigger] next.in_bounds(nb_x(x, j), nb_y(y, j)) implies !(next.cell(nb_x(x, j), nb_y(y, j)).content is Mine) by {
                lemma_idx_in(b.width as int, b.height as int, nb_x(x, j), nb_y(y, j));
                assert(b.in_bounds(nb_x(x, j), nb_y(y, j)));
            }
            lemma_flood_safe(next, x, y, k + 1, fuel);
        } else {
            assert forall|j: int| k + 1 <= j < 9 && #[trigger] b.in_bounds(nb_x(x, j), nb_y(y, j)) implies !(b.cell(nb_x(x, j), nb_y(y, j)).content is Mine) by {}
            lemma_flood_safe(b, x, y, k + 1, fuel);
        }
    }
}

/// Play keeps the numbers right (see `Board::numbers_right`).
pub proof fn lemma_numbers_follow_cascade(after: Board, before: Board)
    requires
        before.wf(),
        after.follows(before),
        before.numbers_right(),
    ensures
        after.numbers_right(),
{
    let w = before.width as int;
    let h = before.height as int;
    assert forall|i: int| 0 <= i < w * h implies #[trigger] after.mine_pred()(i) == before.mine_pred()(i) by {
        assert(after.cells[i].content == before.cells[i].content);
    }
    assert forall|x: int, y: int|
        after.in_bounds(x, y) && !((#[trigger] after.cell(x, y)).content is Mine) implies after.cell(x, y).content
            == CellContent::Empty(after.adjacent_mines(x, y) as u8) by {
        lemma_idx_in(w, h, x, y);
        assert(after.cell(x, y).content == before.cell(x, y).content);
        crate::lemmas::lemma_count_around_agree(w, h, x, y, 9, after.mine_pred(), before.mine_pred());
    }
}

pub proof fn lemma_zeros_refl(b: Board)
    ensures
        b.zeros_opened_since(b),
{
}

pub proof fn lemma_zeros_trans(c: Board, b: Board, a: Board)
    requires
        a.wf(),
        b.follows(a),
        c.follows(b),
        c.zeros_opened_since(b),
        b.zeros_opened_since(a),
    ensures
        c.zeros_opened_since(a),
{
    if c.status != GameStatus::Lost {
        assert(b.status != GameStatus::Lost);
        assert forall|x: int, y: int|
            c.in_bounds(x, y) && (#[trigger] c.cell(x, y)) == (Cell {
                state: CellState::Revealed,
                content: CellContent::Empty(0),
            }) && a.cell(x, y).state is Hidden implies forall|k: int|
                0 <= k < 9 && c.in_bounds(nb_x(x, k), nb_y(y, k)) ==> !((#[trigger] c.cell(
                    nb_x(x, k),
                    nb_y(y, k),
                )).state is Hidden) by {
            lemma_idx_in(a.width as int, a.height as int, x, y);
            let i = a.idx(x, y);
            if !(b.cell(x, y).state is Hidden) {
                assert(b.cells[i].content == c.cells[i].content);
                assert(b.cell(x, y).state is Revealed);
                assert forall|k: int| 0 <= k < 9 && c.in_bounds(nb_x(x, k), nb_y(y, k)) implies !((#[trigger] c.cell(nb_x(x, k), nb_y(y, k))).state is Hidden) by {
                    lemma_idx_in(a.width as int, a.height as int, nb_x(x, k), nb_y(y, k));
                    assert(!(b.cell(nb_x(x, k), nb_y(y, k)).state is Hidden));
                }
            }
        }
    }
}

/// Opening a cell leaves every cell it opens with no mine around it with
/// nothing hidden around it, unless the game is lost.
pub proof fn lemma_uncover_zeros(b: Board, x: int, y: int, fuel: nat)
    requires
        b.wf(),
        b.won_clean(),
        fuel >= b.reveal_depth(x, y),
    ensures
        b.uncover(x, y, fuel).zeros_opened_since(b),
    decreases fuel, 0nat,
{
    if fuel == 0 || b.status != GameStatus::Playing || !b.in_bounds(x, y) {
    } else {
        let c = b.cell(x, y);
        match c.state {
            CellState::Revealed => match c.content {
                CellContent::Empty(n) => if n > 0 && b.adjacent_flags(x, y) == n {
                    lemma_chord_zeros(b, x, y, 0, (fuel - 1) as nat);
                } else {
                },
                CellContent::Mine => {},
            },
            CellState::Hidden => match c.content {
                CellContent::Mine => {},
                CellContent::Empty(n) => {
                    let w = b.width as int;
                    let h = b.height as int;
                    lemma_idx_in(w, h, x, y);
                    let i = b.idx(x, y);
                    let f1 = (fuel - 1) as nat;
                    let b1 = b.with_state(i, CellState::Revealed);
                    lemma_reveal_follows(b, i);
                    lemma_reveal_one(b, i);
                    let b2 = if n == 0 {
                        b1.flood(x, y, 0, f1)
                    } else {
                        b1
                    };
                    if n == 0 {
                        lemma_flood_zeros(b1, x, y, 0, f1);
                        lemma_flood_follows(b1, x, y, 0, f1);
                        lemma_flood_settles(b1, x, y, 0, f1);
                    } else {
                        lemma_zeros_refl(b1);
                    }
                    let r = b2.win_checked();
                    lemma_win_follows(b2);
                    lemma_follows_trans(b2, b1, b);
                    if r.status != GameStatus::Lost {
                        assert(b2.status != GameStatus::Lost);
                        assert forall|x2: int, y2: int|
                            r.in_bounds(x2, y2) && (#[trigger] r.cell(x2, y2)) == (Cell {
                                state: CellState::Revealed,
                                content: CellContent::Empty(0),
                            }) && b.cell(x2, y2).state is Hidden implies forall|k: int|
                                0 <= k < 9 && r.in_bounds(nb_x(x2, k), nb_y(y2, k)) ==> !((#[trigger] r.cell(
                                    nb_x(x2, k),
                                    nb_y(y2, k),
                                )).state is Hidden) by {
                            lemma_idx_in(w, h, x2, y2);
                            let i2 = b.idx(x2, y2);
                            assert(r.cells[i2] == b2.cells[i2]);
                            if i2 == i {
                                lemma_idx_inj(w, h, x, y, x2, y2);
                                assert forall|k: int| 0 <= k < 9 && r.in_bounds(nb_x(x2, k), nb_y(y2, k)) implies !((#[trigger] r.cell(nb_x(x2, k), nb_y(y2, k))).state is Hidden) by {
                                    lemma_idx_in(w, h, nb_x(x2, k), nb_y(y2, k));
                                    assert(b1.in_bounds(nb_x(x, k), nb_y(y, k)));
                                    assert(!(b2.cell(nb_x(x, k), nb_y(y, k)).state is Hidden));
                                }
                            } else {
                                assert(b1.cell(x2, y2).state is Hidden);
                                assert(b2.cell(x2, y2) == r.cell(x2, y2));
                                assert forall|k: int| 0 <= k < 9 && r.in_bounds(nb_x(x2, k), nb_y(y2, k)) implies !((#[trigger] r.cell(nb_x(x2, k), nb_y(y2, k))).state is Hidden) by {
                                    lemma_idx_in(w, h, nb_x(x2, k), nb_y(y2, k));
                                    assert(!(b2.cell(nb_x(x2, k), nb_y(y2, k)).state is Hidden));
                                }
                            }
                        }
                    }
                },
            },
            _ => {},
        }
    }
}

pub proof fn lemma_chord_zeros(b: Board, x: int, y: int, k: nat, fuel: nat)
    requires
        b.wf(),
        b.won_clean(),
        fuel >= 2 * b.hidden_count() + 1,
    ensures
        b.chord(x, y, k, fuel).zeros_opened_since(b),
    decreases fuel, 10 - k,
{
    if k >= 9 {
        lemma_zeros_refl(b);
    } else {
        let nx = nb_x(x, k as int);
        let ny = nb_y(y, k as int);
        if k != 4 && b.in_bounds(nx, ny) && b.cell(nx, ny).state is Hidden {
            let next = b.uncover(nx, ny, fuel);
            lemma_uncover_zeros(b, nx, ny, fuel);
            lemma_open_follows(b, nx, ny, fuel);
            lemma_open_clean(b, nx, ny, fuel);
            lemma_hidden_mono(next, b);
            lemma_chord_zeros(next, x, y, k + 1, fuel);
            lemma_chord_follows(next, x, y, k + 1, fuel);
            lemma_zeros_trans(next.chord(x, y, k + 1, fuel), next, b);
        } else {
            lemma_chord_zeros(b, x, y, k + 1, fuel);
        }
    }
}

pub proof fn lemma_flood_zeros(b: Board, x: int, y: int, k: nat, fuel: nat)
    requires
        b.wf(),
        b.won_clean(),
        fuel >= 2 * b.hidden_count() + 1,
    ensures
        b.flood(x, y, k, fuel).zeros_opened_since(b),
    decreases fuel, 10 - k,
{
    if k >= 9 {
        lemma_zeros_refl(b);
    } else {
        let nx = nb_x(x, k as int);
        let ny = nb_y(y, k as int);
        if b.in_bounds(nx, ny) && b.cell(nx, ny).state is Hidden {
            let next = b.uncover(nx, ny, fuel);
            lemma_uncover_zeros(b, nx, ny, fuel);
            lemma_open_follows(b, nx, ny, fuel);
            lemma_open_clean(b, nx, ny, fuel);
            lemma_hidden_mono(next, b);
            lemma_flood_zeros(next, x, y, k + 1, fuel);
            lemma_flood_follows(next, x, y, k + 1, fuel);
            lemma_zeros_trans(next.flood(x, y, k + 1, fuel), next, b);
        } else {
            lemma_flood_zeros(b, x, y, k + 1, fuel);
        }
    }
}

} // verus!
