use vstd::prelude::*;
use crate::cell::{Cell, CellContent, CellState, GameStatus};
use crate::board::{Board, count_cells, drawn, is_flagged, is_mine, nb_x, nb_y};
use crate::lemmas::{lemma_count_around_agree, lemma_count_around_le, lemma_count_mono, lemma_count_update, lemma_idx_in};
use crate::layout::{lemma_drawn, lemma_free_cells, lemma_mine_total};
use crate::cascade::{
    lemma_chord_settles, lemma_flood_follows, lemma_flood_settles, lemma_follows_trans,
    lemma_open_clean, lemma_open_consistent, lemma_open_follows, lemma_reveal_follows, lemma_reveal_one,
    lemma_win_follows, lemma_numbers_follow_cascade, lemma_open_safe, lemma_uncover_hidden_safe, lemma_uncover_zeros, lemma_zeros_refl,
};

verus! {

/// Placing and then removing a flag (or the other way round) gives the board back.
pub proof fn law_toggle_twice(b: Board, x: int, y: int)
    requires
        b.wf(),
        b.in_bounds(x, y),
    ensures
        b.toggled(x, y).toggled(x, y) == b,
{
    lemma_idx_in(b.width as int, b.height as int, x, y);
    let i = b.idx(x, y);
    let t = b.toggled(x, y);
    if b.status == GameStatus::Playing {
        match b.cells[i].state {
            CellState::Hidden | CellState::Flagged => {
                assert(t.toggled(x, y).cells =~= b.cells);
            },
            _ => {},
        }
    }
}

/// The flag counter moves by one: placing a flag on a hidden cell adds one,
/// removing one takes one away, and toggling any other cell changes nothing.
pub proof fn law_toggle_flag_count(b: Board, x: int, y: int)
    requires
        b.wf(),
        b.in_bounds(x, y),
    ensures
        b.status == GameStatus::Playing && b.cell(x, y).state is Hidden ==> b.toggled(x, y).flagged_count() == b.flagged_count() + 1,
        b.status == GameStatus::Playing && b.cell(x, y).state is Flagged ==> b.toggled(x, y).flagged_count() + 1 == b.flagged_count(),
        !(b.status == GameStatus::Playing && (b.cell(x, y).state is Hidden || b.cell(x, y).state is Flagged)) ==> b.toggled(x, y) == b,
{
    lemma_idx_in(b.width as int, b.height as int, x, y);
    let i = b.idx(x, y);
    if b.status == GameStatus::Playing {
        match b.cells[i].state {
            CellState::Hidden => {
                lemma_count_update(b.cells, i, Cell { state: CellState::Flagged, content: b.cells[i].content }, is_flagged());
            },
            CellState::Flagged => {
                lemma_count_update(b.cells, i, Cell { state: CellState::Hidden, content: b.cells[i].content }, is_flagged());
            },
            _ => {},
        }
    }
}

/// The drawn cells are candidates: not a mine before, not the safe cell, inside.
proof fn lemma_drawn_from_free(b: Board, x: int, y: int, picks: Seq<usize>)
    requires
        b.wf(),
        b.in_bounds(x, y),
        b.valid_picks(x, y, picks),
    ensures
        drawn(b.free_list(x, y), picks).no_duplicates(),
        drawn(b.free_list(x, y), picks).len() == picks.len(),
        forall|e: usize| #[trigger] drawn(b.free_list(x, y), picks).contains(e) ==> e < b.cells.len() && e != b.idx(x, y) && !(b.cells[e as int].content is Mine),
{
    lemma_idx_in(b.width as int, b.height as int, x, y);
    let fl = b.free_list(x, y);
    lemma_free_cells(b, b.idx(x, y), b.cells.len());
    lemma_drawn(fl, picks);
    assert forall|e: usize| #[trigger] drawn(fl, picks).contains(e) implies e < b.cells.len() && e != b.idx(x, y) && !(b.cells[e as int].content is Mine) by {
        assert(fl.contains(e));
        let j = choose|j: int| 0 <= j < fl.len() && fl[j] == e;
        assert(fl[j] == e);
    }
}

/// Counting cells that satisfy `p` gives the same on two boards whose cells
/// agree on `p`.
proof fn lemma_count_same(s: Seq<Cell>, t: Seq<Cell>, p: spec_fn(Cell) -> bool)
    requires
        s.len() == t.len(),
        forall|i: int| 0 <= i < s.len() ==> #[trigger] p(s[i]) == p(t[i]),
    ensures
        count_cells(s, p) == count_cells(t, p),
{
    lemma_count_mono(s, t, p);
    lemma_count_mono(t, s, p);
}

/// A cell has at most eight neighbours: no number, and no count of flags
/// around a cell, exceeds eight.
pub proof fn law_numbers_at_most_eight(b: Board, x: int, y: int)
    ensures
        b.adjacent_mines(x, y) <= 8,
        b.adjacent_flags(x, y) <= 8,
{
    lemma_count_around_le(b.width as int, b.height as int, x, y, 9, b.mine_pred());
    lemma_count_around_le(b.width as int, b.height as int, x, y, 9, b.flag_pred());
}

/// The board after the mines of the first click are laid.
pub open spec fn seeded(b: Board, x: int, y: int, picks: Seq<usize>) -> Board {
    Board { first_click: false, ..b.with_mines(x, y, picks) }
}

/// First-click safety: the mines are laid around the clicked cell, so the
/// first cell clicked is never a mine, and the first click is then spent.
pub proof fn law_first_click_is_safe(b: Board, x: int, y: int, picks: Seq<usize>)
    requires
        b.wf(),
        b.in_bounds(x, y),
        b.status == GameStatus::Playing,
        b.first_click,
        !(b.cell(x, y).content is Mine),
        b.valid_picks(x, y, picks),
    ensures
        !(b.clicked(x, y, picks).cell(x, y).content is Mine),
        !b.clicked(x, y, picks).first_click,
{
    lemma_idx_in(b.width as int, b.height as int, x, y);
    lemma_drawn_from_free(b, x, y, picks);
    let s = seeded(b, x, y, picks);
    let i = b.idx(x, y);
    assert(!drawn(b.free_list(x, y), picks).contains(i as usize));
    assert(!(s.cells[i].content is Mine));
    lemma_open_follows(s, x, y, s.reveal_depth(x, y));
}

/// The first click lays exactly `mine_count` mines on a board that had none,
/// and the rest of the game never changes how many there are.
pub proof fn law_first_click_lays_mine_count(b: Board, x: int, y: int, picks: Seq<usize>)
    requires
        b.wf(),
        b.in_bounds(x, y),
        b.status == GameStatus::Playing,
        b.first_click,
        forall|i: int| 0 <= i < b.cells.len() ==> !(#[trigger] b.cells[i].content is Mine),
        b.valid_picks(x, y, picks),
    ensures
        b.with_mines(x, y, picks).mine_total() == b.mine_count,
        b.clicked(x, y, picks).mine_total() == b.mine_count,
{
    lemma_drawn_from_free(b, x, y, picks);
    let d = drawn(b.free_list(x, y), picks);
    let s = seeded(b, x, y, picks);
    assert forall|i: int| 0 <= i < s.cells.len() implies ((#[trigger] s.cells[i]).content is Mine <==> d.contains(i as usize)) by {}
    lemma_mine_total(s.cells, d);
    assert(b.with_mines(x, y, picks).cells == s.cells);
    let r = s.opened(x, y);
    lemma_open_follows(s, x, y, s.reveal_depth(x, y));
    assert forall|i: int| 0 <= i < s.cells.len() implies #[trigger] is_mine()(s.cells[i]) == is_mine()(r.cells[i]) by {
        assert(r.cells[i].content == s.cells[i].content);
    }
    lemma_count_same(s.cells, r.cells, is_mine());
}

/// After the first click every safe cell shows the number of mines around
/// it, and it keeps doing so for the rest of the game.
pub proof fn law_first_click_numbers(b: Board, x: int, y: int, picks: Seq<usize>)
    requires
        b.wf(),
        b.in_bounds(x, y),
        b.status == GameStatus::Playing,
        b.first_click,
    ensures
        seeded(b, x, y, picks).numbers_right(),
        b.clicked(x, y, picks).numbers_right(),
{
    let s = seeded(b, x, y, picks);
    let m = b.mined(x, y, picks);
    let w = b.width as int;
    let h = b.height as int;
    assert forall|i: int| 0 <= i < w * h implies #[trigger] s.mine_pred()(i) == m(i) by {}
    assert forall|cx: int, cy: int|
        s.in_bounds(cx, cy) && !((#[trigger] s.cell(cx, cy)).content is Mine) implies s.cell(cx, cy).content
            == CellContent::Empty(s.adjacent_mines(cx, cy) as u8) by {
        lemma_idx_in(w, h, cx, cy);
        let i = cy * w + cx;
        vstd::arithmetic::div_mod::lemma_fundamental_div_mod_converse_mod(i, w, cy, cx);
        vstd::arithmetic::div_mod::lemma_fundamental_div_mod_converse_div(i, w, cy, cx);
        lemma_count_around_agree(w, h, cx, cy, 9, s.mine_pred(), m);
    }
    lemma_open_follows(s, x, y, s.reveal_depth(x, y));
    lemma_numbers_follow_cascade(s.opened(x, y), s);
}

/// A click keeps the grid's shape and mine count; after a click on a game in
/// play the first click is spent.
pub proof fn lemma_clicked_shape(b: Board, x: int, y: int, picks: Seq<usize>)
    requires
        b.wf(),
    ensures
        b.clicked(x, y, picks).wf(),
        b.clicked(x, y, picks).width == b.width,
        b.clicked(x, y, picks).height == b.height,
        b.clicked(x, y, picks).mine_count == b.mine_count,
        b.status == GameStatus::Playing ==> !b.clicked(x, y, picks).first_click,
        b.status != GameStatus::Playing ==> b.clicked(x, y, picks) == b,
{
    if b.status == GameStatus::Playing {
        let s = if b.first_click {
            seeded(b, x, y, picks)
        } else {
            b
        };
        lemma_open_follows(s, x, y, s.reveal_depth(x, y));
    }
}

/// A click after the first never moves a mine or changes a number, never
/// hides a cell again, keeps a revealed safe cell revealed, and leaves a
/// game that is over as it is.
pub proof fn law_click_is_play(b: Board, x: int, y: int)
    requires
        b.wf(),
        !b.first_click,
    ensures
        b.clicked(x, y, seq![]).follows(b),
{
    lemma_open_follows(b, x, y, b.reveal_depth(x, y));
}

/// Clicking a hidden mine loses the game: that mine is marked as the one that
/// exploded, every mine is shown, and no other cell changes.
pub proof fn law_hidden_mine_loses(b: Board, x: int, y: int)
    requires
        b.wf(),
        b.in_bounds(x, y),
        b.status == GameStatus::Playing,
        !b.first_click,
        b.cell(x, y) == (Cell { state: CellState::Hidden, content: CellContent::Mine }),
    ensures
        ({
            let r = b.clicked(x, y, seq![]);
            &&& r.status == GameStatus::Lost
            &&& r.exploded_mine == Some((x as usize, y as usize))
            &&& forall|i: int| 0 <= i < b.cells.len() ==> (#[trigger] r.cells[i]) == if b.cells[i].content is Mine {
                Cell { state: CellState::Revealed, content: CellContent::Mine }
            } else {
                b.cells[i]
            }
        }),
{
}

/// Clicking a hidden safe cell reveals it.
pub proof fn law_hidden_safe_cell_is_revealed(b: Board, x: int, y: int)
    requires
        b.wf(),
        b.in_bounds(x, y),
        b.status == GameStatus::Playing,
        !b.first_click,
        b.cell(x, y).state is Hidden,
        !(b.cell(x, y).content is Mine),
    ensures
        b.clicked(x, y, seq![]).cell(x, y).state is Revealed,
{
    lemma_idx_in(b.width as int, b.height as int, x, y);
    let fuel = b.reveal_depth(x, y);
    let i = b.idx(x, y);
    let b1 = b.with_state(i, CellState::Revealed);
    let n = b.cell(x, y).content->Empty_0;
    let b2 = if n == 0 {
        b1.flood(x, y, 0, (fuel - 1) as nat)
    } else {
        b1
    };
    lemma_reveal_follows(b, i);
    if n == 0 {
        lemma_flood_follows(b1, x, y, 0, (fuel - 1) as nat);
    }
    lemma_win_follows(b2);
    lemma_follows_trans(b2.win_checked(), b2, b1);
    assert(b.clicked(x, y, seq![]) == b2.win_checked());
}

/// A won game shows every safe cell revealed and every mine flagged, and
/// clicks keep it so.
pub proof fn law_won_shows_everything(b: Board, x: int, y: int, picks: Seq<usize>)
    requires
        b.wf(),
        b.won_clean(),
    ensures
        b.clicked(x, y, picks).won_clean(),
        b.toggled(x, y).won_clean(),
{
    if b.status == GameStatus::Playing {
        let s = if b.first_click {
            seeded(b, x, y, picks)
        } else {
            b
        };
        lemma_open_clean(s, x, y, s.reveal_depth(x, y));
    }
}

/// A game still in play has a safe cell left to reveal: together with
/// `law_won_shows_everything`, the game is won exactly when every safe cell
/// is revealed. Clicks and flags keep this so.
pub proof fn law_playing_has_safe_cell_left(b: Board, x: int, y: int, picks: Seq<usize>)
    requires
        b.wf(),
        b.status_consistent(),
        b.in_bounds(x, y),
        b.status == GameStatus::Playing && b.first_click ==> {
            &&& !(b.cell(x, y).content is Mine)
            &&& !(b.cell(x, y).state is Revealed)
            &&& b.valid_picks(x, y, picks)
        },
    ensures
        b.clicked(x, y, picks).status_consistent(),
        b.toggled(x, y).status_consistent(),
{
    lemma_idx_in(b.width as int, b.height as int, x, y);
    if b.status == GameStatus::Playing {
        let i = b.idx(x, y);
        if b.first_click {
            let s = seeded(b, x, y, picks);
            lemma_drawn_from_free(b, x, y, picks);
            assert(!drawn(b.free_list(x, y), picks).contains(i as usize));
            assert(!(s.cells[i].content is Mine) && !(s.cells[i].state is Revealed));
            lemma_open_consistent(s, x, y, s.reveal_depth(x, y));
        } else {
            lemma_open_consistent(b, x, y, b.reveal_depth(x, y));
        }
        let t = b.toggled(x, y);
        if !b.all_safe_revealed() {
            let j = choose|j: int| 0 <= j < b.cells.len() && !(#[trigger] b.cells[j].content is Mine) && !(b.cells[j].state is Revealed);
            assert(!(t.cells[j].content is Mine) && !(t.cells[j].state is Revealed));
        }
    }
}

/// Opening a hidden cell with no mine around it opens its whole 3x3 block:
/// afterwards none of those cells is hidden, unless the game was lost.
pub proof fn law_empty_cell_opens_block(b: Board, x: int, y: int)
    requires
        b.wf(),
        b.won_clean(),
        b.in_bounds(x, y),
        b.status == GameStatus::Playing,
        !b.first_click,
        b.cell(x, y) == (Cell { state: CellState::Hidden, content: CellContent::Empty(0) }),
    ensures
        ({
            let r = b.clicked(x, y, seq![]);
            r.status == GameStatus::Lost || forall|k: int|
                0 <= k < 9 && b.in_bounds(nb_x(x, k), nb_y(y, k))
                    ==> !((#[trigger] r.cell(nb_x(x, k), nb_y(y, k))).state is Hidden)
        }),
{
    lemma_idx_in(b.width as int, b.height as int, x, y);
    let fuel = b.reveal_depth(x, y);
    let f1 = (fuel - 1) as nat;
    let b1 = b.with_state(b.idx(x, y), CellState::Revealed);
    let b2 = b1.flood(x, y, 0, f1);
    lemma_reveal_follows(b, b.idx(x, y));
    lemma_reveal_one(b, b.idx(x, y));
    lemma_flood_settles(b1, x, y, 0, f1);
    lemma_flood_follows(b1, x, y, 0, f1);
    lemma_win_follows(b2);
    let r = b2.win_checked();
    assert(b.clicked(x, y, seq![]) == r);
    if r.status != GameStatus::Lost {
        assert forall|k: int| 0 <= k < 9 && b.in_bounds(nb_x(x, k), nb_y(y, k)) implies !((#[trigger] r.cell(nb_x(x, k), nb_y(y, k))).state is Hidden) by {
            assert(b1.in_bounds(nb_x(x, k), nb_y(y, k)));
            assert(!(b2.cell(nb_x(x, k), nb_y(y, k)).state is Hidden));
            lemma_idx_in(b.width as int, b.height as int, nb_x(x, k), nb_y(y, k));
        }
    }
}

/// Chording: clicking a revealed number whose flagged neighbours are as many
/// as its number opens all its neighbours: afterwards none of them is
/// hidden, unless the game was lost (a flag was misplaced).
pub proof fn law_chord_opens_neighbours(b: Board, x: int, y: int)
    requires
        b.wf(),
        b.won_clean(),
        b.in_bounds(x, y),
        b.status == GameStatus::Playing,
        !b.first_click,
        b.cell(x, y).state is Revealed,
        b.cell(x, y).content matches CellContent::Empty(n) && n > 0 && b.adjacent_flags(x, y) == n,
    ensures
        ({
            let r = b.clicked(x, y, seq![]);
            r.status == GameStatus::Lost || forall|k: int|
                0 <= k < 9 && k != 4 && b.in_bounds(nb_x(x, k), nb_y(y, k))
                    ==> !((#[trigger] r.cell(nb_x(x, k), nb_y(y, k))).state is Hidden)
        }),
{
    let fuel = b.reveal_depth(x, y);
    let f1 = (fuel - 1) as nat;
    lemma_chord_settles(b, x, y, 0, f1);
    assert(b.clicked(x, y, seq![]) == b.chord(x, y, 0, f1));
}

/// With the numbers right and every flag on a mine, a click that is not on a
/// hidden mine never loses: in particular chording on a number whose mines
/// are all flagged only opens safe cells.
pub proof fn law_correct_flags_never_lose(b: Board, x: int, y: int)
    requires
        b.wf(),
        !b.first_click,
        b.status == GameStatus::Playing,
        b.numbers_right(),
        b.flags_correct(),
        b.in_bounds(x, y),
        !(b.cell(x, y).state is Hidden && b.cell(x, y).content is Mine),
    ensures
        b.clicked(x, y, seq![]).status != GameStatus::Lost,
{
    lemma_open_safe(b, x, y, b.reveal_depth(x, y));
}

/// A click on a hidden safe cell never loses: it reveals the cell, and the
/// cascade from an empty cell only opens hidden cells around cells with no
/// mine next to them.
pub proof fn law_safe_click_never_loses(b: Board, x: int, y: int)
    requires
        b.wf(),
        !b.first_click,
        b.status == GameStatus::Playing,
        b.numbers_right(),
        b.in_bounds(x, y),
        b.cell(x, y).state is Hidden,
        !(b.cell(x, y).content is Mine),
    ensures
        b.clicked(x, y, seq![]).status != GameStatus::Lost,
        b.clicked(x, y, seq![]).cell(x, y).state is Revealed,
{
    lemma_uncover_hidden_safe(b, x, y, b.reveal_depth(x, y));
    law_hidden_safe_cell_is_revealed(b, x, y);
}

/// The first click on a hidden cell never loses.
pub proof fn law_first_click_never_loses(b: Board, x: int, y: int, picks: Seq<usize>)
    requires
        b.wf(),
        b.first_click,
        b.status == GameStatus::Playing,
        b.in_bounds(x, y),
        b.cell(x, y).state is Hidden,
        !(b.cell(x, y).content is Mine),
        b.valid_picks(x, y, picks),
    ensures
        b.clicked(x, y, picks).status != GameStatus::Lost,
{
    let s = seeded(b, x, y, picks);
    law_first_click_is_safe(b, x, y, picks);
    law_first_click_numbers(b, x, y, picks);
    lemma_idx_in(b.width as int, b.height as int, x, y);
    lemma_drawn_from_free(b, x, y, picks);
    assert(!drawn(b.free_list(x, y), picks).contains(b.idx(x, y) as usize));
    assert(!(s.cell(x, y).content is Mine));
    lemma_uncover_hidden_safe(s, x, y, s.reveal_depth(x, y));
}

/// Checking for a win a second time changes nothing.
pub proof fn law_win_check_twice(b: Board)
    ensures
        b.win_checked().win_checked() == b.win_checked(),
{
}

/// Flood fill: every cell that a click opens with no mine around it ends
/// with no hidden cell around it, unless the game is lost.
pub proof fn law_opened_zeros_open_their_block(b: Board, x: int, y: int, picks: Seq<usize>)
    requires
        b.wf(),
        b.won_clean(),
    ensures
        b.clicked(x, y, picks).zeros_opened_since(b),
{
    if b.status != GameStatus::Playing {
        lemma_zeros_refl(b);
    } else if !b.first_click {
        lemma_uncover_zeros(b, x, y, b.reveal_depth(x, y));
    } else {
        let s = seeded(b, x, y, picks);
        let r = b.clicked(x, y, picks);
        lemma_clicked_shape(b, x, y, picks);
        lemma_uncover_zeros(s, x, y, s.reveal_depth(x, y));
        if r.status != GameStatus::Lost {
            assert forall|x2: int, y2: int|
                r.in_bounds(x2, y2) && (#[trigger] r.cell(x2, y2)) == (Cell {
                    state: CellState::Revealed,
                    content: CellContent::Empty(0),
                }) && b.cell(x2, y2).state is Hidden implies forall|k: int|
                    0 <= k < 9 && r.in_bounds(nb_x(x2, k), nb_y(y2, k)) ==> !((#[trigger] r.cell(
                        nb_x(x2, k),
                        nb_y(y2, k),
                    )).state is Hidden) by {
                lemma_idx_in(b.width as int, b.height as int, x2, y2);
                assert(s.cell(x2, y2).state == b.cell(x2, y2).state);
            }
        }
    }
}

/// A revealed cell that is not a number with exactly as many flags around it
/// as its number: clicking it changes nothing. Chording happens only when the
/// flags around a number equal it (too few or too many flags: no chord).
pub open spec fn no_chord_at(b: Board, x: int, y: int) -> bool {
    &&& b.cell(x, y).state is Revealed
    &&& !(b.cell(x, y).content matches CellContent::Empty(n) && n > 0 && b.adjacent_flags(x, y) == n)
}

/// Clicking a revealed cell whose flag count differs from its number (or a
/// revealed 0, or a revealed mine) leaves the board as it is.
pub proof fn law_no_chord_unless_flags_match(b: Board, x: int, y: int, picks: Seq<usize>)
    requires
        b.wf(),
        !b.first_click,
        b.in_bounds(x, y),
        no_chord_at(b, x, y),
    ensures
        b.clicked(x, y, picks) == b,
{
    if b.status == GameStatus::Playing {
        assert(b.reveal_depth(x, y) > 0);
    }
}

/// A revealed number with more flags around it than its number does not
/// chord, even when every mine around it is flagged.
pub proof fn law_extra_flags_do_not_chord(b: Board, x: int, y: int, n: u8)
    requires
        b.wf(),
        !b.first_click,
        b.in_bounds(x, y),
        b.cell(x, y) == (Cell { state: CellState::Revealed, content: CellContent::Empty(n) }),
        b.adjacent_flags(x, y) > n,
    ensures
        b.clicked(x, y, seq![]) == b,
{
    law_no_chord_unless_flags_match(b, x, y, seq![]);
}

} // verus!
