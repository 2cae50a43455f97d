use mario_minesweeper::cell::{Cell, CellContent, CellState, GameStatus};
use mario_minesweeper::grid::Grid;

fn hidden_empty() -> Cell {
    Cell { state: CellState::Hidden, content: CellContent::Empty(0) }
}

/// A fresh grid with its mines laid from `picks` around `(sx, sy)`, the
/// first click already spent.
fn laid(w: usize, h: usize, sx: usize, sy: usize, picks: Vec<usize>) -> Grid {
    let mut g = Grid::new(w, h, picks.len());
    g.lay_mines(sx, sy, &picks);
    g.first_click = false;
    g
}

fn state(g: &Grid, x: usize, y: usize) -> CellState {
    g.get_cell(x, y).state
}

fn content(g: &Grid, x: usize, y: usize) -> CellContent {
    g.get_cell(x, y).content
}

fn mine_total(g: &Grid) -> usize {
    g.cells.iter().filter(|c| c.content == CellContent::Mine).count()
}

/// The number of mines around `(x, y)`, counted directly.
fn mines_around(g: &Grid, x: usize, y: usize) -> u8 {
    let mut n = 0;
    for dy in -1i64..=1 {
        for dx in -1i64..=1 {
            if dx == 0 && dy == 0 {
                continue;
            }
            let nx = x as i64 + dx;
            let ny = y as i64 + dy;
            if nx >= 0 && ny >= 0 && (nx as usize) < g.width && (ny as usize) < g.height {
                if g.get_cell(nx as usize, ny as usize).content == CellContent::Mine {
                    n += 1;
                }
            }
        }
    }
    n
}

fn numbers_right(g: &Grid) -> bool {
    for y in 0..g.height {
        for x in 0..g.width {
            if let CellContent::Empty(n) = content(g, x, y) {
                if n != mines_around(g, x, y) {
                    return false;
                }
            }
        }
    }
    true
}

#[test]
fn new_grid_is_hidden_and_empty() {
    let g = Grid::new(9, 9, 10);
    assert_eq!(g.width, 9);
    assert_eq!(g.height, 9);
    assert_eq!(g.mine_count, 10);
    assert_eq!(g.cells.len(), 81);
    assert!(g.cells.iter().all(|c| *c == hidden_empty()));
    assert_eq!(g.status, GameStatus::Playing);
    assert!(g.first_click);
    assert_eq!(g.exploded_mine, None);
    assert_eq!(g.flagged_count(), 0);
}

#[test]
fn get_cell_is_row_major() {
    let mut g = Grid::new(4, 3, 0);
    g.get_cell_mut(3, 1).state = CellState::Flagged;
    assert_eq!(g.cells[1 * 4 + 3].state, CellState::Flagged);
    assert_eq!(state(&g, 3, 1), CellState::Flagged);
    assert_eq!(state(&g, 1, 3 - 2), CellState::Hidden);
    // an index past the end of a row runs on into the next row
    assert_eq!(state(&g, 4 + 3, 0), CellState::Flagged);
}

#[test]
fn toggle_flag_places_and_removes() {
    let mut g = Grid::new(3, 3, 1);
    g.toggle_flag(1, 2);
    assert_eq!(state(&g, 1, 2), CellState::Flagged);
    assert_eq!(g.flagged_count(), 1);
    g.toggle_flag(0, 0);
    assert_eq!(g.flagged_count(), 2);
    g.toggle_flag(1, 2);
    assert_eq!(state(&g, 1, 2), CellState::Hidden);
    assert_eq!(g.flagged_count(), 1);
}

#[test]
fn toggle_flag_leaves_revealed_cells() {
    let mut g = Grid::new(3, 3, 0);
    g.get_cell_mut(1, 1).state = CellState::Revealed;
    g.toggle_flag(1, 1);
    assert_eq!(state(&g, 1, 1), CellState::Revealed);
    assert_eq!(g.flagged_count(), 0);
}

#[test]
fn toggle_flag_ignored_when_game_over() {
    let mut g = Grid::new(3, 3, 0);
    g.status = GameStatus::Lost;
    g.toggle_flag(1, 1);
    assert_eq!(state(&g, 1, 1), CellState::Hidden);
    // out of bounds is fine once the game is over
    g.toggle_flag(10, 10);
    assert_eq!(g.flagged_count(), 0);
}

#[test]
fn free_cells_skip_safe_cell_and_mines() {
    let mut g = Grid::new(3, 3, 0);
    assert_eq!(g.free_cells(1, 1), vec![0, 1, 2, 3, 5, 6, 7, 8]);
    g.get_cell_mut(2, 0).content = CellContent::Mine;
    assert_eq!(g.free_cells(0, 0), vec![1, 3, 4, 5, 6, 7, 8]);
}

#[test]
fn lay_mines_draws_from_candidates_and_numbers() {
    // candidates around (0, 0): [1..=8]; pick 7 takes index 8, i.e. (2, 2)
    let g = laid(3, 3, 0, 0, vec![7]);
    assert_eq!(content(&g, 2, 2), CellContent::Mine);
    assert_eq!(mine_total(&g), 1);
    assert_eq!(content(&g, 1, 1), CellContent::Empty(1));
    assert_eq!(content(&g, 2, 1), CellContent::Empty(1));
    assert_eq!(content(&g, 1, 2), CellContent::Empty(1));
    assert_eq!(content(&g, 0, 0), CellContent::Empty(0));
    assert_eq!(content(&g, 2, 0), CellContent::Empty(0));
    assert!(g.cells.iter().all(|c| c.state == CellState::Hidden));
}

#[test]
fn lay_mines_swaps_the_last_candidate_in() {
    // candidates around (0, 0) in a 5x1 row: [1, 2, 3, 4]; pick 1 takes 2,
    // leaving [1, 4, 3]; pick 1 then takes 4
    let g = laid(5, 1, 0, 0, vec![1, 1]);
    let contents: Vec<CellContent> = g.cells.iter().map(|c| c.content).collect();
    assert_eq!(
        contents,
        vec![
            CellContent::Empty(0),
            CellContent::Empty(1),
            CellContent::Mine,
            CellContent::Empty(2),
            CellContent::Mine
        ]
    );
}

#[test]
fn count_neighbors() {
    let mut g = laid(3, 3, 0, 0, vec![3]); // candidates [1..=8]; index 3 is cell 4, the centre
    assert_eq!(content(&g, 1, 1), CellContent::Mine);
    for (x, y) in [(0, 0), (1, 0), (2, 0), (0, 1), (2, 1), (0, 2), (1, 2), (2, 2)] {
        assert_eq!(g.count_neighbor_mines(x, y), 1);
        assert_eq!(content(&g, x, y), CellContent::Empty(1));
    }
    assert_eq!(g.count_neighbor_mines(1, 1), 0);
    g.toggle_flag(0, 0);
    g.toggle_flag(2, 2);
    assert_eq!(g.count_neighbor_flags(1, 1), 2);
    assert_eq!(g.count_neighbor_flags(1, 0), 1);
    assert_eq!(g.count_neighbor_flags(0, 2), 0);
}

#[test]
fn first_click_on_zero_cell_floods_and_wins() {
    let mut g = Grid::new(3, 3, 1);
    g.reveal_with_picks(0, 0, &vec![7]);
    assert!(!g.first_click);
    assert_eq!(content(&g, 2, 2), CellContent::Mine);
    assert_eq!(g.status, GameStatus::Won);
    for i in 0..8 {
        assert_eq!(g.cells[i].state, CellState::Revealed);
    }
    assert_eq!(state(&g, 2, 2), CellState::VictoryRevealed);
}

#[test]
fn numbered_cell_reveals_only_itself() {
    let mut g = Grid::new(3, 3, 1);
    g.reveal_with_picks(0, 0, &vec![3]);
    assert_eq!(state(&g, 0, 0), CellState::Revealed);
    assert_eq!(g.cells.iter().filter(|c| c.state == CellState::Revealed).count(), 1);
    assert_eq!(g.status, GameStatus::Playing);
}

#[test]
fn clicking_a_mine_loses_and_shows_mines() {
    let mut g = laid(5, 1, 0, 0, vec![1, 1]); // mines at 2 and 4
    g.reveal_with_picks(0, 0, &vec![]);
    assert_eq!(state(&g, 0, 0), CellState::Revealed);
    assert_eq!(state(&g, 1, 0), CellState::Revealed);
    assert_eq!(state(&g, 3, 0), CellState::Hidden);
    assert_eq!(g.status, GameStatus::Playing);
    g.reveal_with_picks(4, 0, &vec![]);
    assert_eq!(g.status, GameStatus::Lost);
    assert_eq!(g.exploded_mine, Some((4, 0)));
    assert_eq!(state(&g, 2, 0), CellState::Revealed);
    assert_eq!(state(&g, 4, 0), CellState::Revealed);
    assert_eq!(state(&g, 3, 0), CellState::Hidden);
}

#[test]
fn clicks_after_game_over_change_nothing() {
    let mut g = laid(5, 1, 0, 0, vec![1, 1]);
    g.reveal_with_picks(2, 0, &vec![]);
    assert_eq!(g.status, GameStatus::Lost);
    let before = g.cells.clone();
    g.reveal_cell(3, 0);
    g.reveal_cell(100, 100);
    assert_eq!(g.cells, before);
    assert_eq!(g.status, GameStatus::Lost);
}

#[test]
fn flagged_cell_is_not_revealed() {
    let mut g = laid(3, 3, 0, 0, vec![3]);
    g.toggle_flag(0, 0);
    g.reveal_with_picks(0, 0, &vec![]);
    assert_eq!(state(&g, 0, 0), CellState::Flagged);
    g.toggle_flag(1, 1);
    g.reveal_with_picks(1, 1, &vec![]);
    assert_eq!(state(&g, 1, 1), CellState::Flagged);
    assert_eq!(g.status, GameStatus::Playing);
}

#[test]
fn chord_opens_hidden_neighbours_when_flags_match() {
    let mut g = laid(3, 3, 0, 0, vec![3]); // mine in the centre
    g.reveal_with_picks(0, 0, &vec![]);
    g.toggle_flag(1, 1);
    g.reveal_with_picks(0, 0, &vec![]);
    assert_eq!(state(&g, 1, 0), CellState::Revealed);
    assert_eq!(state(&g, 0, 1), CellState::Revealed);
    assert_eq!(state(&g, 1, 1), CellState::Flagged);
    assert_eq!(state(&g, 2, 2), CellState::Hidden);
    assert_eq!(g.status, GameStatus::Playing);
}

#[test]
fn chord_needs_matching_flags() {
    let mut g = laid(3, 3, 0, 0, vec![3]);
    g.reveal_with_picks(0, 0, &vec![]);
    g.reveal_with_picks(0, 0, &vec![]);
    assert_eq!(g.cells.iter().filter(|c| c.state == CellState::Revealed).count(), 1);
}

#[test]
fn chord_with_a_wrong_flag_loses() {
    let mut g = laid(3, 3, 0, 0, vec![3]);
    g.reveal_with_picks(0, 0, &vec![]);
    g.toggle_flag(1, 0);
    g.reveal_with_picks(0, 0, &vec![]);
    assert_eq!(g.status, GameStatus::Lost);
    assert_eq!(g.exploded_mine, Some((1, 1)));
    assert_eq!(state(&g, 0, 1), CellState::Revealed);
    assert_eq!(state(&g, 1, 1), CellState::Revealed);
    assert_eq!(state(&g, 1, 0), CellState::Flagged);
}

#[test]
fn revealing_every_safe_cell_wins() {
    let mut g = laid(3, 3, 0, 0, vec![3]);
    for (x, y) in [(0, 0), (1, 0), (2, 0), (0, 1), (2, 1), (0, 2), (1, 2)] {
        g.reveal_with_picks(x, y, &vec![]);
        assert_eq!(g.status, GameStatus::Playing);
    }
    g.reveal_with_picks(2, 2, &vec![]);
    assert_eq!(g.status, GameStatus::Won);
    assert_eq!(state(&g, 1, 1), CellState::VictoryRevealed);
    assert_eq!(g.exploded_mine, None);
}

#[test]
fn flagged_mine_shown_on_win() {
    let mut g = laid(3, 3, 0, 0, vec![3]);
    g.toggle_flag(1, 1);
    for (x, y) in [(0, 0), (1, 0), (2, 0), (0, 1), (2, 1), (0, 2), (1, 2), (2, 2)] {
        g.reveal_with_picks(x, y, &vec![]);
    }
    assert_eq!(g.status, GameStatus::Won);
    assert_eq!(state(&g, 1, 1), CellState::VictoryRevealed);
    assert_eq!(g.flagged_count(), 0);
}

#[test]
fn empty_region_opens_up_to_numbers() {
    // a 5x5 board with one mine in the corner (4, 4)
    let mut g = Grid::new(5, 5, 1);
    // candidates around (0, 0) are 1..=24, index 23 is cell 24
    g.reveal_with_picks(0, 0, &vec![23]);
    assert_eq!(content(&g, 4, 4), CellContent::Mine);
    assert_eq!(g.status, GameStatus::Won);
    let mut g = Grid::new(5, 5, 2);
    // mines at cells 24 and 12 (the centre): 23 takes 24, then 11 takes 12
    g.reveal_with_picks(0, 0, &vec![23, 11]);
    assert_eq!(content(&g, 4, 4), CellContent::Mine);
    assert_eq!(content(&g, 2, 2), CellContent::Mine);
    assert!(numbers_right(&g));
    // no hidden cell is left around an opened zero cell
    for y in 0..5 {
        for x in 0..5 {
            if state(&g, x, y) == CellState::Revealed && content(&g, x, y) == CellContent::Empty(0) {
                assert_eq!(mines_around(&g, x, y), 0);
                for (dx, dy) in [(-1i64, -1i64), (0, -1), (1, -1), (-1, 0), (1, 0), (-1, 1), (0, 1), (1, 1)] {
                    let nx = x as i64 + dx;
                    let ny = y as i64 + dy;
                    if nx >= 0 && ny >= 0 && nx < 5 && ny < 5 {
                        assert_ne!(state(&g, nx as usize, ny as usize), CellState::Hidden);
                    }
                }
            }
        }
    }
    // every safe cell is reached through the empty region: the game is won
    assert_eq!(g.status, GameStatus::Won);
    assert_eq!(state(&g, 2, 2), CellState::VictoryRevealed);
}

#[test]
fn walled_off_cells_stay_hidden() {
    // a 5x1 row with a mine in the middle: clicking the left end opens the
    // left side only
    let mut g = Grid::new(5, 1, 1);
    g.reveal_with_picks(0, 0, &vec![1]); // candidates [1, 2, 3, 4]; index 1 is cell 2
    assert_eq!(state(&g, 0, 0), CellState::Revealed);
    assert_eq!(state(&g, 1, 0), CellState::Revealed);
    assert_eq!(state(&g, 3, 0), CellState::Hidden);
    assert_eq!(state(&g, 4, 0), CellState::Hidden);
    assert_eq!(g.status, GameStatus::Playing);
    g.reveal_with_picks(4, 0, &vec![]);
    assert_eq!(g.status, GameStatus::Won);
}

#[test]
fn random_first_click_is_safe_and_lays_all_mines() {
    for &(w, h, m) in &[(9usize, 9usize, 10usize), (16, 16, 40), (30, 16, 99), (2, 1, 1), (3, 3, 8)] {
        for &(x, y) in &[(0usize, 0usize), (w - 1, h - 1), (w / 2, h / 2)] {
            for _ in 0..5 {
                let mut g = Grid::new(w, h, m);
                g.reveal_cell(x, y);
                assert!(!g.first_click);
                assert_ne!(content(&g, x, y), CellContent::Mine);
                assert_ne!(g.status, GameStatus::Lost);
                assert_eq!(state(&g, x, y), CellState::Revealed);
                assert_eq!(mine_total(&g), m);
                assert!(numbers_right(&g));
            }
        }
    }
}

#[test]
fn full_board_first_click_wins() {
    // every cell but the clicked one is a mine
    let mut g = Grid::new(3, 3, 8);
    g.reveal_cell(1, 1);
    assert_eq!(content(&g, 1, 1), CellContent::Empty(8));
    assert_eq!(g.status, GameStatus::Won);
    assert_eq!(g.cells.iter().filter(|c| c.state == CellState::VictoryRevealed).count(), 8);
}

#[test]
fn second_click_lays_no_more_mines() {
    let mut g = Grid::new(9, 9, 10);
    g.reveal_cell(0, 0);
    let layout: Vec<CellContent> = g.cells.iter().map(|c| c.content).collect();
    for y in 0..9 {
        for x in 0..9 {
            if g.status == GameStatus::Playing && state(&g, x, y) == CellState::Hidden && content(&g, x, y) != CellContent::Mine {
                g.reveal_cell(x, y);
            }
        }
    }
    let after: Vec<CellContent> = g.cells.iter().map(|c| c.content).collect();
    assert_eq!(layout, after);
    assert_eq!(g.status, GameStatus::Won);
}

#[test]
fn safe_click_never_chords_through_the_cascade() {
    let c = |s, n| Cell { state: s, content: n };
    let mut g = Grid {
        width: 3,
        height: 2,
        cells: vec![
            c(CellState::Hidden, CellContent::Empty(0)),
            c(CellState::Revealed, CellContent::Empty(1)),
            c(CellState::Flagged, CellContent::Empty(1)),
            c(CellState::Hidden, CellContent::Empty(0)),
            c(CellState::Hidden, CellContent::Empty(1)),
            c(CellState::Hidden, CellContent::Mine),
        ],
        status: GameStatus::Playing,
        mine_count: 1,
        first_click: false,
        exploded_mine: None,
    };
    let contents: Vec<CellContent> = g.cells.iter().map(|c| c.content).collect();
    g.reveal_cell(0, 0);
    assert_eq!(g.status, GameStatus::Playing);
    let states: Vec<CellState> = g.cells.iter().map(|c| c.state).collect();
    assert_eq!(
        states,
        vec![
            CellState::Revealed,
            CellState::Revealed,
            CellState::Flagged,
            CellState::Revealed,
            CellState::Revealed,
            CellState::Hidden
        ]
    );
    let after: Vec<CellContent> = g.cells.iter().map(|c| c.content).collect();
    assert_eq!(contents, after);
    assert!(!g.first_click);
}
