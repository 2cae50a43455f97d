use mario_minesweeper::cell::{CellContent, CellState, GameStatus};
use mario_minesweeper::grid::Grid;

#[test]
fn toggling_twice_gives_the_board_back() {
    let mut g = Grid::new(4, 4, 3);
    g.reveal_cell(0, 0);
    let before = g.cells.clone();
    for y in 0..4 {
        for x in 0..4 {
            g.toggle_flag(x, y);
            g.toggle_flag(x, y);
            assert_eq!(g.cells, before);
        }
    }
}

#[test]
fn flag_counter_moves_by_one() {
    let mut g = Grid::new(3, 3, 0);
    g.toggle_flag(0, 0);
    g.toggle_flag(1, 0);
    assert_eq!(g.flagged_count(), 2);
    g.toggle_flag(1, 0);
    assert_eq!(g.flagged_count(), 1);
    g.get_cell_mut(2, 2).state = CellState::Revealed;
    g.toggle_flag(2, 2);
    assert_eq!(g.flagged_count(), 1);
}

#[test]
fn first_click_is_never_a_mine() {
    for _ in 0..200 {
        let mut g = Grid::new(3, 3, 8);
        g.reveal_cell(2, 0);
        assert_eq!(g.get_cell(2, 0).content, CellContent::Empty(3));
        assert_eq!(g.cells.iter().filter(|c| c.content == CellContent::Mine).count(), 8);
    }
}

#[test]
fn hidden_mine_loses_and_shows_every_mine() {
    let mut g = Grid::new(4, 1, 1);
    g.reveal_with_picks(0, 0, &vec![1]); // candidates [1, 2, 3]: mine at 2
    assert_eq!(g.get_cell(0, 0).content, CellContent::Empty(0));
    assert_eq!(g.get_cell(1, 0).state, CellState::Revealed);
    assert_eq!(g.status, GameStatus::Playing);
    g.toggle_flag(3, 0);
    let flagged = g.cells[3];
    g.reveal_with_picks(2, 0, &vec![]);
    assert_eq!(g.status, GameStatus::Lost);
    assert_eq!(g.exploded_mine, Some((2, 0)));
    assert_eq!(g.cells[2].state, CellState::Revealed);
    assert_eq!(g.cells[3], flagged);
}

#[test]
fn won_game_shows_everything() {
    let mut g = Grid::new(4, 4, 4);
    g.reveal_cell(0, 0);
    for y in 0..4 {
        for x in 0..4 {
            if g.status == GameStatus::Playing && g.get_cell(x, y).content != CellContent::Mine {
                g.reveal_cell(x, y);
            }
        }
    }
    assert_eq!(g.status, GameStatus::Won);
    for c in &g.cells {
        match c.content {
            CellContent::Mine => assert_eq!(c.state, CellState::VictoryRevealed),
            CellContent::Empty(_) => assert_eq!(c.state, CellState::Revealed),
        }
    }
}

#[test]
fn game_in_play_has_a_safe_cell_left() {
    for _ in 0..20 {
        let mut g = Grid::new(6, 6, 6);
        g.reveal_cell(3, 3);
        for y in 0..6 {
            for x in 0..6 {
                if g.status == GameStatus::Playing && g.get_cell(x, y).content != CellContent::Mine {
                    let safe_left = g.cells.iter().any(|c| c.content != CellContent::Mine && c.state != CellState::Revealed);
                    assert!(safe_left);
                    g.reveal_cell(x, y);
                }
            }
        }
        assert_eq!(g.status, GameStatus::Won);
    }
}

#[test]
fn correct_flags_never_lose() {
    for _ in 0..20 {
        let mut g = Grid::new(9, 9, 10);
        g.reveal_cell(4, 4);
        for y in 0..9 {
            for x in 0..9 {
                if g.get_cell(x, y).content == CellContent::Mine && g.get_cell(x, y).state == CellState::Hidden {
                    g.toggle_flag(x, y);
                }
            }
        }
        // click every cell that is not a hidden mine, revealed numbers included
        for _ in 0..2 {
            for y in 0..9 {
                for x in 0..9 {
                    let c = *g.get_cell(x, y);
                    if !(c.state == CellState::Hidden && c.content == CellContent::Mine) {
                        g.reveal_cell(x, y);
                        assert_ne!(g.status, GameStatus::Lost);
                    }
                }
            }
        }
        assert_eq!(g.status, GameStatus::Won);
    }
}
