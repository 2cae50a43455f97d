use mario_minesweeper::cell::{CellContent, CellState, GameStatus};
use mario_minesweeper::grid::Grid;
use mario_minesweeper::session::{
    number_rgb, pad_display, seven_segments, smiley_face, timer_value, CellLook, ClockCommand,
    Difficulty, Face, Session, StatusLine,
};

/// An Easy session whose 9x9 grid has mines laid from `picks` around (0, 0),
/// first click spent, clock stopped.
fn session_with(picks: Vec<usize>) -> Session {
    let mut s = Session::new(Difficulty::Easy);
    let mut g = Grid::new(9, 9, 10);
    g.lay_mines(0, 0, &picks);
    g.first_click = false;
    s.grid = g;
    s
}

#[test]
fn difficulty_settings() {
    assert_eq!(Difficulty::Easy.settings(), (9, 9, 10));
    assert_eq!(Difficulty::Medium.settings(), (16, 16, 40));
    assert_eq!(Difficulty::Hard.settings(), (30, 16, 99));
}

#[test]
fn new_session_is_ready() {
    let s = Session::new(Difficulty::Hard);
    assert_eq!(s.grid.width, 30);
    assert_eq!(s.grid.height, 16);
    assert_eq!(s.grid.mine_count, 99);
    assert!(s.grid.first_click);
    assert!(!s.clock_running);
    assert!(!s.has_flagged);
    assert_eq!(s.status_line(), StatusLine::Ready);
    assert_eq!(s.mine_counter(), 99);
}

#[test]
fn first_left_click_starts_the_clock() {
    let mut s = Session::new(Difficulty::Medium);
    let cmd = s.left_click(5, 5);
    assert!(!s.grid.first_click);
    assert_ne!(s.grid.get_cell(5, 5).content, CellContent::Mine);
    if s.grid.status == GameStatus::Playing {
        assert_eq!(cmd, ClockCommand::Start);
        assert!(s.clock_running);
        assert_eq!(s.status_line(), StatusLine::Playing);
    } else {
        assert_eq!(cmd, ClockCommand::Stop);
        assert!(!s.clock_running);
    }
}

#[test]
fn losing_click_stops_the_clock() {
    // ten mines: candidates around (0, 0) are 1..=80; ten picks of 70 take
    // 71, 80, 79, ..., 72 in turn
    let mut s = session_with(vec![70; 10]);
    assert_eq!(s.grid.cells.iter().filter(|c| c.content == CellContent::Mine).count(), 10);
    // (7, 7) touches the mines at 71 and 79, 80: it opens alone
    assert_eq!(s.left_click(7, 7), ClockCommand::Start);
    assert!(s.clock_running);
    assert_eq!(s.grid.status, GameStatus::Playing);
    assert_eq!(s.left_click(7, 7), ClockCommand::Keep);
    let mine = s.grid.cells.iter().position(|c| c.content == CellContent::Mine).unwrap();
    let (mx, my) = (mine % 9, mine / 9);
    assert_eq!(s.left_click(mx, my), ClockCommand::Stop);
    assert!(!s.clock_running);
    assert_eq!(s.grid.status, GameStatus::Lost);
    assert_eq!(s.status_line(), StatusLine::GameOver);
    assert_eq!(s.cell_look(mx, my), CellLook::Mine(true));
    // a click on a game that is over does nothing
    assert_eq!(s.left_click(1, 1), ClockCommand::Keep);
    s.right_click(1, 1);
    assert!(!s.has_flagged);
}

#[test]
fn right_click_flags_and_counts() {
    let mut s = Session::new(Difficulty::Easy);
    s.right_click(3, 4);
    assert!(s.has_flagged);
    assert_eq!(s.grid.get_cell(3, 4).state, CellState::Flagged);
    assert_eq!(s.mine_counter(), 9);
    assert_eq!(s.cell_look(3, 4), CellLook::Flagged);
    s.right_click(3, 4);
    assert!(s.has_flagged);
    assert_eq!(s.mine_counter(), 10);
    assert_eq!(s.cell_look(3, 4), CellLook::Covered);
}

#[test]
fn mine_counter_is_clamped() {
    let mut s = Session::new(Difficulty::Easy);
    for y in 0..9 {
        for x in 0..9 {
            s.right_click(x, y);
        }
    }
    assert_eq!(s.grid.flagged_count(), 81);
    assert_eq!(s.mine_counter(), -71);
    let mut big = Session::new(Difficulty::Easy);
    big.grid.mine_count = 5000;
    assert_eq!(big.mine_counter(), 999);
    big.grid.mine_count = 0;
    for y in 0..9 {
        for x in 0..9 {
            big.grid.toggle_flag(x, y);
        }
    }
    let mut g = Grid::new(20, 10, 0);
    for y in 0..10 {
        for x in 0..20 {
            g.toggle_flag(x, y);
        }
    }
    big.grid = g;
    assert_eq!(big.mine_counter(), -99);
}

#[test]
fn winning_without_flags() {
    let mut s = session_with(vec![70; 10]);
    for y in 0..9 {
        for x in 0..9 {
            if s.grid.status == GameStatus::Playing && s.grid.get_cell(x, y).content != CellContent::Mine {
                s.left_click(x, y);
            }
        }
    }
    assert_eq!(s.grid.status, GameStatus::Won);
    assert!(!s.clock_running);
    assert_eq!(s.status_line(), StatusLine::ClearedNoFlags);
    let mine = s.grid.cells.iter().position(|c| c.content == CellContent::Mine).unwrap();
    assert_eq!(s.cell_look(mine % 9, mine / 9), CellLook::WonFlag);
    s.has_flagged = true;
    assert_eq!(s.status_line(), StatusLine::Cleared);
}

#[test]
fn set_difficulty_switches_only_on_change() {
    let mut s = Session::new(Difficulty::Easy);
    s.right_click(0, 0);
    assert!(!s.set_difficulty(Difficulty::Easy));
    assert!(s.has_flagged);
    assert!(s.set_difficulty(Difficulty::Hard));
    assert_eq!(s.difficulty, Difficulty::Hard);
    assert_eq!(s.grid.width, 30);
    assert!(!s.has_flagged);
    assert_eq!(s.grid.flagged_count(), 0);
}

#[test]
fn reset_starts_over() {
    let mut s = Session::new(Difficulty::Medium);
    s.left_click(0, 0);
    s.right_click(15, 15);
    s.reset();
    assert!(s.grid.first_click);
    assert!(!s.clock_running);
    assert!(!s.has_flagged);
    assert_eq!(s.difficulty, Difficulty::Medium);
    assert_eq!(s.grid.cells.len(), 256);
    assert_eq!(s.status_line(), StatusLine::Ready);
}

#[test]
fn cell_looks() {
    let mut s = session_with(vec![70; 10]);
    s.left_click(0, 0);
    match s.grid.get_cell(0, 0).content {
        CellContent::Empty(n) => assert_eq!(s.cell_look(0, 0), CellLook::Open(n)),
        CellContent::Mine => panic!("first cell is safe"),
    }
}

#[test]
fn timer_caps_at_999() {
    assert_eq!(timer_value(0), 0);
    assert_eq!(timer_value(998), 998);
    assert_eq!(timer_value(999), 999);
    assert_eq!(timer_value(100_000), 999);
}

#[test]
fn smiley_faces() {
    assert_eq!(smiley_face(GameStatus::Playing, false), Face::Smiling);
    assert_eq!(smiley_face(GameStatus::Playing, true), Face::Surprised);
    assert_eq!(smiley_face(GameStatus::Won, true), Face::Cool);
    assert_eq!(smiley_face(GameStatus::Lost, false), Face::Dead);
}

#[test]
fn number_colours() {
    assert_eq!(number_rgb(1), (0, 0, 255));
    assert_eq!(number_rgb(2), (0, 128, 0));
    assert_eq!(number_rgb(3), (255, 0, 0));
    assert_eq!(number_rgb(4), (0, 0, 128));
    assert_eq!(number_rgb(5), (128, 0, 0));
    assert_eq!(number_rgb(6), (0, 128, 128));
    assert_eq!(number_rgb(7), (0, 0, 0));
    assert_eq!(number_rgb(8), (128, 128, 128));
    assert_eq!(number_rgb(0), (0, 0, 0));
}

#[test]
fn seven_segment_digits() {
    assert_eq!(seven_segments('8'), [true; 7]);
    assert_eq!(seven_segments('1'), [false, true, true, false, false, false, false]);
    assert_eq!(seven_segments('-'), [false, false, false, false, false, false, true]);
    assert_eq!(seven_segments(' '), [false; 7]);
    assert_eq!(seven_segments('0'), [true, true, true, true, true, true, false]);
}

#[test]
fn display_padding() {
    assert_eq!(pad_display(&vec!['7']), vec![' ', ' ', '7']);
    assert_eq!(pad_display(&vec!['-', '9']), vec![' ', '-', '9']);
    assert_eq!(pad_display(&vec!['9', '9', '9']), vec!['9', '9', '9']);
    assert_eq!(pad_display(&vec!['-', '9', '9']), vec!['-', '9', '9']);
    assert_eq!(pad_display(&vec![]), vec![' ', ' ', ' ']);
    assert_eq!(pad_display(&vec!['1', '0', '0', '0']), vec!['1', '0', '0', '0']);
}

fn is_fresh(g: &Grid) -> bool {
    g.cells.iter().all(|c| c.state == CellState::Hidden && c.content == CellContent::Empty(0))
        && g.exploded_mine.is_none()
        && g.first_click
        && g.status == GameStatus::Playing
}

#[test]
fn new_reset_and_switch_give_fresh_boards() {
    let mut s = Session::new(Difficulty::Easy);
    assert!(is_fresh(&s.grid));
    let mines = session_with(vec![70; 10]).grid;
    s.grid = mines;
    let mine = s.grid.cells.iter().position(|c| c.content == CellContent::Mine).unwrap();
    s.left_click(mine % 9, mine / 9);
    assert_eq!(s.grid.status, GameStatus::Lost);
    s.reset();
    assert!(is_fresh(&s.grid));
    assert_eq!(s.grid.cells.len(), 81);
    s.left_click(0, 0);
    assert!(s.set_difficulty(Difficulty::Medium));
    assert!(is_fresh(&s.grid));
    assert_eq!(s.grid.cells.len(), 256);
}
