use vstd::prelude::*;
use crate::cell::{Cell, CellContent, CellState, GameStatus};
use crate::grid::Grid;
use crate::laws::{law_won_shows_everything, lemma_clicked_shape};
use crate::layout::lemma_free_cells_len;
use crate::lemmas::lemma_idx_in;

verus! {

/// The three board sizes on offer.
#[derive(Debug, Clone, Copy, PartialEq, Eq, Structural)]
pub enum Difficulty {
    Easy,
    Medium,
    Hard,
}

impl Difficulty {
    /// Width, height and number of mines.
    pub open spec fn dims(self) -> (usize, usize, usize) {
        match self {
            Difficulty::Easy => (9, 9, 10),
            Difficulty::Medium => (16, 16, 40),
            Difficulty::Hard => (30, 16, 99),
        }
    }

    /// Width, height and number of mines: 9x9 with 10 mines, 16x16 with 40,
    /// 30x16 with 99.
    pub fn settings(&self) -> (r: (usize, usize, usize))
        ensures
            r == self.dims(),
    {
        match self {
            Difficulty::Easy => (9, 9, 10),
            Difficulty::Medium => (16, 16, 40),
            Difficulty::Hard => (30, 16, 99),
        }
    }
}

/// What the game clock should do after a click.
#[derive(Debug, Clone, Copy, PartialEq, Eq, Structural)]
pub enum ClockCommand {
    /// Leave the clock as it is.
    Keep,
    /// The first click of a game that goes on: start the clock.
    Start,
    /// The game has just ended: stop the clock.
    Stop,
}

/// The line shown under the board.
#[derive(Debug, Clone, Copy, PartialEq, Eq, Structural)]
pub enum StatusLine {
    /// Won, with at least one flag placed during the game.
    Cleared,
    /// Won without ever placing a flag.
    ClearedNoFlags,
    GameOver,
    /// In play, the clock running.
    Playing,
    /// In play, before the first click.
    Ready,
}

/// How a cell is drawn.
#[derive(Debug, Clone, Copy, PartialEq, Eq, Structural)]
pub enum CellLook {
    /// A raised, unopened cell.
    Covered,
    /// A raised cell with a flag on it.
    Flagged,
    /// An opened cell with a flag: a mine shown once the game is won.
    WonFlag,
    /// An opened safe cell, with its number (no number drawn for 0).
    Open(u8),
    /// An opened mine; `true` for the one that lost the game.
    Mine(bool),
}

/// The face on the button above the board.
#[derive(Debug, Clone, Copy, PartialEq, Eq, Structural)]
pub enum Face {
    Smiling,
    /// The mouse is held down on the board.
    Surprised,
    /// Sunglasses: the game is won.
    Cool,
    /// Crossed eyes: the game is lost.
    Dead,
}

/// One game window's state: the grid, the chosen difficulty, whether a flag
/// was ever placed, and whether the clock runs.
pub struct Session {
    pub grid: Grid,
    pub difficulty: Difficulty,
    pub has_flagged: bool,
    pub clock_running: bool,
}

/// A grid as `Grid::new` makes it: every cell hidden and empty, in play,
/// first click to come, no mine exploded.
pub open spec fn fresh(g: Grid) -> bool {
    &&& forall|i: int| 0 <= i < g.cells@.len() ==> #[trigger] g.cells@[i] == (Cell {
        state: CellState::Hidden,
        content: CellContent::Empty(0),
    })
    &&& g.status == GameStatus::Playing
    &&& g.first_click
    &&& g.exploded_mine is None
}

impl Session {
    /// The grid is that of the chosen difficulty, well formed; no mine is laid
    /// before the first click; a won game shows everything; the clock runs
    /// only while the game is in play.
    pub open spec fn inv(&self) -> bool {
        let (w, h, m) = self.difficulty.dims();
        &&& self.grid@.wf()
        &&& self.grid.width == w
        &&& self.grid.height == h
        &&& self.grid.mine_count == m
        &&& self.grid@.won_clean()
        &&& self.grid.first_click ==> forall|i: int|
            0 <= i < self.grid.cells@.len() ==> !(#[trigger] self.grid.cells@[i].content is Mine)
        &&& self.clock_running ==> self.grid.status == GameStatus::Playing
    }

    /// A fresh game of the given difficulty, clock stopped.
    pub fn new(difficulty: Difficulty) -> (s: Session)
        ensures
            s.inv(),
            s.difficulty == difficulty,
            fresh(s.grid),
            !s.has_flagged,
            !s.clock_running,
    {
        let (w, h, m) = difficulty.settings();
        let grid = Grid::new(w, h, m);
        Session { grid, difficulty, has_flagged: false, clock_running: false }
    }

    /// Starts a fresh game of the current difficulty.
    pub fn reset(&mut self)
        ensures
            final(self).inv(),
            final(self).difficulty == old(self).difficulty,
            fresh(final(self).grid),
            !final(self).has_flagged,
            !final(self).clock_running,
    {
        let (w, h, m) = self.difficulty.settings();
        self.grid = Grid::new(w, h, m);
        self.clock_running = false;
        self.has_flagged = false;
    }

    /// Switches to another difficulty with a fresh game; choosing the current
    /// one changes nothing. Tells whether it switched.
    pub fn set_difficulty(&mut self, d: Difficulty) -> (changed: bool)
        ensures
            changed == (old(self).difficulty != d),
            !changed ==> *final(self) == *old(self),
            changed ==> final(self).difficulty == d && fresh(final(self).grid)
                && !final(self).has_flagged && !final(self).clock_running && final(self).inv(),
    {
        if self.difficulty != d {
            self.difficulty = d;
            self.reset();
            true
        } else {
            false
        }
    }

    /// A left click on cell `(x, y)` of a game in play: reveals it, starts
    /// the clock on the first click of a game that goes on, stops it when the
    /// game ends. A click on a game that is over does nothing.
    pub fn left_click(&mut self, x: usize, y: usize) -> (cmd: ClockCommand)
        requires
            old(self).inv(),
            x < old(self).grid.width,
            y < old(self).grid.height,
        ensures
            final(self).inv(),
            final(self).difficulty == old(self).difficulty,
            final(self).has_flagged == old(self).has_flagged,
            old(self).grid.status != GameStatus::Playing ==> *final(self) == *old(self) && cmd == ClockCommand::Keep,
            old(self).grid.status == GameStatus::Playing && old(self).grid.first_click ==> exists|picks: Seq<usize>|
                old(self).grid@.valid_picks(x as int, y as int, picks)
                    && final(self).grid@ == old(self).grid@.clicked(x as int, y as int, picks),
            old(self).grid.status == GameStatus::Playing && !old(self).grid.first_click
                ==> final(self).grid@ == old(self).grid@.clicked(x as int, y as int, seq![]),
            old(self).grid.status == GameStatus::Playing ==> {
                &&& final(self).clock_running == (final(self).grid.status == GameStatus::Playing)
                &&& cmd == if final(self).grid.status != GameStatus::Playing {
                    ClockCommand::Stop
                } else if !old(self).clock_running {
                    ClockCommand::Start
                } else {
                    ClockCommand::Keep
                }
            },
    {
        if self.grid.status != GameStatus::Playing {
            return ClockCommand::Keep;
        }
        let ghost g0 = self.grid@;
        proof {
            lemma_clicked_shape(g0, x as int, y as int, seq![]);
            if self.grid.first_click {
                assert(self.grid.mine_count < self.grid.width * self.grid.height) by {
                    let w = self.grid.width;
                    let h = self.grid.height;
                    match self.difficulty {
                        Difficulty::Easy => {
                            assert(w * h == 81) by (nonlinear_arith)
                                requires
                                    w == 9,
                                    h == 9,
                            ;
                        },
                        Difficulty::Medium => {
                            assert(w * h == 256) by (nonlinear_arith)
                                requires
                                    w == 16,
                                    h == 16,
                            ;
                        },
                        Difficulty::Hard => {
                            assert(w * h == 480) by (nonlinear_arith)
                                requires
                                    w == 30,
                                    h == 16,
                            ;
                        },
                    }
                }
                lemma_idx_in(g0.width as int, g0.height as int, x as int, y as int);
                lemma_free_cells_len(g0, g0.idx(x as int, y as int), g0.cells.len());
            }
        }
        let was_running = self.clock_running;
        self.grid.reveal_cell(x, y);
        proof {
            if g0.first_click {
                let picks = choose|picks: Seq<usize>| g0.valid_picks(x as int, y as int, picks) && self.grid@ == g0.clicked(x as int, y as int, picks);
                law_won_shows_everything(g0, x as int, y as int, picks);
                lemma_clicked_shape(g0, x as int, y as int, picks);
            } else {
                law_won_shows_everything(g0, x as int, y as int, seq![]);
            }
        }
        if self.grid.status != GameStatus::Playing {
            self.clock_running = false;
            ClockCommand::Stop
        } else if !was_running {
            self.clock_running = true;
            ClockCommand::Start
        } else {
            ClockCommand::Keep
        }
    }

    /// A right click on cell `(x, y)` of a game in play: toggles its flag and
    /// records that a flag was used. A click on a game that is over does nothing.
    pub fn right_click(&mut self, x: usize, y: usize)
        requires
            old(self).inv(),
            x < old(self).grid.width,
            y < old(self).grid.height,
        ensures
            final(self).inv(),
            final(self).difficulty == old(self).difficulty,
            final(self).clock_running == old(self).clock_running,
            final(self).grid@ == old(self).grid@.toggled(x as int, y as int),
            final(self).has_flagged == (old(self).has_flagged || old(self).grid.status == GameStatus::Playing),
    {
        if self.grid.status == GameStatus::Playing {
            proof {
                lemma_idx_in(self.grid.width as int, self.grid.height as int, x as int, y as int);
                law_won_shows_everything(self.grid@, x as int, y as int, seq![]);
            }
            self.grid.toggle_flag(x, y);
            self.has_flagged = true;
        }
    }

    /// The line shown under the board.
    pub fn status_line(&self) -> (l: StatusLine)
        ensures
            l == match self.grid.status {
                GameStatus::Won => if self.has_flagged {
                    StatusLine::Cleared
                } else {
                    StatusLine::ClearedNoFlags
                },
                GameStatus::Lost => StatusLine::GameOver,
                GameStatus::Playing => if self.clock_running {
                    StatusLine::Playing
                } else {
                    StatusLine::Ready
                },
            },
    {
        match self.grid.status {
            GameStatus::Won => if self.has_flagged {
                StatusLine::Cleared
            } else {
                StatusLine::ClearedNoFlags
            },
            GameStatus::Lost => StatusLine::GameOver,
            GameStatus::Playing => if self.clock_running {
                StatusLine::Playing
            } else {
                StatusLine::Ready
            },
        }
    }

    /// The mine counter: mines less flags, both taken as `i32`, kept within
    /// -99 and 999.
    pub fn mine_counter(&self) -> (v: i32)
        requires
            i32::MIN <= (self.grid.mine_count as i32) - (self.grid@.flagged_count() as i32) <= i32::MAX,
        ensures
            v == clamp_counter((self.grid.mine_count as i32) - (self.grid@.flagged_count() as i32)),
    {
        let flags = self.grid.flagged_count();
        #[verifier::truncate]
        let m = self.grid.mine_count as i32;
        #[verifier::truncate]
        let f = flags as i32;
        let d = m - f;
        if d < -99 {
            -99
        } else if d > 999 {
            999
        } else {
            d
        }
    }

    /// How cell `(x, y)` is drawn.
    pub fn cell_look(&self, x: usize, y: usize) -> (l: CellLook)
        requires
            self.grid@.wf(),
            x < self.grid.width,
            y < self.grid.height,
        ensures
            l == look_of(self.grid@.cell(x as int, y as int), self.grid.exploded_mine == Some((x, y))),
            looks_like(l, self.grid@.cell(x as int, y as int), self.grid.exploded_mine == Some((x, y))),
    {
        proof {
            lemma_idx_in(self.grid.width as int, self.grid.height as int, x as int, y as int);
        }
        let c = self.grid.get_cell(x, y);
        let exploded = match self.grid.exploded_mine {
            Some((ex, ey)) => ex == x && ey == y,
            None => false,
        };
        match c.state {
            CellState::Revealed => match c.content {
                CellContent::Mine => CellLook::Mine(exploded),
                CellContent::Empty(n) => CellLook::Open(n),
            },
            CellState::VictoryRevealed => CellLook::WonFlag,
            CellState::Flagged => CellLook::Flagged,
            CellState::Hidden => CellLook::Covered,
        }
    }
}

/// `v` kept within -99 and 999.
pub open spec fn clamp_counter(v: int) -> int {
    if v < -99 {
        -99
    } else if v > 999 {
        999
    } else {
        v
    }
}

/// How a cell is drawn, given whether it is the mine that lost the game.
pub open spec fn look_of(c: crate::cell::Cell, exploded: bool) -> CellLook {
    match c.state {
        CellState::Revealed => match c.content {
            CellContent::Mine => CellLook::Mine(exploded),
            CellContent::Empty(n) => CellLook::Open(n),
        },
        CellState::VictoryRevealed => CellLook::WonFlag,
        CellState::Flagged => CellLook::Flagged,
        CellState::Hidden => CellLook::Covered,
    }
}

/// What each look says of the cell drawn: a covered cell is hidden, a
/// flagged one flagged, a won flag a mine shown after a win, an opened number
/// a revealed safe cell with that number, and a drawn mine a revealed mine,
/// highlighted exactly when it is the one that exploded.
pub open spec fn looks_like(l: CellLook, c: crate::cell::Cell, exploded: bool) -> bool {
    &&& (l is Covered <==> c.state is Hidden)
    &&& (l is Flagged <==> c.state is Flagged)
    &&& (l is WonFlag <==> c.state is VictoryRevealed)
    &&& (l is Mine <==> c.state is Revealed && c.content is Mine)
    &&& (l is Open <==> c.state is Revealed && c.content is Empty)
    &&& (l matches CellLook::Mine(e) ==> e == exploded)
    &&& (l matches CellLook::Open(n) ==> c.content == CellContent::Empty(n))
}

/// Each cell is drawn as what it is: only the mine that exploded is drawn
/// highlighted, every other revealed mine plain.
pub proof fn law_look_shows_the_cell(c: crate::cell::Cell, exploded: bool)
    ensures
        looks_like(look_of(c, exploded), c, exploded),
{
}

/// The value shown by the clock: whole seconds, at most 999.
pub fn timer_value(secs: u64) -> (v: u64)
    ensures
        v == if secs < 999 { secs } else { 999 },
{
    if secs < 999 {
        secs
    } else {
        999
    }
}

/// The face on the button: by the game's state, surprised while the mouse is
/// held on the board of a game in play.
pub fn smiley_face(status: GameStatus, any_cell_pressed: bool) -> (f: Face)
    ensures
        f == match status {
            GameStatus::Playing => if any_cell_pressed {
                Face::Surprised
            } else {
                Face::Smiling
            },
            GameStatus::Won => Face::Cool,
            GameStatus::Lost => Face::Dead,
        },
{
    match status {
        GameStatus::Playing => if any_cell_pressed {
            Face::Surprised
        } else {
            Face::Smiling
        },
        GameStatus::Won => Face::Cool,
        GameStatus::Lost => Face::Dead,
    }
}

/// The colour of a number on an opened cell, as red, green, blue.
pub fn number_rgb(n: u8) -> (c: (u8, u8, u8))
    ensures
        c == match n {
            1 => (0u8, 0u8, 255u8),
            2 => (0u8, 128u8, 0u8),
            3 => (255u8, 0u8, 0u8),
            4 => (0u8, 0u8, 128u8),
            5 => (128u8, 0u8, 0u8),
            6 => (0u8, 128u8, 128u8),
            8 => (128u8, 128u8, 128u8),
            _ => (0u8, 0u8, 0u8),
        },
{
    match n {
        1 => (0, 0, 255),
        2 => (0, 128, 0),
        3 => (255, 0, 0),
        4 => (0, 0, 128),
        5 => (128, 0, 0),
        6 => (0, 128, 128),
        7 => (0, 0, 0),
        8 => (128, 128, 128),
        _ => (0, 0, 0),
    }
}

/// The segments lit to show a character on a seven-segment digit, in the
/// order top, top right, bottom right, bottom, bottom left, top left, middle.
/// Digits and `-` are shown; anything else lights nothing.
pub fn seven_segments(c: char) -> (s: [bool; 7])
    ensures
        s@ == segments_of(c),
{
    let s = match c {
        '0' => [true, true, true, true, true, true, false],
        '1' => [false, true, true, false, false, false, false],
        '2' => [true, true, false, true, true, false, true],
        '3' => [true, true, true, true, false, false, true],
        '4' => [false, true, true, false, false, true, true],
        '5' => [true, false, true, true, false, true, true],
        '6' => [true, false, true, true, true, true, true],
        '7' => [true, true, true, false, false, false, false],
        '8' => [true, true, true, true, true, true, true],
        '9' => [true, true, true, true, false, true, true],
        '-' => [false, false, false, false, false, false, true],
        _ => [false, false, false, false, false, false, false],
    };
    assert(s@ =~= segments_of(c));
    s
}

pub open spec fn segments_of(c: char) -> Seq<bool> {
    match c {
        '0' => seq![true, true, true, true, true, true, false],
        '1' => seq![false, true, true, false, false, false, false],
        '2' => seq![true, true, false, true, true, false, true],
        '3' => seq![true, true, true, true, false, false, true],
        '4' => seq![false, true, true, false, false, true, true],
        '5' => seq![true, false, true, true, false, true, true],
        '6' => seq![true, false, true, true, true, true, true],
        '7' => seq![true, true, true, false, false, false, false],
        '8' => seq![true, true, true, true, true, true, true],
        '9' => seq![true, true, true, true, false, true, true],
        '-' => seq![false, false, false, false, false, false, true],
        _ => seq![false, false, false, false, false, false, false],
    }
}

/// The characters a seven-segment display shows: the digits and `-`.
pub open spec fn shown_char(c: char) -> bool {
    c == '0' || c == '1' || c == '2' || c == '3' || c == '4' || c == '5' || c == '6' || c == '7'
        || c == '8' || c == '9' || c == '-'
}

/// Segments read as a number, one bit each.
pub open spec fn segment_code(s: Seq<bool>) -> int {
    (if s[0] { 1int } else { 0 }) + (if s[1] { 2int } else { 0 }) + (if s[2] { 4int } else { 0 }) + (
    if s[3] {
        8int
    } else {
        0
    }) + (if s[4] { 16int } else { 0 }) + (if s[5] { 32int } else { 0 }) + (if s[6] {
        64int
    } else {
        0
    })
}

/// The segments seen in a mirror: left and right swap.
pub open spec fn mirrored(s: Seq<bool>) -> Seq<bool> {
    seq![s[0], s[5], s[4], s[3], s[2], s[1], s[6]]
}

/// The segments turned upside down: top and bottom swap, and so do the
/// top-right and bottom-left, and the bottom-right and top-left segments.
pub open spec fn turned(s: Seq<bool>) -> Seq<bool> {
    seq![s[3], s[4], s[5], s[0], s[1], s[2], s[6]]
}

/// Every shown character lights its own set of segments, so no two read
/// alike; anything else lights nothing.
pub proof fn law_segments_tell_characters_apart(c1: char, c2: char)
    requires
        shown_char(c1),
        shown_char(c2),
        c1 != c2,
    ensures
        segments_of(c1).len() == 7,
        segments_of(c1) != segments_of(c2),
{
    assert(segment_code(segments_of(c1)) != segment_code(segments_of(c2)));
}

/// Anything but a digit or `-` leaves the display dark.
pub proof fn law_other_characters_dark(c: char)
    requires
        !shown_char(c),
    ensures
        forall|i: int| 0 <= i < 7 ==> !segments_of(c)[i],
{
}

/// The digits keep the shapes of the seven-segment font: 0, 2, 5, 8 and
/// `-` look the same upside down, 6 turned upside down is 9, and 2 and 5 are
/// mirror images of each other, as are 0, 8 and `-` of themselves.
pub proof fn law_digit_shapes(c: char)
    requires
        c == '0' || c == '2' || c == '5' || c == '8' || c == '-',
    ensures
        turned(segments_of(c)) == segments_of(c),
        turned(segments_of('6')) == segments_of('9'),
        mirrored(segments_of('2')) == segments_of('5'),
        c != '2' && c != '5' ==> mirrored(segments_of(c)) == segments_of(c),
{
    assert(turned(segments_of(c)) =~= segments_of(c));
    assert(turned(segments_of('6')) =~= segments_of('9'));
    assert(mirrored(segments_of('2')) =~= segments_of('5'));
    if c != '2' && c != '5' {
        assert(mirrored(segments_of(c)) =~= segments_of(c));
    }
}

/// The characters of a three-digit display: left-padded with spaces to
/// three; a longer text is kept whole.
pub fn pad_display(text: &Vec<char>) -> (out: Vec<char>)
    ensures
        out@ == Seq::new(if text@.len() < 3 { (3 - text@.len()) as nat } else { 0 }, |i: int| ' ') + text@,
{
    let mut out: Vec<char> = Vec::new();
    let n = text.len();
    let pad = if n < 3 { 3 - n } else { 0 };
    let mut i: usize = 0;
    while i < pad
        invariant
            i <= pad,
            out@ == Seq::new(i as nat, |j: int| ' '),
        decreases pad - i,
    {
        out.push(' ');
        i = i + 1;
        assert(out@ =~= Seq::new(i as nat, |j: int| ' '));
    }
    let mut j: usize = 0;
    while j < n
        invariant
            n == text@.len(),
            j <= n,
            out@ == Seq::new(pad as nat, |t: int| ' ') + text@.take(j as int),
        decreases n - j,
    {
        out.push(text[j]);
        j = j + 1;
        assert(out@ =~= Seq::new(pad as nat, |t: int| ' ') + text@.take(j as int));
    }
    assert(text@.take(n as int) =~= text@);
    out
}

} // verus!
