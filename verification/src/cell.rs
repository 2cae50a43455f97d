use vstd::prelude::*;

verus! {

/// What the player sees of a cell.
#[derive(Debug, Clone, Copy, PartialEq, Eq, Structural)]
pub enum CellState {
    Hidden,
    Revealed,
    Flagged,
    /// A mine shown with a flag once the game is won.
    VictoryRevealed,
}

/// What a cell holds: a mine, or the number of mines around it.
#[derive(Debug, Clone, Copy, PartialEq, Eq, Structural)]
pub enum CellContent {
    Empty(u8),
    Mine,
}

#[derive(Debug, Clone, Copy, PartialEq, Eq, Structural)]
pub struct Cell {
    pub state: CellState,
    pub content: CellContent,
}

#[derive(Debug, Clone, Copy, PartialEq, Eq, Structural, Hash)]
pub enum GameStatus {
    Playing,
    Won,
    Lost,
}

} // verus!
