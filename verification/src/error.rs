use vstd::prelude::*;

verus! {

/// Why a configuration cannot give a board.
#[derive(Debug, Clone, Copy, PartialEq, Eq, Structural)]
pub enum ConfigError {
    /// The grid has no column or no row.
    EmptyGrid,
    /// There are more mines than cells.
    TooManyBombs,
    /// A mine is to be laid outside the grid.
    OutsideGrid,
    /// The tile size is zero, or the least adaptive size exceeds the greatest.
    InvalidTileSize,
    /// The anchor of a centered board cannot be represented.
    AnchorOutOfRange,
    /// The host did not supply one handle for each cell.
    HandleCount,
}

} // verus!
