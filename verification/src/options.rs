use vstd::prelude::*;
use crate::bounds::{Bounds2, Extent, Point};
use crate::error::ConfigError;

verus! {

/// How large a tile is drawn, in world units.
#[derive(Debug, Clone, Copy, PartialEq, Eq, Structural)]
pub enum TileSize {
    /// Always this size.
    Fixed(u32),
    /// As large as lets the whole grid fit the space at hand, but neither
    /// below `min` nor above `max`.
    Adaptive { min: u32, max: u32 },
}

/// Where the board lies in the world.
#[derive(Debug, Clone, Copy, PartialEq, Eq, Structural)]
pub enum BoardPosition {
    /// The middle of the board lies at `offset`.
    Centered { offset: Point },
    /// The bottom-left corner of the board lies at this point.
    Custom(Point),
}

/// What a board is generated from.
#[derive(Debug, Clone, Copy, PartialEq, Eq)]
pub struct BoardOptions {
    /// Columns and rows of the grid.
    pub map_size: (u16, u16),
    /// Number of mines.
    pub bomb_count: u32,
    /// Where the board lies.
    pub position: BoardPosition,
    /// How large a tile is.
    pub tile_size: TileSize,
    /// Gap that the host leaves between two tiles when it draws them.
    pub tile_padding: u32,
    /// Whether one empty cell is uncovered before the first move.
    pub safe_start: bool,
}

/// Tile size and place of a board, as the options and the space at hand give
/// them.
#[derive(Debug, Clone, Copy, PartialEq, Eq, Structural)]
pub struct Layout {
    pub tile_size: u32,
    pub bounds: Bounds2,
}

/// The smaller of two numbers.
pub open spec fn least(a: int, b: int) -> int {
    if a <= b {
        a
    } else {
        b
    }
}

/// `v`, moved into the range from `min` to `max` where it lies outside.
pub open spec fn clamped(v: int, min: int, max: int) -> int {
    if v < min {
        min
    } else if v > max {
        max
    } else {
        v
    }
}

/// The extent of a board of `width` by `height` tiles of the given size.
pub open spec fn spec_board_extent(width: u16, height: u16, tile_size: u32) -> Extent {
    Extent { x: (width * tile_size) as u64, y: (height * tile_size) as u64 }
}

/// The extent of a board of `width` by `height` tiles of the given size.
#[verifier::when_used_as_spec(spec_board_extent)]
pub fn board_extent(width: u16, height: u16, tile_size: u32) -> (size: Extent)
    ensures
        size == spec_board_extent(width, height, tile_size),
        size.x == width * tile_size,
        size.y == height * tile_size,
{
    assert(width * tile_size <= 0xffff * 0xffff_ffff) by (nonlinear_arith)
        requires
            0 <= width <= 0xffff,
            0 <= tile_size <= 0xffff_ffff,
    ;
    assert(height * tile_size <= 0xffff * 0xffff_ffff) by (nonlinear_arith)
        requires
            0 <= height <= 0xffff,
            0 <= tile_size <= 0xffff_ffff,
    ;
    Extent { x: (width as u64) * (tile_size as u64), y: (height as u64) * (tile_size as u64) }
}

impl TileSize {
    /// The tile size for a grid of `width` by `height` cells where `available`
    /// is the space at hand. An adaptive size is the largest at which both
    /// the columns fit the width and the rows fit the height, moved into the
    /// range from `min` to `max`. A size of zero, and an adaptive range whose
    /// least size exceeds its greatest, are refused.
    pub open spec fn spec_resolve(
        &self,
        available: Extent,
        width: u16,
        height: u16,
    ) -> Result<u32, ConfigError> {
        if width == 0 || height == 0 {
            Err(ConfigError::EmptyGrid)
        } else {
            match *self {
                TileSize::Fixed(size) => if size > 0 {
                    Ok(size)
                } else {
                    Err(ConfigError::InvalidTileSize)
                },
                TileSize::Adaptive { min, max } => {
                    let fit = least(
                        available.x as int / width as int,
                        available.y as int / height as int,
                    );
                    if min > max || clamped(fit, min as int, max as int) == 0 {
                        Err(ConfigError::InvalidTileSize)
                    } else {
                        Ok(clamped(fit, min as int, max as int) as u32)
                    }
                },
            }
        }
    }

    /// Computes the tile size for a grid and the space at hand.
    #[verifier::when_used_as_spec(spec_resolve)]
    pub fn resolve(&self, available: Extent, width: u16, height: u16) -> (r: Result<u32, ConfigError>)
        ensures
            r == self.spec_resolve(available, width, height),
            r matches Ok(size) ==> size > 0,
    {
        if width == 0 || height == 0 {
            return Err(ConfigError::EmptyGrid);
        }
        match *self {
            TileSize::Fixed(size) => {
                if size > 0 {
                    Ok(size)
                } else {
                    Err(ConfigError::InvalidTileSize)
                }
            },
            TileSize::Adaptive { min, max } => {
                if min > max {
                    return Err(ConfigError::InvalidTileSize);
                }
                let by_width: u64 = available.x / (width as u64);
                let by_height: u64 = available.y / (height as u64);
                let fit: u64 = if by_width <= by_height {
                    by_width
                } else {
                    by_height
                };
                let size: u32 = if fit < min as u64 {
                    min
                } else if fit > max as u64 {
                    max
                } else {
                    fit as u32
                };
                if size == 0 {
                    Err(ConfigError::InvalidTileSize)
                } else {
                    Ok(size)
                }
            },
        }
    }
}

impl BoardPosition {
    /// The bottom-left corner of a board of the given extent. A centered
    /// board lies half its extent, rounded down, to the left of and below its
    /// middle; a corner that no point can represent is refused.
    pub open spec fn spec_anchor(&self, size: Extent) -> Result<Point, ConfigError> {
        match *self {
            BoardPosition::Custom(p) => Ok(p),
            BoardPosition::Centered { offset } => {
                let x = offset.x - size.x / 2;
                let y = offset.y - size.y / 2;
                if x < i64::MIN || y < i64::MIN {
                    Err(ConfigError::AnchorOutOfRange)
                } else {
                    Ok(Point { x: x as i64, y: y as i64 })
                }
            },
        }
    }

    /// Computes the bottom-left corner of a board of the given extent.
    #[verifier::when_used_as_spec(spec_anchor)]
    pub fn anchor(&self, size: Extent) -> (r: Result<Point, ConfigError>)
        ensures
            r == self.spec_anchor(size),
    {
        match *self {
            BoardPosition::Custom(p) => Ok(p),
            BoardPosition::Centered { offset } => {
                let x: i128 = offset.x as i128 - (size.x / 2) as i128;
                let y: i128 = offset.y as i128 - (size.y / 2) as i128;
                if x < i64::MIN as i128 || y < i64::MIN as i128 {
                    Err(ConfigError::AnchorOutOfRange)
                } else {
                    Ok(Point { x: x as i64, y: y as i64 })
                }
            },
        }
    }
}

impl BoardOptions {
    /// Tile size and place of the board that the options describe, or the
    /// first reason why they describe none: a grid without cells, more mines
    /// than cells, a tile size that cannot be used, an anchor out of range.
    pub open spec fn spec_layout(&self, available: Extent) -> Result<Layout, ConfigError> {
        let (width, height) = self.map_size;
        if width == 0 || height == 0 {
            Err(ConfigError::EmptyGrid)
        } else if self.bomb_count > width * height {
            Err(ConfigError::TooManyBombs)
        } else {
            match self.tile_size.spec_resolve(available, width, height) {
                Err(e) => Err(e),
                Ok(tile_size) => {
                    let size = spec_board_extent(width, height, tile_size);
                    match self.position.spec_anchor(size) {
                        Err(e) => Err(e),
                        Ok(position) => Ok(
                            Layout { tile_size, bounds: Bounds2 { position, size } },
                        ),
                    }
                },
            }
        }
    }

    /// Checks the options and computes tile size and place of the board.
    #[verifier::when_used_as_spec(spec_layout)]
    pub fn layout(&self, available: Extent) -> (r: Result<Layout, ConfigError>)
        ensures
            r == self.spec_layout(available),
            r matches Ok(layout) ==> {
                &&& layout.tile_size > 0
                &&& self.map_size.0 > 0
                &&& self.map_size.1 > 0
                &&& self.bomb_count <= self.map_size.0 * self.map_size.1
                &&& layout.bounds.size == spec_board_extent(
                    self.map_size.0,
                    self.map_size.1,
                    layout.tile_size,
                )
            },
    {
        let width = self.map_size.0;
        let height = self.map_size.1;
        if width == 0 || height == 0 {
            return Err(ConfigError::EmptyGrid);
        }
        if self.bomb_count > crate::coordinates::cell_count(width, height) {
            return Err(ConfigError::TooManyBombs);
        }
        let tile_size = match self.tile_size.resolve(available, width, height) {
            Ok(tile_size) => tile_size,
            Err(e) => {
                return Err(e);
            },
        };
        let size = board_extent(width, height, tile_size);
        match self.position.anchor(size) {
            Ok(position) => Ok(Layout { tile_size, bounds: Bounds2 { position, size } }),
            Err(e) => Err(e),
        }
    }
}

impl Default for BoardOptions {
    /// Fifteen by fifteen cells with thirty mines, centered on the origin,
    /// tiles between ten and fifty units, no padding, no safe start.
    fn default() -> (options: BoardOptions)
        ensures
            options == (BoardOptions {
                map_size: (15, 15),
                bomb_count: 30,
                position: BoardPosition::Centered { offset: Point { x: 0, y: 0 } },
                tile_size: TileSize::Adaptive { min: 10, max: 50 },
                tile_padding: 0,
                safe_start: false,
            }),
    {
        BoardOptions {
            map_size: (15, 15),
            bomb_count: 30,
            position: BoardPosition::Centered { offset: Point { x: 0, y: 0 } },
            tile_size: TileSize::Adaptive { min: 10, max: 50 },
            tile_padding: 0,
            safe_start: false,
        }
    }
}

} // verus!
