//! The rules of a minesweeper game: a grid of tiles with mines laid at
//! random, the count of mines around every free cell, the reveal that
//! spreads over empty cells, and the mapping from a point of the world to
//! the cell under it. Drawing and input belong to the host, which keeps a
//! [`board::Board`] and tells it which cell to reveal.

pub mod board;
pub mod bounds;
pub mod coordinates;
pub mod error;
pub mod options;
pub mod sampling;
pub mod tile;
pub mod tile_map;
pub mod uncover;
