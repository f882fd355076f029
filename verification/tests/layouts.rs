use minesweeper::bounds::{Bounds2, Extent, Point};
use minesweeper::error::ConfigError;
use minesweeper::options::{board_extent, BoardOptions, BoardPosition, Layout, TileSize};

fn bounds(x: i64, y: i64, w: u64, h: u64) -> Bounds2 {
    Bounds2 { position: Point { x, y }, size: Extent { x: w, y: h } }
}

#[test]
fn bounds_hold_their_borders() {
    let b = bounds(-10, 5, 20, 30);
    assert!(b.contains(Point { x: -10, y: 5 }));
    assert!(b.contains(Point { x: 10, y: 35 }));
    assert!(b.contains(Point { x: 0, y: 20 }));
    assert!(b.contains(Point { x: -10, y: 35 }));
    assert!(!b.contains(Point { x: -11, y: 5 }));
    assert!(!b.contains(Point { x: -10, y: 4 }));
    assert!(!b.contains(Point { x: 11, y: 35 }));
    assert!(!b.contains(Point { x: 10, y: 36 }));
}

#[test]
fn bounds_without_area_hold_one_point() {
    let b = bounds(3, 4, 0, 0);
    assert!(b.contains(Point { x: 3, y: 4 }));
    assert!(!b.contains(Point { x: 4, y: 4 }));
    assert!(!b.contains(Point { x: 3, y: 3 }));
}

#[test]
fn bounds_at_the_limits_of_the_plane() {
    let b = bounds(i64::MIN, i64::MAX, u64::MAX, 0);
    assert!(b.contains(Point { x: i64::MIN, y: i64::MAX }));
    assert!(b.contains(Point { x: i64::MAX, y: i64::MAX }));
    assert!(!b.contains(Point { x: 0, y: i64::MAX - 1 }));
    assert_eq!(
        b.relative_position(Point { x: i64::MAX, y: i64::MAX }),
        Some(Extent { x: u64::MAX, y: 0 })
    );
    let far = bounds(i64::MAX, 0, 10, 10);
    assert!(far.contains(Point { x: i64::MAX, y: 10 }));
    assert!(!far.contains(Point { x: i64::MIN, y: 10 }));
}

#[test]
fn relative_position_counts_from_the_anchor() {
    let b = bounds(-10, 5, 20, 30);
    assert_eq!(b.relative_position(Point { x: -10, y: 5 }), Some(Extent { x: 0, y: 0 }));
    assert_eq!(b.relative_position(Point { x: 10, y: 35 }), Some(Extent { x: 20, y: 30 }));
    assert_eq!(b.relative_position(Point { x: -3, y: 6 }), Some(Extent { x: 7, y: 1 }));
    assert_eq!(b.relative_position(Point { x: 11, y: 6 }), None);
    assert_eq!(b.relative_position(Point { x: -3, y: 4 }), None);
}

#[test]
fn board_extent_is_grid_times_tile() {
    assert_eq!(board_extent(20, 20, 35), Extent { x: 700, y: 700 });
    assert_eq!(board_extent(3, 7, 1), Extent { x: 3, y: 7 });
    assert_eq!(
        board_extent(65535, 1, u32::MAX),
        Extent { x: 65535 * 4294967295, y: 4294967295 }
    );
}

#[test]
fn fixed_tile_size_is_taken_as_it_is() {
    let space = Extent { x: 1, y: 1 };
    assert_eq!(TileSize::Fixed(32).resolve(space, 10, 10), Ok(32));
    assert_eq!(TileSize::Fixed(0).resolve(space, 10, 10), Err(ConfigError::InvalidTileSize));
    assert_eq!(TileSize::Fixed(32).resolve(space, 0, 10), Err(ConfigError::EmptyGrid));
}

#[test]
fn adaptive_tile_size_fits_the_space() {
    let policy = TileSize::Adaptive { min: 10, max: 50 };
    assert_eq!(policy.resolve(Extent { x: 700, y: 800 }, 20, 20), Ok(35));
    assert_eq!(policy.resolve(Extent { x: 800, y: 700 }, 20, 20), Ok(35));
    assert_eq!(policy.resolve(Extent { x: 719, y: 800 }, 20, 20), Ok(35));
    assert_eq!(policy.resolve(Extent { x: 100, y: 100 }, 20, 20), Ok(10));
    assert_eq!(policy.resolve(Extent { x: 0, y: 0 }, 20, 20), Ok(10));
    assert_eq!(policy.resolve(Extent { x: 5000, y: 5000 }, 20, 20), Ok(50));
    assert_eq!(policy.resolve(Extent { x: u64::MAX, y: u64::MAX }, 1, 1), Ok(50));
    assert_eq!(policy.resolve(Extent { x: 700, y: 800 }, 0, 20), Err(ConfigError::EmptyGrid));
}

#[test]
fn adaptive_tile_size_needs_a_usable_range() {
    let space = Extent { x: 700, y: 800 };
    assert_eq!(
        TileSize::Adaptive { min: 51, max: 50 }.resolve(space, 20, 20),
        Err(ConfigError::InvalidTileSize)
    );
    assert_eq!(
        TileSize::Adaptive { min: 0, max: 50 }.resolve(Extent { x: 10, y: 800 }, 20, 20),
        Err(ConfigError::InvalidTileSize)
    );
    assert_eq!(
        TileSize::Adaptive { min: 0, max: 0 }.resolve(space, 20, 20),
        Err(ConfigError::InvalidTileSize)
    );
    assert_eq!(TileSize::Adaptive { min: 0, max: 50 }.resolve(space, 20, 20), Ok(35));
    assert_eq!(TileSize::Adaptive { min: 7, max: 7 }.resolve(space, 20, 20), Ok(7));
}

#[test]
fn centered_board_lies_around_its_offset() {
    let centered = BoardPosition::Centered { offset: Point { x: 0, y: 0 } };
    assert_eq!(centered.anchor(Extent { x: 700, y: 500 }), Ok(Point { x: -350, y: -250 }));
    assert_eq!(centered.anchor(Extent { x: 7, y: 1 }), Ok(Point { x: -3, y: 0 }));
    let shifted = BoardPosition::Centered { offset: Point { x: 100, y: -40 } };
    assert_eq!(shifted.anchor(Extent { x: 700, y: 500 }), Ok(Point { x: -250, y: -290 }));
    let custom = BoardPosition::Custom(Point { x: 12, y: -9 });
    assert_eq!(custom.anchor(Extent { x: 700, y: 500 }), Ok(Point { x: 12, y: -9 }));
}

#[test]
fn centered_board_needs_a_representable_anchor() {
    let low = BoardPosition::Centered { offset: Point { x: i64::MIN, y: 0 } };
    assert_eq!(low.anchor(Extent { x: 2, y: 2 }), Err(ConfigError::AnchorOutOfRange));
    assert_eq!(low.anchor(Extent { x: 1, y: 2 }), Ok(Point { x: i64::MIN, y: -1 }));
    let lower = BoardPosition::Centered { offset: Point { x: 0, y: i64::MIN + 4 } };
    assert_eq!(lower.anchor(Extent { x: 0, y: 10 }), Err(ConfigError::AnchorOutOfRange));
    assert_eq!(lower.anchor(Extent { x: 0, y: 9 }), Ok(Point { x: 0, y: i64::MIN }));
    let high = BoardPosition::Centered { offset: Point { x: i64::MAX, y: i64::MAX } };
    assert_eq!(
        high.anchor(Extent { x: 0, y: u64::MAX }),
        Ok(Point { x: i64::MAX, y: i64::MAX - (u64::MAX / 2) as i64 })
    );
}

#[test]
fn default_options() {
    let options = BoardOptions::default();
    assert_eq!(options.map_size, (15, 15));
    assert_eq!(options.bomb_count, 30);
    assert_eq!(options.position, BoardPosition::Centered { offset: Point { x: 0, y: 0 } });
    assert_eq!(options.tile_size, TileSize::Adaptive { min: 10, max: 50 });
    assert_eq!(options.tile_padding, 0);
    assert!(!options.safe_start);
}

#[test]
fn layout_of_the_default_board() {
    let layout = BoardOptions::default().layout(Extent { x: 700, y: 800 });
    assert_eq!(
        layout,
        Ok(Layout {
            tile_size: 46,
            bounds: Bounds2 { position: Point { x: -345, y: -345 }, size: Extent { x: 690, y: 690 } },
        })
    );
}

#[test]
fn layout_names_the_first_fault() {
    let space = Extent { x: 700, y: 800 };
    let good = BoardOptions {
        map_size: (20, 10),
        bomb_count: 200,
        position: BoardPosition::Custom(Point { x: 5, y: 6 }),
        tile_size: TileSize::Fixed(4),
        tile_padding: 1,
        safe_start: true,
    };
    assert_eq!(
        good.layout(space),
        Ok(Layout {
            tile_size: 4,
            bounds: Bounds2 { position: Point { x: 5, y: 6 }, size: Extent { x: 80, y: 40 } },
        })
    );
    let no_rows = BoardOptions { map_size: (20, 0), bomb_count: 0, ..good };
    assert_eq!(no_rows.layout(space), Err(ConfigError::EmptyGrid));
    let no_cells = BoardOptions { map_size: (0, 0), bomb_count: 900, tile_size: TileSize::Fixed(0), ..good };
    assert_eq!(no_cells.layout(space), Err(ConfigError::EmptyGrid));
    let crowded = BoardOptions { bomb_count: 201, tile_size: TileSize::Fixed(0), ..good };
    assert_eq!(crowded.layout(space), Err(ConfigError::TooManyBombs));
    let flat = BoardOptions {
        tile_size: TileSize::Fixed(0),
        position: BoardPosition::Centered { offset: Point { x: i64::MIN, y: 0 } },
        ..good
    };
    assert_eq!(flat.layout(space), Err(ConfigError::InvalidTileSize));
    let lost = BoardOptions {
        position: BoardPosition::Centered { offset: Point { x: i64::MIN, y: 0 } },
        ..good
    };
    assert_eq!(lost.layout(space), Err(ConfigError::AnchorOutOfRange));
}
