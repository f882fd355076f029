use minesweeper::coordinates::{cell_count, cell_index, Coordinates};
use minesweeper::error::ConfigError;
use minesweeper::sampling::sample_cells;
use minesweeper::tile::Tile;
use minesweeper::tile_map::TileMap;

fn at(x: u16, y: u16) -> Coordinates {
    Coordinates { x, y }
}

fn bombs_around(map: &TileMap, c: Coordinates) -> u8 {
    let mut n = 0;
    for dy in -1i32..=1 {
        for dx in -1i32..=1 {
            if dx == 0 && dy == 0 {
                continue;
            }
            let x = c.x as i32 + dx;
            let y = c.y as i32 + dy;
            if x < 0 || y < 0 || x >= map.width() as i32 || y >= map.height() as i32 {
                continue;
            }
            if map.get(at(x as u16, y as u16)) == Some(Tile::Bomb) {
                n += 1;
            }
        }
    }
    n
}

fn assert_consistent(map: &TileMap) {
    for y in 0..map.height() {
        for x in 0..map.width() {
            let c = at(x, y);
            let around = bombs_around(map, c);
            match map.get(c).unwrap() {
                Tile::Bomb => {
                    assert!(map.is_bomb_at(c));
                    assert_eq!(map.bomb_count_at(c), 0);
                }
                Tile::BombNeighbor(n) => {
                    assert!(n >= 1 && n <= 8);
                    assert_eq!(n, around);
                    assert!(!map.is_bomb_at(c));
                    assert_eq!(map.bomb_count_at(c), n);
                }
                Tile::Empty => {
                    assert_eq!(around, 0);
                    assert!(!map.is_bomb_at(c));
                    assert_eq!(map.bomb_count_at(c), 0);
                }
            }
        }
    }
}

#[test]
fn cell_positions_are_row_major() {
    assert_eq!(cell_count(4, 3), 12);
    assert_eq!(cell_count(65535, 65535), 4294836225);
    assert_eq!(cell_count(0, 9), 0);
    assert_eq!(cell_index(at(0, 0), 4, 3), 0);
    assert_eq!(cell_index(at(3, 0), 4, 3), 3);
    assert_eq!(cell_index(at(0, 1), 4, 3), 4);
    assert_eq!(cell_index(at(3, 2), 4, 3), 11);
    assert_eq!(cell_index(at(65534, 65534), 65535, 65535), 4294836224);
}

#[test]
fn neighbors_stop_at_the_edge() {
    let c = at(0, 0);
    assert_eq!(c.neighbor(1, 0, 3, 3), Some(at(1, 0)));
    assert_eq!(c.neighbor(1, 1, 3, 3), Some(at(1, 1)));
    assert_eq!(c.neighbor(0, 1, 3, 3), Some(at(0, 1)));
    assert_eq!(c.neighbor(-1, 0, 3, 3), None);
    assert_eq!(c.neighbor(0, -1, 3, 3), None);
    assert_eq!(c.neighbor(-1, -1, 3, 3), None);
    let d = at(2, 2);
    assert_eq!(d.neighbor(1, 0, 3, 3), None);
    assert_eq!(d.neighbor(0, 1, 3, 3), None);
    assert_eq!(d.neighbor(-1, -1, 3, 3), Some(at(1, 1)));
    assert_eq!(d.neighbor(0, 0, 3, 3), Some(at(2, 2)));
    assert_eq!(at(65535, 65535).neighbor(1, 1, 65535, 65535), None);
}

#[test]
fn empty_map_has_only_empty_tiles() {
    let map = TileMap::empty(4, 3).unwrap();
    assert_eq!(map.width(), 4);
    assert_eq!(map.height(), 3);
    assert_eq!(map.bomb_count(), 0);
    for y in 0..3 {
        for x in 0..4 {
            assert_eq!(map.get(at(x, y)), Some(Tile::Empty));
        }
    }
    assert_eq!(map.get(at(4, 0)), None);
    assert_eq!(map.get(at(0, 3)), None);
    assert_eq!(map.first_empty(), Some(at(0, 0)));
}

#[test]
fn grid_without_cells_is_refused() {
    assert!(matches!(TileMap::empty(0, 5), Err(ConfigError::EmptyGrid)));
    assert!(matches!(TileMap::empty(5, 0), Err(ConfigError::EmptyGrid)));
    assert!(matches!(TileMap::empty(0, 0), Err(ConfigError::EmptyGrid)));
}

#[test]
fn single_cell_without_bombs_is_empty() {
    let mut map = TileMap::empty(1, 1).unwrap();
    assert_eq!(map.set_bombs(0), Ok(()));
    assert_eq!(map.get(at(0, 0)), Some(Tile::Empty));
    assert_eq!(map.bomb_count(), 0);
}

#[test]
fn bomb_in_the_middle_numbers_all_eight_neighbors() {
    let mut map = TileMap::empty(3, 3).unwrap();
    assert_eq!(map.place_bombs(&vec![at(1, 1)]), Ok(()));
    for y in 0..3 {
        for x in 0..3 {
            let expected = if x == 1 && y == 1 { Tile::Bomb } else { Tile::BombNeighbor(1) };
            assert_eq!(map.get(at(x, y)), Some(expected));
        }
    }
    assert_eq!(map.bomb_count(), 1);
    assert_eq!(map.first_empty(), None);
    assert_eq!(map.bomb_count_at(at(0, 0)), 1);
    assert_eq!(map.bomb_count_at(at(1, 1)), 0);
    assert_eq!(map.bomb_count_at(at(7, 7)), 0);
    assert!(map.is_bomb_at(at(1, 1)));
    assert!(!map.is_bomb_at(at(0, 0)));
    assert!(!map.is_bomb_at(at(3, 3)));
}

#[test]
fn counts_add_up_where_bombs_meet() {
    let mut map = TileMap::empty(4, 4).unwrap();
    let bombs = vec![at(0, 0), at(2, 0), at(0, 2), at(2, 2), at(1, 0), at(0, 1), at(2, 1), at(1, 2)];
    assert_eq!(map.place_bombs(&bombs), Ok(()));
    assert_eq!(map.get(at(1, 1)), Some(Tile::BombNeighbor(8)));
    assert_eq!(map.get(at(3, 0)), Some(Tile::BombNeighbor(2)));
    assert_eq!(map.get(at(3, 1)), Some(Tile::BombNeighbor(3)));
    assert_eq!(map.get(at(3, 3)), Some(Tile::BombNeighbor(1)));
    assert_eq!(map.get(at(0, 3)), Some(Tile::BombNeighbor(2)));
    assert_eq!(map.bomb_count(), 8);
    assert_eq!(map.first_empty(), None);
    assert_consistent(&map);
}

#[test]
fn first_empty_follows_reading_order() {
    let mut map = TileMap::empty(4, 3).unwrap();
    assert_eq!(map.place_bombs(&vec![at(0, 0)]), Ok(()));
    assert_eq!(map.first_empty(), Some(at(2, 0)));
    assert_eq!(map.place_bombs(&vec![at(0, 0), at(3, 0)]), Ok(()));
    assert_eq!(map.first_empty(), Some(at(0, 2)));
    assert_eq!(map.place_bombs(&vec![at(1, 1)]), Ok(()));
    assert_eq!(map.first_empty(), Some(at(3, 0)));
}

#[test]
fn placing_bombs_replaces_earlier_ones() {
    let mut map = TileMap::empty(3, 3).unwrap();
    assert_eq!(map.place_bombs(&vec![at(0, 0), at(0, 0), at(2, 2)]), Ok(()));
    assert_eq!(map.bomb_count(), 2);
    assert_eq!(map.place_bombs(&vec![at(1, 1)]), Ok(()));
    assert_eq!(map.bomb_count(), 1);
    assert_eq!(map.get(at(0, 0)), Some(Tile::BombNeighbor(1)));
    assert_eq!(map.place_bombs(&vec![]), Ok(()));
    assert_eq!(map.bomb_count(), 0);
    assert_eq!(map.get(at(1, 1)), Some(Tile::Empty));
}

#[test]
fn bomb_outside_the_grid_is_refused() {
    let mut map = TileMap::empty(3, 2).unwrap();
    assert_eq!(map.place_bombs(&vec![at(1, 1)]), Ok(()));
    assert_eq!(map.place_bombs(&vec![at(0, 0), at(3, 0)]), Err(ConfigError::OutsideGrid));
    assert_eq!(map.place_bombs(&vec![at(0, 2)]), Err(ConfigError::OutsideGrid));
    assert_eq!(map.bomb_count(), 1);
    assert_eq!(map.get(at(1, 1)), Some(Tile::Bomb));
    assert_eq!(map.get(at(0, 0)), Some(Tile::BombNeighbor(1)));
}

#[test]
fn every_bomb_count_in_range_is_laid_exactly() {
    for count in 0..=12u32 {
        let mut map = TileMap::empty(4, 3).unwrap();
        assert_eq!(map.set_bombs(count), Ok(()));
        assert_eq!(map.bomb_count(), count);
        let mut seen = 0;
        for y in 0..3 {
            for x in 0..4 {
                if map.get(at(x, y)) == Some(Tile::Bomb) {
                    seen += 1;
                }
            }
        }
        assert_eq!(seen, count);
        assert_consistent(&map);
    }
}

#[test]
fn more_bombs_than_cells_are_refused() {
    let mut map = TileMap::empty(4, 3).unwrap();
    assert_eq!(map.place_bombs(&vec![at(2, 1)]), Ok(()));
    assert_eq!(map.set_bombs(13), Err(ConfigError::TooManyBombs));
    assert_eq!(map.set_bombs(u32::MAX), Err(ConfigError::TooManyBombs));
    assert_eq!(map.bomb_count(), 1);
    assert_eq!(map.get(at(2, 1)), Some(Tile::Bomb));
}

#[test]
fn full_grid_of_bombs() {
    let mut map = TileMap::empty(3, 3).unwrap();
    assert_eq!(map.set_bombs(9), Ok(()));
    for y in 0..3 {
        for x in 0..3 {
            assert_eq!(map.get(at(x, y)), Some(Tile::Bomb));
        }
    }
    assert_eq!(map.first_empty(), None);
}

#[test]
fn setting_bombs_again_lays_them_anew() {
    let mut map = TileMap::empty(5, 5).unwrap();
    assert_eq!(map.set_bombs(20), Ok(()));
    assert_eq!(map.set_bombs(3), Ok(()));
    assert_eq!(map.bomb_count(), 3);
    assert_consistent(&map);
}

#[test]
fn generated_maps_count_their_neighbors() {
    for round in 0..20u32 {
        let mut map = TileMap::empty(12, 9).unwrap();
        assert_eq!(map.set_bombs(5 + round * 4), Ok(()));
        assert_eq!(map.bomb_count(), 5 + round * 4);
        assert_consistent(&map);
    }
}

#[test]
fn sampled_cells_are_distinct_cells_of_the_grid() {
    for count in [0u32, 1, 7, 29, 30] {
        let cells = sample_cells(6, 5, count);
        assert_eq!(cells.len() as u32, count);
        for (i, c) in cells.iter().enumerate() {
            assert!(c.x < 6 && c.y < 5);
            for d in &cells[..i] {
                assert_ne!(c, d);
            }
        }
    }
}

#[test]
fn sampling_reaches_every_cell() {
    let mut hit = [false; 6];
    for _ in 0..400 {
        let cells = sample_cells(3, 2, 1);
        hit[(cells[0].y * 3 + cells[0].x) as usize] = true;
    }
    assert!(hit.iter().all(|h| *h));
}
