use minesweeper::tile::Tile;

#[test]
fn only_the_bomb_tile_is_a_bomb() {
    assert!(Tile::Bomb.is_bomb());
    assert!(!Tile::Empty.is_bomb());
    for n in 0..=255u8 {
        assert!(!Tile::BombNeighbor(n).is_bomb());
    }
}

#[test]
fn console_output_with_and_without_colors() {
    colored::control::set_override(true);
    assert_eq!(Tile::Bomb.console_output(), "\u{1b}[91m*\u{1b}[0m");
    assert_eq!(Tile::BombNeighbor(1).console_output(), "\u{1b}[36m1\u{1b}[0m");
    assert_eq!(Tile::BombNeighbor(2).console_output(), "\u{1b}[32m2\u{1b}[0m");
    assert_eq!(Tile::BombNeighbor(3).console_output(), "\u{1b}[33m3\u{1b}[0m");
    assert_eq!(Tile::BombNeighbor(4).console_output(), "\u{1b}[31m4\u{1b}[0m");
    assert_eq!(Tile::BombNeighbor(8).console_output(), "\u{1b}[31m8\u{1b}[0m");
    assert_eq!(Tile::BombNeighbor(0).console_output(), "\u{1b}[31m0\u{1b}[0m");
    assert_eq!(Tile::BombNeighbor(10).console_output(), "\u{1b}[31m10\u{1b}[0m");
    assert_eq!(Tile::BombNeighbor(255).console_output(), "\u{1b}[31m255\u{1b}[0m");
    assert_eq!(Tile::Empty.console_output(), " ");

    colored::control::set_override(false);
    assert_eq!(Tile::Bomb.console_output(), "*");
    assert_eq!(Tile::BombNeighbor(1).console_output(), "1");
    assert_eq!(Tile::BombNeighbor(2).console_output(), "2");
    assert_eq!(Tile::BombNeighbor(3).console_output(), "3");
    assert_eq!(Tile::BombNeighbor(7).console_output(), "7");
    assert_eq!(Tile::BombNeighbor(42).console_output(), "42");
    assert_eq!(Tile::BombNeighbor(100).console_output(), "100");
    assert_eq!(Tile::BombNeighbor(209).console_output(), "209");
    assert_eq!(Tile::Empty.console_output(), " ");
    colored::control::unset_override();
}

#[test]
fn console_output_always_holds_the_glyph() {
    for n in 0..=255u8 {
        let text = Tile::BombNeighbor(n).console_output();
        let digits = n.to_string();
        assert!(text == digits || text.ends_with(&format!("m{}\u{1b}[0m", digits)));
    }
    let bomb = Tile::Bomb.console_output();
    assert!(bomb == "*" || bomb == "\u{1b}[91m*\u{1b}[0m");
    assert_eq!(Tile::Empty.console_output(), " ");
}
