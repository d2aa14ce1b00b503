// The seeded color assignment and the small palette conversions.

use territory::Player;
use territory::Tile;

// Exact values of the mixing formula on the classic 14x7 board.
#[test]
fn seeded_tiles_exact_values() {
    let seed: u64 = 0xabf8f1afb5;
    assert_eq!(Tile::from_row_and_column(0, 0, 14, 7, seed), Tile::Red);
    assert_eq!(Tile::from_row_and_column(6, 13, 14, 7, seed), Tile::Blue);
    assert_eq!(Tile::from_row_and_column(3, 7, 14, 7, seed), Tile::Green);
}

// The seeded assignment is deterministic and never yields Undef.
#[test]
fn seeded_tiles_deterministic_and_real() {
    for r in 0..7 {
        for c in 0..14 {
            let a = Tile::from_row_and_column(r, c, 14, 7, 0xabf8f1afb5);
            let b = Tile::from_row_and_column(r, c, 14, 7, 0xabf8f1afb5);
            assert_eq!(a, b);
            assert_ne!(a, Tile::Undef);
        }
    }
}

// The two home corners never share a color, whatever the seed.
#[test]
fn seeded_corners_always_differ() {
    for seed in [0u64, 1, 7, 42, 0xabf8f1afb5, u64::MAX] {
        for (w, h) in [(2usize, 2usize), (4, 4), (14, 7), (5, 9)] {
            let a = Tile::from_row_and_column(0, 0, w, h, seed);
            let b = Tile::from_row_and_column(h - 1, w - 1, w, h, seed);
            assert_ne!(a, b, "seed {} {}x{}", seed, w, h);
        }
    }
}

#[test]
fn tile_indices() {
    assert_eq!(Tile::Undef.index(), 0);
    assert_eq!(Tile::Red.index(), 1);
    assert_eq!(Tile::Green.index(), 2);
    assert_eq!(Tile::Blue.index(), 3);
    assert_eq!(Tile::Yellow.index(), 4);
}

#[test]
fn player_indices_and_opponents() {
    assert_eq!(Player::Undef.index(), 0);
    assert_eq!(Player::One.index(), 1);
    assert_eq!(Player::Two.index(), 2);
    assert_eq!(Player::from_index(0), Player::Undef);
    assert_eq!(Player::from_index(1), Player::One);
    assert_eq!(Player::from_index(2), Player::Two);
    assert_eq!(Player::from_index(4), Player::One);
    assert_eq!(Player::One.other(), Player::Two);
    assert_eq!(Player::Two.other(), Player::One);
    assert_eq!(Player::Undef.other(), Player::Undef);
}
