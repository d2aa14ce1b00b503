// Territory resolution: ownership totality, isolation, tie-breaks and
// idempotence on concrete boards.

use territory::resolve_territory;
use territory::Player;
use territory::Tile;

fn board(pattern: &[char]) -> Vec<Tile> {
    pattern
        .iter()
        .map(|ch| match ch {
            'R' => Tile::Red,
            'G' => Tile::Green,
            'B' => Tile::Blue,
            'Y' => Tile::Yellow,
            _ => Tile::Undef,
        })
        .collect()
}

// A 4x4 board where every cell differs from all its neighbors: only the
// two home corners are owned, everything else stays unowned.
#[test]
fn homes_only_when_all_cells_isolated() {
    let tiles = board(&[
        'R', 'G', 'B', 'R', //
        'G', 'B', 'R', 'G', //
        'B', 'R', 'G', 'B', //
        'R', 'G', 'B', 'R',
    ]);
    let owners = resolve_territory(4, 4, &tiles, 0, 15);
    assert_eq!(owners.len(), 16);
    for i in 0..16 {
        let expected = if i == 0 {
            Player::One
        } else if i == 15 {
            Player::Two
        } else {
            Player::Undef
        };
        assert_eq!(owners[i], expected);
    }
}

// Home One's color covers its entire row 0: after resolution all of row 0
// belongs to Player One.
#[test]
fn full_red_row_goes_to_player_one() {
    let tiles = board(&[
        'R', 'R', 'R', 'R', //
        'B', 'G', 'B', 'G', //
        'G', 'B', 'G', 'B', //
        'B', 'G', 'B', 'G',
    ]);
    let owners = resolve_territory(4, 4, &tiles, 0, 15);
    for c in 0..4 {
        assert_eq!(owners[c], Player::One);
    }
    for i in 4..15 {
        assert_eq!(owners[i], Player::Undef);
    }
    assert_eq!(owners[15], Player::Two);
}

// An all-red board: both homes share one region, so every cell goes to
// whichever home is closer by path distance, and the equidistant
// diagonal (distance 3 from each home) goes to Player One.
#[test]
fn equidistant_cells_go_to_player_one() {
    let tiles = board(&[
        'R', 'R', 'R', 'R', //
        'R', 'R', 'R', 'R', //
        'R', 'R', 'R', 'R', //
        'R', 'R', 'R', 'R',
    ]);
    let owners = resolve_territory(4, 4, &tiles, 0, 15);
    for i in 0..16usize {
        let r = i / 4;
        let c = i % 4;
        let expected = if r + c <= 3 { Player::One } else { Player::Two };
        assert_eq!(owners[i], expected, "cell {}", i);
    }
}

// Resolving twice on unchanged input yields identical ownership.
#[test]
fn resolution_is_idempotent() {
    let tiles = board(&[
        'R', 'R', 'B', 'R', //
        'B', 'G', 'B', 'G', //
        'G', 'B', 'G', 'B', //
        'B', 'G', 'B', 'G',
    ]);
    let first = resolve_territory(4, 4, &tiles, 0, 15);
    let second = resolve_territory(4, 4, &tiles, 0, 15);
    assert_eq!(first, second);
}

// Ownership totality on an uneven board: every cell gets exactly one of
// the three values.
#[test]
fn every_cell_has_exactly_one_owner() {
    let tiles = board(&[
        'R', 'G', 'B', //
        'R', 'R', 'B', //
        'G', 'B', 'B',
    ]);
    let owners = resolve_territory(3, 3, &tiles, 0, 8);
    assert_eq!(owners.len(), 9);
    let one: usize = owners.iter().filter(|p| **p == Player::One).count();
    let two: usize = owners.iter().filter(|p| **p == Player::Two).count();
    let unowned: usize = owners.iter().filter(|p| **p == Player::Undef).count();
    assert_eq!(one + two + unowned, 9);
    // Red run: (0,0), (1,0), (1,1) connected.
    assert_eq!(owners[0], Player::One);
    assert_eq!(owners[3], Player::One);
    assert_eq!(owners[4], Player::One);
    // Blue run: (2,2), (2,1), (1,2), (0,2) connected.
    assert_eq!(owners[8], Player::Two);
    assert_eq!(owners[7], Player::Two);
    assert_eq!(owners[5], Player::Two);
    assert_eq!(owners[2], Player::Two);
    assert_eq!(owners[1], Player::Undef);
    assert_eq!(owners[6], Player::Undef);
}
