// Legal-move computation with its exclusion rule, and direct move
// application with region integrity.

use territory::apply_move;
use territory::legal_moves;
use territory::recolor_region;
use territory::resolve_territory;
use territory::Player;
use territory::Tile;

fn board(pattern: &[char]) -> Vec<Tile> {
    pattern
        .iter()
        .map(|ch| match ch {
            'R' => Tile::Red,
            'G' => Tile::Green,
            'B' => Tile::Blue,
            'Y' => Tile::Yellow,
            _ => Tile::Undef,
        })
        .collect()
}

// Row 0 red, checkerboard below; Player Two's home holds Green. Green is
// a frontier candidate for One but the exclusion rule strikes it, so only
// Blue is legal for One.
#[test]
fn exclusion_rule_strikes_opponent_home_color() {
    let tiles = board(&[
        'R', 'R', 'R', 'R', //
        'B', 'G', 'B', 'G', //
        'G', 'B', 'G', 'B', //
        'B', 'G', 'B', 'G',
    ]);
    let owners = resolve_territory(4, 4, &tiles, 0, 15);
    let lm = legal_moves(4, 4, &tiles, &owners, 0, 15);
    assert!(!lm.one.contains(Tile::Green));
    assert!(lm.one.contains(Tile::Blue));
    assert!(!lm.one.contains(Tile::Red));
    assert!(!lm.one.contains(Tile::Yellow));
    assert!(!lm.one.contains(Tile::Undef));
    // Two's frontier sees only Blue neighbors; Red (One's home color)
    // would be struck if it were a candidate.
    assert!(lm.two.contains(Tile::Blue));
    assert!(!lm.two.contains(Tile::Red));
    assert!(!lm.two.contains(Tile::Green));
}

// Applying a legal move recolors exactly the acting player's connected
// same-color region and nothing else.
#[test]
fn apply_move_recolors_exactly_the_region() {
    let mut tiles = board(&[
        'R', 'R', 'R', 'R', //
        'B', 'G', 'B', 'G', //
        'G', 'B', 'G', 'B', //
        'B', 'G', 'B', 'G',
    ]);
    let before = tiles.clone();
    let r = apply_move(Player::One, 4, 4, &mut tiles, 0, 15, Tile::Blue);
    assert!(r.is_ok());
    // The pre-move region of home One was row 0.
    for c in 0..4 {
        assert_eq!(tiles[c], Tile::Blue);
    }
    for i in 4..16 {
        assert_eq!(tiles[i], before[i]);
    }
}

// An illegal selection (the excluded color) is refused and the board is
// untouched.
#[test]
fn apply_move_refuses_illegal_color() {
    let mut tiles = board(&[
        'R', 'R', 'R', 'R', //
        'B', 'G', 'B', 'G', //
        'G', 'B', 'G', 'B', //
        'B', 'G', 'B', 'G',
    ]);
    let before = tiles.clone();
    let r = apply_move(Player::One, 4, 4, &mut tiles, 0, 15, Tile::Green);
    assert!(r.is_err());
    assert_eq!(tiles, before);
    // A color nowhere on the frontier is refused too.
    let r2 = apply_move(Player::One, 4, 4, &mut tiles, 0, 15, Tile::Yellow);
    assert!(r2.is_err());
    assert_eq!(tiles, before);
}

// The raw move resolver recolors the region judged against the colors as
// they stood when the move began, not mid-recolor.
#[test]
fn recolor_region_uses_premove_colors() {
    let mut tiles = board(&[
        'R', 'B', //
        'B', 'G',
    ]);
    recolor_region(2, 2, &mut tiles, 0, Tile::Blue);
    // Only the home cell was red; the blue cells were not part of the
    // pre-move region even though they match the new color.
    assert_eq!(tiles, board(&['B', 'B', 'B', 'G']));
    // A second recolor now grows from the merged blue region.
    recolor_region(2, 2, &mut tiles, 0, Tile::Green);
    assert_eq!(tiles, board(&['G', 'G', 'G', 'G']));
}

// A player whose territory is fully walled in by the excluded color has
// no legal move.
#[test]
fn walled_in_player_has_empty_legal_set() {
    let tiles = board(&[
        'B', 'B', 'B', 'R', //
        'B', 'B', 'B', 'B', //
        'B', 'B', 'B', 'B', //
        'B', 'B', 'B', 'G',
    ]);
    let owners = resolve_territory(4, 4, &tiles, 0, 15);
    let lm = legal_moves(4, 4, &tiles, &owners, 0, 15);
    // Two's only frontier color is Blue, which One's home holds.
    assert!(lm.two.is_empty());
    // One still has the red cell on its frontier; Green, Two's home
    // color, is excluded for One.
    assert!(!lm.one.is_empty());
    assert!(lm.one.contains(Tile::Red));
    assert!(!lm.one.contains(Tile::Green));
}
