// The turn state machine driven end to end: setup, selections, turn
// handover, victory and its finality, and the derived statistics.

use territory::initialize;
use territory::ConfigurationError;
use territory::Game;
use territory::InvariantViolation;
use territory::MoveSelection;
use territory::Player;
use territory::SetupError;
use territory::Tile;
use territory::TurnState;

fn board(pattern: &[char]) -> Vec<Tile> {
    pattern
        .iter()
        .map(|ch| match ch {
            'R' => Tile::Red,
            'G' => Tile::Green,
            'B' => Tile::Blue,
            'Y' => Tile::Yellow,
            _ => Tile::Undef,
        })
        .collect()
}

#[test]
fn first_advance_starts_player_one() {
    let mut g = Game::new(
        4,
        4,
        board(&[
            'R', 'R', 'R', 'R', //
            'B', 'G', 'B', 'G', //
            'G', 'B', 'G', 'B', //
            'B', 'G', 'B', 'G',
        ]),
    )
    .unwrap();
    assert_eq!(g.turn(), TurnState::Init);
    let t = g.advance(None);
    assert_eq!(t, TurnState::WaitingForMove(Player::One));
    assert_eq!(g.moves_resolved(), 0);
}

// Selecting the color of the opponent's home cell was excluded from the
// legal set: the selection is silently ignored and nothing changes.
#[test]
fn selecting_opponent_home_color_is_ignored() {
    let mut g = Game::new(
        4,
        4,
        board(&[
            'R', 'R', 'R', 'R', //
            'B', 'G', 'B', 'G', //
            'G', 'B', 'G', 'B', //
            'B', 'G', 'B', 'G',
        ]),
    )
    .unwrap();
    g.advance(None);
    let lm = g.legal_now();
    assert!(!lm.one.contains(Tile::Green));
    let tiles_before = g.tiles().clone();
    let t = g.advance(Some(MoveSelection { player: Player::One, tile: Tile::Green }));
    assert_eq!(t, TurnState::WaitingForMove(Player::One));
    assert_eq!(g.tiles(), &tiles_before);
    assert_eq!(g.moves_resolved(), 0);
}

// A selection by the player whose turn it is not is ignored too.
#[test]
fn selection_by_wrong_player_is_ignored() {
    let mut g = Game::new(
        4,
        4,
        board(&[
            'R', 'R', 'R', 'R', //
            'B', 'G', 'B', 'G', //
            'G', 'B', 'G', 'B', //
            'B', 'G', 'B', 'G',
        ]),
    )
    .unwrap();
    g.advance(None);
    let t = g.advance(Some(MoveSelection { player: Player::Two, tile: Tile::Blue }));
    assert_eq!(t, TurnState::WaitingForMove(Player::One));
    assert_eq!(g.moves_resolved(), 0);
}

// One's move floods the whole board except Two's home; Two is left
// without a legal move and the same advance call ends in victory.
#[test]
fn capturing_everything_wins_immediately() {
    let mut g = Game::new(
        4,
        4,
        board(&[
            'R', 'B', 'B', 'B', //
            'B', 'B', 'B', 'B', //
            'B', 'B', 'B', 'B', //
            'B', 'B', 'B', 'G',
        ]),
    )
    .unwrap();
    g.advance(None);
    let t = g.advance(Some(MoveSelection { player: Player::One, tile: Tile::Blue }));
    assert_eq!(t, TurnState::Victory(Player::One));
    assert_eq!(g.moves_resolved(), 1);
}

// Victory is terminal: no further advance call changes anything.
#[test]
fn victory_is_final() {
    let mut g = Game::new(
        4,
        4,
        board(&[
            'R', 'B', 'B', 'B', //
            'B', 'B', 'B', 'B', //
            'B', 'B', 'B', 'B', //
            'B', 'B', 'B', 'G',
        ]),
    )
    .unwrap();
    g.advance(None);
    g.advance(Some(MoveSelection { player: Player::One, tile: Tile::Blue }));
    assert_eq!(g.turn(), TurnState::Victory(Player::One));
    let tiles_before = g.tiles().clone();
    let moves_before: u64 = g.moves_resolved();
    assert_eq!(g.advance(None), TurnState::Victory(Player::One));
    assert_eq!(
        g.advance(Some(MoveSelection { player: Player::Two, tile: Tile::Yellow })),
        TurnState::Victory(Player::One),
    );
    assert_eq!(
        g.advance(Some(MoveSelection { player: Player::One, tile: Tile::Red })),
        TurnState::Victory(Player::One),
    );
    assert_eq!(g.turn(), TurnState::Victory(Player::One));
    assert_eq!(g.tiles(), &tiles_before);
    assert_eq!(g.moves_resolved(), moves_before);
}

// One's first move captures exactly the two blue cells; One's count
// rises by exactly that many, and Two's count is unchanged since no
// Two-owned cell touches the captured region. The turn passes to Two,
// who still has a move.
#[test]
fn capture_count_matches_captured_cells() {
    let mut g = Game::new(
        4,
        4,
        board(&[
            'R', 'B', 'G', 'Y', //
            'B', 'G', 'Y', 'G', //
            'G', 'Y', 'G', 'Y', //
            'Y', 'G', 'Y', 'G',
        ]),
    )
    .unwrap();
    g.advance(None);
    let before = g.stats();
    assert_eq!(before.count_one, 1);
    assert_eq!(before.count_two, 1);
    assert!(before.legal.one.contains(Tile::Blue));
    let t = g.advance(Some(MoveSelection { player: Player::One, tile: Tile::Blue }));
    assert_eq!(t, TurnState::WaitingForMove(Player::Two));
    let after = g.stats();
    assert_eq!(after.count_one, 3);
    assert_eq!(after.count_two, 1);
    assert_eq!(g.moves_resolved(), 1);
    assert!(after.legal.two.contains(Tile::Yellow));
}

#[test]
fn initialize_rejects_small_grids() {
    assert_eq!(initialize(1, 5, 7).err(), Some(ConfigurationError::TooSmall));
    assert_eq!(initialize(5, 1, 7).err(), Some(ConfigurationError::TooSmall));
    assert_eq!(initialize(0, 0, 7).err(), Some(ConfigurationError::TooSmall));
}

#[test]
fn initialize_rejects_oversized_grids() {
    assert_eq!(
        initialize(0x1000_0001, 2, 7).err(),
        Some(ConfigurationError::TooLarge),
    );
    assert_eq!(
        initialize(0x4000, 0x4001, 7).err(),
        Some(ConfigurationError::TooLarge),
    );
}

// The seeded setup gives the exact deterministic board, homes at the
// opposite corners with distinct colors, and repeated setup agrees.
#[test]
fn initialize_seeds_deterministic_board() {
    let g = initialize(4, 4, 7).unwrap();
    assert_eq!(g.width(), 4);
    assert_eq!(g.height(), 4);
    assert_eq!(g.home_one(), 0);
    assert_eq!(g.home_two(), 15);
    let expected = board(&[
        'G', 'R', 'B', 'Y', //
        'B', 'Y', 'G', 'R', //
        'B', 'Y', 'G', 'R', //
        'G', 'R', 'B', 'Y',
    ]);
    assert_eq!(g.tiles(), &expected);
    let again = initialize(4, 4, 7).unwrap();
    assert_eq!(again.tiles(), &expected);
    assert_ne!(g.tiles()[0], g.tiles()[15]);
}

#[test]
fn game_new_rejects_corrupted_boards() {
    let wrong_len = Game::new(4, 4, board(&['R', 'G', 'B']));
    assert_eq!(
        wrong_len.err(),
        Some(SetupError::Invariant(InvariantViolation::WrongCellCount)),
    );

    let mut with_undef = board(&[
        'R', 'R', 'R', 'R', //
        'B', 'G', 'B', 'G', //
        'G', 'B', 'G', 'B', //
        'B', 'G', 'B', 'G',
    ]);
    with_undef[5] = Tile::Undef;
    assert_eq!(
        Game::new(4, 4, with_undef).err(),
        Some(SetupError::Invariant(InvariantViolation::UndefinedColor)),
    );

    let same_homes = board(&[
        'R', 'G', 'B', 'R', //
        'G', 'B', 'R', 'G', //
        'B', 'R', 'G', 'B', //
        'R', 'G', 'B', 'R',
    ]);
    assert_eq!(
        Game::new(4, 4, same_homes).err(),
        Some(SetupError::Invariant(InvariantViolation::HomesShareColor)),
    );

    let tiny = Game::new(1, 4, board(&['R', 'G', 'B', 'Y']));
    assert_eq!(
        tiny.err(),
        Some(SetupError::Config(ConfigurationError::TooSmall)),
    );
}
