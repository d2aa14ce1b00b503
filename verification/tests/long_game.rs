// A longer run on the classic seeded 14x7 board: players greedily pick
// the first legal color each turn; after every step the board invariants
// that the engine promises are checked from outside.

use territory::initialize;
use territory::MoveSelection;
use territory::Player;
use territory::Tile;
use territory::TurnState;

#[test]
fn greedy_play_keeps_engine_invariants() {
    let mut g = initialize(14, 7, 0xabf8f1afb5).unwrap();
    let n = 14 * 7;
    g.advance(None);
    let mut steps: usize = 0;
    loop {
        let owners = g.ownership();
        assert_eq!(owners.len(), n);
        // Homes are always owned by their players.
        assert_eq!(owners[0], Player::One);
        assert_eq!(owners[n - 1], Player::Two);
        // Every cell has exactly one owner value, and counts add up.
        let stats = g.stats();
        let one: usize = owners.iter().filter(|p| **p == Player::One).count();
        let two: usize = owners.iter().filter(|p| **p == Player::Two).count();
        assert_eq!(stats.count_one, one);
        assert_eq!(stats.count_two, two);
        assert!(one + two <= n);
        // The home colors never coincide, and no cell is ever colorless.
        let tiles = g.tiles();
        assert_ne!(tiles[0], tiles[n - 1]);
        assert!(tiles.iter().all(|t| *t != Tile::Undef));
        // Resolution of an unchanged board is reproducible.
        assert_eq!(g.ownership(), owners);

        let p = match g.turn() {
            TurnState::Victory(winner) => {
                assert!(winner == Player::One || winner == Player::Two);
                break;
            }
            TurnState::WaitingForMove(p) => p,
            other => panic!("advance left the game mid-turn: {:?}", other),
        };
        // The waiting player's legal set never holds the opponent's
        // home color, nor the player's own current home color.
        let lm = g.legal_now();
        let set = if p == Player::One { lm.one } else { lm.two };
        let own_home = if p == Player::One { tiles[0] } else { tiles[n - 1] };
        let other_home = if p == Player::One { tiles[n - 1] } else { tiles[0] };
        assert!(!set.contains(other_home));
        assert!(!set.contains(own_home));

        let mut picked = None;
        for t in [Tile::Red, Tile::Green, Tile::Blue, Tile::Yellow] {
            if set.contains(t) {
                picked = Some(t);
                break;
            }
        }
        let tile = picked.expect("a waiting player must have a legal move");
        let counted_before = g.moves_resolved();
        g.advance(Some(MoveSelection { player: p, tile }));
        assert_eq!(g.moves_resolved(), counted_before + 1);
        steps += 1;
        if steps > 500 {
            // Greedy play on this board ends long before this; a runaway
            // loop means the state machine failed to make progress.
            panic!("game did not finish within 500 moves");
        }
    }
    assert!(g.moves_resolved() >= 1);
}
