//! Derived per-player statistics: cell counts and legal-move sets.
//!
//! These are never authoritative state; they are recomputed from the
//! ownership map, the tile colors and the adjacency graph each time they
//! are consumed.

use vstd::prelude::*;

use crate::grid::grid_ok;
use crate::legal::legal_moves;
use crate::legal::legal_spec;
use crate::legal::LegalMoves;
use crate::player::Player;
use crate::tile::Tile;

verus! {

/// How many cells of `owners` the player `p` owns.
pub open spec fn count_owned(owners: Seq<Player>, p: Player) -> int
    decreases owners.len(),
{
    if owners.len() == 0 {
        0
    } else {
        count_owned(owners.drop_last(), p) + if owners.last() == p {
            1int
        } else {
            0int
        }
    }
}

/// Count the cells player `p` owns.
pub fn count_cells(owners: &Vec<Player>, p: Player) -> (r: usize)
    ensures
        r == count_owned(owners@, p),
{
    let mut r: usize = 0;
    let mut i: usize = 0;
    while i < owners.len()
        invariant
            i <= owners@.len(),
            r == count_owned(owners@.take(i as int), p),
            r <= i,
        decreases owners@.len() - i,
    {
        proof {
            assert(owners@.take(i as int + 1).drop_last() =~= owners@.take(i as int));
            assert(owners@.take(i as int + 1).last() == owners@[i as int]);
        }
        if owners[i] == p {
            r = r + 1;
        }
        i = i + 1;
    }
    proof {
        assert(owners@.take(owners@.len() as int) =~= owners@);
    }
    r
}

/// The ephemeral per-turn statistics: how many cells each player owns,
/// and which colors each may pick this turn.
#[derive(Clone, Copy, Debug, PartialEq, Eq, Structural)]
pub struct PlayerStats {
    pub count_one: usize,
    pub count_two: usize,
    pub legal: LegalMoves,
}

/// Compute both players' statistics from the given ownership map and
/// board.
pub fn player_stats(
    width: usize,
    height: usize,
    tiles: &Vec<Tile>,
    owners: &Vec<Player>,
    home_one: usize,
    home_two: usize,
) -> (s: PlayerStats)
    requires
        grid_ok(width as int, height as int),
        tiles@.len() == width * height,
        owners@.len() == width * height,
        home_one < width * height,
        home_two < width * height,
    ensures
        s.count_one == count_owned(owners@, Player::One),
        s.count_two == count_owned(owners@, Player::Two),
        forall|c: Tile| #[trigger] s.legal.one.spec_contains(c) == legal_spec(
            width as int,
            height as int,
            tiles@,
            owners@,
            home_one as int,
            home_two as int,
            Player::One,
            c,
        ),
        forall|c: Tile| #[trigger] s.legal.two.spec_contains(c) == legal_spec(
            width as int,
            height as int,
            tiles@,
            owners@,
            home_one as int,
            home_two as int,
            Player::Two,
            c,
        ),
{
    let count_one = count_cells(owners, Player::One);
    let count_two = count_cells(owners, Player::Two);
    let legal = legal_moves(width, height, tiles, owners, home_one, home_two);
    PlayerStats { count_one, count_two, legal }
}

} // verus!
