//! The engine's global laws, stated and proved over the same
//! specification functions that the executable functions' contracts use.

use vstd::prelude::*;
use vstd::set_lib::set_int_range;

use crate::legal::excluded_home;
use crate::legal::legal_spec;
use crate::moves::recolored;
use crate::player::Player;
use crate::reach::in_region;
use crate::reach::owner_seq;
use crate::reach::owner_spec;
use crate::reach::reach_within;
use crate::tile::Tile;

verus! {

/// The cells the resolver assigns to `p`.
pub open spec fn cells_of(
    width: int,
    height: int,
    tiles: Seq<Tile>,
    home_one: int,
    home_two: int,
    p: Player,
) -> Set<int> {
    Set::new(
        |i: int|
            0 <= i < width * height && owner_spec(width, height, tiles, home_one, home_two, i)
                == p,
    )
}

/// Ownership totality: territory resolution assigns every cell exactly
/// one of Player One, Player Two or no one — the three classes are
/// pairwise disjoint and together cover the whole board.
pub proof fn lemma_ownership_totality(
    width: int,
    height: int,
    tiles: Seq<Tile>,
    home_one: int,
    home_two: int,
)
    ensures
        cells_of(width, height, tiles, home_one, home_two, Player::One).union(
            cells_of(width, height, tiles, home_one, home_two, Player::Two),
        ).union(cells_of(width, height, tiles, home_one, home_two, Player::Undef)) =~= set_int_range(
            0,
            width * height,
        ),
        cells_of(width, height, tiles, home_one, home_two, Player::One).intersect(
            cells_of(width, height, tiles, home_one, home_two, Player::Two),
        ) =~= Set::empty(),
        cells_of(width, height, tiles, home_one, home_two, Player::One).intersect(
            cells_of(width, height, tiles, home_one, home_two, Player::Undef),
        ) =~= Set::empty(),
        cells_of(width, height, tiles, home_one, home_two, Player::Two).intersect(
            cells_of(width, height, tiles, home_one, home_two, Player::Undef),
        ) =~= Set::empty(),
{
}

/// Tie-break determinism: a cell whose same-color path distance from
/// both homes is exactly `d` is assigned to Player One. Because
/// `resolve_territory` always returns exactly `owner_seq`, every call on
/// unchanged input assigns such a cell to Player One.
pub proof fn lemma_tie_break(
    width: int,
    height: int,
    tiles: Seq<Tile>,
    home_one: int,
    home_two: int,
    i: int,
    d: nat,
)
    requires
        reach_within(width, height, tiles, home_one, i, d),
        reach_within(width, height, tiles, home_two, i, d),
        d > 0 ==> !reach_within(width, height, tiles, home_one, i, (d - 1) as nat),
        d > 0 ==> !reach_within(width, height, tiles, home_two, i, (d - 1) as nat),
    ensures
        owner_spec(width, height, tiles, home_one, home_two, i) == Player::One,
{
    assert(crate::reach::owned_by_one(width, height, tiles, home_one, home_two, i));
}

/// Region integrity: after a move, every cell of the acting player's
/// pre-move connected same-color region holds the chosen color, and no
/// cell outside that region changed color. `recolor_region` and
/// `apply_move` return exactly this board.
pub proof fn lemma_region_integrity(
    width: int,
    height: int,
    tiles: Seq<Tile>,
    home: int,
    chosen: Tile,
)
    ensures
        forall|i: int|
            0 <= i < tiles.len() && in_region(width, height, tiles, home, i) ==> recolored(
                width,
                height,
                tiles,
                home,
                chosen,
            )[i] == chosen,
        forall|i: int|
            0 <= i < tiles.len() && !in_region(width, height, tiles, home, i) ==> recolored(
                width,
                height,
                tiles,
                home,
                chosen,
            )[i] == tiles[i],
{
}

/// The exclusion rule: a player's legal-move set never contains the
/// color currently held by the other player's home cell.
pub proof fn lemma_exclusion_rule(
    width: int,
    height: int,
    tiles: Seq<Tile>,
    owners: Seq<Player>,
    home_one: int,
    home_two: int,
    p: Player,
)
    ensures
        forall|c: Tile|
            legal_spec(width, height, tiles, owners, home_one, home_two, p, c) ==> c != tiles[
                excluded_home(home_one, home_two, p)
            ],
{
}

/// Idempotence of resolution: territory resolution is a pure function
/// of the board, so two resolutions of an unchanged board are
/// identical. `resolve_territory` ensures its result equals
/// `owner_seq`, so any two of its results on the same input satisfy
/// this law's premises.
pub proof fn lemma_resolution_idempotent(
    width: int,
    height: int,
    tiles: Seq<Tile>,
    home_one: int,
    home_two: int,
    first: Seq<Player>,
    second: Seq<Player>,
)
    requires
        first == owner_seq(width, height, tiles, home_one, home_two),
        second == owner_seq(width, height, tiles, home_one, home_two),
    ensures
        first == second,
{
}

/// Home cells are always owned by their respective players once the
/// game has started: each home is at distance zero from itself, and the
/// other home, being a different cell, can never claim it sooner.
pub proof fn lemma_homes_owned(
    width: int,
    height: int,
    tiles: Seq<Tile>,
    home_one: int,
    home_two: int,
)
    requires
        0 <= home_one < width * height,
        0 <= home_two < width * height,
        home_one != home_two,
    ensures
        owner_spec(width, height, tiles, home_one, home_two, home_one) == Player::One,
        owner_spec(width, height, tiles, home_one, home_two, home_two) == Player::Two,
{
    assert(reach_within(width, height, tiles, home_one, home_one, 0));
    assert(crate::reach::owned_by_one(width, height, tiles, home_one, home_two, home_one));
    assert(reach_within(width, height, tiles, home_two, home_two, 0));
    if crate::reach::owned_by_one(width, height, tiles, home_one, home_two, home_two) {
        let d = choose|d: nat|
            reach_within(width, height, tiles, home_one, home_two, d) && (d == 0
                || !reach_within(width, height, tiles, home_two, home_two, (d - 1) as nat));
        if d == 0 {
            assert(home_two == home_one);
        } else {
            crate::reach::lemma_reach_monotone(
                width,
                height,
                tiles,
                home_two,
                home_two,
                0,
                (d - 1) as nat,
            );
        }
        assert(false);
    }
    assert(crate::reach::owned_by_two(width, height, tiles, home_one, home_two, home_two));
}

} // verus!
