//! Monochromatic reachability: the specification-level meaning of
//! territory.
//!
//! A player's territory is the maximal connected region of cells holding
//! the player's home color that is reachable from the home cell without
//! crossing a color boundary. `reach_within` is the bounded-length form of
//! that reachability, which also measures the same-color path distance
//! used by the resolver's tie-break.

use vstd::prelude::*;

use crate::grid::adjacent;
use crate::player::Player;
use crate::tile::Tile;

verus! {

/// There is a path of length at most `d` from `src` to `dst` whose every
/// cell (including `dst` and, trivially, `src`) holds `src`'s color.
pub open spec fn reach_within(
    width: int,
    height: int,
    tiles: Seq<Tile>,
    src: int,
    dst: int,
    d: nat,
) -> bool
    decreases d,
{
    &&& 0 <= dst < width * height
    &&& tiles[dst] == tiles[src]
    &&& (dst == src || (d > 0 && exists|j: int|
        adjacent(width, height, j, dst) && reach_within(
            width,
            height,
            tiles,
            src,
            j,
            (d - 1) as nat,
        )))
}

/// `dst` is in `src`'s monochromatic region: reachable by a same-color
/// path of some length.
pub open spec fn in_region(width: int, height: int, tiles: Seq<Tile>, src: int, dst: int) -> bool {
    exists|d: nat| reach_within(width, height, tiles, src, dst, d)
}

/// Reachability within `d` steps implies reachability within any larger
/// bound.
pub proof fn lemma_reach_monotone(
    width: int,
    height: int,
    tiles: Seq<Tile>,
    src: int,
    dst: int,
    d1: nat,
    d2: nat,
)
    requires
        reach_within(width, height, tiles, src, dst, d1),
        d1 <= d2,
    ensures
        reach_within(width, height, tiles, src, dst, d2),
    decreases d1,
{
    if dst != src {
        let j = choose|j: int|
            adjacent(width, height, j, dst) && reach_within(
                width,
                height,
                tiles,
                src,
                j,
                (d1 - 1) as nat,
            );
        lemma_reach_monotone(width, height, tiles, src, j, (d1 - 1) as nat, (d2 - 1) as nat);
    }
}

/// A reachable cell's same-color neighbors are reachable in one more step.
pub proof fn lemma_reach_step(
    width: int,
    height: int,
    tiles: Seq<Tile>,
    src: int,
    dst: int,
    next: int,
    d: nat,
)
    requires
        reach_within(width, height, tiles, src, dst, d),
        adjacent(width, height, dst, next),
        tiles[next] == tiles[src],
    ensures
        reach_within(width, height, tiles, src, next, d + 1),
{
    crate::grid::lemma_adjacent_symmetric(width, height, dst, next);
}

/// The owner the territory resolver must assign to each cell, as a pure
/// function of the board: `One` when Player One's home reaches the cell by
/// a same-color path no longer than any such path from Player Two's home,
/// `Two` when Player Two's home reaches it strictly sooner, and `Undef`
/// when neither home reaches it.
pub open spec fn owned_by_one(
    width: int,
    height: int,
    tiles: Seq<Tile>,
    home_one: int,
    home_two: int,
    i: int,
) -> bool {
    exists|d: nat|
        reach_within(width, height, tiles, home_one, i, d) && (d == 0 || !reach_within(
            width,
            height,
            tiles,
            home_two,
            i,
            (d - 1) as nat,
        ))
}

pub open spec fn owned_by_two(
    width: int,
    height: int,
    tiles: Seq<Tile>,
    home_one: int,
    home_two: int,
    i: int,
) -> bool {
    exists|d: nat|
        reach_within(width, height, tiles, home_two, i, d) && !reach_within(
            width,
            height,
            tiles,
            home_one,
            i,
            d,
        )
}

/// The owner of cell `i` once territory is resolved.
pub open spec fn owner_spec(
    width: int,
    height: int,
    tiles: Seq<Tile>,
    home_one: int,
    home_two: int,
    i: int,
) -> Player {
    if owned_by_one(width, height, tiles, home_one, home_two, i) {
        Player::One
    } else if owned_by_two(width, height, tiles, home_one, home_two, i) {
        Player::Two
    } else {
        Player::Undef
    }
}

/// The full resolved ownership map of the board.
pub open spec fn owner_seq(
    width: int,
    height: int,
    tiles: Seq<Tile>,
    home_one: int,
    home_two: int,
) -> Seq<Player> {
    Seq::new((width * height) as nat, |i: int| owner_spec(width, height, tiles, home_one, home_two, i))
}

/// A cell reached by either home's same-color region is owned by one of
/// the two players, never left `Undef`.
pub proof fn lemma_reached_is_owned(
    width: int,
    height: int,
    tiles: Seq<Tile>,
    home_one: int,
    home_two: int,
    i: int,
    d: nat,
)
    requires
        reach_within(width, height, tiles, home_one, i, d) || reach_within(
            width,
            height,
            tiles,
            home_two,
            i,
            d,
        ),
    ensures
        owner_spec(width, height, tiles, home_one, home_two, i) != Player::Undef,
    decreases d,
{
    if reach_within(width, height, tiles, home_one, i, d) {
        if d == 0 || !reach_within(width, height, tiles, home_two, i, (d - 1) as nat) {
            assert(owned_by_one(width, height, tiles, home_one, home_two, i));
        } else {
            lemma_reached_is_owned(width, height, tiles, home_one, home_two, i, (d - 1) as nat);
        }
    } else {
        assert(owned_by_two(width, height, tiles, home_one, home_two, i));
    }
}

} // verus!
