//! The move resolver: recolor the acting player's connected same-color
//! region.
//!
//! A move traverses, with the same queue machinery as the territory
//! resolver, exactly the cells reachable from the acting player's home
//! by a same-color path — judged against the colors as they stood when
//! the move began — and then recolors all of them at once, so the board
//! never shows a partially recolored region.

use vstd::prelude::*;
use vstd::set_lib::lemma_len_subset;
use vstd::set_lib::set_int_range;
use vstd::set_lib::lemma_int_range;

use std::collections::hash_map::RandomState;
use priority_queue::PriorityQueue;

use crate::errors::IllegalMoveError;
use crate::grid::adjacent;
use crate::grid::grid_ok;
use crate::grid::neighbors;
use crate::legal::legal_moves;
use crate::legal::legal_spec;
use crate::legal::lemma_legal_not_own_home_color;
use crate::player::Player;
use crate::reach::owner_seq;
use crate::territory::resolve_territory;
use crate::pq::pq_contents;
use crate::pq::pq_new;
use crate::pq::pq_pop;
use crate::pq::pq_push;
use crate::reach::in_region;
use crate::reach::reach_within;
use crate::reach::lemma_reach_step;
use crate::tile::Tile;

verus! {

/// The board after recoloring `home`'s region to `chosen`: every cell of
/// the region holds `chosen`, every other cell is unchanged.
pub open spec fn recolored(
    width: int,
    height: int,
    tiles: Seq<Tile>,
    home: int,
    chosen: Tile,
) -> Seq<Tile> {
    Seq::new(
        tiles.len(),
        |i: int|
            if in_region(width, height, tiles, home, i) {
                chosen
            } else {
                tiles[i]
            },
    )
}

/// The traversal's loop invariant: `visited` marks only region cells,
/// every queued cell is an unvisited region cell, and every unvisited
/// same-color neighbor of a visited cell is queued.
pub open spec fn fill_inv(
    width: int,
    height: int,
    tiles: Seq<Tile>,
    home: int,
    visited: Seq<bool>,
    q: Map<u64, u64>,
    vis: Set<int>,
) -> bool {
    let n = width * height;
    &&& visited.len() == n
    &&& q.dom().finite()
    &&& vis.finite()
    &&& vis.len() <= n
    &&& forall|i: int| #![trigger vis.contains(i)] #![trigger visited[i]]
        vis.contains(i) <==> (0 <= i < n && visited[i])
    &&& forall|it: u64| #[trigger] q.dom().contains(it) ==> (it as int) < n && in_region(
        width,
        height,
        tiles,
        home,
        it as int,
    ) && !visited[it as int]
    &&& forall|u: int| 0 <= u < n && #[trigger] visited[u] ==> in_region(
        width,
        height,
        tiles,
        home,
        u,
    )
    &&& forall|u: int, v: int| #![trigger adjacent(width, height, u, v), visited[u]]
        (0 <= u < n && 0 <= v < n && visited[u] && !visited[v] && adjacent(width, height, u, v)
            && tiles[v] == tiles[u]) ==> q.dom().contains(v as u64)
    &&& (visited[home] || q.dom().contains(home as u64))
}

/// While the queue holds work, some unvisited cell of every partially
/// explored same-color path is queued: nothing of the region is lost.
pub proof fn lemma_region_pending(
    width: int,
    height: int,
    tiles: Seq<Tile>,
    home: int,
    visited: Seq<bool>,
    q: Map<u64, u64>,
    vis: Set<int>,
    i: int,
    d: nat,
) -> (it: u64)
    requires
        fill_inv(width, height, tiles, home, visited, q, vis),
        0 <= home < width * height,
        reach_within(width, height, tiles, home, i, d),
        !visited[i],
    ensures
        q.dom().contains(it),
    decreases d,
{
    if i == home {
        home as u64
    } else {
        let j = choose|j: int|
            adjacent(width, height, j, i) && reach_within(
                width,
                height,
                tiles,
                home,
                j,
                (d - 1) as nat,
            );
        if visited[j] {
            i as u64
        } else {
            lemma_region_pending(width, height, tiles, home, visited, q, vis, j, (d - 1) as nat)
        }
    }
}

/// Recolor the acting player's entire currently connected same-color
/// region — every cell reachable from `home` by a path of cells holding
/// `home`'s current color — to `chosen`, leaving all other cells
/// untouched.
///
/// The chosen color must differ from the home's current color; the
/// legal-move calculator never offers the current color, so a caller
/// that plays only legal moves meets this.
pub fn recolor_region(
    width: usize,
    height: usize,
    tiles: &mut Vec<Tile>,
    home: usize,
    chosen: Tile,
)
    requires
        grid_ok(width as int, height as int),
        old(tiles)@.len() == width * height,
        home < width * height,
        chosen != old(tiles)@[home as int],
    ensures
        final(tiles)@ == recolored(
            width as int,
            height as int,
            old(tiles)@,
            home as int,
            chosen,
        ),
{
    let ghost wi: int = width as int;
    let ghost hi: int = height as int;
    let ghost n_int: int = wi * hi;
    let ghost t0: Seq<Tile> = tiles@;
    let ghost hm: int = home as int;

    let n: usize = width * height;
    let mut visited: Vec<bool> = Vec::new();
    while visited.len() < n
        invariant
            visited@.len() <= n,
            forall|i: int| 0 <= i < visited@.len() ==> !visited@[i],
        decreases n - visited.len(),
    {
        visited.push(false);
    }

    let mut pq: PriorityQueue<u64, u64, RandomState> = pq_new();
    let ghost vis: Set<int> = Set::empty();
    proof {
        assert(reach_within(wi, hi, t0, hm, hm, 0));
        assert(in_region(wi, hi, t0, hm, hm));
    }
    pq_push(&mut pq, home as u64, 0u64);
    proof {
        assert(pq_contents(pq).dom() =~= Set::empty().insert(home as u64));
    }

    loop
        invariant
            wi == width as int,
            hi == height as int,
            grid_ok(wi, hi),
            n_int == wi * hi,
            n == n_int,
            t0 == tiles@,
            t0.len() == n_int,
            0 <= hm < n_int,
            hm == home as int,
            fill_inv(wi, hi, t0, hm, visited@, pq_contents(pq), vis),
        ensures
            pq_contents(pq).dom() =~= Set::empty(),
            fill_inv(wi, hi, t0, hm, visited@, pq_contents(pq), vis),
            t0 == tiles@,
        decreases n_int - vis.len(), pq_contents(pq).dom().len(),
    {
        let ghost q0 = pq_contents(pq);
        let popped = pq_pop(&mut pq);
        match popped {
            None => {
                break;
            },
            Some(pair) => {
                let (it, _p): (u64, u64) = pair;
                proof {
                    assert(q0.dom().contains(it));
                }
                let cell: usize = it as usize;
                let ghost c_g = cell as int;
                visited[cell] = true;
                proof {
                    let ghost vis0 = vis;
                    vis = vis.insert(c_g);
                    assert(vis.len() == vis0.len() + 1);
                    lemma_int_range(0, n_int);
                    lemma_len_subset(vis, set_int_range(0, n_int));
                }
                let nbrs: Vec<usize> = neighbors(width, height, cell);
                let ghost d_c = choose|d: nat| reach_within(wi, hi, t0, hm, c_g, d);
                proof {
                    assert(reach_within(wi, hi, t0, hm, c_g, d_c));
                }
                let mut m: usize = 0;
                while m < nbrs.len()
                    invariant
                        wi == width as int,
                        hi == height as int,
                        grid_ok(wi, hi),
                        n_int == wi * hi,
                        n == n_int,
                        t0 == tiles@,
                        t0.len() == n_int,
                        0 <= hm < n_int,
                        hm == home as int,
                        m <= nbrs@.len(),
                        0 <= c_g < n_int,
                        cell as int == c_g,
                        visited@[c_g],
                        reach_within(wi, hi, t0, hm, c_g, d_c),
                        forall|j: int|
                            0 <= j < nbrs@.len() ==> adjacent(
                                wi,
                                hi,
                                c_g,
                                #[trigger] nbrs@[j] as int,
                            ),
                        forall|v: int|
                            adjacent(wi, hi, c_g, v) ==> exists|j: int|
                                0 <= j < nbrs@.len() && nbrs@[j] == v,
                        visited@.len() == n_int,
                        pq_contents(pq).dom().finite(),
                        vis.finite(),
                        vis.len() <= n_int,
                        forall|i: int| #![trigger vis.contains(i)] #![trigger visited@[i]]
                            vis.contains(i) <==> (0 <= i < n_int && visited@[i]),
                        forall|it2: u64| #[trigger]
                            pq_contents(pq).dom().contains(it2) ==> (it2 as int) < n_int && in_region(
                                wi,
                                hi,
                                t0,
                                hm,
                                it2 as int,
                            ) && !visited@[it2 as int],
                        forall|u: int| 0 <= u < n_int && #[trigger] visited@[u] ==> in_region(
                            wi,
                            hi,
                            t0,
                            hm,
                            u,
                        ),
                        forall|u: int, v: int| #![trigger adjacent(wi, hi, u, v), visited@[u]]
                            (0 <= u < n_int && 0 <= v < n_int && visited@[u] && !visited@[v]
                                && adjacent(wi, hi, u, v) && t0[v] == t0[u] && u != c_g)
                                ==> pq_contents(pq).dom().contains(v as u64),
                        (visited@[hm] || pq_contents(pq).dom().contains(home as u64)),
                        forall|j: int|
                            0 <= j < m && !visited@[#[trigger] nbrs@[j] as int] && t0[nbrs@[j] as int]
                                == t0[c_g] ==> pq_contents(pq).dom().contains(nbrs@[j] as u64),
                    decreases nbrs@.len() - m,
                {
                    let v: usize = nbrs[m];
                    if !visited[v] && tiles[v] == tiles[cell] {
                        proof {
                            lemma_reach_step(wi, hi, t0, hm, c_g, v as int, d_c);
                            assert(in_region(wi, hi, t0, hm, v as int));
                        }
                        pq_push(&mut pq, v as u64, 0u64);
                    }
                    m = m + 1;
                }
                proof {
                    assert forall|u: int, v: int|
                        (0 <= u < n_int && 0 <= v < n_int && visited@[u] && !visited@[v]
                            && adjacent(wi, hi, u, v) && t0[v] == t0[u]) implies pq_contents(
                        pq,
                    ).dom().contains(v as u64) by {
                        if u == c_g {
                            let j = choose|j: int| 0 <= j < nbrs@.len() && nbrs@[j] == v;
                            assert(!visited@[nbrs@[j] as int]);
                            assert(pq_contents(pq).dom().contains(nbrs@[j] as u64));
                        }
                    }
                }
            },
        }
    }
    proof {
        // With the queue drained, the visited marks are exactly the region.
        assert forall|i: int| 0 <= i < n_int implies (visited@[i] == in_region(
            wi,
            hi,
            t0,
            hm,
            i,
        )) by {
            if in_region(wi, hi, t0, hm, i) && !visited@[i] {
                let d = choose|d: nat| reach_within(wi, hi, t0, hm, i, d);
                let it = lemma_region_pending(
                    wi,
                    hi,
                    t0,
                    hm,
                    visited@,
                    pq_contents(pq),
                    vis,
                    i,
                    d,
                );
                assert(false);
            }
        }
    }
    let mut i: usize = 0;
    while i < n
        invariant
            n == n_int,
            t0.len() == n_int,
            tiles@.len() == n_int,
            visited@.len() == n_int,
            i <= n,
            forall|j: int| 0 <= j < n_int ==> (visited@[j] == in_region(wi, hi, t0, hm, j)),
            forall|j: int|
                0 <= j < i ==> tiles@[j] == (if in_region(wi, hi, t0, hm, j) {
                    chosen
                } else {
                    t0[j]
                }),
            forall|j: int| i <= j < n_int ==> tiles@[j] == t0[j],
        decreases n - i,
    {
        if visited[i] {
            tiles[i] = chosen;
        }
        i = i + 1;
    }
    proof {
        assert(tiles@ =~= recolored(wi, hi, t0, hm, chosen));
    }
}

/// Apply a move directly, outside the state machine: if `chosen` is in
/// the acting player's current legal-move set, recolor the player's
/// connected same-color region to it; otherwise refuse the move and
/// leave the board untouched.
///
/// Legality is judged against the territory resolution of the board as
/// it stands, exactly as the state machine would judge it.
pub fn apply_move(
    player: Player,
    width: usize,
    height: usize,
    tiles: &mut Vec<Tile>,
    home_one: usize,
    home_two: usize,
    chosen: Tile,
) -> (r: Result<(), IllegalMoveError>)
    requires
        grid_ok(width as int, height as int),
        old(tiles)@.len() == width * height,
        home_one < width * height,
        home_two < width * height,
        home_one != home_two,
        player == Player::One || player == Player::Two,
    ensures
        r is Ok <==> legal_spec(
            width as int,
            height as int,
            old(tiles)@,
            owner_seq(
                width as int,
                height as int,
                old(tiles)@,
                home_one as int,
                home_two as int,
            ),
            home_one as int,
            home_two as int,
            player,
            chosen,
        ),
        r is Ok ==> final(tiles)@ == recolored(
            width as int,
            height as int,
            old(tiles)@,
            if player == Player::One {
                home_one as int
            } else {
                home_two as int
            },
            chosen,
        ),
        r is Err ==> final(tiles)@ == old(tiles)@,
{
    let owners = resolve_territory(width, height, tiles, home_one, home_two);
    let lm = legal_moves(width, height, tiles, &owners, home_one, home_two);
    let allowed: bool = if player == Player::One {
        lm.one.contains(chosen)
    } else {
        lm.two.contains(chosen)
    };
    if !allowed {
        return Err(IllegalMoveError);
    }
    proof {
        lemma_legal_not_own_home_color(
            width as int,
            height as int,
            tiles@,
            home_one as int,
            home_two as int,
            player,
            chosen,
        );
    }
    let home: usize = if player == Player::One {
        home_one
    } else {
        home_two
    };
    recolor_region(width, height, tiles, home, chosen);
    Ok(())
}

} // verus!
