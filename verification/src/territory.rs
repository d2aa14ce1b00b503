//! The territory resolver: a multi-source, priority-driven flood fill
//! that assigns every cell of the board to Player One, Player Two, or no
//! one.
//!
//! Both home cells are seeded at distance zero; the traversal expands
//! only through cells of the seeding home's color, and finalizes cells in
//! order of increasing claim key. A claim key packs the path distance and
//! the claiming player's ordinal into one integer, `2 * distance +
//! ordinal`, so that smaller distance wins and, between equal distances,
//! Player One wins — the required deterministic tie-break. The queue is a
//! max-queue, so keys are mapped to priorities by reflection around a
//! fixed base.

use vstd::prelude::*;
use vstd::arithmetic::div_mod::lemma_fundamental_div_mod_converse;
use vstd::set_lib::lemma_len_subset;
use vstd::set_lib::set_int_range;
use vstd::set_lib::lemma_int_range;

use std::collections::hash_map::RandomState;
use priority_queue::PriorityQueue;

use crate::grid::adjacent;
use crate::grid::grid_ok;
use crate::grid::max_cells;
use crate::grid::neighbors;
use crate::player::Player;
use crate::pq::pq_contents;
use crate::pq::pq_new;
use crate::pq::pq_pop;
use crate::pq::pq_push;
use crate::reach::owned_by_one;
use crate::reach::owned_by_two;
use crate::reach::owner_seq;
use crate::reach::owner_spec;
use crate::reach::reach_within;
use crate::reach::lemma_reach_monotone;
use crate::reach::lemma_reach_step;
use crate::tile::Tile;

verus! {

/// Priorities reflect claim keys around this base: an entry with claim
/// key `k` has priority `2 * tie_base() - k`, so the queue's greatest
/// priority is the smallest key.
pub open spec fn tie_base() -> int {
    0x4000_0000
}

/// The player a claim key belongs to: even keys carry Player One's
/// claims, odd keys Player Two's.
pub open spec fn key_player(k: int) -> Player {
    if k % 2 == 0 {
        Player::One
    } else {
        Player::Two
    }
}

/// The home cell a claim key's claims grow from.
pub open spec fn key_home(home_one: int, home_two: int, k: int) -> int {
    if k % 2 == 0 {
        home_one
    } else {
        home_two
    }
}

/// Cell `c` has a claim with key `k`: the key's player reaches `c` from
/// their home by a same-color path of length at most `k / 2`.
pub open spec fn claim(
    width: int,
    height: int,
    tiles: Seq<Tile>,
    home_one: int,
    home_two: int,
    c: int,
    k: int,
) -> bool {
    &&& 0 <= k
    &&& reach_within(width, height, tiles, key_home(home_one, home_two, k), c, (k / 2) as nat)
}

/// A queue item encodes a claim: key `k` on cell `c`, packed as `k * n + c`.
pub open spec fn enc(n: int, k: int, c: int) -> u64 {
    (k * n + c) as u64
}

/// The claim key a queue item carries.
pub open spec fn key_of(it: u64, n: int) -> int {
    it as int / n
}

/// The cell a queue item is about.
pub open spec fn cell_of(it: u64, n: int) -> int {
    it as int % n
}

/// Packing a key and a cell and unpacking them round-trips, for every key
/// the resolver can produce.
pub proof fn lemma_enc_decode(n: int, k: int, c: int)
    requires
        0 < n <= max_cells(),
        0 <= k <= 2 * max_cells() + 5,
        0 <= c < n,
    ensures
        key_of(enc(n, k, c), n) == k,
        cell_of(enc(n, k, c), n) == c,
        enc(n, k, c) as int == k * n + c,
{
    assert(0 <= k * n + c && k * n + c <= (2 * max_cells() + 5) * max_cells() + max_cells())
        by (nonlinear_arith)
        requires (0 < n <= max_cells()), (0 <= k <= 2 * max_cells() + 5), (0 <= c < n);
    lemma_fundamental_div_mod_converse(k * n + c, n, k, c);
}

/// Everything true of one queue entry: its priority reflects its key, its
/// key is bounded by the number of settled cells, and the claim it
/// encodes really holds.
pub open spec fn entry_ok(
    width: int,
    height: int,
    tiles: Seq<Tile>,
    home_one: int,
    home_two: int,
    it: u64,
    p: u64,
    settled_count: int,
) -> bool {
    let n = width * height;
    let k = key_of(it, n);
    let c = cell_of(it, n);
    &&& it as int == k * n + c
    &&& p as int == 2 * tie_base() - k
    &&& k <= 2 * settled_count + 3
    &&& claim(width, height, tiles, home_one, home_two, c, k)
}

/// Everything true of one settled cell: it is owned by the player of its
/// recorded claim key, that claim holds, and no smaller-keyed claim does
/// — the recorded key is the cell's best claim.
pub open spec fn settled_ok(
    width: int,
    height: int,
    tiles: Seq<Tile>,
    home_one: int,
    home_two: int,
    owners: Seq<Player>,
    keys: Seq<u64>,
    u: int,
) -> bool {
    let k = keys[u] as int;
    &&& owners[u] == key_player(k)
    &&& claim(width, height, tiles, home_one, home_two, u, k)
    &&& forall|k2: int| 0 <= k2 < k ==> !#[trigger] claim(width, height, tiles, home_one, home_two, u, k2)
    &&& k <= 2 * (width * height) + 3
}

/// The resolver's core loop invariant over its owner and key records, the
/// queue contents `q` and the set `settled` of settled cells.
pub open spec fn inv_core(
    width: int,
    height: int,
    tiles: Seq<Tile>,
    home_one: int,
    home_two: int,
    owners: Seq<Player>,
    keys: Seq<u64>,
    q: Map<u64, u64>,
    settled: Set<int>,
) -> bool {
    let n = width * height;
    &&& owners.len() == n
    &&& keys.len() == n
    &&& q.dom().finite()
    &&& settled.finite()
    &&& settled.len() <= n
    &&& forall|i: int| #![trigger settled.contains(i)] #![trigger owners[i]]
        settled.contains(i) <==> (0 <= i < n && owners[i] != Player::Undef)
    &&& forall|it: u64| #[trigger] q.dom().contains(it) ==> entry_ok(
        width,
        height,
        tiles,
        home_one,
        home_two,
        it,
        q[it],
        settled.len() as int,
    )
    &&& forall|u: int| 0 <= u < n && #[trigger] owners[u] != Player::Undef ==> settled_ok(
        width,
        height,
        tiles,
        home_one,
        home_two,
        owners,
        keys,
        u,
    )
}

/// The frontier invariant: every unsettled same-color neighbor of a
/// settled cell has a queue entry extending the settled cell's claim, and
/// each unsettled home still has its seed entry.
pub open spec fn frontier_ok(
    width: int,
    height: int,
    tiles: Seq<Tile>,
    home_one: int,
    home_two: int,
    owners: Seq<Player>,
    keys: Seq<u64>,
    q: Map<u64, u64>,
) -> bool {
    let n = width * height;
    &&& forall|u: int, v: int| #![trigger adjacent(width, height, u, v), owners[u]]
        (0 <= u < n && 0 <= v < n && owners[u] != Player::Undef && owners[v] == Player::Undef
            && adjacent(width, height, u, v) && tiles[v] == tiles[u]) ==> q.dom().contains(
            enc(n, keys[u] as int + 2, v),
        )
    &&& (owners[home_one] != Player::Undef || q.dom().contains(enc(n, 0, home_one)))
    &&& (owners[home_two] != Player::Undef || q.dom().contains(enc(n, 1, home_two)))
}

/// If an unsettled cell has a claim with key `k`, the queue holds an
/// entry whose key is at most `k`: pending work never silently loses a
/// better claim than anything settled so far.
pub proof fn lemma_pending_claim(
    width: int,
    height: int,
    tiles: Seq<Tile>,
    home_one: int,
    home_two: int,
    owners: Seq<Player>,
    keys: Seq<u64>,
    q: Map<u64, u64>,
    settled: Set<int>,
    i: int,
    k: int,
) -> (it: u64)
    requires
        grid_ok(width, height),
        0 <= home_one < width * height,
        0 <= home_two < width * height,
        inv_core(width, height, tiles, home_one, home_two, owners, keys, q, settled),
        frontier_ok(width, height, tiles, home_one, home_two, owners, keys, q),
        0 <= i < width * height,
        owners[i] == Player::Undef,
        claim(width, height, tiles, home_one, home_two, i, k),
    ensures
        q.dom().contains(it),
        key_of(it, width * height) <= k,
    decreases k,
{
    let n = width * height;
    let src = key_home(home_one, home_two, k);
    let d = (k / 2) as nat;
    assert(reach_within(width, height, tiles, src, i, d));
    if i == src {
        if k % 2 == 0 {
            lemma_enc_decode(n, 0, home_one);
            enc(n, 0, home_one)
        } else {
            lemma_enc_decode(n, 1, home_two);
            enc(n, 1, home_two)
        }
    } else {
        let j = choose|j: int|
            adjacent(width, height, j, i) && reach_within(
                width,
                height,
                tiles,
                src,
                j,
                (d - 1) as nat,
            );
        assert(d > 0 && k >= 2);
        assert(key_home(home_one, home_two, k - 2) == src);
        assert((k - 2) / 2 == d - 1);
        assert(claim(width, height, tiles, home_one, home_two, j, k - 2));
        if owners[j] == Player::Undef {
            let it = lemma_pending_claim(
                width,
                height,
                tiles,
                home_one,
                home_two,
                owners,
                keys,
                q,
                settled,
                j,
                k - 2,
            );
            it
        } else {
            assert(settled_ok(width, height, tiles, home_one, home_two, owners, keys, j));
            let kj = keys[j] as int;
            assert(kj <= k - 2);
            assert(tiles[i] == tiles[src] && tiles[j] == tiles[src]);
            assert(q.dom().contains(enc(n, kj + 2, i)));
            lemma_enc_decode(n, kj + 2, i);
            enc(n, kj + 2, i)
        }
    }
}

/// A cell whose best (smallest-keyed) claim has key `k` is owned by that
/// key's player.
pub proof fn lemma_minimal_claim_owner(
    width: int,
    height: int,
    tiles: Seq<Tile>,
    home_one: int,
    home_two: int,
    i: int,
    k: int,
)
    requires
        claim(width, height, tiles, home_one, home_two, i, k),
        forall|k2: int| 0 <= k2 < k ==> !#[trigger] claim(
            width,
            height,
            tiles,
            home_one,
            home_two,
            i,
            k2,
        ),
    ensures
        owner_spec(width, height, tiles, home_one, home_two, i) == key_player(k),
{
    let d = (k / 2) as nat;
    if k % 2 == 0 {
        assert(reach_within(width, height, tiles, home_one, i, d));
        if d > 0 {
            assert(!claim(width, height, tiles, home_one, home_two, i, k - 1));
            assert(key_home(home_one, home_two, k - 1) == home_two);
            assert((k - 1) / 2 == d - 1);
            assert(!reach_within(width, height, tiles, home_two, i, (d - 1) as nat));
        }
        assert(owned_by_one(width, height, tiles, home_one, home_two, i));
    } else {
        assert(reach_within(width, height, tiles, home_two, i, d));
        assert(!claim(width, height, tiles, home_one, home_two, i, k - 1));
        assert(key_home(home_one, home_two, k - 1) == home_one);
        assert((k - 1) / 2 == d);
        assert(!reach_within(width, height, tiles, home_one, i, d));
        assert(owned_by_two(width, height, tiles, home_one, home_two, i));
        if owned_by_one(width, height, tiles, home_one, home_two, i) {
            let d1 = choose|d1: nat|
                reach_within(width, height, tiles, home_one, i, d1) && (d1 == 0
                    || !reach_within(width, height, tiles, home_two, i, (d1 - 1) as nat));
            assert(claim(width, height, tiles, home_one, home_two, i, 2 * (d1 as int)));
            assert(2 * (d1 as int) >= k);
            assert(d1 >= d + 1);
            lemma_reach_monotone(width, height, tiles, home_two, i, d, (d1 - 1) as nat);
            assert(false);
        }
    }
}

/// No claim at all means the cell stays unowned.
pub proof fn lemma_no_claim_unowned(
    width: int,
    height: int,
    tiles: Seq<Tile>,
    home_one: int,
    home_two: int,
    i: int,
)
    requires
        forall|k: int| !#[trigger] claim(width, height, tiles, home_one, home_two, i, k),
    ensures
        owner_spec(width, height, tiles, home_one, home_two, i) == Player::Undef,
{
    if owned_by_one(width, height, tiles, home_one, home_two, i) {
        let d = choose|d: nat|
            reach_within(width, height, tiles, home_one, i, d) && (d == 0 || !reach_within(
                width,
                height,
                tiles,
                home_two,
                i,
                (d - 1) as nat,
            ));
        assert(claim(width, height, tiles, home_one, home_two, i, 2 * (d as int)));
        assert(false);
    }
    if owned_by_two(width, height, tiles, home_one, home_two, i) {
        let d = choose|d: nat|
            reach_within(width, height, tiles, home_two, i, d) && !reach_within(
                width,
                height,
                tiles,
                home_one,
                i,
                d,
            );
        assert(claim(width, height, tiles, home_one, home_two, i, 2 * (d as int) + 1));
        assert(false);
    }
}

/// Resolve territory: compute, for every cell, which player owns it.
///
/// Ownership is fully recomputed from the current tile colors and the two
/// home cells; the result is exactly the specification-level ownership
/// map: a cell is Player One's when One's home reaches it by a same-color
/// path no longer than any such path from Two's home, Player Two's when
/// Two's home reaches it strictly sooner, and unowned when neither home
/// reaches it.
pub fn resolve_territory(
    width: usize,
    height: usize,
    tiles: &Vec<Tile>,
    home_one: usize,
    home_two: usize,
) -> (owners: Vec<Player>)
    requires
        grid_ok(width as int, height as int),
        tiles@.len() == width * height,
        home_one < width * height,
        home_two < width * height,
        home_one != home_two,
    ensures
        owners@ == owner_seq(width as int, height as int, tiles@, home_one as int, home_two as int),
{
    let ghost wi: int = width as int;
    let ghost hi: int = height as int;
    let ghost n_int: int = wi * hi;
    let ghost t: Seq<Tile> = tiles@;
    let ghost h1: int = home_one as int;
    let ghost h2: int = home_two as int;

    let n: usize = width * height;
    let nn: u64 = n as u64;
    let mut owners: Vec<Player> = Vec::new();
    let mut keys: Vec<u64> = Vec::new();
    while owners.len() < n
        invariant
            owners@.len() <= n,
            keys@.len() == owners@.len(),
            forall|i: int| 0 <= i < owners@.len() ==> owners@[i] == Player::Undef,
        decreases n - owners.len(),
    {
        owners.push(Player::Undef);
        keys.push(0u64);
    }

    let mut pq: PriorityQueue<u64, u64, RandomState> = pq_new();
    let ghost settled: Set<int> = Set::empty();

    proof {
        assert(reach_within(wi, hi, t, h1, h1, 0));
        assert(reach_within(wi, hi, t, h2, h2, 0));
        assert(claim(wi, hi, t, h1, h2, h1, 0));
        assert(claim(wi, hi, t, h1, h2, h2, 1));
        lemma_enc_decode(n_int, 0, h1);
        lemma_enc_decode(n_int, 1, h2);
    }
    pq_push(&mut pq, home_one as u64, 0x8000_0000u64);
    pq_push(&mut pq, nn + home_two as u64, 0x8000_0000u64 - 1);
    proof {
        assert(enc(n_int, 0, h1) == home_one as u64);
        assert(enc(n_int, 1, h2) as int == nn as int + home_two as int);
        assert(pq_contents(pq).dom() =~= Set::empty().insert(enc(n_int, 0, h1)).insert(
            enc(n_int, 1, h2),
        ));
    }

    loop
        invariant
            wi == width as int,
            hi == height as int,
            grid_ok(wi, hi),
            n_int == wi * hi,
            n == n_int,
            nn == n as u64,
            t == tiles@,
            t.len() == n_int,
            0 <= h1 < n_int,
            0 <= h2 < n_int,
            h1 != h2,
            h1 == home_one as int,
            h2 == home_two as int,
            inv_core(wi, hi, t, h1, h2, owners@, keys@, pq_contents(pq), settled),
            frontier_ok(wi, hi, t, h1, h2, owners@, keys@, pq_contents(pq)),
        ensures
            pq_contents(pq).dom() =~= Set::empty(),
            inv_core(wi, hi, t, h1, h2, owners@, keys@, pq_contents(pq), settled),
            frontier_ok(wi, hi, t, h1, h2, owners@, keys@, pq_contents(pq)),
        decreases n_int - settled.len(), pq_contents(pq).dom().len(),
    {
        let ghost q0 = pq_contents(pq);
        let popped = pq_pop(&mut pq);
        match popped {
            None => {
                break;
            },
            Some(pair) => {
                let (it, p): (u64, u64) = pair;
                proof {
                    assert(q0.dom().contains(it));
                    assert(entry_ok(wi, hi, t, h1, h2, it, q0[it], settled.len() as int));
                }
                let ghost k_g = key_of(it, n_int);
                let ghost c_g = cell_of(it, n_int);
                let ku: u64 = it / nn;
                let cu: u64 = it % nn;
                proof {
                    assert(ku as int == k_g);
                    assert(cu as int == c_g);
                    assert(reach_within(wi, hi, t, key_home(h1, h2, k_g), c_g, (k_g / 2) as nat));
                    assert(0 <= c_g < n_int);
                }
                let cell: usize = cu as usize;
                let is_settled: bool = owners[cell] != Player::Undef;
                if is_settled {
                    proof {
                        // The removed entry was for an already settled cell; every
                        // entry the frontier invariant requires is for an
                        // unsettled cell and therefore a different item.
                        assert forall|u: int, v: int|
                            (0 <= u < n_int && 0 <= v < n_int && owners@[u] != Player::Undef
                                && owners@[v] == Player::Undef && adjacent(wi, hi, u, v)
                                && t[v] == t[u]) implies pq_contents(pq).dom().contains(
                            enc(n_int, keys@[u] as int + 2, v),
                        ) by {
                            assert(settled_ok(wi, hi, t, h1, h2, owners@, keys@, u));
                            lemma_enc_decode(n_int, keys@[u] as int + 2, v);
                            assert(cell_of(enc(n_int, keys@[u] as int + 2, v), n_int) == v);
                            assert(enc(n_int, keys@[u] as int + 2, v) != it);
                        }
                        if owners@[h1] == Player::Undef {
                            lemma_enc_decode(n_int, 0, h1);
                            assert(enc(n_int, 0, h1) != it);
                        }
                        if owners@[h2] == Player::Undef {
                            lemma_enc_decode(n_int, 1, h2);
                            assert(enc(n_int, 1, h2) != it);
                        }
                    }
                } else {
                    proof {
                        // The popped key is this cell's best claim: any smaller
                        // claim would still be represented in the queue by an
                        // entry with a smaller key, hence a greater priority
                        // than the popped maximum.
                        assert forall|k2: int| 0 <= k2 < k_g implies !claim(
                            wi,
                            hi,
                            t,
                            h1,
                            h2,
                            c_g,
                            k2,
                        ) by {
                            if claim(wi, hi, t, h1, h2, c_g, k2) {
                                let it2 = lemma_pending_claim(
                                    wi,
                                    hi,
                                    t,
                                    h1,
                                    h2,
                                    owners@,
                                    keys@,
                                    q0,
                                    settled,
                                    c_g,
                                    k2,
                                );
                                assert(q0[it2] as int == 2 * tie_base() - key_of(it2, n_int));
                                assert(q0[it2] <= p);
                                assert(false);
                            }
                        }
                    }
                    let pl: Player = if ku % 2 == 0 {
                        Player::One
                    } else {
                        Player::Two
                    };
                    owners[cell] = pl;
                    keys[cell] = ku;
                    proof {
                        let ghost settled0 = settled;
                        settled = settled.insert(c_g);
                        assert(settled.len() == settled0.len() + 1);
                        lemma_int_range(0, n_int);
                        lemma_len_subset(settled, set_int_range(0, n_int));
                        assert(settled_ok(wi, hi, t, h1, h2, owners@, keys@, c_g));
                        // Entries the frontier invariant still requires are for
                        // unsettled cells, hence different from the removed item.
                        assert forall|u: int, v: int|
                            (0 <= u < n_int && 0 <= v < n_int && owners@[u] != Player::Undef
                                && owners@[v] == Player::Undef && adjacent(wi, hi, u, v)
                                && t[v] == t[u] && u != c_g) implies pq_contents(pq).dom().contains(
                            enc(n_int, keys@[u] as int + 2, v),
                        ) by {
                            assert(settled_ok(wi, hi, t, h1, h2, owners@, keys@, u));
                            lemma_enc_decode(n_int, keys@[u] as int + 2, v);
                            assert(enc(n_int, keys@[u] as int + 2, v) != it);
                        }
                        if owners@[h1] == Player::Undef {
                            lemma_enc_decode(n_int, 0, h1);
                            assert(enc(n_int, 0, h1) != it);
                        }
                        if owners@[h2] == Player::Undef {
                            lemma_enc_decode(n_int, 1, h2);
                            assert(enc(n_int, 1, h2) != it);
                        }
                    }
                    proof {
                        assert(cell as int == c_g);
                    }
                    let nbrs: Vec<usize> = neighbors(width, height, cell);
                    let mut m: usize = 0;
                    while m < nbrs.len()
                        invariant
                            wi == width as int,
                            hi == height as int,
                            grid_ok(wi, hi),
                            n_int == wi * hi,
                            n == n_int,
                            nn == n as u64,
                            t == tiles@,
                            t.len() == n_int,
                            0 <= h1 < n_int,
                            0 <= h2 < n_int,
                            h1 != h2,
                            m <= nbrs@.len(),
                            0 <= c_g < n_int,
                            cell as int == c_g,
                            0 <= k_g,
                            ku as int == k_g,
                            p as int == 2 * tie_base() - k_g,
                            owners@[c_g] != Player::Undef,
                            keys@[c_g] == ku,
                            settled.contains(c_g),
                            claim(wi, hi, t, h1, h2, c_g, k_g),
                            k_g <= 2 * settled.len() + 1,
                            forall|j: int|
                                0 <= j < nbrs@.len() ==> adjacent(
                                    wi,
                                    hi,
                                    c_g,
                                    #[trigger] nbrs@[j] as int,
                                ),
                            forall|v: int|
                                adjacent(wi, hi, c_g, v) ==> exists|j: int|
                                    0 <= j < nbrs@.len() && nbrs@[j] == v,
                            inv_core(wi, hi, t, h1, h2, owners@, keys@, pq_contents(pq), settled),
                            forall|u: int, v: int| #![trigger adjacent(wi, hi, u, v), owners@[u]]
                                (0 <= u < n_int && 0 <= v < n_int && owners@[u] != Player::Undef
                                    && owners@[v] == Player::Undef && adjacent(wi, hi, u, v)
                                    && t[v] == t[u] && u != c_g) ==> pq_contents(pq).dom().contains(
                                    enc(n_int, keys@[u] as int + 2, v),
                                ),
                            (owners@[h1] != Player::Undef || pq_contents(pq).dom().contains(
                                enc(n_int, 0, h1),
                            )),
                            (owners@[h2] != Player::Undef || pq_contents(pq).dom().contains(
                                enc(n_int, 1, h2),
                            )),
                            forall|j: int|
                                0 <= j < m && owners@[#[trigger] nbrs@[j] as int] == Player::Undef
                                    && t[nbrs@[j] as int] == t[c_g] ==> pq_contents(
                                    pq,
                                ).dom().contains(enc(n_int, k_g + 2, nbrs@[j] as int)),
                        decreases nbrs@.len() - m,
                    {
                        let v: usize = nbrs[m];
                        if owners[v] == Player::Undef && tiles[v] == tiles[cell] {
                            proof {
                                lemma_reach_step(
                                    wi,
                                    hi,
                                    t,
                                    key_home(h1, h2, k_g),
                                    c_g,
                                    v as int,
                                    (k_g / 2) as nat,
                                );
                                assert((k_g + 2) / 2 == k_g / 2 + 1);
                                assert(key_home(h1, h2, k_g + 2) == key_home(h1, h2, k_g));
                                assert(claim(wi, hi, t, h1, h2, v as int, k_g + 2));
                                lemma_enc_decode(n_int, k_g + 2, v as int);
                            }
                            let item2: u64 = (ku + 2) * nn + (v as u64);
                            proof {
                                assert(item2 == enc(n_int, k_g + 2, v as int));
                            }
                            pq_push(&mut pq, item2, p - 2);
                        }
                        m = m + 1;
                    }
                    proof {
                        // Assemble the frontier invariant for the newly settled
                        // cell from the processed neighbor list.
                        assert forall|u: int, v: int|
                            (0 <= u < n_int && 0 <= v < n_int && owners@[u] != Player::Undef
                                && owners@[v] == Player::Undef && adjacent(wi, hi, u, v)
                                && t[v] == t[u]) implies pq_contents(pq).dom().contains(
                            enc(n_int, keys@[u] as int + 2, v),
                        ) by {
                            if u == c_g {
                                let j = choose|j: int| 0 <= j < nbrs@.len() && nbrs@[j] == v;
                                assert(owners@[nbrs@[j] as int] == Player::Undef);
                                assert(pq_contents(pq).dom().contains(
                                    enc(n_int, k_g + 2, nbrs@[j] as int),
                                ));
                            }
                        }
                    }
                }
            },
        }
    }
    proof {
        assert forall|i: int| 0 <= i < n_int implies owners@[i] == owner_spec(
            wi,
            hi,
            t,
            h1,
            h2,
            i,
        ) by {
            if owners@[i] != Player::Undef {
                assert(settled_ok(wi, hi, t, h1, h2, owners@, keys@, i));
                lemma_minimal_claim_owner(wi, hi, t, h1, h2, i, keys@[i] as int);
            } else {
                assert forall|k: int| !claim(wi, hi, t, h1, h2, i, k) by {
                    if claim(wi, hi, t, h1, h2, i, k) {
                        let it = lemma_pending_claim(
                            wi,
                            hi,
                            t,
                            h1,
                            h2,
                            owners@,
                            keys@,
                            pq_contents(pq),
                            settled,
                            i,
                            k,
                        );
                        assert(false);
                    }
                }
                lemma_no_claim_unowned(wi, hi, t, h1, h2, i);
            }
        }
        assert(owners@ =~= owner_seq(wi, hi, t, h1, h2));
    }
    owners
}

} // verus!
