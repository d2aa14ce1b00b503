//! The legal-move calculator.
//!
//! A color is a candidate for a player when some cell the player owns
//! has a neighbor, owned by someone else (or no one), holding that
//! color; `Undef` is never a candidate. The exclusion rule then removes,
//! from each player's candidates, the color currently held by the other
//! player's home cell.

use vstd::prelude::*;

use crate::grid::adjacent;
use crate::grid::grid_ok;
use crate::grid::neighbors;
use crate::player::Player;
use crate::reach::lemma_reach_step;
use crate::reach::lemma_reached_is_owned;
use crate::reach::owned_by_one;
use crate::reach::owned_by_two;
use crate::reach::owner_seq;
use crate::reach::owner_spec;
use crate::reach::reach_within;
use crate::tile::Tile;

verus! {

/// A set of tile colors; `Undef` is never a member.
#[derive(Clone, Copy, Debug, PartialEq, Eq, Structural)]
pub struct TileSet {
    pub red: bool,
    pub green: bool,
    pub blue: bool,
    pub yellow: bool,
}

impl TileSet {
    pub open spec fn spec_contains(self, c: Tile) -> bool {
        match c {
            Tile::Undef => false,
            Tile::Red => self.red,
            Tile::Green => self.green,
            Tile::Blue => self.blue,
            Tile::Yellow => self.yellow,
        }
    }

    /// The empty color set.
    pub fn empty() -> (s: TileSet)
        ensures
            forall|c: Tile| !s.spec_contains(c),
    {
        TileSet { red: false, green: false, blue: false, yellow: false }
    }

    /// Whether color `c` is in the set.
    pub fn contains(&self, c: Tile) -> (r: bool)
        ensures
            r == self.spec_contains(c),
    {
        match c {
            Tile::Undef => false,
            Tile::Red => self.red,
            Tile::Green => self.green,
            Tile::Blue => self.blue,
            Tile::Yellow => self.yellow,
        }
    }

    /// Whether the set holds no color at all.
    pub fn is_empty(&self) -> (r: bool)
        ensures
            r == !(exists|c: Tile| self.spec_contains(c)),
    {
        let r = !(self.red || self.green || self.blue || self.yellow);
        proof {
            if self.red {
                assert(self.spec_contains(Tile::Red));
            }
            if self.green {
                assert(self.spec_contains(Tile::Green));
            }
            if self.blue {
                assert(self.spec_contains(Tile::Blue));
            }
            if self.yellow {
                assert(self.spec_contains(Tile::Yellow));
            }
        }
        r
    }

    /// Add a real game color to the set.
    pub fn insert(&mut self, c: Tile)
        requires
            c != Tile::Undef,
        ensures
            forall|x: Tile| final(self).spec_contains(x) == (old(self).spec_contains(x) || x == c),
    {
        match c {
            Tile::Undef => {},
            Tile::Red => {
                self.red = true;
            },
            Tile::Green => {
                self.green = true;
            },
            Tile::Blue => {
                self.blue = true;
            },
            Tile::Yellow => {
                self.yellow = true;
            },
        }
    }

    /// Take a color out of the set.
    pub fn remove(&mut self, c: Tile)
        ensures
            forall|x: Tile| final(self).spec_contains(x) == (old(self).spec_contains(x) && x != c),
    {
        match c {
            Tile::Undef => {},
            Tile::Red => {
                self.red = false;
            },
            Tile::Green => {
                self.green = false;
            },
            Tile::Blue => {
                self.blue = false;
            },
            Tile::Yellow => {
                self.yellow = false;
            },
        }
    }
}

/// The legal-move sets of both players for the coming turn.
#[derive(Clone, Copy, Debug, PartialEq, Eq, Structural)]
pub struct LegalMoves {
    pub one: TileSet,
    pub two: TileSet,
}

/// The frontier pair (`i`, `j`) makes color `c` a candidate for player
/// `p`: `p` owns `i`, its neighbor `j` is owned by someone else (or no
/// one) and holds the real color `c`.
pub open spec fn pair_gives(
    width: int,
    height: int,
    tiles: Seq<Tile>,
    owners: Seq<Player>,
    p: Player,
    c: Tile,
    i: int,
    j: int,
) -> bool {
    &&& 0 <= i < width * height
    &&& 0 <= j < width * height
    &&& adjacent(width, height, i, j)
    &&& owners[i] == p
    &&& owners[j] != p
    &&& tiles[j] == c
    &&& c != Tile::Undef
}

/// Color `c` is a candidate for player `p`, before the exclusion rule.
pub open spec fn candidate(
    width: int,
    height: int,
    tiles: Seq<Tile>,
    owners: Seq<Player>,
    p: Player,
    c: Tile,
) -> bool {
    exists|i: int, j: int| #[trigger] pair_gives(width, height, tiles, owners, p, c, i, j)
}

/// Candidates found among frontier pairs whose owned cell is below `lim`.
pub open spec fn candidate_upto(
    width: int,
    height: int,
    tiles: Seq<Tile>,
    owners: Seq<Player>,
    p: Player,
    c: Tile,
    lim: int,
) -> bool {
    exists|i: int, j: int| i < lim && #[trigger] pair_gives(width, height, tiles, owners, p, c, i, j)
}

/// The home cell whose color the exclusion rule denies player `p`: the
/// other player's home.
pub open spec fn excluded_home(home_one: int, home_two: int, p: Player) -> int {
    if p == Player::One {
        home_two
    } else {
        home_one
    }
}

/// Color `c` is a legal move for player `p`: a candidate that is not the
/// color currently held by the other player's home cell.
pub open spec fn legal_spec(
    width: int,
    height: int,
    tiles: Seq<Tile>,
    owners: Seq<Player>,
    home_one: int,
    home_two: int,
    p: Player,
    c: Tile,
) -> bool {
    &&& candidate(width, height, tiles, owners, p, c)
    &&& c != tiles[excluded_home(home_one, home_two, p)]
}

/// Compute both players' legal-move sets from the given ownership map,
/// tile colors and adjacency.
pub fn legal_moves(
    width: usize,
    height: usize,
    tiles: &Vec<Tile>,
    owners: &Vec<Player>,
    home_one: usize,
    home_two: usize,
) -> (lm: LegalMoves)
    requires
        grid_ok(width as int, height as int),
        tiles@.len() == width * height,
        owners@.len() == width * height,
        home_one < width * height,
        home_two < width * height,
    ensures
        forall|c: Tile| #[trigger] lm.one.spec_contains(c) == legal_spec(
            width as int,
            height as int,
            tiles@,
            owners@,
            home_one as int,
            home_two as int,
            Player::One,
            c,
        ),
        forall|c: Tile| #[trigger] lm.two.spec_contains(c) == legal_spec(
            width as int,
            height as int,
            tiles@,
            owners@,
            home_one as int,
            home_two as int,
            Player::Two,
            c,
        ),
{
    let ghost wi: int = width as int;
    let ghost hi: int = height as int;
    let ghost n_int: int = wi * hi;
    let ghost t: Seq<Tile> = tiles@;
    let ghost o: Seq<Player> = owners@;

    let n: usize = width * height;
    let mut one: TileSet = TileSet::empty();
    let mut two: TileSet = TileSet::empty();
    let mut i: usize = 0;
    while i < n
        invariant
            wi == width as int,
            hi == height as int,
            grid_ok(wi, hi),
            n_int == wi * hi,
            n == n_int,
            t == tiles@,
            o == owners@,
            t.len() == n_int,
            o.len() == n_int,
            i <= n,
            forall|c: Tile| #[trigger] one.spec_contains(c) == candidate_upto(
                wi,
                hi,
                t,
                o,
                Player::One,
                c,
                i as int,
            ),
            forall|c: Tile| #[trigger] two.spec_contains(c) == candidate_upto(
                wi,
                hi,
                t,
                o,
                Player::Two,
                c,
                i as int,
            ),
        decreases n - i,
    {
        let pi: Player = owners[i];
        let is_real: bool = pi == Player::One || pi == Player::Two;
        if is_real {
            let nbrs: Vec<usize> = neighbors(width, height, i);
            let ghost i_int = i as int;
            let mut m: usize = 0;
            while m < nbrs.len()
                invariant
                    wi == width as int,
                    hi == height as int,
                    grid_ok(wi, hi),
                    n_int == wi * hi,
                    n == n_int,
                    t == tiles@,
                    o == owners@,
                    t.len() == n_int,
                    o.len() == n_int,
                    i < n,
                    i_int == i as int,
                    m <= nbrs@.len(),
                    pi == o[i_int],
                    pi == Player::One || pi == Player::Two,
                    forall|j: int|
                        0 <= j < nbrs@.len() ==> adjacent(wi, hi, i_int, #[trigger] nbrs@[j] as int),
                    forall|v: int|
                        adjacent(wi, hi, i_int, v) ==> exists|j: int|
                            0 <= j < nbrs@.len() && nbrs@[j] == v,
                    forall|c: Tile| #[trigger] one.spec_contains(c) == (candidate_upto(
                        wi,
                        hi,
                        t,
                        o,
                        Player::One,
                        c,
                        i as int,
                    ) || (pi == Player::One && exists|mm: int|
                        0 <= mm < m && pair_gives(
                            wi,
                            hi,
                            t,
                            o,
                            Player::One,
                            c,
                            i_int,
                            #[trigger] nbrs@[mm] as int,
                        ))),
                    forall|c: Tile| #[trigger] two.spec_contains(c) == (candidate_upto(
                        wi,
                        hi,
                        t,
                        o,
                        Player::Two,
                        c,
                        i as int,
                    ) || (pi == Player::Two && exists|mm: int|
                        0 <= mm < m && pair_gives(
                            wi,
                            hi,
                            t,
                            o,
                            Player::Two,
                            c,
                            i_int,
                            #[trigger] nbrs@[mm] as int,
                        ))),
                decreases nbrs@.len() - m,
            {
                let v: usize = nbrs[m];
                let ghost m0 = m as int;
                if owners[v] != pi && tiles[v] != Tile::Undef {
                    proof {
                        assert(pair_gives(wi, hi, t, o, pi, t[v as int], i_int, v as int));
                    }
                    if pi == Player::One {
                        one.insert(tiles[v]);
                    } else {
                        two.insert(tiles[v]);
                    }
                }
                m = m + 1;
                proof {
                    assert forall|c: Tile| #[trigger] one.spec_contains(c) == (candidate_upto(
                        wi,
                        hi,
                        t,
                        o,
                        Player::One,
                        c,
                        i_int,
                    ) || (pi == Player::One && exists|mm: int|
                        0 <= mm < m && pair_gives(
                            wi,
                            hi,
                            t,
                            o,
                            Player::One,
                            c,
                            i_int,
                            #[trigger] nbrs@[mm] as int,
                        ))) by {
                        if one.spec_contains(c) {
                        }
                        if pi == Player::One && exists|mm: int|
                            0 <= mm < m && pair_gives(
                                wi,
                                hi,
                                t,
                                o,
                                Player::One,
                                c,
                                i_int,
                                #[trigger] nbrs@[mm] as int,
                            ) {
                            let mm = choose|mm: int|
                                0 <= mm < m && pair_gives(
                                    wi,
                                    hi,
                                    t,
                                    o,
                                    Player::One,
                                    c,
                                    i_int,
                                    nbrs@[mm] as int,
                                );
                            if mm < m0 {
                            } else {
                                assert(nbrs@[mm] == v);
                            }
                        }
                    }
                    assert forall|c: Tile| #[trigger] two.spec_contains(c) == (candidate_upto(
                        wi,
                        hi,
                        t,
                        o,
                        Player::Two,
                        c,
                        i_int,
                    ) || (pi == Player::Two && exists|mm: int|
                        0 <= mm < m && pair_gives(
                            wi,
                            hi,
                            t,
                            o,
                            Player::Two,
                            c,
                            i_int,
                            #[trigger] nbrs@[mm] as int,
                        ))) by {
                        if two.spec_contains(c) {
                        }
                        if pi == Player::Two && exists|mm: int|
                            0 <= mm < m && pair_gives(
                                wi,
                                hi,
                                t,
                                o,
                                Player::Two,
                                c,
                                i_int,
                                #[trigger] nbrs@[mm] as int,
                            ) {
                            let mm = choose|mm: int|
                                0 <= mm < m && pair_gives(
                                    wi,
                                    hi,
                                    t,
                                    o,
                                    Player::Two,
                                    c,
                                    i_int,
                                    nbrs@[mm] as int,
                                );
                            if mm < m0 {
                            } else {
                                assert(nbrs@[mm] == v);
                            }
                        }
                    }
                }
            }
            proof {
                // Extend the processed prefix from `i` to `i + 1`: pairs at
                // `i` are covered by the completed neighbor scan.
                assert forall|c: Tile| #[trigger] one.spec_contains(c) == candidate_upto(
                    wi,
                    hi,
                    t,
                    o,
                    Player::One,
                    c,
                    i as int + 1,
                ) by {
                    if candidate_upto(wi, hi, t, o, Player::One, c, i as int + 1) {
                        let (a, b) = choose|a: int, b: int|
                            a < i as int + 1 && #[trigger] pair_gives(
                                wi,
                                hi,
                                t,
                                o,
                                Player::One,
                                c,
                                a,
                                b,
                            );
                        if a == i_int {
                            assert(o[i_int] == Player::One && pi == Player::One);
                            let j = choose|j: int| 0 <= j < nbrs@.len() && nbrs@[j] == b;
                            assert(pair_gives(wi, hi, t, o, Player::One, c, i_int, nbrs@[j] as int));
                        }
                    }
                    if one.spec_contains(c) {
                        if pi == Player::One && exists|mm: int|
                            0 <= mm < nbrs@.len() && pair_gives(
                                wi,
                                hi,
                                t,
                                o,
                                Player::One,
                                c,
                                i_int,
                                #[trigger] nbrs@[mm] as int,
                            ) {
                            let mm = choose|mm: int|
                                0 <= mm < nbrs@.len() && pair_gives(
                                    wi,
                                    hi,
                                    t,
                                    o,
                                    Player::One,
                                    c,
                                    i_int,
                                    nbrs@[mm] as int,
                                );
                            assert(pair_gives(wi, hi, t, o, Player::One, c, i_int, nbrs@[mm] as int));
                        }
                    }
                }
                assert forall|c: Tile| #[trigger] two.spec_contains(c) == candidate_upto(
                    wi,
                    hi,
                    t,
                    o,
                    Player::Two,
                    c,
                    i as int + 1,
                ) by {
                    if candidate_upto(wi, hi, t, o, Player::Two, c, i as int + 1) {
                        let (a, b) = choose|a: int, b: int|
                            a < i as int + 1 && #[trigger] pair_gives(
                                wi,
                                hi,
                                t,
                                o,
                                Player::Two,
                                c,
                                a,
                                b,
                            );
                        if a == i_int {
                            assert(o[i_int] == Player::Two && pi == Player::Two);
                            let j = choose|j: int| 0 <= j < nbrs@.len() && nbrs@[j] == b;
                            assert(pair_gives(wi, hi, t, o, Player::Two, c, i_int, nbrs@[j] as int));
                        }
                    }
                    if two.spec_contains(c) {
                        if pi == Player::Two && exists|mm: int|
                            0 <= mm < nbrs@.len() && pair_gives(
                                wi,
                                hi,
                                t,
                                o,
                                Player::Two,
                                c,
                                i_int,
                                #[trigger] nbrs@[mm] as int,
                            ) {
                            let mm = choose|mm: int|
                                0 <= mm < nbrs@.len() && pair_gives(
                                    wi,
                                    hi,
                                    t,
                                    o,
                                    Player::Two,
                                    c,
                                    i_int,
                                    nbrs@[mm] as int,
                                );
                            assert(pair_gives(wi, hi, t, o, Player::Two, c, i_int, nbrs@[mm] as int));
                        }
                    }
                }
            }
        } else {
            proof {
                // An unowned cell contributes no frontier pair for either
                // player.
                assert forall|c: Tile| #[trigger] one.spec_contains(c) == candidate_upto(
                    wi,
                    hi,
                    t,
                    o,
                    Player::One,
                    c,
                    i as int + 1,
                ) by {
                    if candidate_upto(wi, hi, t, o, Player::One, c, i as int + 1) {
                        let (a, b) = choose|a: int, b: int|
                            a < i as int + 1 && #[trigger] pair_gives(
                                wi,
                                hi,
                                t,
                                o,
                                Player::One,
                                c,
                                a,
                                b,
                            );
                        assert(a < i as int);
                    }
                }
                assert forall|c: Tile| #[trigger] two.spec_contains(c) == candidate_upto(
                    wi,
                    hi,
                    t,
                    o,
                    Player::Two,
                    c,
                    i as int + 1,
                ) by {
                    if candidate_upto(wi, hi, t, o, Player::Two, c, i as int + 1) {
                        let (a, b) = choose|a: int, b: int|
                            a < i as int + 1 && #[trigger] pair_gives(
                                wi,
                                hi,
                                t,
                                o,
                                Player::Two,
                                c,
                                a,
                                b,
                            );
                        assert(a < i as int);
                    }
                }
            }
        }
        i = i + 1;
    }
    proof {
        assert forall|c: Tile|
            candidate_upto(wi, hi, t, o, Player::One, c, n_int) == candidate(
                wi,
                hi,
                t,
                o,
                Player::One,
                c,
            ) && candidate_upto(wi, hi, t, o, Player::Two, c, n_int) == candidate(
            wi,
            hi,
            t,
            o,
            Player::Two,
            c,
        ) by {
            if candidate(wi, hi, t, o, Player::One, c) {
                let (a, b) = choose|a: int, b: int| #[trigger]
                    pair_gives(wi, hi, t, o, Player::One, c, a, b);
                assert(a < n_int && pair_gives(wi, hi, t, o, Player::One, c, a, b));
            }
            if candidate(wi, hi, t, o, Player::Two, c) {
                let (a, b) = choose|a: int, b: int| #[trigger]
                    pair_gives(wi, hi, t, o, Player::Two, c, a, b);
                assert(a < n_int && pair_gives(wi, hi, t, o, Player::Two, c, a, b));
            }
        }
    }
    one.remove(tiles[home_two]);
    two.remove(tiles[home_one]);
    LegalMoves { one, two }
}

/// A color that is legal for a player against the resolved ownership is
/// never that player's own current home color: a differently-owned
/// neighbor of the player's territory cannot hold the territory's color,
/// because a same-colored cell touching the territory would have been
/// captured by the resolver (or is the other home's color, which the
/// exclusion rule strikes).
pub proof fn lemma_legal_not_own_home_color(
    width: int,
    height: int,
    tiles: Seq<Tile>,
    home_one: int,
    home_two: int,
    p: Player,
    c: Tile,
)
    requires
        grid_ok(width, height),
        tiles.len() == width * height,
        0 <= home_one < width * height,
        0 <= home_two < width * height,
        home_one != home_two,
        p == Player::One || p == Player::Two,
        legal_spec(
            width,
            height,
            tiles,
            owner_seq(width, height, tiles, home_one, home_two),
            home_one,
            home_two,
            p,
            c,
        ),
    ensures
        c != tiles[if p == Player::One {
            home_one
        } else {
            home_two
        }],
{
    let o = owner_seq(width, height, tiles, home_one, home_two);
    let hp = if p == Player::One { home_one } else { home_two };
    let hq = if p == Player::One { home_two } else { home_one };
    if c == tiles[hp] {
        if tiles[hp] == tiles[hq] {
            // The exclusion rule already denies the other home's color.
            assert(c != tiles[hq]);
            assert(false);
        } else {
            let (i, j) = choose|i: int, j: int| #[trigger]
                pair_gives(width, height, tiles, o, p, c, i, j);
            assert(o[i] == p && owner_spec(width, height, tiles, home_one, home_two, i) == p);
            // The player's territory holds the home's color.
            let d = if p == Player::One {
                assert(owned_by_one(width, height, tiles, home_one, home_two, i));
                choose|d: nat| reach_within(width, height, tiles, home_one, i, d)
            } else {
                assert(owned_by_two(width, height, tiles, home_one, home_two, i));
                choose|d: nat| reach_within(width, height, tiles, home_two, i, d)
            };
            assert(reach_within(width, height, tiles, hp, i, d));
            assert(tiles[i] == tiles[hp]);
            // Its same-colored neighbor j is then also reached from hp,
            // so j is owned by someone; j is not owned by p, so by the
            // other player, whose territory holds the other home's color.
            assert(tiles[j] == c);
            lemma_reach_step(width, height, tiles, hp, i, j, d);
            if p == Player::One {
                lemma_reached_is_owned(width, height, tiles, home_one, home_two, j, (d + 1) as nat);
            } else {
                lemma_reached_is_owned(width, height, tiles, home_one, home_two, j, (d + 1) as nat);
            }
            let oj = owner_spec(width, height, tiles, home_one, home_two, j);
            assert(o[j] == oj && oj != p && oj != Player::Undef);
            if oj == Player::One {
                assert(owned_by_one(width, height, tiles, home_one, home_two, j));
                let dq = choose|dq: nat|
                    reach_within(width, height, tiles, home_one, j, dq) && (dq == 0
                        || !reach_within(width, height, tiles, home_two, j, (dq - 1) as nat));
                assert(tiles[j] == tiles[home_one]);
            } else {
                assert(owned_by_two(width, height, tiles, home_one, home_two, j));
                let dq = choose|dq: nat|
                    reach_within(width, height, tiles, home_two, j, dq) && !reach_within(
                        width,
                        height,
                        tiles,
                        home_one,
                        j,
                        dq,
                    );
                assert(tiles[j] == tiles[home_two]);
            }
            assert(tiles[j] == tiles[hq]);
            assert(c != tiles[hq]);
            assert(false);
        }
    }
}

} // verus!
