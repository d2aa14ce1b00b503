//! The turn state machine: the single driver that sequences legal-move
//! computation, move application, territory resolution and victory
//! detection.
//!
//! `advance` is the one entry point that makes the game progress. Each
//! call runs the whole per-turn pipeline: a legal selection recolors the
//! acting player's region, territory is re-resolved, and the turn passes
//! to the other player — or ends in victory when the other player has no
//! legal move left. Illegal or missing selections change nothing.

use vstd::prelude::*;

use crate::errors::ConfigurationError;
use crate::errors::InvariantViolation;
use crate::errors::SetupError;
use crate::grid::grid_ok;
use crate::grid::max_cells;
use crate::legal::legal_moves;
use crate::legal::legal_spec;
use crate::legal::lemma_legal_not_own_home_color;
use crate::legal::LegalMoves;
use crate::moves::recolor_region;
use crate::moves::recolored;
use crate::player::Player;
use crate::reach::in_region;
use crate::reach::owner_seq;
use crate::reach::reach_within;
use crate::stats::player_stats;
use crate::stats::PlayerStats;
use crate::territory::resolve_territory;
use crate::tile::spec_seeded_tile;
use crate::tile::Tile;

verus! {

/// The phase the current turn is in. Exactly one value of this type
/// drives a game; transitions happen only inside `advance`.
#[derive(Clone, Copy, Debug, PartialEq, Eq, Structural)]
pub enum TurnState {
    /// Before the first `advance` call.
    Init,
    /// Waiting for the named player to select a legal color.
    WaitingForMove(Player),
    /// The named player has selected the color and the recolor is due.
    PlayingMove(Player, Tile),
    /// The recolor is done; resolution and the turn handover are due.
    ResolvingMove(Player),
    /// The named player has won; terminal.
    Victory(Player),
}

/// An external move-selection input: which player picks which color.
#[derive(Clone, Copy, Debug, PartialEq, Eq, Structural)]
pub struct MoveSelection {
    pub player: Player,
    pub tile: Tile,
}

/// A running game: the board, the two fixed home cells, the turn state
/// and the move counter. Ownership and legal moves are never stored;
/// they are recomputed from the board whenever they are needed.
pub struct Game {
    pub width: usize,
    pub height: usize,
    pub tiles: Vec<Tile>,
    pub home_one: usize,
    pub home_two: usize,
    pub turn: TurnState,
    pub moves_resolved: u64,
}

impl Game {
    /// The board part of the game invariant: valid dimensions, one real
    /// color per cell, homes at the two opposite corners, and the two
    /// home cells never sharing a color.
    pub open spec fn board_wf(self) -> bool {
        let w = self.width as int;
        let h = self.height as int;
        let n = w * h;
        &&& grid_ok(w, h)
        &&& self.tiles@.len() == n
        &&& self.home_one as int == 0
        &&& self.home_two as int == n - 1
        &&& forall|i: int| 0 <= i < n ==> self.tiles@[i] != Tile::Undef
        &&& self.tiles@[self.home_one as int] != self.tiles@[self.home_two as int]
    }

    /// The home cell of a player.
    pub open spec fn spec_home(self, p: Player) -> int {
        if p == Player::One {
            self.home_one as int
        } else {
            self.home_two as int
        }
    }

    /// The turn part of the game invariant: states name real players,
    /// and a pending recolor names a color that the legality rules
    /// guarantee — a real color differing from both homes' current
    /// colors.
    pub open spec fn turn_wf(self) -> bool {
        match self.turn {
            TurnState::Init => true,
            TurnState::WaitingForMove(p) => p == Player::One || p == Player::Two,
            TurnState::PlayingMove(p, c) => {
                &&& (p == Player::One || p == Player::Two)
                &&& c != Tile::Undef
                &&& c != self.tiles@[self.home_one as int]
                &&& c != self.tiles@[self.home_two as int]
            },
            TurnState::ResolvingMove(p) => p == Player::One || p == Player::Two,
            TurnState::Victory(p) => p == Player::One || p == Player::Two,
        }
    }

    /// The full game invariant.
    pub open spec fn wf(self) -> bool {
        self.board_wf() && self.turn_wf()
    }

    /// Color `c` is currently a legal move for player `p`, judged
    /// against the territory resolution of the board as it stands.
    pub open spec fn spec_legal(self, p: Player, c: Tile) -> bool {
        legal_spec(
            self.width as int,
            self.height as int,
            self.tiles@,
            owner_seq(
                self.width as int,
                self.height as int,
                self.tiles@,
                self.home_one as int,
                self.home_two as int,
            ),
            self.home_one as int,
            self.home_two as int,
            p,
            c,
        )
    }

    /// Player `p` has at least one legal move on the current board.
    pub open spec fn spec_can_move(self, p: Player) -> bool {
        exists|c: Tile| self.spec_legal(p, c)
    }

    /// The input is a selection by the expected player of a color that
    /// is legal right now.
    pub open spec fn spec_accepts(self, input: Option<MoveSelection>, p: Player) -> bool {
        match input {
            Option::Some(sel) => sel.player == p && self.spec_legal(p, sel.tile),
            Option::None => false,
        }
    }

    /// Legality depends only on the board, never on the turn phase or
    /// the move counter: two games over the same board agree on it.
    pub proof fn lemma_legal_same_board(g1: Game, g2: Game, p: Player)
        requires
            g1.width == g2.width,
            g1.height == g2.height,
            g1.tiles@ == g2.tiles@,
            g1.home_one == g2.home_one,
            g1.home_two == g2.home_two,
        ensures
            forall|c: Tile| #[trigger] g1.spec_legal(p, c) == g2.spec_legal(p, c),
            g1.spec_can_move(p) == g2.spec_can_move(p),
    {
        assert forall|c: Tile| #[trigger] g1.spec_legal(p, c) == g2.spec_legal(p, c) by {}
        if g1.spec_can_move(p) {
            let c = choose|c: Tile| g1.spec_legal(p, c);
            assert(g2.spec_legal(p, c));
        }
        if g2.spec_can_move(p) {
            let c = choose|c: Tile| g2.spec_legal(p, c);
            assert(g1.spec_legal(p, c));
        }
    }

    /// The move counter after one more resolved move; it saturates
    /// instead of wrapping, and is observability-only.
    pub open spec fn spec_counted(old_count: u64) -> u64 {
        if old_count < u64::MAX {
            (old_count + 1) as u64
        } else {
            old_count
        }
    }

    pub fn width(&self) -> (r: usize)
        ensures
            r == self.width,
    {
        self.width
    }

    pub fn height(&self) -> (r: usize)
        ensures
            r == self.height,
    {
        self.height
    }

    pub fn home_one(&self) -> (r: usize)
        ensures
            r == self.home_one,
    {
        self.home_one
    }

    pub fn home_two(&self) -> (r: usize)
        ensures
            r == self.home_two,
    {
        self.home_two
    }

    pub fn turn(&self) -> (r: TurnState)
        ensures
            r == self.turn,
    {
        self.turn
    }

    pub fn moves_resolved(&self) -> (r: u64)
        ensures
            r == self.moves_resolved,
    {
        self.moves_resolved
    }

    pub fn tiles(&self) -> (r: &Vec<Tile>)
        ensures
            r@ == self.tiles@,
    {
        &self.tiles
    }

    /// Set up a game from explicit board data: validate the dimensions
    /// and every cell, and refuse corrupted setups rather than play an
    /// undefined game.
    pub fn new(width: usize, height: usize, tiles: Vec<Tile>) -> (r: Result<Game, SetupError>)
        ensures
            match r {
                Result::Ok(g) => {
                    &&& g.wf()
                    &&& g.width == width
                    &&& g.height == height
                    &&& g.tiles@ == tiles@
                    &&& g.home_one as int == 0
                    &&& g.home_two as int == width as int * height as int - 1
                    &&& g.turn == TurnState::Init
                    &&& g.moves_resolved == 0
                },
                Result::Err(e) => match e {
                    SetupError::Config(ConfigurationError::TooSmall) => width < 2 || height < 2,
                    SetupError::Config(ConfigurationError::TooLarge) => width as int * height
                        as int > max_cells(),
                    SetupError::Invariant(InvariantViolation::WrongCellCount) => tiles@.len()
                        != width as int * height as int,
                    SetupError::Invariant(InvariantViolation::UndefinedColor) => exists|i: int|
                        0 <= i < tiles@.len() && tiles@[i] == Tile::Undef,
                    SetupError::Invariant(InvariantViolation::HomesShareColor) => tiles@[0]
                        == tiles@[width as int * height as int - 1],
                },
            },
            r is Ok <==> {
                &&& grid_ok(width as int, height as int)
                &&& tiles@.len() == width as int * height as int
                &&& (forall|i: int| 0 <= i < tiles@.len() ==> tiles@[i] != Tile::Undef)
                &&& tiles@[0] != tiles@[width as int * height as int - 1]
            },
    {
        if width < 2 || height < 2 {
            return Err(SetupError::Config(ConfigurationError::TooSmall));
        }
        if width > 0x1000_0000 || height > 0x1000_0000 {
            proof {
                assert((width as int) * (height as int) > 0x1000_0000) by (nonlinear_arith)
                    requires
                        (width as int > 0x1000_0000 || height as int > 0x1000_0000),
                        (width >= 2),
                        (height >= 2),
                ;
            }
            return Err(SetupError::Config(ConfigurationError::TooLarge));
        }
        proof {
            assert((width as int) * (height as int) <= 0x1000_0000 * 0x1000_0000)
                by (nonlinear_arith)
                requires (width as int <= 0x1000_0000), (height as int <= 0x1000_0000), (2 <= width), (2 <= height);
        }
        if (width as u64) * (height as u64) > 0x1000_0000u64 {
            return Err(SetupError::Config(ConfigurationError::TooLarge));
        }
        let n: usize = width * height;
        if tiles.len() != n {
            return Err(SetupError::Invariant(InvariantViolation::WrongCellCount));
        }
        proof {
            assert(4 <= (width as int) * (height as int)) by (nonlinear_arith)
                requires (2 <= width), (2 <= height);
        }
        let mut i: usize = 0;
        while i < n
            invariant
                i <= n,
                n == width * height,
                4 <= n,
                tiles@.len() == n,
                forall|j: int| 0 <= j < i ==> tiles@[j] != Tile::Undef,
            decreases n - i,
        {
            if tiles[i] == Tile::Undef {
                return Err(SetupError::Invariant(InvariantViolation::UndefinedColor));
            }
            i = i + 1;
        }
        let home_two: usize = n - 1;
        if tiles[0] == tiles[home_two] {
            return Err(SetupError::Invariant(InvariantViolation::HomesShareColor));
        }
        Ok(
            Game {
                width,
                height,
                tiles,
                home_one: 0,
                home_two,
                turn: TurnState::Init,
                moves_resolved: 0,
            },
        )
    }

    /// Current territory resolution of the board: one owner per cell.
    pub fn ownership(&self) -> (owners: Vec<Player>)
        requires
            self.wf(),
        ensures
            owners@ == owner_seq(
                self.width as int,
                self.height as int,
                self.tiles@,
                self.home_one as int,
                self.home_two as int,
            ),
    {
        resolve_territory(self.width, self.height, &self.tiles, self.home_one, self.home_two)
    }

    /// Both players' current legal-move sets.
    pub fn legal_now(&self) -> (lm: LegalMoves)
        requires
            self.wf(),
        ensures
            forall|c: Tile| #[trigger] lm.one.spec_contains(c) == self.spec_legal(Player::One, c),
            forall|c: Tile| #[trigger] lm.two.spec_contains(c) == self.spec_legal(Player::Two, c),
    {
        let owners = self.ownership();
        legal_moves(self.width, self.height, &self.tiles, &owners, self.home_one, self.home_two)
    }

    /// Both players' current statistics: cell counts and legal moves.
    pub fn stats(&self) -> (s: PlayerStats)
        requires
            self.wf(),
        ensures
            s.count_one == crate::stats::count_owned(
                owner_seq(
                    self.width as int,
                    self.height as int,
                    self.tiles@,
                    self.home_one as int,
                    self.home_two as int,
                ),
                Player::One,
            ),
            s.count_two == crate::stats::count_owned(
                owner_seq(
                    self.width as int,
                    self.height as int,
                    self.tiles@,
                    self.home_one as int,
                    self.home_two as int,
                ),
                Player::Two,
            ),
            forall|c: Tile| #[trigger] s.legal.one.spec_contains(c) == self.spec_legal(
                Player::One,
                c,
            ),
            forall|c: Tile| #[trigger] s.legal.two.spec_contains(c) == self.spec_legal(
                Player::Two,
                c,
            ),
    {
        let owners = self.ownership();
        player_stats(self.width, self.height, &self.tiles, &owners, self.home_one, self.home_two)
    }

    /// The recolor phase: apply the pending legal selection to the
    /// board, then hand over to resolution.
    fn play_phase(&mut self, p: Player, c: Tile)
        requires
            old(self).board_wf(),
            p == Player::One || p == Player::Two,
            c != Tile::Undef,
            c != old(self).tiles@[old(self).home_one as int],
            c != old(self).tiles@[old(self).home_two as int],
        ensures
            final(self).board_wf(),
            final(self).width == old(self).width,
            final(self).height == old(self).height,
            final(self).home_one == old(self).home_one,
            final(self).home_two == old(self).home_two,
            final(self).tiles@ == recolored(
                old(self).width as int,
                old(self).height as int,
                old(self).tiles@,
                old(self).spec_home(p),
                c,
            ),
            final(self).moves_resolved == Game::spec_counted(old(self).moves_resolved),
            final(self).turn == (if final(self).spec_can_move(p.spec_other()) {
                TurnState::WaitingForMove(p.spec_other())
            } else {
                TurnState::Victory(p)
            }),
    {
        let ghost wi: int = self.width as int;
        let ghost hi: int = self.height as int;
        let ghost t0: Seq<Tile> = self.tiles@;
        let ghost hp: int = self.spec_home(p);
        let home: usize = if p == Player::One {
            self.home_one
        } else {
            self.home_two
        };
        recolor_region(self.width, self.height, &mut self.tiles, home, c);
        proof {
            // Every recolored cell holds the real color `c`; all others
            // are unchanged, so no cell lost its color and the two homes
            // still differ: the acting home now holds `c`, the other
            // home was not in the region (their colors differed) and
            // keeps its old color, which `c` was chosen to differ from.
            assert(reach_within(wi, hi, t0, hp, hp, 0));
            assert(in_region(wi, hi, t0, hp, hp));
            let hq: int = if p == Player::One {
                self.home_two as int
            } else {
                self.home_one as int
            };
            if in_region(wi, hi, t0, hp, hq) {
                let d = choose|d: nat| reach_within(wi, hi, t0, hp, hq, d);
                assert(t0[hq] == t0[hp]);
                assert(false);
            }
            assert(self.tiles@[hp] == c);
            assert(self.tiles@[hq] == t0[hq]);
        }
        self.turn = TurnState::ResolvingMove(p);
        let ghost g_mid: Game = *self;
        self.resolve_phase(p);
        proof {
            Game::lemma_legal_same_board(g_mid, *self, p.spec_other());
        }
    }

    /// The resolution phase: re-resolve territory, recompute the other
    /// player's legal moves, count the move, and either hand the turn
    /// over or declare victory.
    fn resolve_phase(&mut self, p: Player)
        requires
            old(self).board_wf(),
            p == Player::One || p == Player::Two,
        ensures
            final(self).board_wf(),
            final(self).width == old(self).width,
            final(self).height == old(self).height,
            final(self).home_one == old(self).home_one,
            final(self).home_two == old(self).home_two,
            final(self).tiles@ == old(self).tiles@,
            final(self).moves_resolved == Game::spec_counted(old(self).moves_resolved),
            final(self).turn == (if old(self).spec_can_move(p.spec_other()) {
                TurnState::WaitingForMove(p.spec_other())
            } else {
                TurnState::Victory(p)
            }),
    {
        let owners = resolve_territory(
            self.width,
            self.height,
            &self.tiles,
            self.home_one,
            self.home_two,
        );
        let lm = legal_moves(
            self.width,
            self.height,
            &self.tiles,
            &owners,
            self.home_one,
            self.home_two,
        );
        if self.moves_resolved < u64::MAX {
            self.moves_resolved = self.moves_resolved + 1;
        }
        let other: Player = p.other();
        let other_set = if other == Player::One {
            lm.one
        } else {
            lm.two
        };
        let stuck: bool = other_set.is_empty();
        proof {
            if stuck {
                if old(self).spec_can_move(other) {
                    let c = choose|c: Tile| old(self).spec_legal(other, c);
                    assert(other_set.spec_contains(c));
                    assert(false);
                }
            } else {
                let c = choose|c: Tile| other_set.spec_contains(c);
                assert(old(self).spec_legal(other, c));
            }
        }
        self.turn = if stuck {
            TurnState::Victory(p)
        } else {
            TurnState::WaitingForMove(other)
        };
    }

    /// Advance the game: the single driving entry point.
    ///
    /// From `Init` the game starts waiting for Player One. While waiting,
    /// a selection by the waiting player of a currently legal color runs
    /// the whole turn pipeline — recolor, territory resolution, legal
    /// moves, turn handover or victory; anything else (no input, the
    /// wrong player, an illegal color) is silently ignored and nothing
    /// changes. A game resumed mid-turn finishes the pending phases the
    /// same way. Once some player has won, no call changes anything.
    pub fn advance(&mut self, input: Option<MoveSelection>) -> (r: TurnState)
        requires
            old(self).wf(),
        ensures
            final(self).wf(),
            r == final(self).turn,
            final(self).width == old(self).width,
            final(self).height == old(self).height,
            final(self).home_one == old(self).home_one,
            final(self).home_two == old(self).home_two,
            match old(self).turn {
                TurnState::Init => {
                    &&& final(self).tiles@ == old(self).tiles@
                    &&& final(self).moves_resolved == old(self).moves_resolved
                    &&& final(self).turn == TurnState::WaitingForMove(Player::One)
                },
                TurnState::WaitingForMove(p) => {
                    if old(self).spec_accepts(input, p) {
                        let c = input->Some_0.tile;
                        &&& final(self).tiles@ == recolored(
                            old(self).width as int,
                            old(self).height as int,
                            old(self).tiles@,
                            old(self).spec_home(p),
                            c,
                        )
                        &&& final(self).moves_resolved == Game::spec_counted(
                            old(self).moves_resolved,
                        )
                        &&& final(self).turn == (if final(self).spec_can_move(p.spec_other()) {
                            TurnState::WaitingForMove(p.spec_other())
                        } else {
                            TurnState::Victory(p)
                        })
                    } else {
                        *final(self) == *old(self)
                    }
                },
                TurnState::PlayingMove(p, c) => {
                    &&& final(self).tiles@ == recolored(
                        old(self).width as int,
                        old(self).height as int,
                        old(self).tiles@,
                        old(self).spec_home(p),
                        c,
                    )
                    &&& final(self).moves_resolved == Game::spec_counted(old(self).moves_resolved)
                    &&& final(self).turn == (if final(self).spec_can_move(p.spec_other()) {
                        TurnState::WaitingForMove(p.spec_other())
                    } else {
                        TurnState::Victory(p)
                    })
                },
                TurnState::ResolvingMove(p) => {
                    &&& final(self).tiles@ == old(self).tiles@
                    &&& final(self).moves_resolved == Game::spec_counted(old(self).moves_resolved)
                    &&& final(self).turn == (if old(self).spec_can_move(p.spec_other()) {
                        TurnState::WaitingForMove(p.spec_other())
                    } else {
                        TurnState::Victory(p)
                    })
                },
                TurnState::Victory(p) => *final(self) == *old(self) && r == TurnState::Victory(p),
            },
    {
        let t: TurnState = self.turn;
        match t {
            TurnState::Init => {
                self.turn = TurnState::WaitingForMove(Player::One);
            },
            TurnState::WaitingForMove(p) => {
                match input {
                    Option::Some(sel) => {
                        if sel.player == p {
                            let lm = self.legal_now();
                            let set = if p == Player::One {
                                lm.one
                            } else {
                                lm.two
                            };
                            if set.contains(sel.tile) {
                                proof {
                                    lemma_legal_not_own_home_color(
                                        self.width as int,
                                        self.height as int,
                                        self.tiles@,
                                        self.home_one as int,
                                        self.home_two as int,
                                        p,
                                        sel.tile,
                                    );
                                }
                                self.turn = TurnState::PlayingMove(p, sel.tile);
                                self.play_phase(p, sel.tile);
                            }
                        }
                    },
                    Option::None => {},
                }
            },
            TurnState::PlayingMove(p, c) => {
                self.play_phase(p, c);
            },
            TurnState::ResolvingMove(p) => {
                self.resolve_phase(p);
            },
            TurnState::Victory(_) => {},
        }
        self.turn
    }
}

/// Set up a game from grid dimensions and a color seed: one cell per
/// coordinate, colored by the deterministic seeded assignment, with
/// Player One's home at the top-left corner and Player Two's at the
/// bottom-right. Fails when the grid cannot host two distinct,
/// non-adjacent home cells or exceeds the engine's machine limits.
pub fn initialize(width: usize, height: usize, seed: u64) -> (r: Result<Game, ConfigurationError>)
    ensures
        match r {
            Result::Ok(g) => {
                &&& g.wf()
                &&& g.width == width
                &&& g.height == height
                &&& g.turn == TurnState::Init
                &&& g.moves_resolved == 0
                &&& forall|rr: int, cc: int|
                    0 <= rr < height as int && 0 <= cc < width as int
                        ==> g.tiles@[rr * width as int + cc] == spec_seeded_tile(
                        rr,
                        cc,
                        width as int,
                        height as int,
                        seed,
                    )
            },
            Result::Err(ConfigurationError::TooSmall) => width < 2 || height < 2,
            Result::Err(ConfigurationError::TooLarge) => width as int * height as int
                > max_cells(),
        },
        r is Err <==> !grid_ok(width as int, height as int),
{
    if width < 2 || height < 2 {
        return Err(ConfigurationError::TooSmall);
    }
    if width > 0x1000_0000 || height > 0x1000_0000 {
        proof {
            assert((width as int) * (height as int) > 0x1000_0000) by (nonlinear_arith)
                requires
                    (width as int > 0x1000_0000 || height as int > 0x1000_0000),
                    (width >= 2),
                    (height >= 2),
            ;
        }
        return Err(ConfigurationError::TooLarge);
    }
    proof {
        assert((width as int) * (height as int) <= 0x1000_0000 * 0x1000_0000) by (nonlinear_arith)
            requires (width as int <= 0x1000_0000), (height as int <= 0x1000_0000), (2 <= width), (2 <= height);
    }
    if (width as u64) * (height as u64) > 0x1000_0000u64 {
        return Err(ConfigurationError::TooLarge);
    }
    let ghost wi: int = width as int;
    let ghost hi: int = height as int;
    proof {
        assert(4 <= wi * hi) by (nonlinear_arith)
            requires (2 <= wi), (2 <= hi);
    }
    let n: usize = width * height;
    let mut tiles: Vec<Tile> = Vec::new();
    let mut row: usize = 0;
    while row < height
        invariant
            wi == width as int,
            hi == height as int,
            grid_ok(wi, hi),
            n == wi * hi,
            row <= height,
            tiles@.len() == row as int * wi,
            forall|rr: int, cc: int|
                0 <= rr < row as int && 0 <= cc < wi ==> tiles@[rr * wi + cc] == spec_seeded_tile(
                    rr,
                    cc,
                    wi,
                    hi,
                    seed,
                ),
            forall|i: int| 0 <= i < tiles@.len() ==> tiles@[i] != Tile::Undef,
        decreases height - row,
    {
        let mut col: usize = 0;
        while col < width
            invariant
                wi == width as int,
                hi == height as int,
                grid_ok(wi, hi),
                n == wi * hi,
                row < height,
                col <= width,
                tiles@.len() == row as int * wi + col as int,
                forall|rr: int, cc: int|
                    0 <= rr < row as int && 0 <= cc < wi ==> tiles@[rr * wi + cc]
                        == spec_seeded_tile(rr, cc, wi, hi, seed),
                forall|cc: int|
                    0 <= cc < col as int ==> tiles@[row as int * wi + cc] == spec_seeded_tile(
                        row as int,
                        cc,
                        wi,
                        hi,
                        seed,
                    ),
                forall|i: int| 0 <= i < tiles@.len() ==> tiles@[i] != Tile::Undef,
            decreases width - col,
        {
            proof {
                assert((row as int) * wi + (col as int) < n) by (nonlinear_arith)
                    requires
                        (0 <= row as int),
                        ((row as int) < hi),
                        (0 <= col as int),
                        ((col as int) < wi),
                        (n == wi * hi),
                        (0 < wi),
                ;
            }
            let tile = Tile::from_row_and_column(row, col, width, height, seed);
            let ghost t_prev = tiles@;
            tiles.push(tile);
            col = col + 1;
            proof {
                // Cells of earlier rows sit strictly below the pushed
                // index, so the push left them unchanged.
                assert forall|rr: int, cc: int|
                    0 <= rr < row as int && 0 <= cc < wi implies #[trigger] tiles@[rr * wi + cc]
                    == spec_seeded_tile(rr, cc, wi, hi, seed) by {
                    assert(rr * wi + cc < (row as int) * wi) by (nonlinear_arith)
                        requires (0 <= rr), (rr < (row as int)), (0 <= cc < wi), (0 < wi);
                    assert(tiles@[rr * wi + cc] == t_prev[rr * wi + cc]);
                }
            }
        }
        row = row + 1;
        proof {
            assert((row as int) * wi == (row as int - 1) * wi + wi) by (nonlinear_arith);
        }
    }
    proof {
        assert(tiles@.len() == hi * wi);
        assert(hi * wi == wi * hi) by (nonlinear_arith);
    }
    let home_two: usize = n - 1;
    proof {
        // The two home corners mix identical seeds but sit in opposite
        // halves of the board, whose color mappings are rotated by two:
        // they never share a color.
        assert((hi - 1) * wi + (wi - 1) == n - 1) by (nonlinear_arith)
            requires (n == wi * hi), (0 < wi), (0 < hi);
        assert(tiles@[0] == spec_seeded_tile(0, 0, wi, hi, seed));
        assert(tiles@[n - 1] == spec_seeded_tile(hi - 1, wi - 1, wi, hi, seed));
        assert((hi - 1) * (hi - 1 - (hi - 1)) == 0) by (nonlinear_arith);
        assert((wi - 1) * (wi - 1 - (wi - 1)) == 0) by (nonlinear_arith);
        assert(0 * (hi - 1 - 0) == 0) by (nonlinear_arith);
        assert(0 * (wi - 1 - 0) == 0) by (nonlinear_arith);
        assert(tiles@[0] != tiles@[n - 1]);
    }
    Ok(
        Game {
            width,
            height,
            tiles,
            home_one: 0,
            home_two,
            turn: TurnState::Init,
            moves_resolved: 0,
        },
    )
}

} // verus!
