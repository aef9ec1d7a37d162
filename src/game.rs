use vstd::prelude::*;

use crate::board::{initial_piece, lemma_coord_eq, lemma_field_coord, Board};
use crate::legality::{after_move, holds, in_check, is_mated, legal_target};
use crate::topology::{is_square, Coord, Field, Piece, PieceType, Player};

verus! {

/// What picking a square did.
#[derive(Clone, Copy, Debug, PartialEq, Eq, Structural)]
pub enum PickOutcome {
    /// Nothing changed.
    Ignored,
    /// A piece of the player to move was picked up.
    Selected,
    /// The picked-up piece was put back; the turn did not change.
    Cancelled,
    /// The picked-up piece moved from `from` to `to`, becoming a queen where
    /// `promoted`, and the turn passed on.
    Moved { from: Coord, to: Coord, promoted: bool },
}

/// A game in progress: the board and, for each player in the order of play,
/// whether that player is mated. A mated player stays on the board, is
/// skipped in the order of play, and stays mated.
#[derive(Clone, Debug)]
pub struct Game {
    pub board: Board,
    pub mated: [bool; 3],
}

/// Whether `pl` is marked as mated in `mated`.
pub open spec fn flag(mated: Seq<bool>, pl: Player) -> bool {
    mated[pl.spec_index()]
}

/// How many players are marked as mated.
pub open spec fn mate_count(mated: Seq<bool>) -> int {
    (if mated[0] { 1int } else { 0 }) + (if mated[1] { 1int } else { 0 }) + (if mated[2] { 1int } else { 0 })
}

/// The first player, from `p` on in the order of play, who is not marked as
/// mated (`p` itself where all are).
pub open spec fn next_unmated(mated: Seq<bool>, p: Player) -> Player {
    if !flag(mated, p) {
        p
    } else if !flag(mated, p.spec_next()) {
        p.spec_next()
    } else if !flag(mated, p.spec_next().spec_next()) {
        p.spec_next().spec_next()
    } else {
        p
    }
}

/// Who moves next, and the mate marks then, when the turn passes to `p` on
/// the board `cells`: players marked as mated are skipped; a player reached
/// who has no legal move is marked as mated and skipped in turn. Once two
/// players are marked, the third keeps the turn.
pub open spec fn settle(cells: Seq<Field>, mated: Seq<bool>, p: Player) -> (Player, Seq<bool>)
    decreases 3 - mate_count(mated),
{
    let q = next_unmated(mated, p);
    if mated.len() != 3 || mate_count(mated) >= 2 || !is_mated(cells, q) {
        (q, mated)
    } else {
        settle(cells, mated.update(q.spec_index(), true), q.spec_next())
    }
}

/// Whether a pawn of `pl` that reaches rank `y` becomes a queen.
pub open spec fn promotes(pl: Player, y: int) -> bool {
    match pl {
        Player::Red => y == 8 || y == 12,
        Player::Green => y == 1 || y == 12,
        Player::Yellow => y == 8 || y == 1,
    }
}

/// The piece that `piece` of `pl` becomes on reaching rank `y`.
pub open spec fn moved_piece(piece: Piece, pl: Player, y: int) -> Piece {
    if piece.typ == PieceType::Pawn && promotes(pl, y) {
        Piece { typ: PieceType::Queen, ..piece }
    } else {
        piece
    }
}

/// The winner, once two players are marked as mated: the third.
pub open spec fn spec_winner(mated: Seq<bool>) -> Option<Player> {
    if mate_count(mated) != 2 {
        None
    } else if !mated[0] {
        Some(Player::Red)
    } else if !mated[1] {
        Some(Player::Green)
    } else {
        Some(Player::Yellow)
    }
}

impl Game {
    /// The board is well formed; at most two players are mated and the
    /// player to move is not; a picked-up piece is the board's own piece on
    /// its square and belongs to the player to move.
    pub open spec fn wf(self) -> bool {
        &&& self.board.wf()
        &&& mate_count(self.mated@) <= 2
        &&& !flag(self.mated@, self.board.current())
        &&& self.board.active() matches Some(f) ==> {
            &&& f.coord.is_valid()
            &&& f == self.board.field_at(f.coord.x(), f.coord.y())
            &&& f.piece matches Some(p) && p.player == self.board.current()
        }
    }

    /// A new game: every piece on its starting square, Red to move, nothing
    /// picked up and nobody mated.
    pub fn new() -> (g: Game)
        ensures
            g.wf(),
            forall|x: int, y: int| is_square(x, y) ==> #[trigger] g.board.piece_at(x, y) == initial_piece(x, y),
            g.board.current() == Player::Red,
            g.board.active().is_none(),
            g.mated@ == seq![false, false, false],
    {
        let mut board = Board::new();
        board.place_pieces();
        let g = Game { board, mated: [false, false, false] };
        assert(g.mated@ =~= seq![false, false, false]);
        g
    }

    /// A game on `board`, with its player to move and nobody mated; any
    /// picked-up piece is put back.
    pub fn with_board(board: Board) -> (g: Game)
        requires
            board.wf(),
        ensures
            g.wf(),
            g.board.cells() == board.cells(),
            g.board.current() == board.current(),
            g.board.active().is_none(),
            g.mated@ == seq![false, false, false],
    {
        let mut board = board;
        board.set_active_field(None);
        let g = Game { board, mated: [false, false, false] };
        assert(g.mated@ =~= seq![false, false, false]);
        g
    }

    /// The player to move.
    pub fn current_player(&self) -> (r: Player)
        ensures
            r == self.board.current(),
    {
        self.board.current_player()
    }

    /// Whether `player` is mated.
    pub fn mate_flag(&self, player: Player) -> (r: bool)
        ensures
            r == flag(self.mated@, player),
    {
        self.mated[player.index()]
    }

    /// Whether the king of `player` is in check.
    pub fn is_check(&self, player: Player) -> (r: bool)
        requires
            self.board.wf(),
        ensures
            r == in_check(self.board.cells(), player),
    {
        self.board.is_check(player)
    }

    /// How many players are mated.
    fn mate_total(&self) -> (r: usize)
        ensures
            r == mate_count(self.mated@),
    {
        let mut n: usize = 0;
        if self.mated[0] {
            n = n + 1;
        }
        if self.mated[1] {
            n = n + 1;
        }
        if self.mated[2] {
            n = n + 1;
        }
        n
    }

    /// The winner: once two players are mated, the third.
    pub fn winner(&self) -> (r: Option<Player>)
        ensures
            r == spec_winner(self.mated@),
    {
        if self.mate_total() != 2 {
            None
        } else if !self.mated[0] {
            Some(Player::Red)
        } else if !self.mated[1] {
            Some(Player::Green)
        } else {
            Some(Player::Yellow)
        }
    }

    /// The squares that the piece on `coord` may legally move to; none where
    /// the square is empty.
    pub fn legal_destinations(&self, coord: Coord) -> (r: Vec<Coord>)
        requires
            self.board.wf(),
            coord.is_valid(),
        ensures
            forall|c: Coord| #[trigger] r@.contains(c) <==> (self.board.piece_at(coord.x(), coord.y()) matches Some(p)
                && legal_target(self.board.cells(), p, coord, c)),
    {
        let f = self.board.get_field(coord.0, coord.1).unwrap();
        proof {
            lemma_field_coord(self.board, coord.x(), coord.y());
            lemma_coord_eq(coord);
        }
        if f.piece.is_some() {
            f.get_possible_moves(&self.board)
        } else {
            Vec::new()
        }
    }

    /// The first player, from `p` on, who is not mated.
    fn next_unmated(&self, p: Player) -> (r: Player)
        ensures
            r == next_unmated(self.mated@, p),
    {
        if !self.mated[p.index()] {
            p
        } else if !self.mated[p.next().index()] {
            p.next()
        } else if !self.mated[p.next().next().index()] {
            p.next().next()
        } else {
            p
        }
    }

    /// Passes the turn on from the player to move, marking as mated each
    /// player reached who has no legal move: see `settle`.
    fn advance_turn(&mut self)
        requires
            old(self).board.wf(),
            mate_count(old(self).mated@) <= 2,
        ensures
            final(self).board.wf(),
            final(self).board.cells() == old(self).board.cells(),
            final(self).board.active() == old(self).board.active(),
            (final(self).board.current(), final(self).mated@) == settle(
                old(self).board.cells(),
                old(self).mated@,
                old(self).board.current().spec_next(),
            ),
    {
        let ghost cells = self.board.cells();
        let ghost goal = settle(cells, self.mated@, self.board.current().spec_next());
        let mut p = self.board.current_player().next();
        loop
            invariant
                self.board.wf(),
                self.board.cells() == cells,
                cells == old(self).board.cells(),
                self.mated@.len() == 3,
                self.board.active() == old(self).board.active(),
                mate_count(self.mated@) <= 2,
                settle(cells, self.mated@, p) == goal,
                goal == settle(cells, old(self).mated@, old(self).board.current().spec_next()),
            decreases 3 - mate_count(self.mated@),
        {
            let q = self.next_unmated(p);
            if self.mate_total() >= 2 || !q.is_mate(&self.board) {
                self.board.set_current_player(q);
                return;
            }
            self.mated[q.index()] = true;
            p = q.next();
        }
    }

    /// Picks the square `coord`. With no piece picked up, picking a piece of
    /// the player to move picks it up. With a piece picked up, picking
    /// another piece of the player to move picks that one up instead;
    /// picking a legal destination moves the piece there (a pawn reaching
    /// its far rank becomes a queen) and passes the turn on; picking any
    /// other square puts the piece back.
    pub fn select_or_move(&mut self, coord: Coord) -> (r: PickOutcome)
        requires
            old(self).wf(),
            coord.is_valid(),
        ensures
            final(self).wf(),
            forall|i: int| 0 <= i < 3 && old(self).mated@[i] ==> final(self).mated@[i],
            ({
                let b = old(self).board;
                let cur = b.current();
                let own = b.piece_at(coord.x(), coord.y()) matches Some(p) && p.player == cur;
                match b.active() {
                    Some(af) if !own => {
                        let piece = af.piece.unwrap();
                        if legal_target(b.cells(), piece, af.coord, coord) {
                            let moved = moved_piece(piece, cur, coord.y());
                            let cells = after_move(b.cells(), moved, af.coord, coord);
                            &&& r == PickOutcome::Moved { from: af.coord, to: coord, promoted: moved != piece }
                            &&& final(self).board.cells() == cells
                            &&& final(self).board.active().is_none()
                            &&& (final(self).board.current(), final(self).mated@) == settle(cells, old(self).mated@, cur.spec_next())
                        } else {
                            &&& r == PickOutcome::Cancelled
                            &&& final(self).board.cells() == b.cells()
                            &&& final(self).board.active().is_none()
                            &&& final(self).board.current() == cur
                            &&& final(self).mated@ == old(self).mated@
                        }
                    },
                    _ => {
                        &&& final(self).board.cells() == b.cells()
                        &&& final(self).board.current() == cur
                        &&& final(self).mated@ == old(self).mated@
                        &&& if own {
                            &&& r == PickOutcome::Selected
                            &&& final(self).board.active() == Some(b.field_at(coord.x(), coord.y()))
                        } else {
                            &&& r == PickOutcome::Ignored
                            &&& final(self).board.active() == b.active()
                        }
                    },
                }
            }),
    {
        proof {
            lemma_field_coord(self.board, coord.x(), coord.y());
            lemma_coord_eq(coord);
        }
        let pf = self.board.get_field(coord.0, coord.1).unwrap();
        let cur = self.board.current_player();
        let own = match pf.piece {
            Some(p) => p.player == cur,
            None => false,
        };
        let active = self.board.active_field();
        if active.is_some() && !own {
            let af = active.unwrap();
            let possible = af.get_possible_moves(&self.board);
            if !holds(&possible, coord) {
                self.board.set_active_field(None);
                return PickOutcome::Cancelled;
            }
            let mut moving = af.piece.unwrap();
            let mut promoted = false;
            if moving.typ == PieceType::Pawn {
                let at_end = match cur {
                    Player::Red => coord.1 == 8 || coord.1 == 12,
                    Player::Green => coord.1 == 1 || coord.1 == 12,
                    Player::Yellow => coord.1 == 8 || coord.1 == 1,
                };
                if at_end {
                    moving = Piece { typ: PieceType::Queen, ..moving };
                    promoted = true;
                }
            }
            self.board.put(coord, Some(moving));
            self.board.put(af.coord, None);
            self.board.set_active_field(None);
            let ghost before = *self;
            self.advance_turn();
            proof {
                lemma_settle(self.board.cells(), before.mated@, cur.spec_next());
            }
            PickOutcome::Moved { from: af.coord, to: coord, promoted }
        } else {
            if own {
                self.board.set_active_field(Some(pf));
                PickOutcome::Selected
            } else {
                PickOutcome::Ignored
            }
        }
    }
}

/// Passing the turn lands on a player who is not mated, keeps every mate
/// mark, and leaves at most two players mated.
pub proof fn lemma_settle(cells: Seq<Field>, mated: Seq<bool>, p: Player)
    requires
        mated.len() == 3,
        mate_count(mated) <= 2,
    ensures
        !flag(settle(cells, mated, p).1, settle(cells, mated, p).0),
        settle(cells, mated, p).1.len() == 3,
        mate_count(settle(cells, mated, p).1) <= 2,
        forall|i: int| 0 <= i < 3 && mated[i] ==> settle(cells, mated, p).1[i],
    decreases 3 - mate_count(mated),
{
    let q = next_unmated(mated, p);
    if !(mate_count(mated) >= 2 || !is_mated(cells, q)) {
        lemma_settle(cells, mated.update(q.spec_index(), true), q.spec_next());
    }
}

/// When the turn passes to a player who is not marked, has no legal move,
/// and fewer than two players are marked, that player is marked as mated
/// and the turn goes on to the next player, who keeps it where that player
/// is not marked and has a legal move.
pub proof fn lemma_mated_player_is_skipped(cells: Seq<Field>, mated: Seq<bool>, p: Player)
    requires
        mated.len() == 3,
        mate_count(mated) < 2,
        !flag(mated, p),
        is_mated(cells, p),
        !flag(mated, p.spec_next()),
        !is_mated(cells, p.spec_next()),
    ensures
        settle(cells, mated, p) == (p.spec_next(), mated.update(p.spec_index(), true)),
{
    let m2 = mated.update(p.spec_index(), true);
    assert(next_unmated(mated, p) == p);
    assert(settle(cells, mated, p) == settle(cells, m2, p.spec_next()));
    assert(flag(m2, p.spec_next()) == flag(mated, p.spec_next()));
    assert(next_unmated(m2, p.spec_next()) == p.spec_next());
    assert(settle(cells, m2, p.spec_next()) == (p.spec_next(), m2));
}

} // verus!
