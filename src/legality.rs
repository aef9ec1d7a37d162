use vstd::prelude::*;

use crate::board::{cell_coord, cells_with, lemma_field_coord, lemma_layout, Board};
use crate::moves::{piece_on, pseudo_target};
use crate::topology::{Coord, Field, Piece, PieceType, Player};

verus! {

/// Whether `f` holds the king of `pl`.
pub open spec fn is_king_of(f: Field, pl: Player) -> bool {
    f.piece == Some(Piece { typ: PieceType::King, player: pl })
}

/// The first place, from `k` on, that holds the king of `pl`.
pub open spec fn first_king_from(cells: Seq<Field>, pl: Player, k: int) -> Option<int>
    decreases cells.len() - k,
{
    if k < 0 || k >= cells.len() {
        None
    } else if is_king_of(cells[k], pl) {
        Some(k)
    } else {
        first_king_from(cells, pl, k + 1)
    }
}

/// The first square, in the board's order, that holds the king of `pl`.
pub open spec fn king_field(cells: Seq<Field>, pl: Player) -> Option<Field> {
    match first_king_from(cells, pl, 0) {
        Some(k) => Some(cells[k]),
        None => None,
    }
}

/// Whether some piece, of any player, may move to `t` by the rules of
/// movement alone.
pub open spec fn attacked(cells: Seq<Field>, t: Coord) -> bool {
    exists|k: int|
        0 <= k < cells.len() && (#[trigger] cells[k]).piece.is_some() && pseudo_target(
            cells,
            cells[k].piece.unwrap(),
            cells[k].coord,
            t,
        )
}

/// Whether the king of `pl` is in check: some piece may move onto it. A
/// player without a king is not in check.
pub open spec fn in_check(cells: Seq<Field>, pl: Player) -> bool {
    match king_field(cells, pl) {
        Some(f) => attacked(cells, f.coord),
        None => false,
    }
}

/// The squares after `piece` moved from `from` to `to`.
pub open spec fn after_move(cells: Seq<Field>, piece: Piece, from: Coord, to: Coord) -> Seq<Field> {
    cells_with(cells_with(cells, to.x(), to.y(), Some(piece)), from.x(), from.y(), None)
}

/// Whether `piece` on `from` may move to `to` by the rules of movement and
/// without leaving the king of its player in check.
pub open spec fn safe_target(cells: Seq<Field>, piece: Piece, from: Coord, to: Coord) -> bool {
    pseudo_target(cells, piece, from, to) && !in_check(after_move(cells, piece, from, to), piece.player)
}

/// Whether `to` holds the king of a player other than that of `piece`.
pub open spec fn holds_enemy_king(cells: Seq<Field>, piece: Piece, to: Coord) -> bool {
    match piece_on(cells, to.x(), to.y()) {
        Some(q) => q.player != piece.player && q.typ == PieceType::King,
        None => false,
    }
}

/// Whether moving `piece` from `from` to `to` is safe and captures a king.
pub open spec fn king_capture_target(cells: Seq<Field>, piece: Piece, from: Coord, to: Coord) -> bool {
    safe_target(cells, piece, from, to) && holds_enemy_king(cells, piece, to)
}

/// Whether `piece` on `from` has a safe move that captures a king.
pub open spec fn has_king_capture(cells: Seq<Field>, piece: Piece, from: Coord) -> bool {
    exists|t: Coord| #[trigger] king_capture_target(cells, piece, from, t)
}

/// Whether `piece` on `from` may legally move to `to`. Where the piece can
/// capture a king, only such captures are legal. Otherwise, where the king
/// of its player is in check, the piece has no legal move; else its safe
/// moves are legal.
pub open spec fn legal_target(cells: Seq<Field>, piece: Piece, from: Coord, to: Coord) -> bool {
    if has_king_capture(cells, piece, from) {
        king_capture_target(cells, piece, from, to)
    } else if in_check(cells, piece.player) {
        false
    } else {
        safe_target(cells, piece, from, to)
    }
}

/// Whether `v` holds `c`, for a vector of coordinates.
pub(crate) fn holds(v: &Vec<Coord>, c: Coord) -> (r: bool)
    ensures
        r == v@.contains(c),
{
    let mut i: usize = 0;
    while i < v.len()
        invariant
            0 <= i <= v@.len(),
            forall|j: int| 0 <= j < i ==> v@[j] != c,
        decreases v@.len() - i,
    {
        if v[i] == c {
            return true;
        }
        i = i + 1;
    }
    false
}

impl Board {
    /// The squares that some piece, of any player, may move to by the rules
    /// of movement alone.
    pub fn get_possible_move_targets_unchecked(&self, _player: Player) -> (r: Vec<Coord>)
        requires
            self.wf(),
        ensures
            forall|c: Coord| #[trigger] r@.contains(c) <==> attacked(self.cells(), c),
    {
        let fields = self.get_fields();
        let ghost cells = self.cells();
        let mut targets: Vec<Coord> = Vec::new();
        let mut k: usize = 0;
        while k < fields.len()
            invariant
                self.wf(),
                fields@ == cells,
                cells == self.cells(),
                0 <= k <= fields@.len(),
                forall|c: Coord|
                    #[trigger] targets@.contains(c) <==> exists|j: int|
                        0 <= j < k && (#[trigger] cells[j]).piece.is_some() && pseudo_target(
                            cells,
                            cells[j].piece.unwrap(),
                            cells[j].coord,
                            c,
                        ),
            decreases fields@.len() - k,
        {
            let f = fields[k];
            if f.piece.is_some() {
                proof {
                    lemma_layout();
                    assert(f.coord == cell_coord(k as int));
                }
                let moves = f.get_possible_moves_unchecked(self);
                let ghost before = targets@;
                let mut i: usize = 0;
                while i < moves.len()
                    invariant
                        0 <= i <= moves@.len(),
                        forall|c: Coord|
                            #[trigger] targets@.contains(c) <==> (before.contains(c) || exists|m: int|
                                0 <= m < i && moves@[m] == c),
                    decreases moves@.len() - i,
                {
                    let ghost prev = targets@;
                    targets.push(moves[i]);
                    assert forall|c: Coord|
                        #[trigger] targets@.contains(c) <==> (before.contains(c) || exists|m: int|
                            0 <= m < i + 1 && moves@[m] == c) by {
                        if targets@.contains(c) {
                            let j = choose|j: int| 0 <= j < targets@.len() && targets@[j] == c;
                            if j < prev.len() {
                                assert(prev.contains(c));
                            }
                        }
                        if prev.contains(c) {
                            let j = choose|j: int| 0 <= j < prev.len() && prev[j] == c;
                            assert(targets@[j] == c);
                        }
                        if exists|m: int| 0 <= m < i + 1 && moves@[m] == c {
                            let m = choose|m: int| 0 <= m < i + 1 && moves@[m] == c;
                            if m == i {
                                assert(targets@[prev.len() as int] == c);
                            } else {
                                assert(prev.contains(c));
                            }
                        }
                    }
                    i = i + 1;
                }
                assert forall|c: Coord|
                    #[trigger] targets@.contains(c) <==> exists|j: int|
                        0 <= j < k + 1 && (#[trigger] cells[j]).piece.is_some() && pseudo_target(
                            cells,
                            cells[j].piece.unwrap(),
                            cells[j].coord,
                            c,
                        ) by {
                    if moves@.contains(c) {
                        let m = choose|m: int| 0 <= m < moves@.len() && moves@[m] == c;
                    }
                    if exists|m: int| 0 <= m < moves@.len() && moves@[m] == c {
                        let m = choose|m: int| 0 <= m < moves@.len() && moves@[m] == c;
                        assert(moves@.contains(c));
                    }
                }
            }
            k = k + 1;
        }
        targets
    }

    /// The first square, in the board's order, that holds the king of
    /// `player`, or `None` where the player has no king on the board.
    pub fn get_king_field(&self, player: Player) -> (r: Option<Field>)
        requires
            self.wf(),
        ensures
            r == king_field(self.cells(), player),
    {
        let fields = self.get_fields();
        let mut k: usize = 0;
        while k < fields.len()
            invariant
                fields@ == self.cells(),
                fields@.len() == 96,
                0 <= k <= fields@.len(),
                first_king_from(fields@, player, 0) == first_king_from(fields@, player, k as int),
            decreases fields@.len() - k,
        {
            let f = fields[k];
            if let Some(p) = f.piece {
                if p.player == player && p.typ == PieceType::King {
                    return Some(f);
                }
            }
            k = k + 1;
        }
        None
    }

    /// Whether the king of `player` is in check: some piece, of any player,
    /// may move onto it. A player without a king is not in check.
    pub fn is_check(&self, player: Player) -> (r: bool)
        requires
            self.wf(),
        ensures
            r == in_check(self.cells(), player),
    {
        let king = self.get_king_field(player);
        let king = match king {
            Some(k) => k,
            None => return false,
        };
        let moves = self.get_possible_move_targets_unchecked(player);
        holds(&moves, king.coord)
    }
}

/// Whether `piece` on `from` has a legal move.
pub open spec fn has_legal_move(cells: Seq<Field>, piece: Piece, from: Coord) -> bool {
    exists|t: Coord| #[trigger] legal_target(cells, piece, from, t)
}

/// Whether the place `k` holds a piece of `pl`.
pub open spec fn owned_by(cells: Seq<Field>, k: int, pl: Player) -> bool {
    cells[k].piece matches Some(p) && p.player == pl
}

/// Whether no piece of `pl` has a legal move.
pub open spec fn is_mated(cells: Seq<Field>, pl: Player) -> bool {
    forall|k: int|
        0 <= k < cells.len() && #[trigger] owned_by(cells, k, pl) ==> !has_legal_move(cells, cells[k].piece.unwrap(), cells[k].coord)
}

/// Whether some piece of `pl` has a safe move that captures a king.
pub open spec fn can_capture_a_king(cells: Seq<Field>, pl: Player) -> bool {
    exists|k: int|
        0 <= k < cells.len() && #[trigger] owned_by(cells, k, pl) && has_king_capture(cells, cells[k].piece.unwrap(), cells[k].coord)
}

impl Field {
    /// The moves of the piece on this square that do not leave the king of
    /// its player in check, and, second, those among them that capture a
    /// king.
    pub fn get_possible_moves_unking(&self, board: &Board) -> (r: (Vec<Coord>, Vec<Coord>))
        requires
            board.wf(),
            self.coord.is_valid(),
            self.piece.is_some(),
        ensures
            forall|c: Coord| #[trigger] r.0@.contains(c) <==> safe_target(board.cells(), self.piece.unwrap(), self.coord, c),
            forall|c: Coord| #[trigger] r.1@.contains(c) <==> king_capture_target(board.cells(), self.piece.unwrap(), self.coord, c),
    {
        let piece = self.piece.unwrap();
        let player = piece.player;
        let ghost cells = board.cells();
        let pseudo = self.get_possible_moves_unchecked(board);
        let mut moves: Vec<Coord> = Vec::new();
        let mut i: usize = 0;
        while i < pseudo.len()
            invariant
                board.wf(),
                cells == board.cells(),
                self.coord.is_valid(),
                self.piece == Some(piece),
                player == piece.player,
                forall|c: Coord| #[trigger] pseudo@.contains(c) <==> pseudo_target(cells, piece, self.coord, c),
                0 <= i <= pseudo@.len(),
                forall|c: Coord|
                    #[trigger] moves@.contains(c) <==> exists|m: int|
                        0 <= m < i && pseudo@[m] == c && !in_check(after_move(cells, piece, self.coord, c), player),
            decreases pseudo@.len() - i,
        {
            let x = pseudo[i];
            assert(pseudo@.contains(x));
            let mut new_board = board.duplicate();
            new_board.put(x, self.piece);
            new_board.put(self.coord, None);
            let ghost prev = moves@;
            let exposed = new_board.is_check(player);
            if !exposed {
                moves.push(x);
            }
            assert forall|c: Coord|
                #[trigger] moves@.contains(c) <==> exists|m: int|
                    0 <= m < i + 1 && pseudo@[m] == c && !in_check(after_move(cells, piece, self.coord, c), player) by {
                if moves@.contains(c) {
                    let j = choose|j: int| 0 <= j < moves@.len() && moves@[j] == c;
                    if j < prev.len() {
                        assert(prev.contains(c));
                    }
                }
                if prev.contains(c) {
                    let j = choose|j: int| 0 <= j < prev.len() && prev[j] == c;
                    assert(moves@[j] == c);
                }
                if exists|m: int| 0 <= m < i + 1 && pseudo@[m] == c && !in_check(after_move(cells, piece, self.coord, c), player) {
                    let m = choose|m: int| 0 <= m < i + 1 && pseudo@[m] == c && !in_check(after_move(cells, piece, self.coord, c), player);
                    if m == i {
                        assert(moves@[prev.len() as int] == c);
                    } else {
                        assert(prev.contains(c));
                    }
                }
            }
            i = i + 1;
        }
        assert forall|c: Coord| #[trigger] moves@.contains(c) <==> safe_target(cells, piece, self.coord, c) by {
            if pseudo@.contains(c) {
                let m = choose|m: int| 0 <= m < pseudo@.len() && pseudo@[m] == c;
            }
        }
        let mut king_capt_moves: Vec<Coord> = Vec::new();
        let mut j: usize = 0;
        while j < moves.len()
            invariant
                board.wf(),
                cells == board.cells(),
                player == piece.player,
                forall|c: Coord| #[trigger] moves@.contains(c) <==> safe_target(cells, piece, self.coord, c),
                0 <= j <= moves@.len(),
                forall|c: Coord|
                    #[trigger] king_capt_moves@.contains(c) <==> exists|m: int|
                        0 <= m < j && moves@[m] == c && holds_enemy_king(cells, piece, c),
            decreases moves@.len() - j,
        {
            let mov = moves[j];
            assert(moves@.contains(mov));
            let f = board.get_field(mov.0, mov.1).unwrap();
            proof {
                lemma_field_coord(*board, mov.x(), mov.y());
            }
            let ghost prev = king_capt_moves@;
            if let Some(p) = f.piece {
                if p.player != player && p.typ == PieceType::King {
                    king_capt_moves.push(mov);
                }
            }
            assert forall|c: Coord|
                #[trigger] king_capt_moves@.contains(c) <==> exists|m: int|
                    0 <= m < j + 1 && moves@[m] == c && holds_enemy_king(cells, piece, c) by {
                if king_capt_moves@.contains(c) {
                    let k = choose|k: int| 0 <= k < king_capt_moves@.len() && king_capt_moves@[k] == c;
                    if k < prev.len() {
                        assert(prev.contains(c));
                    }
                }
                if prev.contains(c) {
                    let k = choose|k: int| 0 <= k < prev.len() && prev[k] == c;
                    assert(king_capt_moves@[k] == c);
                }
                if exists|m: int| 0 <= m < j + 1 && moves@[m] == c && holds_enemy_king(cells, piece, c) {
                    let m = choose|m: int| 0 <= m < j + 1 && moves@[m] == c && holds_enemy_king(cells, piece, c);
                    if m == j {
                        assert(king_capt_moves@[prev.len() as int] == c);
                    } else {
                        assert(prev.contains(c));
                    }
                }
            }
            j = j + 1;
        }
        assert forall|c: Coord| #[trigger] king_capt_moves@.contains(c) <==> king_capture_target(cells, piece, self.coord, c) by {
            if moves@.contains(c) {
                let m = choose|m: int| 0 <= m < moves@.len() && moves@[m] == c;
            }
        }
        (moves, king_capt_moves)
    }

    /// The legal moves of the piece on this square. Where it can capture a
    /// king, only those captures; otherwise none while the king of its
    /// player is in check; otherwise its moves that leave that king safe.
    pub fn get_possible_moves(&self, board: &Board) -> (r: Vec<Coord>)
        requires
            board.wf(),
            self.coord.is_valid(),
            self.piece.is_some(),
        ensures
            forall|c: Coord| #[trigger] r@.contains(c) <==> legal_target(board.cells(), self.piece.unwrap(), self.coord, c),
    {
        let ghost cells = board.cells();
        let ghost piece = self.piece.unwrap();
        let (moves, king_capt_moves) = self.get_possible_moves_unking(board);
        proof {
            if king_capt_moves@.len() > 0 {
                assert(king_capt_moves@.contains(king_capt_moves@[0]));
                assert(king_capture_target(cells, piece, self.coord, king_capt_moves@[0]));
            }
            if has_king_capture(cells, piece, self.coord) {
                let t = choose|t: Coord| #[trigger] king_capture_target(cells, piece, self.coord, t);
                assert(king_capt_moves@.contains(t));
            }
        }
        if king_capt_moves.len() == 0 && board.is_check(self.piece.unwrap().player) {
            let r: Vec<Coord> = Vec::new();
            assert forall|c: Coord| #[trigger] r@.contains(c) <==> legal_target(cells, piece, self.coord, c) by {
            }
            r
        } else if king_capt_moves.len() == 0 {
            moves
        } else {
            king_capt_moves
        }
    }
}

impl Player {
    /// Whether no piece of this player has a legal move.
    pub fn is_mate(&self, board: &Board) -> (r: bool)
        requires
            board.wf(),
        ensures
            r == is_mated(board.cells(), *self),
    {
        let fields = board.get_fields();
        let ghost cells = board.cells();
        let mut k: usize = 0;
        while k < fields.len()
            invariant
                board.wf(),
                fields@ == cells,
                cells == board.cells(),
                0 <= k <= fields@.len(),
                forall|j: int|
                    0 <= j < k && #[trigger] owned_by(cells, j, *self) ==> !has_legal_move(cells, cells[j].piece.unwrap(), cells[j].coord),
            decreases fields@.len() - k,
        {
            let f = fields[k];
            if let Some(p) = f.piece {
                if p.player == *self {
                    proof {
                        lemma_layout();
                        assert(f.coord == cell_coord(k as int));
                    }
                    let moves = f.get_possible_moves(board);
                    if moves.len() != 0 {
                        assert(moves@.contains(moves@[0]));
                        assert(legal_target(cells, p, f.coord, moves@[0]));
                        assert(owned_by(cells, k as int, *self));
                        return false;
                    }
                    assert forall|t: Coord| !legal_target(cells, p, f.coord, t) by {
                        if legal_target(cells, p, f.coord, t) {
                            assert(moves@.contains(t));
                        }
                    }
                }
            }
            k = k + 1;
        }
        true
    }

    /// Whether some piece of this player has a safe move that captures a
    /// king.
    pub fn can_capture_king(&self, board: &Board) -> (r: bool)
        requires
            board.wf(),
        ensures
            r == can_capture_a_king(board.cells(), *self),
    {
        let fields = board.get_fields();
        let ghost cells = board.cells();
        let mut k: usize = 0;
        while k < fields.len()
            invariant
                board.wf(),
                fields@ == cells,
                cells == board.cells(),
                0 <= k <= fields@.len(),
                forall|j: int|
                    0 <= j < k && #[trigger] owned_by(cells, j, *self) ==> !has_king_capture(cells, cells[j].piece.unwrap(), cells[j].coord),
            decreases fields@.len() - k,
        {
            let f = fields[k];
            if let Some(p) = f.piece {
                if p.player == *self {
                    proof {
                        lemma_layout();
                        assert(f.coord == cell_coord(k as int));
                    }
                    let (_, moves) = f.get_possible_moves_unking(board);
                    if moves.len() != 0 {
                        assert(moves@.contains(moves@[0]));
                        assert(king_capture_target(cells, p, f.coord, moves@[0]));
                        assert(owned_by(cells, k as int, *self));
                        return true;
                    }
                    assert forall|t: Coord| !king_capture_target(cells, p, f.coord, t) by {
                        if king_capture_target(cells, p, f.coord, t) {
                            assert(moves@.contains(t));
                        }
                    }
                }
            }
            k = k + 1;
        }
        false
    }
}

/// The place found by `first_king_from` holds the king.
proof fn lemma_first_king(cells: Seq<Field>, pl: Player, k: int)
    ensures
        first_king_from(cells, pl, k) matches Some(j) ==> k <= j < cells.len() && is_king_of(cells[j], pl),
    decreases cells.len() - k,
{
    if 0 <= k < cells.len() && !is_king_of(cells[k], pl) {
        lemma_first_king(cells, pl, k + 1);
    }
}

/// No piece may move by the rules of movement onto a square that holds a
/// piece of its own player.
pub proof fn lemma_no_move_onto_own_piece(cells: Seq<Field>, piece: Piece, from: Coord, to: Coord)
    requires
        piece_on(cells, to.x(), to.y()) matches Some(q) && q.player == piece.player,
    ensures
        !pseudo_target(cells, piece, from, to),
{
}

/// A player is in check just when the player has a king on the board and
/// some piece of another player may move onto it by the rules of movement.
pub proof fn lemma_check_is_enemy_attack(b: Board, pl: Player)
    requires
        b.wf(),
    ensures
        in_check(b.cells(), pl) <==> (king_field(b.cells(), pl) matches Some(kf) && exists|k: int|
            0 <= k < 96 && (#[trigger] b.cells()[k]).piece.is_some() && b.cells()[k].piece.unwrap().player != pl
                && pseudo_target(b.cells(), b.cells()[k].piece.unwrap(), b.cells()[k].coord, kf.coord)),
{
    let cells = b.cells();
    lemma_first_king(cells, pl, 0);
    if let Some(j) = first_king_from(cells, pl, 0) {
        let kf = cells[j];
        lemma_layout();
        assert(kf.coord == cell_coord(j));
        assert(piece_on(cells, kf.coord.x(), kf.coord.y()) == kf.piece);
        if in_check(cells, pl) {
            let k = choose|k: int|
                0 <= k < cells.len() && (#[trigger] cells[k]).piece.is_some() && pseudo_target(
                    cells,
                    cells[k].piece.unwrap(),
                    cells[k].coord,
                    kf.coord,
                );
            let q = cells[k].piece.unwrap();
            if q.player == pl {
                lemma_no_move_onto_own_piece(cells, q, cells[k].coord, kf.coord);
            }
        }
    }
}

} // verus!
