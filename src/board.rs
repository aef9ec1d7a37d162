use vstd::prelude::*;

use crate::topology::{
    cadd, coord_at, is_square, section_color, Coord, Field, FieldType, Piece, PieceType, Player,
    Section,
};

verus! {

/// The board: its 96 squares, the player to move and the square whose piece
/// has been picked up, if any.
///
/// The squares are kept section by section, in the order a1, e1, e9, i9, i5,
/// a5 of the sections' corners; within a section file by file, and within a
/// file rank by rank.
#[derive(Clone, Debug)]
pub struct Board {
    cells: Vec<Field>,
    current_player: Player,
    active_field: Option<Field>,
}

/// The file and rank numbers of the corner of section `s`.
pub open spec fn section_start(s: int) -> (int, int) {
    if s == 0 {
        (1, 1)
    } else if s == 1 {
        (5, 1)
    } else if s == 2 {
        (5, 9)
    } else if s == 3 {
        (9, 9)
    } else if s == 4 {
        (9, 5)
    } else {
        (1, 5)
    }
}

/// The section that holds the square (`x`, `y`).
pub open spec fn section_of(x: int, y: int) -> int {
    if x <= 4 {
        if y <= 4 { 0 } else { 5 }
    } else if x <= 8 {
        if y <= 4 { 1 } else { 2 }
    } else {
        if y <= 8 { 4 } else { 3 }
    }
}

/// The place of the square (`x`, `y`) in the board's order of squares.
pub open spec fn square_index(x: int, y: int) -> int {
    let s = section_of(x, y);
    16 * s + 4 * (x - section_start(s).0) + (y - section_start(s).1)
}

/// The section of the square at place `k`.
pub open spec fn cell_section(k: int) -> int {
    if k < 16 {
        0
    } else if k < 32 {
        1
    } else if k < 48 {
        2
    } else if k < 64 {
        3
    } else if k < 80 {
        4
    } else {
        5
    }
}

/// How many files the square at place `k` lies right of its section's corner.
pub open spec fn cell_col(k: int) -> int {
    let o = k - 16 * cell_section(k);
    if o < 4 {
        0
    } else if o < 8 {
        1
    } else if o < 12 {
        2
    } else {
        3
    }
}

/// How many ranks the square at place `k` lies above its section's corner.
pub open spec fn cell_row(k: int) -> int {
    k - 16 * cell_section(k) - 4 * cell_col(k)
}

/// The coordinate of the square at place `k`.
pub open spec fn cell_coord(k: int) -> Coord {
    coord_at(
        section_start(cell_section(k)).0 + cell_col(k),
        section_start(cell_section(k)).1 + cell_row(k),
    )
}

/// The colour of the square at place `k`; only the section at i9 has its
/// colours inverted.
pub open spec fn cell_color(k: int) -> FieldType {
    section_color(cell_section(k) == 3, cell_col(k), cell_row(k))
}

/// Each place of the order holds a square, and each square has one place.
pub proof fn lemma_layout()
    ensures
        forall|k: int|
            0 <= k < 96 ==> is_square(#[trigger] cell_coord(k).x(), cell_coord(k).y())
                && square_index(cell_coord(k).x(), cell_coord(k).y()) == k,
        forall|x: int, y: int|
            #[trigger] is_square(x, y) ==> 0 <= square_index(x, y) < 96 && cell_coord(
                square_index(x, y),
            ) == coord_at(x, y),
{
    assert forall|k: int| 0 <= k < 96 implies is_square(#[trigger] cell_coord(k).x(), cell_coord(k).y())
        && square_index(cell_coord(k).x(), cell_coord(k).y()) == k by {
        lemma_coord_at(section_start(cell_section(k)).0 + cell_col(k), section_start(cell_section(k)).1 + cell_row(k));
    }
}

/// A coordinate built from numbers gives those numbers back.
pub proof fn lemma_coord_at(x: int, y: int)
    requires
        1 <= x <= 12,
        1 <= y <= 12,
    ensures
        coord_at(x, y).x() == x,
        coord_at(x, y).y() == y,
{
}

/// A valid coordinate is the one built from its numbers.
pub proof fn lemma_coord_eq(c: Coord)
    requires
        c.is_valid(),
    ensures
        coord_at(c.x(), c.y()) == c,
{
    assert((c.0 as int) as char == c.0);
}

/// The squares `cells` with the piece on (`x`, `y`) replaced by `p`.
pub open spec fn cells_with(cells: Seq<Field>, x: int, y: int, p: Option<Piece>) -> Seq<Field> {
    let k = square_index(x, y);
    cells.update(k, Field { piece: p, ..cells[k] })
}

/// The back-rank piece of Red on file number `x`.
pub open spec fn red_back_rank(x: int) -> PieceType {
    if x == 1 || x == 8 {
        PieceType::Rook
    } else if x == 2 || x == 7 {
        PieceType::Knight
    } else if x == 3 || x == 6 {
        PieceType::Bishop
    } else if x == 4 {
        PieceType::Queen
    } else {
        PieceType::King
    }
}

/// The back-rank piece of Green on file number `x`.
pub open spec fn green_back_rank(x: int) -> PieceType {
    if x == 1 || x == 12 {
        PieceType::Rook
    } else if x == 2 || x == 11 {
        PieceType::Knight
    } else if x == 3 || x == 10 {
        PieceType::Bishop
    } else if x == 4 {
        PieceType::King
    } else {
        PieceType::Queen
    }
}

/// The back-rank piece of Yellow on file number `x`.
pub open spec fn yellow_back_rank(x: int) -> PieceType {
    if x == 8 || x == 12 {
        PieceType::Rook
    } else if x == 7 || x == 11 {
        PieceType::Knight
    } else if x == 6 || x == 10 {
        PieceType::Bishop
    } else if x == 5 {
        PieceType::Queen
    } else {
        PieceType::King
    }
}

/// The piece that stands on (`x`, `y`) at the start of a game. Red holds
/// ranks 1 and 2 of files a-h, Green ranks 8 and 7 of files a-d and i-l,
/// Yellow ranks 12 and 11 of files e-l; pawns stand on the inner rank.
pub open spec fn initial_piece(x: int, y: int) -> Option<Piece> {
    if 1 <= x <= 8 && y == 1 {
        Some(Piece { typ: red_back_rank(x), player: Player::Red })
    } else if 1 <= x <= 8 && y == 2 {
        Some(Piece { typ: PieceType::Pawn, player: Player::Red })
    } else if (1 <= x <= 4 || 9 <= x <= 12) && y == 8 {
        Some(Piece { typ: green_back_rank(x), player: Player::Green })
    } else if (1 <= x <= 4 || 9 <= x <= 12) && y == 7 {
        Some(Piece { typ: PieceType::Pawn, player: Player::Green })
    } else if 5 <= x <= 12 && y == 12 {
        Some(Piece { typ: yellow_back_rank(x), player: Player::Yellow })
    } else if 5 <= x <= 12 && y == 11 {
        Some(Piece { typ: PieceType::Pawn, player: Player::Yellow })
    } else {
        None
    }
}

/// The piece that one half of a player's setup puts on (`x`, `y`): the back
/// rank `rank` and the pawn rank next to it, over four files from number
/// `sx`. `flipped` puts the rook on the far file; `right` gives the half
/// with the king in place of the queen; `inward` puts the pawns below the
/// back rank rather than above it.
pub open spec fn half_setup_piece(rank: int, sx: int, flipped: bool, inward: bool, right: bool, pl: Player, x: int, y: int) -> Option<Piece> {
    let o = x - sx;
    if 0 <= o < 4 && y == rank {
        let typ = if o == (if flipped { 3int } else { 0 }) {
            PieceType::Rook
        } else if o == (if flipped { 0int } else { 3 }) {
            if right { PieceType::King } else { PieceType::Queen }
        } else if o == (if flipped { 2int } else { 1 }) {
            PieceType::Knight
        } else {
            PieceType::Bishop
        };
        Some(Piece { typ, player: pl })
    } else if 0 <= o < 4 && y == (if inward { rank - 1 } else { rank + 1 }) {
        Some(Piece { typ: PieceType::Pawn, player: pl })
    } else {
        None
    }
}

/// Whether the back rank `rank` and its pawn rank are squares over the four
/// files from number `sx`.
pub open spec fn half_fits(rank: int, sx: int, inward: bool) -> bool {
    let pr = if inward { rank - 1 } else { rank + 1 };
    &&& is_square(sx, rank) && is_square(sx + 1, rank) && is_square(sx + 2, rank) && is_square(sx + 3, rank)
    &&& is_square(sx, pr) && is_square(sx + 1, pr) && is_square(sx + 2, pr) && is_square(sx + 3, pr)
}

impl Board {
    /// The squares, in the board's order.
    pub closed spec fn cells(self) -> Seq<Field> {
        self.cells@
    }

    /// The player to move.
    pub closed spec fn current(self) -> Player {
        self.current_player
    }

    /// The square whose piece has been picked up, if any.
    pub closed spec fn active(self) -> Option<Field> {
        self.active_field
    }

    /// Each place holds the square that the layout puts there, with the
    /// square's colour.
    pub open spec fn wf(self) -> bool {
        &&& self.cells().len() == 96
        &&& forall|k: int|
            0 <= k < 96 ==> (#[trigger] self.cells()[k]).coord == cell_coord(k)
                && self.cells()[k].typ == cell_color(k)
    }

    /// The square (`x`, `y`), which must exist.
    pub open spec fn field_at(self, x: int, y: int) -> Field {
        self.cells()[square_index(x, y)]
    }

    /// The piece on the square (`x`, `y`), which must exist.
    pub open spec fn piece_at(self, x: int, y: int) -> Option<Piece> {
        self.field_at(x, y).piece
    }

    /// The square (`x`, `y`), or `None` where the board has none there.
    pub open spec fn lookup(self, x: int, y: int) -> Option<Field> {
        if is_square(x, y) {
            Some(self.field_at(x, y))
        } else {
            None
        }
    }

    /// This board with the piece on (`x`, `y`) replaced by `p`.
    pub open spec fn with_piece(self, x: int, y: int, p: Option<Piece>) -> Seq<Field> {
        cells_with(self.cells(), x, y, p)
    }

    /// An empty board with Red to move and no piece picked up.
    pub fn new() -> (b: Board)
        ensures
            b.wf(),
            forall|k: int| 0 <= k < 96 ==> (#[trigger] b.cells()[k]).piece.is_none(),
            b.current() == Player::Red,
            b.active().is_none(),
    {
        let sections: [Section; 6] = [
            Section::new('a', 1, false),
            Section::new('e', 1, false),
            Section::new('e', 9, false),
            Section::new('i', 9, true),
            Section::new('i', 5, false),
            Section::new('a', 5, false),
        ];
        let mut cells: Vec<Field> = Vec::new();
        let mut s: usize = 0;
        while s < 6
            invariant
                0 <= s <= 6,
                cells@.len() == 16 * s,
                forall|t: int| 0 <= t < 6 ==> {
                    let sec = #[trigger] sections[t];
                    &&& sec.start_file as int == section_start(t).0 + 96
                    &&& sec.start_rank as int == section_start(t).1
                    &&& forall|i: int, j: int| 0 <= i < 4 && 0 <= j < 4 ==> #[trigger] sec.fields[i][j] == (Field {
                        coord: Coord((sec.start_file as int + i) as char, (sec.start_rank + j) as usize),
                        typ: section_color(t == 3, i, j),
                        piece: None,
                    })
                },
                forall|k: int| 0 <= k < cells@.len() ==> (#[trigger] cells@[k]).coord == cell_coord(k)
                    && cells@[k].typ == cell_color(k) && cells@[k].piece.is_none(),
            decreases 6 - s,
        {
            let mut i: usize = 0;
            while i < 4
                invariant
                    0 <= s < 6,
                    0 <= i <= 4,
                    cells@.len() == 16 * s + 4 * i,
                    forall|t: int| 0 <= t < 6 ==> {
                        let sec = #[trigger] sections[t];
                        &&& sec.start_file as int == section_start(t).0 + 96
                        &&& sec.start_rank as int == section_start(t).1
                        &&& forall|i: int, j: int| 0 <= i < 4 && 0 <= j < 4 ==> #[trigger] sec.fields[i][j] == (Field {
                            coord: Coord((sec.start_file as int + i) as char, (sec.start_rank + j) as usize),
                            typ: section_color(t == 3, i, j),
                            piece: None,
                        })
                    },
                    forall|k: int| 0 <= k < cells@.len() ==> (#[trigger] cells@[k]).coord == cell_coord(k)
                        && cells@[k].typ == cell_color(k) && cells@[k].piece.is_none(),
                decreases 4 - i,
            {
                let mut j: usize = 0;
                while j < 4
                    invariant
                        0 <= s < 6,
                        0 <= i < 4,
                        0 <= j <= 4,
                        cells@.len() == 16 * s + 4 * i + j,
                        forall|t: int| 0 <= t < 6 ==> {
                            let sec = #[trigger] sections[t];
                            &&& sec.start_file as int == section_start(t).0 + 96
                            &&& sec.start_rank as int == section_start(t).1
                            &&& forall|i: int, j: int| 0 <= i < 4 && 0 <= j < 4 ==> #[trigger] sec.fields[i][j] == (Field {
                                coord: Coord((sec.start_file as int + i) as char, (sec.start_rank + j) as usize),
                                typ: section_color(t == 3, i, j),
                                piece: None,
                            })
                        },
                        forall|k: int| 0 <= k < cells@.len() ==> (#[trigger] cells@[k]).coord == cell_coord(k)
                            && cells@[k].typ == cell_color(k) && cells@[k].piece.is_none(),
                    decreases 4 - j,
                {
                    let k = cells.len();
                    let f = sections[s].fields[i][j];
                    assert(cell_section(k as int) == s as int);
                    assert(cell_col(k as int) == i as int);
                    assert(cell_row(k as int) == j as int);
                    cells.push(f);
                    j = j + 1;
                }
                i = i + 1;
            }
            s = s + 1;
        }
        Board { cells, current_player: Player::Red, active_field: None }
    }

    /// The place of the square (`file`, `rank`) in the board's order, or
    /// `None` where the board has no such square.
    fn index_of(file: char, rank: usize) -> (r: Option<usize>)
        ensures
            r == (if is_square(file as int - 96, rank as int) {
                Some(square_index(file as int - 96, rank as int) as usize)
            } else {
                None
            }),
    {
        if file < 'a' || file > 'l' {
            return None;
        }
        Self::index_xy((file as u8 - 96) as usize, rank)
    }

    /// The place of the square with file number `x` and rank `rank` in the
    /// board's order, or `None` where the board has no such square.
    fn index_xy(x: usize, rank: usize) -> (r: Option<usize>)
        ensures
            r == (if is_square(x as int, rank as int) {
                Some(square_index(x as int, rank as int) as usize)
            } else {
                None
            }),
    {
        if rank < 1 || rank > 12 || x < 1 || x > 12 {
            return None;
        }
        let s: usize = if x <= 4 {
            if rank <= 8 {
                if rank <= 4 { 0 } else { 5 }
            } else {
                return None;
            }
        } else if x <= 8 {
            if rank <= 4 {
                1
            } else if rank >= 9 {
                2
            } else {
                return None;
            }
        } else {
            if rank >= 9 {
                3
            } else if rank >= 5 {
                4
            } else {
                return None;
            }
        };
        let (sx, sy): (usize, usize) = if s == 0 {
            (1, 1)
        } else if s == 1 {
            (5, 1)
        } else if s == 2 {
            (5, 9)
        } else if s == 3 {
            (9, 9)
        } else if s == 4 {
            (9, 5)
        } else {
            (1, 5)
        };
        Some(16 * s + 4 * (x - sx) + (rank - sy))
    }

    /// The square (`file`, `rank`), or `None` where the board has no such
    /// square.
    pub fn get_field(&self, file: char, rank: usize) -> (r: Option<Field>)
        requires
            self.wf(),
        ensures
            r == self.lookup(file as int - 96, rank as int),
    {
        match Self::index_of(file, rank) {
            Some(k) => Some(self.cells[k]),
            None => None,
        }
    }

    /// The square with file number `x` and rank `y`, or `None` where the
    /// board has no such square.
    pub(crate) fn field_xy(&self, x: usize, y: usize) -> (r: Option<Field>)
        requires
            self.wf(),
        ensures
            r == self.lookup(x as int, y as int),
    {
        match Self::index_xy(x, y) {
            Some(k) => Some(self.cells[k]),
            None => None,
        }
    }

    /// Puts `piece` on the square `coord` (or clears it, for `None`) and
    /// drops the picked-up piece, if any.
    pub fn set_piece(&mut self, coord: Coord, piece: Option<Piece>)
        requires
            old(self).wf(),
            coord.is_valid(),
        ensures
            final(self).wf(),
            final(self).cells() == old(self).with_piece(coord.x(), coord.y(), piece),
            final(self).current() == old(self).current(),
            final(self).active().is_none(),
    {
        self.put(coord, piece);
        self.active_field = None;
    }

    pub(crate) fn put(&mut self, coord: Coord, piece: Option<Piece>)
        requires
            old(self).wf(),
            coord.is_valid(),
        ensures
            final(self).wf(),
            final(self).cells() == old(self).with_piece(coord.x(), coord.y(), piece),
            final(self).current() == old(self).current(),
            final(self).active() == old(self).active(),
    {
        proof {
            lemma_layout();
        }
        let k = Self::index_of(coord.0, coord.1).unwrap();
        let f = self.cells[k];
        self.cells.set(k, Field { piece, ..f });
    }

    /// A copy of this board.
    pub(crate) fn duplicate(&self) -> (r: Board)
        ensures
            r.cells() == self.cells(),
            r.current() == self.current(),
            r.active() == self.active(),
    {
        Board { cells: self.cells.clone(), current_player: self.current_player, active_field: self.active_field }
    }

    /// All squares, in the board's order.
    pub fn get_fields(&self) -> (r: Vec<Field>)
        ensures
            r@ == self.cells(),
    {
        self.cells.clone()
    }

    /// The player to move.
    pub fn current_player(&self) -> (r: Player)
        ensures
            r == self.current(),
    {
        self.current_player
    }

    /// The square whose piece has been picked up, if any.
    pub fn active_field(&self) -> (r: Option<Field>)
        ensures
            r == self.active(),
    {
        self.active_field
    }

    /// Makes `player` the player to move.
    pub fn set_current_player(&mut self, player: Player)
        ensures
            final(self).cells() == old(self).cells(),
            final(self).current() == player,
            final(self).active() == old(self).active(),
    {
        self.current_player = player;
    }

    /// Picks up the piece on `field`, or puts it back for `None`.
    pub(crate) fn set_active_field(&mut self, field: Option<Field>)
        ensures
            final(self).cells() == old(self).cells(),
            final(self).current() == old(self).current(),
            final(self).active() == field,
    {
        self.active_field = field;
    }
}

/// The square (`x`, `y`) of a well-formed board carries the coordinate
/// (`x`, `y`).
pub proof fn lemma_field_coord(b: Board, x: int, y: int)
    requires
        b.wf(),
        is_square(x, y),
    ensures
        b.field_at(x, y).coord == coord_at(x, y),
        b.field_at(x, y).coord.x() == x,
        b.field_at(x, y).coord.y() == y,
        b.field_at(x, y).coord.is_valid(),
{
    lemma_layout();
    lemma_coord_at(x, y);
}

/// Distinct squares have distinct places in the board's order, all
/// within its 96.
pub proof fn lemma_square_index(x1: int, y1: int, x2: int, y2: int)
    requires
        is_square(x1, y1),
        is_square(x2, y2),
    ensures
        0 <= square_index(x1, y1) < 96,
        square_index(x1, y1) == square_index(x2, y2) <==> (x1 == x2 && y1 == y2),
{
}

/// The piece that `setup` puts on (`x`, `y`), or else the one `b` has there.
pub open spec fn placed(b: Board, setup: Option<Piece>, x: int, y: int) -> Option<Piece> {
    match setup {
        Some(p) => Some(p),
        None => b.piece_at(x, y),
    }
}

impl Board {
    /// Places one half of a player's pieces: see `half_setup_piece`.
    fn place_pieces_half(
        &mut self,
        rank: usize,
        start_file: char,
        invf: bool,
        invr: bool,
        right: bool,
        player: Player,
    )
        requires
            old(self).wf(),
            'a' <= start_file,
            start_file as int + 3 <= 'l' as int,
            2 <= rank <= 11 || (rank == 1 && !invr) || (rank == 12 && invr),
            half_fits(rank as int, start_file as int - 96, invr),
        ensures
            final(self).wf(),
            final(self).current() == old(self).current(),
            final(self).active() == old(self).active(),
            forall|x: int, y: int|
                is_square(x, y) ==> #[trigger] final(self).piece_at(x, y) == placed(
                    *old(self),
                    half_setup_piece(rank as int, start_file as int - 96, invf != right, invr, right, player, x, y),
                    x,
                    y,
                ),
    {
        let flipped = invf != right;
        let ghost sx = start_file as int - 96;
        let ghost start = *self;
        let ghost pr = if invr { rank - 1 } else { rank + 1 };
        let pawn_rank = if invr { rank - 1 } else { rank + 1 };
        let mut a: usize = 0;
        while a < 4
            invariant
                self.wf(),
                self.current() == start.current(),
                self.active() == start.active(),
                0 <= a <= 4,
                'a' <= start_file,
                start_file as int + 3 <= 'l' as int,
                sx == start_file as int - 96,
                pawn_rank == pr,
                pr == (if invr { rank - 1 } else { rank + 1 }),
                half_fits(rank as int, sx, invr),
                forall|x: int, y: int| is_square(x, y) ==> #[trigger] self.piece_at(x, y) == (
                    if (y == rank || y == pr) && sx <= x < sx + a {
                        half_setup_piece(rank as int, sx, flipped, invr, right, player, x, y)
                    } else {
                        start.piece_at(x, y)
                    }),
            decreases 4 - a,
        {
            let f = cadd(start_file, a);
            let ghost prev = *self;
            let typ = back_rank_type(a, flipped, right);
            self.put(Coord(f, rank), Some(Piece { typ, player }));
            let ghost mid = *self;
            self.put(Coord(f, pawn_rank), Some(Piece { typ: PieceType::Pawn, player }));
            assert forall|x: int, y: int| is_square(x, y) implies #[trigger] self.piece_at(x, y) == (
                if (y == rank || y == pr) && sx <= x < sx + a + 1 {
                    half_setup_piece(rank as int, sx, flipped, invr, right, player, x, y)
                } else {
                    start.piece_at(x, y)
                }) by {
                lemma_square_index(x, y, f as int - 96, pawn_rank as int);
                lemma_square_index(x, y, f as int - 96, rank as int);
                assert(prev.piece_at(x, y) == (
                    if (y == rank || y == pr) && sx <= x < sx + a {
                        half_setup_piece(rank as int, sx, flipped, invr, right, player, x, y)
                    } else {
                        start.piece_at(x, y)
                    }));
            }
            a = a + 1;
        }
    }
}

impl Board {
    /// Puts every player's pieces on their starting squares, leaving the
    /// other squares as they are.
    pub fn place_pieces(&mut self)
        requires
            old(self).wf(),
        ensures
            final(self).wf(),
            final(self).current() == old(self).current(),
            final(self).active() == old(self).active(),
            forall|x: int, y: int|
                is_square(x, y) ==> #[trigger] final(self).piece_at(x, y) == placed(*old(self), initial_piece(x, y), x, y),
    {
        let ghost b0 = *self;
        self.place_pieces_half(1, 'a', false, false, false, Player::Red);
        let ghost b1 = *self;
        self.place_pieces_half(1, 'e', false, false, true, Player::Red);
        let ghost b2 = *self;
        self.place_pieces_half(8, 'i', true, true, false, Player::Green);
        let ghost b3 = *self;
        self.place_pieces_half(8, 'a', true, true, true, Player::Green);
        let ghost b4 = *self;
        self.place_pieces_half(12, 'e', true, true, false, Player::Yellow);
        let ghost b5 = *self;
        self.place_pieces_half(12, 'i', false, true, true, Player::Yellow);
        assert forall|x: int, y: int| is_square(x, y) implies #[trigger] self.piece_at(x, y) == placed(b0, initial_piece(x, y), x, y) by {
            assert(b1.piece_at(x, y) == placed(b0, half_setup_piece(1, 1, false, false, false, Player::Red, x, y), x, y));
            assert(b2.piece_at(x, y) == placed(b1, half_setup_piece(1, 5, true, false, true, Player::Red, x, y), x, y));
            assert(b3.piece_at(x, y) == placed(b2, half_setup_piece(8, 9, true, true, false, Player::Green, x, y), x, y));
            assert(b4.piece_at(x, y) == placed(b3, half_setup_piece(8, 1, false, true, true, Player::Green, x, y), x, y));
            assert(b5.piece_at(x, y) == placed(b4, half_setup_piece(12, 5, true, true, false, Player::Yellow, x, y), x, y));
            assert(self.piece_at(x, y) == placed(b5, half_setup_piece(12, 9, true, true, true, Player::Yellow, x, y), x, y));
        }
    }
}

/// The back-rank piece `a` files from the corner of a half setup.
fn back_rank_type(a: usize, flipped: bool, right: bool) -> (r: PieceType)
    requires
        a < 4,
    ensures
        half_setup_piece(0, 0, flipped, false, right, Player::Red, a as int, 0) == Some(Piece { typ: r, player: Player::Red }),
{
    if a == (if flipped { 3 } else { 0 }) {
        PieceType::Rook
    } else if a == (if flipped { 0 } else { 3 }) {
        if right { PieceType::King } else { PieceType::Queen }
    } else if a == (if flipped { 2 } else { 1 }) {
        PieceType::Knight
    } else {
        PieceType::Bishop
    }
}

impl Default for Board {
    /// An empty board with Red to move, as `Board::new`.
    fn default() -> (b: Board)
        ensures
            b.wf(),
            forall|k: int| 0 <= k < 96 ==> (#[trigger] b.cells()[k]).piece.is_none(),
            b.current() == Player::Red,
            b.active().is_none(),
    {
        Board::new()
    }
}

} // verus!
