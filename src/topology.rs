use vstd::prelude::*;

verus! {

/// A square of the board: its file letter and its rank number.
#[derive(Clone, Copy, Debug, PartialEq, Eq, Structural)]
pub struct Coord(pub char, pub usize);

/// The colour of a square.
#[derive(Clone, Copy, Debug, PartialEq, Eq, Structural)]
pub enum FieldType {
    WHITE,
    BLACK,
}

/// The three players, in the order in which they move.
#[derive(Clone, Copy, Debug, PartialEq, Eq, Structural, Hash)]
pub enum Player {
    Red,
    Green,
    Yellow,
}

/// The six kinds of chess pieces.
#[derive(Clone, Copy, Debug, PartialEq, Eq, Structural)]
pub enum PieceType {
    Pawn,
    Rook,
    Knight,
    Bishop,
    Queen,
    King,
}

/// A piece on the board: what it is and whom it belongs to.
#[derive(Clone, Copy, Debug, PartialEq, Eq, Structural)]
pub struct Piece {
    pub typ: PieceType,
    pub player: Player,
}

/// A square together with its colour and the piece on it, if any.
#[derive(Clone, Copy, Debug, PartialEq, Eq, Structural)]
pub struct Field {
    pub coord: Coord,
    pub typ: FieldType,
    pub piece: Option<Piece>,
}

/// A 4 by 4 block of squares whose lower left corner is
/// (`start_file`, `start_rank`); `fields[i][j]` lies `i` files to the right
/// and `j` ranks above that corner.
#[derive(Clone, Copy, Debug)]
pub struct Section {
    pub fields: [[Field; 4]; 4],
    pub start_file: char,
    pub start_rank: usize,
}

impl Coord {
    /// The file as a number: `a` is 1, `l` is 12.
    pub open spec fn x(self) -> int {
        self.0 as int - 96
    }

    /// The rank as a number.
    pub open spec fn y(self) -> int {
        self.1 as int
    }

    /// Whether this coordinate names a square of the board.
    pub open spec fn is_valid(self) -> bool {
        is_square(self.x(), self.y())
    }
}

/// The squares of the board: files a-d carry ranks 1-8, files e-h carry
/// ranks 1-4 and 9-12, files i-l carry ranks 5-12.
pub open spec fn is_square(x: int, y: int) -> bool {
    ||| 1 <= x <= 4 && 1 <= y <= 8
    ||| 5 <= x <= 8 && (1 <= y <= 4 || 9 <= y <= 12)
    ||| 9 <= x <= 12 && 5 <= y <= 12
}

/// The coordinate with file number `x` and rank `y`.
pub open spec fn coord_at(x: int, y: int) -> Coord {
    Coord((x + 96) as char, y as usize)
}

impl Player {
    /// The player who moves after this one.
    pub open spec fn spec_next(self) -> Player {
        match self {
            Player::Red => Player::Green,
            Player::Green => Player::Yellow,
            Player::Yellow => Player::Red,
        }
    }

    /// The player who moves after this one: Red, then Green, then Yellow,
    /// then Red again.
    pub fn next(&self) -> (r: Player)
        ensures
            r == self.spec_next(),
    {
        match self {
            Player::Red => Player::Green,
            Player::Green => Player::Yellow,
            Player::Yellow => Player::Red,
        }
    }

    /// The player's name in lower case: "red", "green" or "yellow".
    pub fn name(&self) -> (r: &'static str)
        ensures
            r@ == match self {
                Player::Red => "red"@,
                Player::Green => "green"@,
                Player::Yellow => "yellow"@,
            },
    {
        match self {
            Player::Red => "red",
            Player::Green => "green",
            Player::Yellow => "yellow",
        }
    }

    /// The position of the player in the order of play.
    pub open spec fn spec_index(self) -> int {
        match self {
            Player::Red => 0,
            Player::Green => 1,
            Player::Yellow => 2,
        }
    }

    /// The position of the player in the order of play: 0, 1 or 2.
    pub fn index(&self) -> (r: usize)
        ensures
            r == self.spec_index(),
    {
        match self {
            Player::Red => 0,
            Player::Green => 1,
            Player::Yellow => 2,
        }
    }
}

impl Field {
    /// An empty square at (`a`, `b`) of colour `tp`.
    pub fn new(a: char, b: usize, tp: FieldType) -> (r: Field)
        ensures
            r == (Field { coord: Coord(a, b), typ: tp, piece: None }),
    {
        Field { coord: Coord(a, b), typ: tp, piece: None }
    }
}

/// The file `i` letters after `c`.
pub fn cadd(c: char, i: usize) -> (r: char)
    requires
        c as int + i <= 255,
    ensures
        r as int == c as int + i,
{
    let b: u8 = c as u8;
    (b + i as u8) as char
}

/// The file `i` letters before `c`.
pub fn csub(c: char, i: usize) -> (r: char)
    requires
        i <= c as int <= 255,
    ensures
        r as int == c as int - i,
{
    let b: u8 = c as u8;
    (b - i as u8) as char
}

/// The colour of the square `i` files and `j` ranks from a section's
/// corner: the corner is black, or white where the section's colours are
/// inverted, and colours alternate from there.
pub open spec fn section_color(inverse_colors: bool, i: int, j: int) -> FieldType {
    if (i + j) % 2 == 0 {
        if inverse_colors { FieldType::WHITE } else { FieldType::BLACK }
    } else {
        if inverse_colors { FieldType::BLACK } else { FieldType::WHITE }
    }
}

impl Section {
    /// The empty section with corner (`f`, `r`).
    pub fn new(f: char, r: usize, inverse_colors: bool) -> (s: Section)
        requires
            f as int + 3 <= 255,
            r + 3 <= usize::MAX,
        ensures
            s.start_file == f,
            s.start_rank == r,
            forall|i: int, j: int|
                0 <= i < 4 && 0 <= j < 4 ==> #[trigger] s.fields[i][j] == (Field {
                    coord: Coord((f as int + i) as char, (r + j) as usize),
                    typ: section_color(inverse_colors, i, j),
                    piece: None,
                }),
    {
        let tp1 = if inverse_colors { FieldType::BLACK } else { FieldType::WHITE };
        let tp2 = if !inverse_colors { FieldType::BLACK } else { FieldType::WHITE };
        let f1 = cadd(f, 1);
        let f2 = cadd(f, 2);
        let f3 = cadd(f, 3);
        let s = Section {
            fields: [
                [
                    Field::new(f, r, tp2),
                    Field::new(f, r + 1, tp1),
                    Field::new(f, r + 2, tp2),
                    Field::new(f, r + 3, tp1),
                ],
                [
                    Field::new(f1, r, tp1),
                    Field::new(f1, r + 1, tp2),
                    Field::new(f1, r + 2, tp1),
                    Field::new(f1, r + 3, tp2),
                ],
                [
                    Field::new(f2, r, tp2),
                    Field::new(f2, r + 1, tp1),
                    Field::new(f2, r + 2, tp2),
                    Field::new(f2, r + 3, tp1),
                ],
                [
                    Field::new(f3, r, tp1),
                    Field::new(f3, r + 1, tp2),
                    Field::new(f3, r + 2, tp1),
                    Field::new(f3, r + 3, tp2),
                ],
            ],
            start_file: f,
            start_rank: r,
        };
        assert((f as int + 0) as char == f);
        assert forall|i: int, j: int| 0 <= i < 4 && 0 <= j < 4 implies #[trigger] s.fields[i][j]
            == (Field {
            coord: Coord((f as int + i) as char, (r + j) as usize),
            typ: section_color(inverse_colors, i, j),
            piece: None,
        }) by {
            assert((f1 as int) as char == f1);
        }
        s
    }
}

} // verus!
