use vstd::prelude::*;

use crate::board::{lemma_coord_eq, lemma_field_coord, square_index, Board};
use crate::direction::{all_directions, lemma_all_directions_complete, lemma_step_decreases, Direction};
use crate::topology::{is_square, Coord, Field, Piece, PieceType, Player};

verus! {

/// The piece on the square (`x`, `y`) of the board whose squares are `cells`.
pub open spec fn piece_on(cells: Seq<Field>, x: int, y: int) -> Option<Piece> {
    cells[square_index(x, y)].piece
}

/// One more step in direction `d` from `p`, if `p` is a square.
pub open spec fn go(d: Direction, p: Option<(int, int)>) -> Option<(int, int)> {
    match p {
        Some((a, b)) => d.adj(a, b),
        None => None,
    }
}

/// The square `n` steps from (`x`, `y`) in direction `d`, if every step
/// stays on the board.
pub open spec fn ray(d: Direction, x: int, y: int, n: nat) -> Option<(int, int)>
    decreases n,
{
    if n == 0 {
        Some((x, y))
    } else {
        go(d, ray(d, x, y, (n - 1) as nat))
    }
}

/// Whether `p` is an empty square.
pub open spec fn is_empty_at(cells: Seq<Field>, p: Option<(int, int)>) -> bool {
    match p {
        Some((a, b)) => piece_on(cells, a, b).is_none(),
        None => false,
    }
}

/// Whether a piece of `pl` may end its move on (`x`, `y`): the square is
/// empty or holds a piece of another player.
pub open spec fn can_land(cells: Seq<Field>, pl: Player, x: int, y: int) -> bool {
    match piece_on(cells, x, y) {
        Some(q) => q.player != pl,
        None => true,
    }
}

/// Whether (`x`, `y`) holds a piece of a player other than `pl`.
pub open spec fn is_enemy_at(cells: Seq<Field>, pl: Player, x: int, y: int) -> bool {
    match piece_on(cells, x, y) {
        Some(q) => q.player != pl,
        None => false,
    }
}

/// Whether a sliding piece of `pl` on (`x`, `y`) reaches (`tx`, `ty`) in
/// direction `d`: the target lies some steps along the direction, every
/// square before it is empty, and the target is empty or holds an enemy.
pub open spec fn slides_to(cells: Seq<Field>, pl: Player, d: Direction, x: int, y: int, tx: int, ty: int) -> bool {
    exists|n: nat|
        #![trigger ray(d, x, y, n)]
        n >= 1 && ray(d, x, y, n) == Some((tx, ty)) && can_land(cells, pl, tx, ty) && forall|m: nat|
            1 <= m < n ==> is_empty_at(cells, #[trigger] ray(d, x, y, m))
}

/// The target of a knight's move: one step in `d`, then two in `o`, or,
/// with `two_first`, two steps in `d`, then one in `o`.
pub open spec fn knight_path(d: Direction, o: Direction, two_first: bool, x: int, y: int) -> Option<(int, int)> {
    if two_first {
        go(o, go(d, d.adj(x, y)))
    } else {
        go(o, go(o, d.adj(x, y)))
    }
}

/// The forward direction of a pawn of `pl` on (`x`, `y`): forward changes
/// meaning where the pawn has crossed into another player's home.
pub open spec fn pawn_dir(pl: Player, x: int, y: int) -> Direction {
    match pl {
        Player::Red => if 1 <= x <= 8 {
            Direction::ForwardRed
        } else if y <= 8 {
            Direction::ForwardYellow
        } else {
            Direction::ForwardGreen
        },
        Player::Green => if (1 <= x <= 4) || x >= 9 {
            Direction::ForwardGreen
        } else if y <= 4 {
            Direction::ForwardYellow
        } else {
            Direction::ForwardRed
        },
        Player::Yellow => if 5 <= x {
            Direction::ForwardYellow
        } else if y <= 4 {
            Direction::ForwardGreen
        } else {
            Direction::ForwardRed
        },
    }
}

/// The six directions in which a pawn of `pl` captures.
pub open spec fn pawn_capture_dirs(pl: Player) -> Seq<Direction> {
    match pl {
        Player::Red => seq![
            Direction::RedToGreenRed,
            Direction::RedToRedYellow,
            Direction::GreenYellowToGreen,
            Direction::GreenRedToGreen,
            Direction::GreenYellowToYellow,
            Direction::RedYellowToYellow,
        ],
        Player::Green => seq![
            Direction::GreenToGreenRed,
            Direction::GreenToGreenYellow,
            Direction::RedYellowToRed,
            Direction::GreenRedToGreen,
            Direction::RedYellowToYellow,
            Direction::GreenYellowToYellow,
        ],
        Player::Yellow => seq![
            Direction::YellowToGreenYellow,
            Direction::YellowToRedYellow,
            Direction::GreenRedToGreen,
            Direction::RedYellowToRed,
            Direction::GreenRedToRed,
            Direction::GreenYellowToGreen,
        ],
    }
}

/// Whether rank `y` is the rank on which the pawns of `pl` start.
pub open spec fn pawn_home(pl: Player, y: int) -> bool {
    match pl {
        Player::Red => y == 2,
        Player::Green => y == 7,
        Player::Yellow => y == 11,
    }
}

/// Whether a pawn of `pl` on (`x`, `y`) may move to (`tx`, `ty`): a capture
/// in one of its capture directions onto an enemy piece, a step forward onto
/// an empty square, or, from its home rank, two steps forward over empty
/// squares.
pub open spec fn pawn_reaches(cells: Seq<Field>, pl: Player, x: int, y: int, tx: int, ty: int) -> bool {
    let f = pawn_dir(pl, x, y);
    ||| is_enemy_at(cells, pl, tx, ty) && exists|i: int|
        0 <= i < 6 && (#[trigger] pawn_capture_dirs(pl)[i]).adj(x, y) == Some((tx, ty))
    ||| f.adj(x, y) == Some((tx, ty)) && piece_on(cells, tx, ty).is_none()
    ||| pawn_home(pl, y) && is_empty_at(cells, f.adj(x, y)) && go(f, f.adj(x, y)) == Some((tx, ty))
        && piece_on(cells, tx, ty).is_none()
}

/// Whether a knight of `pl` on (`x`, `y`) may move to (`tx`, `ty`): one step
/// in a straight direction and two in a direction at a right angle to it, or
/// two and then one, onto a square that holds no piece of `pl`.
pub open spec fn knight_reaches(cells: Seq<Field>, pl: Player, x: int, y: int, tx: int, ty: int) -> bool {
    can_land(cells, pl, tx, ty) && exists|d: Direction, o: Direction, two_first: bool|
        d.spec_is_straight() && d.spec_is_orthogonal(o) && #[trigger] knight_path(d, o, two_first, x, y)
            == Some((tx, ty))
}

/// Whether a king of `pl` on (`x`, `y`) may move to (`tx`, `ty`): one step
/// in any direction onto a square that holds no piece of `pl`.
pub open spec fn king_reaches(cells: Seq<Field>, pl: Player, x: int, y: int, tx: int, ty: int) -> bool {
    can_land(cells, pl, tx, ty) && exists|d: Direction| #[trigger] d.adj(x, y) == Some((tx, ty))
}

/// Whether `piece` on (`x`, `y`) may move to (`tx`, `ty`) by the rules of
/// movement alone, before the safety of its king is looked at. Rooks slide
/// along straight directions, bishops along diagonal ones and queens along
/// all of them.
pub open spec fn reaches(cells: Seq<Field>, piece: Piece, x: int, y: int, tx: int, ty: int) -> bool {
    let pl = piece.player;
    match piece.typ {
        PieceType::Pawn => pawn_reaches(cells, pl, x, y, tx, ty),
        PieceType::Rook => exists|d: Direction|
            d.spec_is_straight() && #[trigger] slides_to(cells, pl, d, x, y, tx, ty),
        PieceType::Bishop => exists|d: Direction|
            !d.spec_is_straight() && #[trigger] slides_to(cells, pl, d, x, y, tx, ty),
        PieceType::Queen => exists|d: Direction| #[trigger] slides_to(cells, pl, d, x, y, tx, ty),
        PieceType::Knight => knight_reaches(cells, pl, x, y, tx, ty),
        PieceType::King => king_reaches(cells, pl, x, y, tx, ty),
    }
}

/// Whether `piece` standing on `from` may move to the square `to` by the
/// rules of movement alone.
pub open spec fn pseudo_target(cells: Seq<Field>, piece: Piece, from: Coord, to: Coord) -> bool {
    to.is_valid() && reaches(cells, piece, from.x(), from.y(), to.x(), to.y())
}

/// The straight directions, in declaration order.
fn straight_dirs() -> (r: Vec<Direction>)
    ensures
        r@ == all_directions().subrange(0, 9),
{
    let r = vec![
        Direction::ForwardRed,
        Direction::ForwardYellow,
        Direction::ForwardGreen,
        Direction::RedRight,
        Direction::RedLeft,
        Direction::GreenRight,
        Direction::GreenLeft,
        Direction::YellowRight,
        Direction::YellowLeft,
    ];
    assert(r@ =~= all_directions().subrange(0, 9));
    r
}

/// The diagonal directions, in declaration order.
fn diagonal_dirs() -> (r: Vec<Direction>)
    ensures
        r@ == all_directions().subrange(9, 21),
{
    let r = vec![
        Direction::RedYellowToRed,
        Direction::RedYellowToYellow,
        Direction::GreenRedToRed,
        Direction::GreenRedToGreen,
        Direction::GreenYellowToYellow,
        Direction::GreenYellowToGreen,
        Direction::RedToRedYellow,
        Direction::RedToGreenRed,
        Direction::YellowToRedYellow,
        Direction::YellowToGreenYellow,
        Direction::GreenToGreenRed,
        Direction::GreenToGreenYellow,
    ];
    assert(r@ =~= all_directions().subrange(9, 21));
    r
}

/// The first nine directions are the straight ones.
proof fn lemma_straight_first(d: Direction)
    ensures
        d.spec_is_straight() ==> exists|i: int| 0 <= i < 9 && all_directions()[i] == d,
        !d.spec_is_straight() ==> exists|i: int| 9 <= i < 21 && all_directions()[i] == d,
        forall|i: int| 0 <= i < 9 ==> (#[trigger] all_directions()[i]).spec_is_straight(),
        forall|i: int| 9 <= i < 21 ==> !(#[trigger] all_directions()[i]).spec_is_straight(),
{
    lemma_all_directions_complete(d);
}

/// Whether `c` is a square within the first `n` steps from (`x`, `y`) in
/// direction `d`.
spec fn within_ray(d: Direction, x: int, y: int, n: nat, c: Coord) -> bool {
    c.is_valid() && exists|m: nat| 1 <= m <= n && #[trigger] ray(d, x, y, m) == Some((c.x(), c.y()))
}

/// Adds to `out` the squares that a sliding piece of `player` on `start`
/// reaches in direction `d`.
fn slide(start: &Field, d: Direction, board: &Board, player: Player, out: &mut Vec<Coord>)
    requires
        board.wf(),
        start.coord.is_valid(),
    ensures
        forall|c: Coord|
            #[trigger] final(out)@.contains(c) <==> (old(out)@.contains(c) || (c.is_valid()
                && slides_to(board.cells(), player, d, start.coord.x(), start.coord.y(), c.x(), c.y()))),
{
    let ghost sx = start.coord.x();
    let ghost sy = start.coord.y();
    let ghost cells = board.cells();
    let ghost mut n: nat = 0;
    let mut field = *start;
    loop
        invariant
            board.wf(),
            cells == board.cells(),
            sx == start.coord.x(),
            sy == start.coord.y(),
            field.coord.is_valid(),
            ray(d, sx, sy, n) == Some((field.coord.x(), field.coord.y())),
            forall|m: nat| 1 <= m <= n ==> is_empty_at(cells, #[trigger] ray(d, sx, sy, m)),
            forall|c: Coord|
                #[trigger] out@.contains(c) <==> (old(out)@.contains(c) || within_ray(d, sx, sy, n, c)),
        decreases d.ray_measure(field.coord.x(), field.coord.y()),
    {
        proof {
            lemma_step_decreases(d, field.coord.x(), field.coord.y());
        }
        let next = d.next(&field, board, &player);
        assert(ray(d, sx, sy, n + 1) == d.adj(field.coord.x(), field.coord.y()));
        match next {
            None => {
                proof {
                    lemma_slide_off_board(cells, player, d, sx, sy, n);
                }
                assert forall|c: Coord| #[trigger] out@.contains(c) <==> (old(out)@.contains(c) || (c.is_valid()
                    && slides_to(cells, player, d, sx, sy, c.x(), c.y()))) by {
                    assert(within_ray(d, sx, sy, n, c) <==> (c.is_valid() && slides_to(cells, player, d, sx, sy, c.x(), c.y())));
                }
                return;
            },
            Some(f) => {
                proof {
                    let t = d.adj(field.coord.x(), field.coord.y()).unwrap();
                    lemma_field_coord(*board, t.0, t.1);
                }
                let ghost before = out@;
                match f.piece {
                    Some(p) => {
                        proof {
                            lemma_slide_blocked(cells, player, d, sx, sy, n, f.coord);
                        }
                        if p.player != player {
                            out.push(f.coord);
                            proof {
                                lemma_push_contains(before, f.coord);
                            }
                        }
                        assert forall|c: Coord| #[trigger] out@.contains(c) <==> (old(out)@.contains(c) || (c.is_valid()
                            && slides_to(cells, player, d, sx, sy, c.x(), c.y()))) by {
                            assert(within_ray(d, sx, sy, n, c) || (c == f.coord && can_land(cells, player, f.coord.x(), f.coord.y()))
                                <==> (c.is_valid() && slides_to(cells, player, d, sx, sy, c.x(), c.y())));
                            if p.player != player {
                                assert(out@.contains(c) <==> (before.contains(c) || c == f.coord));
                            }
                        }
                        return;
                    },
                    None => {
                        out.push(f.coord);
                        proof {
                            lemma_push_contains(before, f.coord);
                            lemma_within_ray_extend(d, sx, sy, n, f.coord);
                            n = n + 1;
                        }
                        field = f;
                    },
                }
            },
        }
    }
}

/// Adds to `out` the squares that a sliding piece of `player` on `start`
/// reaches in one of the directions `dirs`.
fn slide_all(start: &Field, dirs: &Vec<Direction>, board: &Board, player: Player, out: &mut Vec<Coord>)
    requires
        board.wf(),
        start.coord.is_valid(),
    ensures
        forall|c: Coord|
            #[trigger] final(out)@.contains(c) <==> (old(out)@.contains(c) || (c.is_valid()
                && exists|i: int| 0 <= i < dirs@.len() && slides_to(board.cells(), player, #[trigger] dirs@[i],
                    start.coord.x(), start.coord.y(), c.x(), c.y()))),
{
    let ghost sx = start.coord.x();
    let ghost sy = start.coord.y();
    let mut i: usize = 0;
    while i < dirs.len()
        invariant
            board.wf(),
            start.coord.is_valid(),
            sx == start.coord.x(),
            sy == start.coord.y(),
            0 <= i <= dirs@.len(),
            forall|c: Coord|
                #[trigger] out@.contains(c) <==> (old(out)@.contains(c) || (c.is_valid()
                    && exists|k: int| 0 <= k < i && slides_to(board.cells(), player, #[trigger] dirs@[k], sx, sy, c.x(), c.y()))),
        decreases dirs@.len() - i,
    {
        let ghost before = out@;
        slide(start, dirs[i], board, player, out);
        assert forall|c: Coord|
            #[trigger] out@.contains(c) <==> (old(out)@.contains(c) || (c.is_valid()
                && exists|k: int| 0 <= k < i + 1 && slides_to(board.cells(), player, #[trigger] dirs@[k], sx, sy, c.x(), c.y()))) by {
            assert(out@.contains(c) <==> (before.contains(c) || (c.is_valid() && slides_to(board.cells(), player, dirs@[i as int], sx, sy, c.x(), c.y()))));
            if c.is_valid() && exists|k: int| 0 <= k < i + 1 && slides_to(board.cells(), player, #[trigger] dirs@[k], sx, sy, c.x(), c.y()) {
                let k = choose|k: int| 0 <= k < i + 1 && slides_to(board.cells(), player, #[trigger] dirs@[k], sx, sy, c.x(), c.y());
                if k < i {
                    assert(before.contains(c));
                }
            }
        }
        i = i + 1;
    }
}

/// The position of a square, if there is one.
pub open spec fn pos_of(f: Option<Field>) -> Option<(int, int)> {
    match f {
        Some(g) => Some((g.coord.x(), g.coord.y())),
        None => None,
    }
}

/// Whether `f`, if it is a square, is the square of `b` at its coordinate.
pub open spec fn on_board(b: Board, f: Option<Field>) -> bool {
    match f {
        Some(g) => g.coord.is_valid() && g == b.field_at(g.coord.x(), g.coord.y()),
        None => true,
    }
}

/// One step in direction `d` from `f`, if `f` is a square.
fn step_opt(d: Direction, f: Option<Field>, board: &Board, player: &Player) -> (r: Option<Field>)
    requires
        board.wf(),
        f matches Some(g) ==> g.coord.is_valid(),
    ensures
        on_board(*board, r),
        pos_of(r) == go(d, pos_of(f)),
{
    match f {
        Some(g) => {
            let r = d.next(&g, board, player);
            proof {
                if r.is_some() {
                    let t = d.adj(g.coord.x(), g.coord.y()).unwrap();
                    lemma_field_coord(*board, t.0, t.1);
                }
            }
            r
        },
        None => None,
    }
}

/// Two valid coordinates with the same numbers are equal.
proof fn lemma_same_coord(a: Coord, b: Coord)
    requires
        a.is_valid(),
        b.is_valid(),
        a.x() == b.x(),
        a.y() == b.y(),
    ensures
        a == b,
{
    lemma_coord_eq(a);
    lemma_coord_eq(b);
}

/// Whether a piece of `player` may end its move on `f`.
fn lands(f: &Field, player: Player) -> (r: bool)
    ensures
        r == match f.piece {
            Some(q) => q.player != player,
            None => true,
        },
{
    match f.piece {
        Some(q) => q.player != player,
        None => true,
    }
}

/// Adds to `out` the squares that a king of `player` on `start` may step to.
fn king_steps(start: &Field, board: &Board, player: Player, out: &mut Vec<Coord>)
    requires
        board.wf(),
        start.coord.is_valid(),
    ensures
        forall|c: Coord|
            #[trigger] final(out)@.contains(c) <==> (old(out)@.contains(c) || (c.is_valid()
                && king_reaches(board.cells(), player, start.coord.x(), start.coord.y(), c.x(), c.y()))),
{
    let ghost sx = start.coord.x();
    let ghost sy = start.coord.y();
    let ghost cells = board.cells();
    let dirs = Direction::all();
    let mut i: usize = 0;
    while i < dirs.len()
        invariant
            board.wf(),
            cells == board.cells(),
            start.coord.is_valid(),
            sx == start.coord.x(),
            sy == start.coord.y(),
            dirs@ == all_directions(),
            0 <= i <= dirs@.len(),
            forall|c: Coord|
                #[trigger] out@.contains(c) <==> (old(out)@.contains(c) || (c.is_valid() && can_land(cells, player, c.x(), c.y())
                    && exists|k: int| 0 <= k < i && (#[trigger] dirs@[k]).adj(sx, sy) == Some((c.x(), c.y())))),
        decreases dirs@.len() - i,
    {
        let ghost before = out@;
        let d = dirs[i];
        let next = d.next(start, board, &player);
        match next {
            Some(f) => {
                proof {
                    let t = d.adj(sx, sy).unwrap();
                    lemma_field_coord(*board, t.0, t.1);
                }
                if lands(&f, player) {
                    out.push(f.coord);
                    proof {
                        lemma_push_contains(before, f.coord);
                    }
                }
            },
            None => {},
        }
        assert forall|c: Coord|
            #[trigger] out@.contains(c) <==> (old(out)@.contains(c) || (c.is_valid() && can_land(cells, player, c.x(), c.y())
                && exists|k: int| 0 <= k < i + 1 && (#[trigger] dirs@[k]).adj(sx, sy) == Some((c.x(), c.y())))) by {
            if c.is_valid() && exists|k: int| 0 <= k < i + 1 && (#[trigger] dirs@[k]).adj(sx, sy) == Some((c.x(), c.y())) {
                let k = choose|k: int| 0 <= k < i + 1 && (#[trigger] dirs@[k]).adj(sx, sy) == Some((c.x(), c.y()));
                if k == i {
                    if let Some(f) = next {
                        lemma_same_coord(c, f.coord);
                    }
                }
            }
        }
        i = i + 1;
    }
    assert forall|c: Coord|
        #[trigger] out@.contains(c) <==> (old(out)@.contains(c) || (c.is_valid()
            && king_reaches(cells, player, sx, sy, c.x(), c.y()))) by {
        if c.is_valid() && king_reaches(cells, player, sx, sy, c.x(), c.y()) {
            let d = choose|d: Direction| #[trigger] d.adj(sx, sy) == Some((c.x(), c.y()));
            lemma_all_directions_complete(d);
            let k = choose|k: int| 0 <= k < 21 && all_directions()[k] == d;
            assert(dirs@[k].adj(sx, sy) == Some((c.x(), c.y())));
        }
    }
}

/// Whether `c` is the target of the knight's path given by `d`, `o` and
/// `two_first` from (`x`, `y`), and a piece of `pl` may land there.
spec fn knight_hit(cells: Seq<Field>, pl: Player, two_first: bool, x: int, y: int, d: Direction, o: Direction, c: Coord) -> bool {
    c.is_valid() && can_land(cells, pl, c.x(), c.y()) && knight_path(d, o, two_first, x, y) == Some((c.x(), c.y()))
}

/// Adds to `out` the targets of the knight's paths of one shape (one step
/// then two, or two then one) for a knight of `player` on `start`.
fn knight_pass(start: &Field, two_first: bool, board: &Board, player: Player, out: &mut Vec<Coord>)
    requires
        board.wf(),
        start.coord.is_valid(),
    ensures
        forall|c: Coord|
            #[trigger] final(out)@.contains(c) <==> (old(out)@.contains(c) || exists|d: Direction, o: Direction|
                d.spec_is_straight() && d.spec_is_orthogonal(o)
                    && #[trigger] knight_hit(board.cells(), player, two_first, start.coord.x(), start.coord.y(), d, o, c)),
{
    let ghost sx = start.coord.x();
    let ghost sy = start.coord.y();
    let ghost cells = board.cells();
    let straight = straight_dirs();
    let mut i: usize = 0;
    while i < straight.len()
        invariant
            board.wf(),
            cells == board.cells(),
            start.coord.is_valid(),
            sx == start.coord.x(),
            sy == start.coord.y(),
            straight@ == all_directions().subrange(0, 9),
            0 <= i <= straight@.len(),
            forall|c: Coord|
                #[trigger] out@.contains(c) <==> (old(out)@.contains(c) || exists|k: int, o: Direction|
                    0 <= k < i && straight@[k].spec_is_orthogonal(o)
                        && #[trigger] knight_hit(cells, player, two_first, sx, sy, straight@[k], o, c)),
        decreases straight@.len() - i,
    {
        let d = straight[i];
        let first = step_opt(d, Some(*start), board, &player);
        let base = if two_first {
            step_opt(d, first, board, &player)
        } else {
            first
        };
        let orths = d.orthogonals();
        let ghost before_d = out@;
        let mut j: usize = 0;
        while j < orths.len()
            invariant
                board.wf(),
                cells == board.cells(),
                start.coord.is_valid(),
                sx == start.coord.x(),
                sy == start.coord.y(),
                straight@ == all_directions().subrange(0, 9),
                0 <= i < straight@.len(),
                d == straight@[i as int],
                on_board(*board, base),
                pos_of(base) == (if two_first { go(d, d.adj(sx, sy)) } else { d.adj(sx, sy) }),
                forall|o: Direction| orths@.contains(o) <==> d.spec_is_orthogonal(o),
                0 <= j <= orths@.len(),
                forall|c: Coord|
                    #[trigger] out@.contains(c) <==> (before_d.contains(c) || exists|m: int|
                        0 <= m < j && #[trigger] knight_hit(cells, player, two_first, sx, sy, d, orths@[m], c)),
            decreases orths@.len() - j,
        {
            let o = orths[j];
            let target = if two_first {
                step_opt(o, base, board, &player)
            } else {
                let mid = step_opt(o, base, board, &player);
                step_opt(o, mid, board, &player)
            };
            assert(pos_of(target) == knight_path(d, o, two_first, sx, sy));
            let ghost before = out@;
            match target {
                Some(f) => {
                    if lands(&f, player) {
                        out.push(f.coord);
                        proof {
                            lemma_push_contains(before, f.coord);
                        }
                    }
                },
                None => {},
            }
            assert forall|c: Coord|
                #[trigger] out@.contains(c) <==> (before_d.contains(c) || exists|m: int|
                    0 <= m < j + 1 && #[trigger] knight_hit(cells, player, two_first, sx, sy, d, orths@[m], c)) by {
                if exists|m: int| 0 <= m < j + 1 && #[trigger] knight_hit(cells, player, two_first, sx, sy, d, orths@[m], c) {
                    let m = choose|m: int| 0 <= m < j + 1 && #[trigger] knight_hit(cells, player, two_first, sx, sy, d, orths@[m], c);
                    if m == j {
                        if let Some(f) = target {
                            lemma_same_coord(c, f.coord);
                        }
                    }
                }
                if let Some(f) = target {
                    if c == f.coord && can_land(cells, player, c.x(), c.y()) {
                        assert(knight_hit(cells, player, two_first, sx, sy, d, orths@[j as int], c));
                    }
                }
            }
            j = j + 1;
        }
        assert forall|c: Coord|
            #[trigger] out@.contains(c) <==> (old(out)@.contains(c) || exists|k: int, o: Direction|
                0 <= k < i + 1 && straight@[k].spec_is_orthogonal(o)
                    && #[trigger] knight_hit(cells, player, two_first, sx, sy, straight@[k], o, c)) by {
            if exists|k: int, o: Direction| 0 <= k < i + 1 && straight@[k].spec_is_orthogonal(o)
                && #[trigger] knight_hit(cells, player, two_first, sx, sy, straight@[k], o, c) {
                let (k, o) = choose|k: int, o: Direction| 0 <= k < i + 1 && straight@[k].spec_is_orthogonal(o)
                    && #[trigger] knight_hit(cells, player, two_first, sx, sy, straight@[k], o, c);
                if k == i {
                    assert(orths@.contains(o));
                    let m = choose|m: int| 0 <= m < orths@.len() && orths@[m] == o;
                    assert(knight_hit(cells, player, two_first, sx, sy, d, orths@[m], c));
                }
            }
            if exists|m: int| 0 <= m < orths@.len() && #[trigger] knight_hit(cells, player, two_first, sx, sy, d, orths@[m], c) {
                let m = choose|m: int| 0 <= m < orths@.len() && #[trigger] knight_hit(cells, player, two_first, sx, sy, d, orths@[m], c);
                assert(orths@.contains(orths@[m]));
            }
        }
        i = i + 1;
    }
    assert forall|c: Coord|
        #[trigger] out@.contains(c) <==> (old(out)@.contains(c) || exists|d: Direction, o: Direction|
            d.spec_is_straight() && d.spec_is_orthogonal(o) && #[trigger] knight_hit(cells, player, two_first, sx, sy, d, o, c)) by {
        if exists|d: Direction, o: Direction| d.spec_is_straight() && d.spec_is_orthogonal(o)
            && #[trigger] knight_hit(cells, player, two_first, sx, sy, d, o, c) {
            let (d, o) = choose|d: Direction, o: Direction| d.spec_is_straight() && d.spec_is_orthogonal(o)
                && #[trigger] knight_hit(cells, player, two_first, sx, sy, d, o, c);
            lemma_straight_first(d);
            let k = choose|k: int| 0 <= k < 9 && all_directions()[k] == d;
            assert(straight@[k] == d);
        }
        if exists|k: int, o: Direction| 0 <= k < 9 && straight@[k].spec_is_orthogonal(o)
            && #[trigger] knight_hit(cells, player, two_first, sx, sy, straight@[k], o, c) {
            let (k, o) = choose|k: int, o: Direction| 0 <= k < 9 && straight@[k].spec_is_orthogonal(o)
                && #[trigger] knight_hit(cells, player, two_first, sx, sy, straight@[k], o, c);
            lemma_straight_first(straight@[k]);
        }
    }
}

/// The six capture directions of a pawn of `player`.
fn pawn_capture_vec(player: Player) -> (r: Vec<Direction>)
    ensures
        r@ == pawn_capture_dirs(player),
{
    let r = match player {
        Player::Red => vec![
            Direction::RedToGreenRed,
            Direction::RedToRedYellow,
            Direction::GreenYellowToGreen,
            Direction::GreenRedToGreen,
            Direction::GreenYellowToYellow,
            Direction::RedYellowToYellow,
        ],
        Player::Green => vec![
            Direction::GreenToGreenRed,
            Direction::GreenToGreenYellow,
            Direction::RedYellowToRed,
            Direction::GreenRedToGreen,
            Direction::RedYellowToYellow,
            Direction::GreenYellowToYellow,
        ],
        Player::Yellow => vec![
            Direction::YellowToGreenYellow,
            Direction::YellowToRedYellow,
            Direction::GreenRedToGreen,
            Direction::RedYellowToRed,
            Direction::GreenRedToRed,
            Direction::GreenYellowToGreen,
        ],
    };
    assert(r@ =~= pawn_capture_dirs(player));
    r
}

impl Field {
    /// The direction in which a pawn of `player` on this square moves
    /// forward, as a list of one.
    pub fn get_pawn_dirs(&self, player: Player) -> (r: Vec<Direction>)
        ensures
            r@ == seq![pawn_dir(player, self.coord.x(), self.coord.y())],
    {
        let c = self.coord.0;
        let d = match player {
            Player::Red => {
                if (c >= 'e' && c <= 'h') || (c >= 'a' && c <= 'd') {
                    Direction::ForwardRed
                } else if self.coord.1 <= 8 {
                    Direction::ForwardYellow
                } else {
                    Direction::ForwardGreen
                }
            },
            Player::Green => {
                if (c >= 'a' && c <= 'd') || (c >= 'i') {
                    Direction::ForwardGreen
                } else if self.coord.1 <= 4 {
                    Direction::ForwardYellow
                } else {
                    Direction::ForwardRed
                }
            },
            Player::Yellow => {
                if (c >= 'e' && c <= 'h') || (c >= 'i') {
                    Direction::ForwardYellow
                } else if self.coord.1 <= 4 {
                    Direction::ForwardGreen
                } else {
                    Direction::ForwardRed
                }
            },
        };
        let r = vec![d];
        assert(r@ =~= seq![pawn_dir(player, self.coord.x(), self.coord.y())]);
        r
    }
}

/// Adds to `out` the squares that a pawn of `player` on `start` may move to.
fn pawn_moves(start: &Field, board: &Board, player: Player, out: &mut Vec<Coord>)
    requires
        board.wf(),
        start.coord.is_valid(),
    ensures
        forall|c: Coord|
            #[trigger] final(out)@.contains(c) <==> (old(out)@.contains(c) || (c.is_valid()
                && pawn_reaches(board.cells(), player, start.coord.x(), start.coord.y(), c.x(), c.y()))),
{
    let ghost sx = start.coord.x();
    let ghost sy = start.coord.y();
    let ghost cells = board.cells();
    let capture_dirs = pawn_capture_vec(player);
    let mut i: usize = 0;
    while i < capture_dirs.len()
        invariant
            board.wf(),
            cells == board.cells(),
            start.coord.is_valid(),
            sx == start.coord.x(),
            sy == start.coord.y(),
            capture_dirs@ == pawn_capture_dirs(player),
            0 <= i <= capture_dirs@.len(),
            forall|c: Coord|
                #[trigger] out@.contains(c) <==> (old(out)@.contains(c) || (c.is_valid() && is_enemy_at(cells, player, c.x(), c.y())
                    && exists|k: int| 0 <= k < i && (#[trigger] capture_dirs@[k]).adj(sx, sy) == Some((c.x(), c.y())))),
        decreases capture_dirs@.len() - i,
    {
        let ghost before = out@;
        let next = capture_dirs[i].next(start, board, &player);
        if let Some(a) = next {
            proof {
                let t = capture_dirs@[i as int].adj(sx, sy).unwrap();
                lemma_field_coord(*board, t.0, t.1);
            }
            if let Some(p) = a.piece {
                if p.player != player {
                    out.push(a.coord);
                    proof {
                        lemma_push_contains(before, a.coord);
                    }
                }
            }
        }
        assert forall|c: Coord|
            #[trigger] out@.contains(c) <==> (old(out)@.contains(c) || (c.is_valid() && is_enemy_at(cells, player, c.x(), c.y())
                && exists|k: int| 0 <= k < i + 1 && (#[trigger] capture_dirs@[k]).adj(sx, sy) == Some((c.x(), c.y())))) by {
            if c.is_valid() && exists|k: int| 0 <= k < i + 1 && (#[trigger] capture_dirs@[k]).adj(sx, sy) == Some((c.x(), c.y())) {
                let k = choose|k: int| 0 <= k < i + 1 && (#[trigger] capture_dirs@[k]).adj(sx, sy) == Some((c.x(), c.y()));
                if k == i {
                    if let Some(a) = next {
                        lemma_same_coord(c, a.coord);
                    }
                }
            }
        }
        i = i + 1;
    }
    let ghost after_captures = out@;
    let move_dir = start.get_pawn_dirs(player)[0];
    let is_at_home = match player {
        Player::Red => start.coord.1 == 2,
        Player::Green => start.coord.1 == 7,
        Player::Yellow => start.coord.1 == 11,
    };
    let first = move_dir.next(start, board, &player);
    if let Some(a) = first {
        proof {
            let t = move_dir.adj(sx, sy).unwrap();
            lemma_field_coord(*board, t.0, t.1);
        }
        if a.piece.is_none() {
            out.push(a.coord);
            proof {
                lemma_push_contains(after_captures, a.coord);
            }
            let ghost after_one = out@;
            if is_at_home {
                let second = move_dir.next(&a, board, &player);
                if let Some(b) = second {
                    proof {
                        let t = move_dir.adj(a.coord.x(), a.coord.y()).unwrap();
                        lemma_field_coord(*board, t.0, t.1);
                    }
                    if b.piece.is_none() {
                        out.push(b.coord);
                        proof {
                            lemma_push_contains(after_one, b.coord);
                        }
                    }
                }
            }
        }
    }
    assert forall|c: Coord|
        #[trigger] out@.contains(c) <==> (old(out)@.contains(c) || (c.is_valid()
            && pawn_reaches(cells, player, sx, sy, c.x(), c.y()))) by {
        if let Some(a) = first {
            if c.is_valid() && c.x() == a.coord.x() && c.y() == a.coord.y() {
                lemma_same_coord(c, a.coord);
            }
            if a.piece.is_none() && is_at_home {
                if let Some((tx, ty)) = move_dir.adj(a.coord.x(), a.coord.y()) {
                    lemma_field_coord(*board, tx, ty);
                    if c.is_valid() && c.x() == tx && c.y() == ty {
                        lemma_same_coord(c, board.field_at(tx, ty).coord);
                    }
                }
            }
        }
        if c.is_valid() && pawn_reaches(cells, player, sx, sy, c.x(), c.y()) {
            if is_enemy_at(cells, player, c.x(), c.y()) && exists|k: int|
                0 <= k < 6 && (#[trigger] pawn_capture_dirs(player)[k]).adj(sx, sy) == Some((c.x(), c.y())) {
                assert(after_captures.contains(c));
            }
        }
    }
}

impl Field {
    /// The squares that the piece on this square may move to by the rules of
    /// movement alone, before the safety of its king is looked at. A square
    /// may be listed more than once.
    pub fn get_possible_moves_unchecked(&self, board: &Board) -> (r: Vec<Coord>)
        requires
            board.wf(),
            self.coord.is_valid(),
            self.piece.is_some(),
        ensures
            forall|c: Coord| #[trigger] r@.contains(c) <==> pseudo_target(board.cells(), self.piece.unwrap(), self.coord, c),
    {
        let piece = self.piece.unwrap();
        let player = piece.player;
        let ghost cells = board.cells();
        let ghost sx = self.coord.x();
        let ghost sy = self.coord.y();
        let mut fields: Vec<Coord> = Vec::new();
        match piece.typ {
            PieceType::Pawn => {
                pawn_moves(self, board, player, &mut fields);
            },
            PieceType::Rook | PieceType::Bishop | PieceType::Queen => {
                let dirs = match piece.typ {
                    PieceType::Rook => straight_dirs(),
                    PieceType::Bishop => diagonal_dirs(),
                    _ => Direction::all(),
                };
                slide_all(self, &dirs, board, player, &mut fields);
                assert forall|c: Coord| #[trigger] fields@.contains(c) <==> pseudo_target(cells, piece, self.coord, c) by {
                    if c.is_valid() && reaches(cells, piece, sx, sy, c.x(), c.y()) {
                        let d = choose|d: Direction| #[trigger] slides_to(cells, player, d, sx, sy, c.x(), c.y())
                            && (piece.typ == PieceType::Rook ==> d.spec_is_straight())
                            && (piece.typ == PieceType::Bishop ==> !d.spec_is_straight());
                        lemma_straight_first(d);
                        if piece.typ == PieceType::Rook {
                            let k = choose|k: int| 0 <= k < 9 && all_directions()[k] == d;
                            assert(dirs@[k] == d);
                        } else if piece.typ == PieceType::Bishop {
                            let k = choose|k: int| 9 <= k < 21 && all_directions()[k] == d;
                            assert(dirs@[k - 9] == d);
                        } else {
                            lemma_all_directions_complete(d);
                            let k = choose|k: int| 0 <= k < 21 && all_directions()[k] == d;
                            assert(dirs@[k] == d);
                        }
                    }
                    if fields@.contains(c) {
                        let k = choose|k: int| 0 <= k < dirs@.len() && slides_to(cells, player, #[trigger] dirs@[k], sx, sy, c.x(), c.y());
                        lemma_straight_first(dirs@[k]);
                        if piece.typ == PieceType::Bishop {
                            assert(dirs@[k] == all_directions()[k + 9]);
                        }
                    }
                }
            },
            PieceType::Knight => {
                knight_pass(self, false, board, player, &mut fields);
                knight_pass(self, true, board, player, &mut fields);
                assert forall|c: Coord| #[trigger] fields@.contains(c) <==> pseudo_target(cells, piece, self.coord, c) by {
                    if c.is_valid() && reaches(cells, piece, sx, sy, c.x(), c.y()) {
                        let (d, o, tf) = choose|d: Direction, o: Direction, two_first: bool|
                            d.spec_is_straight() && d.spec_is_orthogonal(o) && #[trigger] knight_path(d, o, two_first, sx, sy)
                                == Some((c.x(), c.y()));
                        assert(knight_hit(cells, player, tf, sx, sy, d, o, c));
                    }
                    if fields@.contains(c) {
                        if exists|d: Direction, o: Direction| d.spec_is_straight() && d.spec_is_orthogonal(o)
                            && #[trigger] knight_hit(cells, player, false, sx, sy, d, o, c) {
                            let (d, o) = choose|d: Direction, o: Direction| d.spec_is_straight() && d.spec_is_orthogonal(o)
                                && #[trigger] knight_hit(cells, player, false, sx, sy, d, o, c);
                            assert(knight_path(d, o, false, sx, sy) == Some((c.x(), c.y())));
                        } else {
                            let (d, o) = choose|d: Direction, o: Direction| d.spec_is_straight() && d.spec_is_orthogonal(o)
                                && #[trigger] knight_hit(cells, player, true, sx, sy, d, o, c);
                            assert(knight_path(d, o, true, sx, sy) == Some((c.x(), c.y())));
                        }
                    }
                }
            },
            PieceType::King => {
                king_steps(self, board, player, &mut fields);
            },
        }
        fields
    }
}

/// `v.push(a)` holds `c` just when `v` holds it or `c` is `a`.
proof fn lemma_push_contains<T>(v: Seq<T>, a: T)
    ensures
        forall|c: T| #[trigger] v.push(a).contains(c) <==> (v.contains(c) || c == a),
{
    assert forall|c: T| #[trigger] v.push(a).contains(c) <==> (v.contains(c) || c == a) by {
        if v.contains(c) {
            let j = choose|j: int| 0 <= j < v.len() && v[j] == c;
            assert(v.push(a)[j] == c);
        }
        if c == a {
            assert(v.push(a)[v.len() as int] == c);
        }
        if v.push(a).contains(c) && c != a {
            let j = choose|j: int| 0 <= j < v.len() + 1 && v.push(a)[j] == c;
            assert(v[j] == c);
        }
    }
}

/// One more step along the ray adds its square to those within the ray.
proof fn lemma_within_ray_extend(d: Direction, x: int, y: int, n: nat, f: Coord)
    requires
        f.is_valid(),
        ray(d, x, y, n + 1) == Some((f.x(), f.y())),
    ensures
        forall|c: Coord| #[trigger] within_ray(d, x, y, n + 1, c) <==> (within_ray(d, x, y, n, c) || c == f),
{
    assert forall|c: Coord| #[trigger] within_ray(d, x, y, n + 1, c) <==> (within_ray(d, x, y, n, c) || c == f) by {
        if c == f {
            assert(ray(d, x, y, (n + 1) as nat) == Some((c.x(), c.y())));
        }
        if within_ray(d, x, y, n + 1, c) && !within_ray(d, x, y, n, c) {
            let m = choose|m: nat| 1 <= m <= n + 1 && #[trigger] ray(d, x, y, m) == Some((c.x(), c.y()));
            assert(m == n + 1);
            lemma_coord_eq(c);
            lemma_coord_eq(f);
        }
        if within_ray(d, x, y, n, c) {
            let m = choose|m: nat| 1 <= m <= n && #[trigger] ray(d, x, y, m) == Some((c.x(), c.y()));
            assert(1 <= m <= n + 1);
        }
    }
}

/// The squares within the first `n` steps of a ray whose steps so far are
/// empty are reached by sliding.
proof fn lemma_within_ray_slides(cells: Seq<Field>, pl: Player, d: Direction, x: int, y: int, n: nat, c: Coord)
    requires
        forall|m: nat| 1 <= m <= n ==> is_empty_at(cells, #[trigger] ray(d, x, y, m)),
        within_ray(d, x, y, n, c),
    ensures
        slides_to(cells, pl, d, x, y, c.x(), c.y()),
{
    let m = choose|m: nat| 1 <= m <= n && #[trigger] ray(d, x, y, m) == Some((c.x(), c.y()));
    assert(is_empty_at(cells, ray(d, x, y, m)));
    assert(can_land(cells, pl, c.x(), c.y()));
    assert forall|k: nat| 1 <= k < m implies is_empty_at(cells, #[trigger] ray(d, x, y, k)) by {
    }
}

/// Where sliding reaches a square, and the step after the first `n` is not
/// an empty square, the square lies within `n + 1` steps.
proof fn lemma_slides_within(cells: Seq<Field>, pl: Player, d: Direction, x: int, y: int, n: nat, c: Coord)
    requires
        !is_empty_at(cells, ray(d, x, y, n + 1)),
        slides_to(cells, pl, d, x, y, c.x(), c.y()),
    ensures
        exists|k: nat| 1 <= k <= n + 1 && #[trigger] ray(d, x, y, k) == Some((c.x(), c.y())),
{
    let k = choose|k: nat|
        #![trigger ray(d, x, y, k)]
        k >= 1 && ray(d, x, y, k) == Some((c.x(), c.y())) && can_land(cells, pl, c.x(), c.y())
            && forall|m: nat| 1 <= m < k ==> is_empty_at(cells, #[trigger] ray(d, x, y, m));
    if k > n + 1 {
        assert(is_empty_at(cells, ray(d, x, y, (n + 1) as nat)));
    }
}

/// A ray whose first `n` steps are empty and whose next step leaves the
/// board: sliding reaches exactly the squares of those `n` steps.
proof fn lemma_slide_off_board(cells: Seq<Field>, pl: Player, d: Direction, x: int, y: int, n: nat)
    requires
        forall|m: nat| 1 <= m <= n ==> is_empty_at(cells, #[trigger] ray(d, x, y, m)),
        ray(d, x, y, n + 1).is_none(),
    ensures
        forall|c: Coord| #[trigger] within_ray(d, x, y, n, c) <==> (c.is_valid() && slides_to(cells, pl, d, x, y, c.x(), c.y())),
{
    assert forall|c: Coord| #[trigger] within_ray(d, x, y, n, c) <==> (c.is_valid() && slides_to(cells, pl, d, x, y, c.x(), c.y())) by {
        if within_ray(d, x, y, n, c) {
            lemma_within_ray_slides(cells, pl, d, x, y, n, c);
        }
        if c.is_valid() && slides_to(cells, pl, d, x, y, c.x(), c.y()) {
            lemma_slides_within(cells, pl, d, x, y, n, c);
            let k = choose|k: nat| 1 <= k <= n + 1 && #[trigger] ray(d, x, y, k) == Some((c.x(), c.y()));
            assert(k <= n);
        }
    }
}

/// A ray whose first `n` steps are empty and whose next step is the occupied
/// square `f`: sliding reaches the squares of those `n` steps, and `f` where
/// it holds an enemy piece.
proof fn lemma_slide_blocked(cells: Seq<Field>, pl: Player, d: Direction, x: int, y: int, n: nat, f: Coord)
    requires
        forall|m: nat| 1 <= m <= n ==> is_empty_at(cells, #[trigger] ray(d, x, y, m)),
        f.is_valid(),
        ray(d, x, y, n + 1) == Some((f.x(), f.y())),
        piece_on(cells, f.x(), f.y()).is_some(),
    ensures
        forall|c: Coord| #[trigger] within_ray(d, x, y, n, c) || (c == f && can_land(cells, pl, f.x(), f.y()))
            <==> (c.is_valid() && slides_to(cells, pl, d, x, y, c.x(), c.y())),
{
    assert forall|c: Coord| #[trigger] within_ray(d, x, y, n, c) || (c == f && can_land(cells, pl, f.x(), f.y()))
        <==> (c.is_valid() && slides_to(cells, pl, d, x, y, c.x(), c.y())) by {
        if within_ray(d, x, y, n, c) {
            lemma_within_ray_slides(cells, pl, d, x, y, n, c);
        }
        if c == f && can_land(cells, pl, f.x(), f.y()) {
            let k: nat = n + 1;
            assert forall|m: nat| 1 <= m < k implies is_empty_at(cells, #[trigger] ray(d, x, y, m)) by {
            }
            assert(ray(d, x, y, k) == Some((c.x(), c.y())));
        }
        if c.is_valid() && slides_to(cells, pl, d, x, y, c.x(), c.y()) {
            lemma_slides_within(cells, pl, d, x, y, n, c);
            let k = choose|k: nat| 1 <= k <= n + 1 && #[trigger] ray(d, x, y, k) == Some((c.x(), c.y()));
            if k == n + 1 {
                lemma_coord_eq(c);
                lemma_coord_eq(f);
            } else {
                assert(within_ray(d, x, y, n, c));
            }
        }
    }
}

/// A ray that reaches `n` steps reaches every shorter distance too.
proof fn lemma_ray_prefix(d: Direction, x: int, y: int, m: nat, n: nat)
    requires
        m <= n,
        ray(d, x, y, n).is_some(),
    ensures
        ray(d, x, y, m).is_some(),
    decreases n,
{
    if m < n {
        lemma_ray_prefix(d, x, y, m, (n - 1) as nat);
    }
}

/// Every square that a ray from a square reaches is a square, and lies
/// lower by the ray measure than the squares before it.
proof fn lemma_ray_descends(d: Direction, x: int, y: int, m: nat, n: nat)
    requires
        is_square(x, y),
        m < n,
        ray(d, x, y, n).is_some(),
    ensures
        is_square(ray(d, x, y, n).unwrap().0, ray(d, x, y, n).unwrap().1),
        ray(d, x, y, m).is_some(),
        d.ray_measure(ray(d, x, y, n).unwrap().0, ray(d, x, y, n).unwrap().1) < d.ray_measure(
            ray(d, x, y, m).unwrap().0,
            ray(d, x, y, m).unwrap().1,
        ),
    decreases n,
{
    lemma_ray_prefix(d, x, y, (n - 1) as nat, n);
    let p = ray(d, x, y, (n - 1) as nat).unwrap();
    if m < n - 1 {
        lemma_ray_descends(d, x, y, m, (n - 1) as nat);
    }
    lemma_step_decreases(d, p.0, p.1);
}

/// A queen moves as a rook and a bishop on the same square together: it
/// reaches a square just when one of them does.
pub proof fn lemma_queen_is_rook_and_bishop(cells: Seq<Field>, pl: Player, from: Coord, to: Coord)
    ensures
        pseudo_target(cells, Piece { typ: PieceType::Queen, player: pl }, from, to) <==> (
            pseudo_target(cells, Piece { typ: PieceType::Rook, player: pl }, from, to)
            || pseudo_target(cells, Piece { typ: PieceType::Bishop, player: pl }, from, to)),
{
    let (x, y, tx, ty) = (from.x(), from.y(), to.x(), to.y());
    if pseudo_target(cells, Piece { typ: PieceType::Queen, player: pl }, from, to) {
        let d = choose|d: Direction| #[trigger] slides_to(cells, pl, d, x, y, tx, ty);
        if d.spec_is_straight() {
            assert(pseudo_target(cells, Piece { typ: PieceType::Rook, player: pl }, from, to));
        } else {
            assert(pseudo_target(cells, Piece { typ: PieceType::Bishop, player: pl }, from, to));
        }
    }
}

/// On a board that is empty but for a rook, the rook reaches exactly the
/// squares that lie some steps from it in a straight direction.
pub proof fn lemma_rook_on_empty_board(b: Board, pl: Player, from: Coord, to: Coord)
    requires
        b.wf(),
        from.is_valid(),
        forall|x: int, y: int| is_square(x, y) && (x, y) != (from.x(), from.y()) ==> #[trigger] b.piece_at(x, y).is_none(),
    ensures
        pseudo_target(b.cells(), Piece { typ: PieceType::Rook, player: pl }, from, to) <==> (to.is_valid()
            && exists|d: Direction, n: nat| d.spec_is_straight() && n >= 1 && #[trigger] ray(d, from.x(), from.y(), n)
                == Some((to.x(), to.y()))),
{
    let cells = b.cells();
    let (x, y, tx, ty) = (from.x(), from.y(), to.x(), to.y());
    if to.is_valid() && exists|d: Direction, n: nat| d.spec_is_straight() && n >= 1 && #[trigger] ray(d, x, y, n)
        == Some((tx, ty)) {
        let (d, n) = choose|d: Direction, n: nat| d.spec_is_straight() && n >= 1 && #[trigger] ray(d, x, y, n)
            == Some((tx, ty));
        lemma_ray_descends(d, x, y, 0, n);
        reveal(Direction::ray_measure);
        assert forall|m: nat| 1 <= m < n implies is_empty_at(cells, #[trigger] ray(d, x, y, m)) by {
            lemma_ray_descends(d, x, y, m, n);
            lemma_ray_descends(d, x, y, 0, m);
            let p = ray(d, x, y, m).unwrap();
            assert(p != (x, y));
            assert(b.piece_at(p.0, p.1).is_none());
        }
        assert((tx, ty) != (x, y));
        assert(b.piece_at(tx, ty).is_none());
        assert(ray(d, x, y, n) == Some((tx, ty)));
        assert(slides_to(cells, pl, d, x, y, tx, ty));
    }
}

/// A rook whose straight ray meets one enemy piece `k` steps away, on a
/// board otherwise empty: along that ray the rook reaches the squares up to
/// and including the enemy's, and none beyond it.
pub proof fn lemma_rook_ray_blocked(
    b: Board,
    pl: Player,
    from: Coord,
    d: Direction,
    k: nat,
    ex: int,
    ey: int,
    n: nat,
    tx: int,
    ty: int,
)
    requires
        b.wf(),
        from.is_valid(),
        d.spec_is_straight(),
        k >= 1,
        ray(d, from.x(), from.y(), k) == Some((ex, ey)),
        b.piece_at(ex, ey) matches Some(q) && q.player != pl,
        forall|x: int, y: int|
            is_square(x, y) && (x, y) != (from.x(), from.y()) && (x, y) != (ex, ey) ==> #[trigger] b.piece_at(x, y).is_none(),
        n >= 1,
        ray(d, from.x(), from.y(), n) == Some((tx, ty)),
    ensures
        slides_to(b.cells(), pl, d, from.x(), from.y(), tx, ty) <==> n <= k,
{
    let cells = b.cells();
    let (x, y) = (from.x(), from.y());
    reveal(Direction::ray_measure);
    lemma_ray_descends(d, x, y, 0, n);
    lemma_ray_descends(d, x, y, 0, k);
    if n <= k {
        assert forall|m: nat| 1 <= m < n implies is_empty_at(cells, #[trigger] ray(d, x, y, m)) by {
            lemma_ray_descends(d, x, y, m, k);
            lemma_ray_descends(d, x, y, 0, m);
            let p = ray(d, x, y, m).unwrap();
            assert(p != (x, y));
            assert(p != (ex, ey));
            assert(b.piece_at(p.0, p.1).is_none());
        }
        if n < k {
            lemma_ray_descends(d, x, y, n, k);
            assert((tx, ty) != (x, y));
            assert((tx, ty) != (ex, ey));
            assert(b.piece_at(tx, ty).is_none());
        }
        assert(can_land(cells, pl, tx, ty));
        assert(ray(d, x, y, n) == Some((tx, ty)));
    } else {
        if slides_to(cells, pl, d, x, y, tx, ty) {
            let j = choose|j: nat|
                #![trigger ray(d, x, y, j)]
                j >= 1 && ray(d, x, y, j) == Some((tx, ty)) && can_land(cells, pl, tx, ty) && forall|m: nat|
                    1 <= m < j ==> is_empty_at(cells, #[trigger] ray(d, x, y, m));
            if j < n {
                lemma_ray_descends(d, x, y, j, n);
            } else if j > n {
                lemma_ray_descends(d, x, y, n, j);
            }
            assert(j == n);
            assert(!is_empty_at(cells, ray(d, x, y, k)));
        }
    }
}

} // verus!
