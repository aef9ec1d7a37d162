use vstd::prelude::*;

use crate::board::Board;
use crate::topology::{is_square, Field, Player};

verus! {

/// The 21 ways to step from a square to a neighbouring one.
///
/// The first nine are straight: a forward direction for each player and a
/// left and right direction within each player's home band. The other twelve
/// are diagonal: for each pair of players, one direction towards each of the
/// two, and from each player's home towards the two seams that it shares.
#[derive(Clone, Copy, Debug, PartialEq, Eq, Structural)]
pub enum Direction {
    ForwardRed,
    ForwardYellow,
    ForwardGreen,
    RedRight,
    RedLeft,
    GreenRight,
    GreenLeft,
    YellowRight,
    YellowLeft,
    RedYellowToRed,
    RedYellowToYellow,
    GreenRedToRed,
    GreenRedToGreen,
    GreenYellowToYellow,
    GreenYellowToGreen,
    RedToRedYellow,
    RedToGreenRed,
    YellowToRedYellow,
    YellowToGreenYellow,
    GreenToGreenRed,
    GreenToGreenYellow,
}

/// All directions, straight ones first.
pub open spec fn all_directions() -> Seq<Direction> {
    seq![
        Direction::ForwardRed,
        Direction::ForwardYellow,
        Direction::ForwardGreen,
        Direction::RedRight,
        Direction::RedLeft,
        Direction::GreenRight,
        Direction::GreenLeft,
        Direction::YellowRight,
        Direction::YellowLeft,
        Direction::RedYellowToRed,
        Direction::RedYellowToYellow,
        Direction::GreenRedToRed,
        Direction::GreenRedToGreen,
        Direction::GreenYellowToYellow,
        Direction::GreenYellowToGreen,
        Direction::RedToRedYellow,
        Direction::RedToGreenRed,
        Direction::YellowToRedYellow,
        Direction::YellowToGreenYellow,
        Direction::GreenToGreenRed,
        Direction::GreenToGreenYellow,
    ]
}

impl Direction {
    /// Whether this is one of the nine straight directions.
    pub open spec fn spec_is_straight(self) -> bool {
        match self {
            Direction::ForwardRed | Direction::ForwardYellow | Direction::ForwardGreen
            | Direction::RedRight | Direction::RedLeft | Direction::GreenRight
            | Direction::GreenLeft | Direction::YellowRight | Direction::YellowLeft => true,
            _ => false,
        }
    }

    /// Whether `other` is an opposite of this direction: the three forward
    /// directions are opposite to each other, and so are the left and the
    /// right direction of each player.
    pub open spec fn spec_is_opposite(self, other: Direction) -> bool {
        match self {
            Direction::ForwardRed => other == Direction::ForwardGreen || other
                == Direction::ForwardYellow,
            Direction::ForwardYellow => other == Direction::ForwardGreen || other
                == Direction::ForwardRed,
            Direction::ForwardGreen => other == Direction::ForwardRed || other
                == Direction::ForwardYellow,
            Direction::RedRight => other == Direction::RedLeft,
            Direction::RedLeft => other == Direction::RedRight,
            Direction::GreenRight => other == Direction::GreenLeft,
            Direction::GreenLeft => other == Direction::GreenRight,
            Direction::YellowRight => other == Direction::YellowLeft,
            Direction::YellowLeft => other == Direction::YellowRight,
            _ => false,
        }
    }

    /// Whether `other` is a straight direction at a right angle to this one:
    /// neither this direction nor one of its opposites.
    pub open spec fn spec_is_orthogonal(self, other: Direction) -> bool {
        other != self && other.spec_is_straight() && !self.spec_is_opposite(other)
    }

    /// The square one step from (`x`, `y`), by file and rank number, where
    /// this direction applies there; the result need not be a square of the
    /// board.
    #[verifier::opaque]
    pub open spec fn step(self, x: int, y: int) -> Option<(int, int)> {
        match self {
            Direction::ForwardRed => {
                if x >= 9 || y == 8 || y == 12 {
                    None
                } else {
                    Some((x, if y == 4 && x >= 5 { 9 } else { y + 1 }))
                }
            },
            Direction::ForwardYellow => {
                if x <= 4 || y == 8 || y == 1 {
                    None
                } else {
                    Some(
                        (
                            x,
                            if y == 9 {
                                if x >= 9 { 5 } else { 4 }
                            } else if y >= 9 {
                                y - 1
                            } else if y >= 5 {
                                y + 1
                            } else {
                                y - 1
                            },
                        ),
                    )
                }
            },
            Direction::ForwardGreen => {
                if (5 <= x <= 8) || y == 12 || y == 1 {
                    None
                } else {
                    Some(
                        (
                            x,
                            if y == 5 && x >= 9 {
                                9
                            } else if y >= 9 {
                                y + 1
                            } else {
                                y - 1
                            },
                        ),
                    )
                }
            },
            Direction::RedRight => {
                if y >= 5 {
                    None
                } else {
                    Some((x + 1, y))
                }
            },
            Direction::RedLeft => {
                if y >= 5 {
                    None
                } else {
                    Some((x - 1, y))
                }
            },
            Direction::GreenRight => {
                if y <= 4 || y >= 9 {
                    None
                } else {
                    Some((if x == 9 { 4 } else { x - 1 }, y))
                }
            },
            Direction::GreenLeft => {
                if y <= 4 || y >= 9 {
                    None
                } else {
                    Some((if x == 4 { 9 } else { x + 1 }, y))
                }
            },
            Direction::YellowRight => {
                if y <= 8 {
                    None
                } else {
                    Some(
                        (
                            if x == 5 {
                                9
                            } else if x >= 9 {
                                x + 1
                            } else {
                                x - 1
                            },
                            y,
                        ),
                    )
                }
            },
            Direction::YellowLeft => {
                if y <= 8 || x == 8 {
                    None
                } else {
                    Some(
                        (
                            if x == 9 {
                                5
                            } else if x > 9 {
                                x - 1
                            } else {
                                x + 1
                            },
                            y,
                        ),
                    )
                }
            },
            Direction::RedYellowToRed => {
                if x >= 9 || (5 <= y <= 8) || y == 1 || (y >= 9 && y - x >= 5) || (y <= 8
                    && y > x) {
                    None
                } else {
                    Some(
                        (
                            x - 1,
                            if y == 9 { 4 } else { y - 1 },
                        ),
                    )
                }
            },
            Direction::RedYellowToYellow => {
                if x <= 4 || (5 <= y <= 8) || y == 12 || (y >= 9 && y < x) || (y <= 4 && y + x
                    <= 8) {
                    None
                } else {
                    Some(
                        (
                            if x == 5 {
                                9
                            } else if x <= 8 {
                                x - 1
                            } else {
                                x + 1
                            },
                            if y == 4 { 9 } else { y + 1 },
                        ),
                    )
                }
            },
            Direction::GreenRedToRed => {
                if x >= 9 || y == 1 || y + x >= 10 {
                    None
                } else {
                    Some((x + 1, y - 1))
                }
            },
            Direction::GreenRedToGreen => {
                if y >= 8 || (x <= 8 && y < x) || (x >= 9 && x - y >= 5) {
                    None
                } else {
                    Some((if x == 4 { 9 } else { x + 1 }, y + 1))
                }
            },
            Direction::GreenYellowToYellow => {
                if y <= 4 || x <= 4 || y == 12 || (x <= 8 && y - x <= 3) || (y <= 8 && x - y
                    <= 3) {
                    None
                } else {
                    Some(
                        (
                            if x == 9 {
                                5
                            } else if x >= 9 {
                                x - 1
                            } else {
                                x + 1
                            },
                            if y == 5 {
                                9
                            } else if y <= 8 {
                                y - 1
                            } else {
                                y + 1
                            },
                        ),
                    )
                }
            },
            Direction::GreenYellowToGreen => {
                if y <= 4 || (5 <= x <= 8) || y == 8 || (x <= 4 && y + x <= 8) || (x >= 9 && x
                    < y) {
                    None
                } else {
                    Some(
                        (
                            if x == 9 { 4 } else { x - 1 },
                            if y == 9 {
                                5
                            } else if y > 9 {
                                y - 1
                            } else {
                                y + 1
                            },
                        ),
                    )
                }
            },
            Direction::RedToRedYellow => {
                if x >= 9 || (5 <= y <= 8) || x == 8 || (x <= 4 && y > x) || (y >= 9 && y - x
                    >= 5) {
                    None
                } else {
                    Some((x + 1, if y == 4 { 9 } else { y + 1 }))
                }
            },
            Direction::RedToGreenRed => {
                if y >= 9 || x >= 9 || x == 1 || (y >= 5 && y + x >= 10) || (x >= 5 && y + x
                    >= 10) {
                    None
                } else {
                    Some((x - 1, y + 1))
                }
            },
            Direction::YellowToRedYellow => {
                if (5 <= y <= 8) || x <= 4 || x == 8 || (y <= 4 && y + x <= 8) || (x >= 9 && y
                    < x) {
                    None
                } else {
                    Some(
                        (
                            if x == 9 {
                                5
                            } else if x >= 9 {
                                x - 1
                            } else {
                                x + 1
                            },
                            if y == 9 { 4 } else { y - 1 },
                        ),
                    )
                }
            },
            Direction::YellowToGreenYellow => {
                if x <= 4 || y <= 4 || x == 12 || (x <= 8 && y - x <= 3) || (y <= 8 && x - y
                    <= 3) {
                    None
                } else {
                    Some(
                        (
                            if x == 5 {
                                9
                            } else if x >= 9 {
                                x + 1
                            } else {
                                x - 1
                            },
                            if y == 9 {
                                5
                            } else if y >= 9 {
                                y - 1
                            } else {
                                y + 1
                            },
                        ),
                    )
                }
            },
            Direction::GreenToGreenRed => {
                if y >= 9 || (5 <= x <= 8) || x == 1 || (y <= 4 && y < x) || (x >= 9 && x - y
                    >= 5) {
                    None
                } else {
                    Some((if x == 9 { 4 } else { x - 1 }, y - 1))
                }
            },
            Direction::GreenToGreenYellow => {
                if (5 <= x <= 8) || y <= 4 || x == 12 || (x <= 4 && y + x <= 8) || (y >= 9 && x
                    < y) {
                    None
                } else {
                    Some(
                        (
                            if x == 4 { 9 } else { x + 1 },
                            if y == 5 {
                                9
                            } else if y >= 9 {
                                y + 1
                            } else {
                                y - 1
                            },
                        ),
                    )
                }
            },
        }
    }

    /// The square of the board one step from (`x`, `y`) in this direction,
    /// if there is one.
    pub open spec fn adj(self, x: int, y: int) -> Option<(int, int)> {
        match self.step(x, y) {
            Some((a, b)) => if is_square(a, b) {
                Some((a, b))
            } else {
                None
            },
            None => None,
        }
    }

    /// Whether this is one of the nine straight directions.
    pub fn is_straight(&self) -> (r: bool)
        ensures
            r == self.spec_is_straight(),
    {
        match self {
            Direction::ForwardRed | Direction::ForwardYellow | Direction::ForwardGreen
            | Direction::RedRight | Direction::RedLeft | Direction::GreenRight
            | Direction::GreenLeft | Direction::YellowRight | Direction::YellowLeft => true,
            _ => false,
        }
    }

    /// All 21 directions, in declaration order.
    pub fn all() -> (r: Vec<Direction>)
        ensures
            r@ == all_directions(),
    {
        let r = vec![
            Direction::ForwardRed,
            Direction::ForwardYellow,
            Direction::ForwardGreen,
            Direction::RedRight,
            Direction::RedLeft,
            Direction::GreenRight,
            Direction::GreenLeft,
            Direction::YellowRight,
            Direction::YellowLeft,
            Direction::RedYellowToRed,
            Direction::RedYellowToYellow,
            Direction::GreenRedToRed,
            Direction::GreenRedToGreen,
            Direction::GreenYellowToYellow,
            Direction::GreenYellowToGreen,
            Direction::RedToRedYellow,
            Direction::RedToGreenRed,
            Direction::YellowToRedYellow,
            Direction::YellowToGreenYellow,
            Direction::GreenToGreenRed,
            Direction::GreenToGreenYellow,
        ];
        assert(r@ =~= all_directions());
        r
    }

    /// Whether `other` is an opposite of this direction.
    pub fn is_opposite(&self, other: &Direction) -> (r: bool)
        ensures
            r == self.spec_is_opposite(*other),
    {
        match self {
            Direction::ForwardRed => *other == Direction::ForwardGreen || *other
                == Direction::ForwardYellow,
            Direction::ForwardYellow => *other == Direction::ForwardGreen || *other
                == Direction::ForwardRed,
            Direction::ForwardGreen => *other == Direction::ForwardRed || *other
                == Direction::ForwardYellow,
            Direction::RedRight => *other == Direction::RedLeft,
            Direction::RedLeft => *other == Direction::RedRight,
            Direction::GreenRight => *other == Direction::GreenLeft,
            Direction::GreenLeft => *other == Direction::GreenRight,
            Direction::YellowRight => *other == Direction::YellowLeft,
            Direction::YellowLeft => *other == Direction::YellowRight,
            _ => false,
        }
    }

    /// The straight directions at a right angle to this one, in declaration
    /// order.
    pub fn orthogonals(&self) -> (r: Vec<Direction>)
        ensures
            forall|d: Direction| r@.contains(d) <==> self.spec_is_orthogonal(d),
    {
        let all = Self::all();
        let mut r: Vec<Direction> = Vec::new();
        let mut i: usize = 0;
        while i < all.len()
            invariant
                0 <= i <= all@.len(),
                all@ == all_directions(),
                forall|d: Direction|
                    r@.contains(d) <==> exists|k: int|
                        0 <= k < i && #[trigger] all@[k] == d && self.spec_is_orthogonal(d),
            decreases all@.len() - i,
        {
            let d = all[i];
            let ghost before = r@;
            if d != *self && d.is_straight() && !self.is_opposite(&d) {
                r.push(d);
                assert(r@ == before.push(d));
            }
            assert forall|e: Direction| r@.contains(e) <==> exists|k: int|
                0 <= k < i + 1 && #[trigger] all@[k] == e && self.spec_is_orthogonal(e) by {
                if r@.contains(e) && r@ != before {
                    let j = choose|j: int| 0 <= j < r@.len() && r@[j] == e;
                    if j < before.len() {
                        assert(before.contains(e));
                    }
                }
                if r@ != before && e == d {
                    assert(r@[r@.len() - 1] == e);
                }
                if r@ != before && before.contains(e) {
                    let j = choose|j: int| 0 <= j < before.len() && before[j] == e;
                    assert(r@[j] == e);
                }
            }
            i = i + 1;
        }
        assert forall|d: Direction| self.spec_is_orthogonal(d) implies r@.contains(d) by {
            lemma_all_directions_complete(d);
        }
        r
    }
}

impl Direction {
    /// The file and rank numbers one step from the square (`x`, `y`), where
    /// this direction applies there.
    fn step_from(&self, x: usize, y: usize) -> (r: Option<(usize, usize)>)
        requires
            is_square(x as int, y as int),
        ensures
            match r {
                Some((a, b)) => self.step(x as int, y as int) == Some((a as int, b as int)),
                None => self.step(x as int, y as int).is_none(),
            },
    {
        reveal(Direction::step);
        match self {
            Direction::ForwardRed => {
                if x >= 9 {
                    return None;
                }
                if y == 8 || y == 12 {
                    return None;
                }
                let r = if y == 4 && x >= 5 { 9 } else { y + 1 };
                Some((x, r))
            },
            Direction::ForwardYellow => {
                if x <= 4 {
                    return None;
                }
                if y == 8 || y == 1 {
                    return None;
                }
                let r = if y == 9 {
                    if x >= 9 { 5 } else { 4 }
                } else if y >= 9 {
                    y - 1
                } else if y >= 5 {
                    y + 1
                } else {
                    y - 1
                };
                Some((x, r))
            },
            Direction::ForwardGreen => {
                if x >= 5 && x <= 8 {
                    return None;
                }
                if y == 12 || y == 1 {
                    return None;
                }
                let r = if y == 5 && x >= 9 {
                    9
                } else if y >= 9 {
                    y + 1
                } else {
                    y - 1
                };
                Some((x, r))
            },
            Direction::RedRight => {
                if y >= 5 {
                    return None;
                }
                Some((x + 1, y))
            },
            Direction::RedLeft => {
                if y >= 5 {
                    return None;
                }
                Some((x - 1, y))
            },
            Direction::GreenRight => {
                if y <= 4 {
                    return None;
                }
                if y >= 9 {
                    return None;
                }
                let f = if x == 9 { 4 } else { x - 1 };
                Some((f, y))
            },
            Direction::GreenLeft => {
                if y <= 4 {
                    return None;
                }
                if y >= 9 {
                    return None;
                }
                let f = if x == 4 { 9 } else { x + 1 };
                Some((f, y))
            },
            Direction::YellowRight => {
                if y <= 8 {
                    return None;
                }
                let f = if x == 5 {
                    9
                } else if x >= 9 {
                    x + 1
                } else {
                    x - 1
                };
                Some((f, y))
            },
            Direction::YellowLeft => {
                if y <= 8 {
                    return None;
                }
                if x == 8 {
                    return None;
                }
                let f = if x == 9 {
                    5
                } else if x > 9 {
                    x - 1
                } else {
                    x + 1
                };
                Some((f, y))
            },
            Direction::RedYellowToRed => {
                if x >= 9 || (y >= 5 && y <= 8) {
                    return None;
                }
                if y == 1 {
                    return None;
                }
                if y >= 9 && y - x >= 5 {
                    return None;
                }
                if y <= 8 && y > x {
                    return None;
                }
                let r = if y == 9 { 4 } else { y - 1 };
                Some((x - 1, r))
            },
            Direction::RedYellowToYellow => {
                if x <= 4 || (y >= 5 && y <= 8) {
                    return None;
                }
                if y == 12 {
                    return None;
                }
                if y >= 9 && y < x {
                    return None;
                }
                if y <= 4 && y + x <= 8 {
                    return None;
                }
                let f = if x == 5 {
                    9
                } else if x <= 8 {
                    x - 1
                } else {
                    x + 1
                };
                let r = if y == 4 { 9 } else { y + 1 };
                Some((f, r))
            },
            Direction::GreenRedToRed => {
                if x >= 9 {
                    return None;
                }
                if y == 1 {
                    return None;
                }
                if y + x >= 10 {
                    return None;
                }
                Some((x + 1, y - 1))
            },
            Direction::GreenRedToGreen => {
                if y >= 9 {
                    return None;
                }
                if y == 8 {
                    return None;
                }
                if x <= 8 && y < x {
                    return None;
                }
                if x >= 9 && x - y >= 5 {
                    return None;
                }
                let f = if x == 4 { 9 } else { x + 1 };
                Some((f, y + 1))
            },
            Direction::GreenYellowToYellow => {
                if y <= 4 || x <= 4 {
                    return None;
                }
                if y == 12 {
                    return None;
                }
                if x <= 8 && y - x <= 3 {
                    return None;
                }
                if y <= 8 && x - y <= 3 {
                    return None;
                }
                let f = if x == 9 {
                    5
                } else if x >= 9 {
                    x - 1
                } else {
                    x + 1
                };
                let r = if y == 5 {
                    9
                } else if y <= 8 {
                    y - 1
                } else {
                    y + 1
                };
                Some((f, r))
            },
            Direction::GreenYellowToGreen => {
                if y <= 4 || (x >= 5 && x <= 8) {
                    return None;
                }
                if y == 8 {
                    return None;
                }
                if x <= 4 && y + x <= 8 {
                    return None;
                }
                if x >= 9 && x < y {
                    return None;
                }
                let f = if x == 9 { 4 } else { x - 1 };
                let r = if y == 9 {
                    5
                } else if y > 9 {
                    y - 1
                } else {
                    y + 1
                };
                Some((f, r))
            },
            Direction::RedToRedYellow => {
                if x >= 9 || (y >= 5 && y <= 8) {
                    return None;
                }
                if x == 8 {
                    return None;
                }
                if x <= 4 && y > x {
                    return None;
                }
                if y >= 9 && y - x >= 5 {
                    return None;
                }
                let r = if y == 4 { 9 } else { y + 1 };
                Some((x + 1, r))
            },
            Direction::RedToGreenRed => {
                if y >= 9 || x >= 9 {
                    return None;
                }
                if x == 1 {
                    return None;
                }
                if y >= 5 && y + x >= 10 {
                    return None;
                }
                if x >= 5 && y + x >= 10 {
                    return None;
                }
                Some((x - 1, y + 1))
            },
            Direction::YellowToRedYellow => {
                if (y <= 8 && y >= 5) || x <= 4 {
                    return None;
                }
                if x == 8 {
                    return None;
                }
                if y <= 4 && y + x <= 8 {
                    return None;
                }
                if x >= 9 && y < x {
                    return None;
                }
                let f = if x == 9 {
                    5
                } else if x >= 9 {
                    x - 1
                } else {
                    x + 1
                };
                let r = if y == 9 { 4 } else { y - 1 };
                Some((f, r))
            },
            Direction::YellowToGreenYellow => {
                if x <= 4 || y <= 4 {
                    return None;
                }
                if x == 12 {
                    return None;
                }
                if x <= 8 && y - x <= 3 {
                    return None;
                }
                if y <= 8 && x - y <= 3 {
                    return None;
                }
                let f = if x == 5 {
                    9
                } else if x >= 9 {
                    x + 1
                } else {
                    x - 1
                };
                let r = if y == 9 {
                    5
                } else if y >= 9 {
                    y - 1
                } else {
                    y + 1
                };
                Some((f, r))
            },
            Direction::GreenToGreenRed => {
                if y >= 9 || (x <= 8 && x >= 5) {
                    return None;
                }
                if x == 1 {
                    return None;
                }
                if y <= 4 && y < x {
                    return None;
                }
                if x >= 9 && x - y >= 5 {
                    return None;
                }
                let f = if x == 9 { 4 } else { x - 1 };
                Some((f, y - 1))
            },
            Direction::GreenToGreenYellow => {
                if (x <= 8 && x >= 5) || y <= 4 {
                    return None;
                }
                if x == 12 {
                    return None;
                }
                if x <= 4 && y + x <= 8 {
                    return None;
                }
                if y >= 9 && x < y {
                    return None;
                }
                let f = if x == 4 { 9 } else { x + 1 };
                let r = if y == 5 {
                    9
                } else if y >= 9 {
                    y + 1
                } else {
                    y - 1
                };
                Some((f, r))
            },
        }
    }

    /// The square one step from `start` in this direction, or `None` where
    /// the direction does not apply there or leads off the board.
    pub fn next(&self, start: &Field, board: &Board, _player: &Player) -> (r: Option<Field>)
        requires
            board.wf(),
            start.coord.is_valid(),
        ensures
            r == match self.adj(start.coord.x(), start.coord.y()) {
                Some((a, b)) => Some(board.field_at(a, b)),
                None => None,
            },
    {
        let x: usize = (start.coord.0 as u8 - 96) as usize;
        match self.step_from(x, start.coord.1) {
            Some((a, b)) => board.field_xy(a, b),
            None => None,
        }
    }
}

/// Every direction is listed in `all_directions`.
pub proof fn lemma_all_directions_complete(d: Direction)
    ensures
        exists|k: int| 0 <= k < 21 && all_directions()[k] == d,
{
    let k: int = match d {
        Direction::ForwardRed => 0,
        Direction::ForwardYellow => 1,
        Direction::ForwardGreen => 2,
        Direction::RedRight => 3,
        Direction::RedLeft => 4,
        Direction::GreenRight => 5,
        Direction::GreenLeft => 6,
        Direction::YellowRight => 7,
        Direction::YellowLeft => 8,
        Direction::RedYellowToRed => 9,
        Direction::RedYellowToYellow => 10,
        Direction::GreenRedToRed => 11,
        Direction::GreenRedToGreen => 12,
        Direction::GreenYellowToYellow => 13,
        Direction::GreenYellowToGreen => 14,
        Direction::RedToRedYellow => 15,
        Direction::RedToGreenRed => 16,
        Direction::YellowToRedYellow => 17,
        Direction::YellowToGreenYellow => 18,
        Direction::GreenToGreenRed => 19,
        Direction::GreenToGreenYellow => 20,
    };
    assert(all_directions()[k] == d);
}

/// A straight step is undone by an opposite direction: from any square,
/// after one step in a straight direction, one of its opposites leads back to
/// the square, and each opposite that applies at all leads there.
pub proof fn lemma_opposite_step_returns(d: Direction, x: int, y: int)
    requires
        d.spec_is_straight(),
        is_square(x, y),
        d.adj(x, y).is_some(),
    ensures
        forall|a: int, b: int| #[trigger] d.adj(x, y) == Some((a, b)) ==> {
            &&& exists|o: Direction| #[trigger] d.spec_is_opposite(o) && o.adj(a, b) == Some((x, y))
            &&& forall|o: Direction| #[trigger] d.spec_is_opposite(o) && o.adj(a, b).is_some()
                ==> o.adj(a, b) == Some((x, y))
        },
{
    let back = match d {
        Direction::ForwardRed => if x <= 4 { Direction::ForwardGreen } else { Direction::ForwardYellow },
        Direction::ForwardYellow => if x <= 8 { Direction::ForwardRed } else { Direction::ForwardGreen },
        Direction::ForwardGreen => if x <= 4 { Direction::ForwardRed } else { Direction::ForwardYellow },
        Direction::RedRight => Direction::RedLeft,
        Direction::RedLeft => Direction::RedRight,
        Direction::GreenRight => Direction::GreenLeft,
        Direction::GreenLeft => Direction::GreenRight,
        Direction::YellowRight => Direction::YellowLeft,
        _ => Direction::YellowRight,
    };
    reveal(Direction::step);
    assert(d.spec_is_opposite(back));
}

impl Direction {
    /// A bound on the steps left from (`x`, `y`) in this direction: it falls
    /// with every step, so repeated steps come to an end. The board falls
    /// into three bands of four ranks; each direction leaves at most one band
    /// for another, and never comes back to it.
    #[verifier::opaque]
    pub open spec fn ray_measure(self, x: int, y: int) -> int {
        30 + match self {
            Direction::ForwardRed => if y <= 4 { 40 + x - y } else if y <= 8 { x - y } else { x - y },
            Direction::ForwardYellow => if y <= 4 { x + y } else if y <= 8 { x - y } else { 40 + x + y },
            Direction::ForwardGreen => if y <= 4 { x + y } else if y <= 8 { 40 + x + y } else { x - y },
            Direction::RedRight => if y <= 4 { -x + y } else if y <= 8 { x + y } else { x + y },
            Direction::RedLeft => if y <= 4 { x + y } else if y <= 8 { x + y } else { x + y },
            Direction::GreenRight => if y <= 4 { x + y } else if y <= 8 { x + y } else { x + y },
            Direction::GreenLeft => if y <= 4 { x + y } else if y <= 8 { -x + y } else { x + y },
            Direction::YellowRight => if y <= 4 { x + y } else if y <= 8 { x + y } else { -(if x <= 8 { 9 - x } else { x - 4 }) + y },
            Direction::YellowLeft => if y <= 4 { x + y } else if y <= 8 { x + y } else { (if x <= 8 { 9 - x } else { x - 4 }) + y },
            Direction::RedYellowToRed => if y <= 4 { x + y } else if y <= 8 { x + y } else { 40 + x + y },
            Direction::RedYellowToYellow => if y <= 4 { 40 + x - y } else if y <= 8 { x + y } else { -y },
            Direction::GreenRedToRed => if y <= 4 { -x + y } else if y <= 8 { 40 - x + y } else { x + y },
            Direction::GreenRedToGreen => if y <= 4 { 40 - x - y } else if y <= 8 { -x - y } else { x + y },
            Direction::GreenYellowToYellow => if y <= 4 { x + y } else if y <= 8 { 40 + x + y } else { -y },
            Direction::GreenYellowToGreen => if y <= 4 { x + y } else if y <= 8 { x - y } else { 40 + x + y },
            Direction::RedToRedYellow => if y <= 4 { 40 - x - y } else if y <= 8 { x + y } else { -x - y },
            Direction::RedToGreenRed => if y <= 4 { 40 + x - y } else if y <= 8 { x - y } else { x + y },
            Direction::YellowToRedYellow => if y <= 4 { -x + y } else if y <= 8 { x + y } else { 40 + y },
            Direction::YellowToGreenYellow => if y <= 4 { x + y } else if y <= 8 { -x - y } else { 40 + y },
            Direction::GreenToGreenRed => if y <= 4 { x + y } else if y <= 8 { 40 + x + y } else { x + y },
            Direction::GreenToGreenYellow => if y <= 4 { x + y } else if y <= 8 { 40 - x + y } else { -x - y },
        }
    }
}

/// A step on the board lowers the ray measure, which stays non-negative.
pub proof fn lemma_step_decreases(d: Direction, x: int, y: int)
    requires
        is_square(x, y),
    ensures
        d.ray_measure(x, y) >= 0,
        forall|a: int, b: int| #[trigger] d.adj(x, y) == Some((a, b)) ==> 0 <= d.ray_measure(a, b) < d.ray_measure(x, y),
{
    reveal(Direction::step);
    reveal(Direction::ray_measure);
}

} // verus!
