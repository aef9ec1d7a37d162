use threechess::board::Board;
use threechess::{Coord, Direction, Field, Player};

fn all_names() -> Vec<(&'static str, Direction)> {
    vec![
        ("ForwardRed", Direction::ForwardRed),
        ("ForwardYellow", Direction::ForwardYellow),
        ("ForwardGreen", Direction::ForwardGreen),
        ("RedRight", Direction::RedRight),
        ("RedLeft", Direction::RedLeft),
        ("GreenRight", Direction::GreenRight),
        ("GreenLeft", Direction::GreenLeft),
        ("YellowRight", Direction::YellowRight),
        ("YellowLeft", Direction::YellowLeft),
        ("RedYellowToRed", Direction::RedYellowToRed),
        ("RedYellowToYellow", Direction::RedYellowToYellow),
        ("GreenRedToRed", Direction::GreenRedToRed),
        ("GreenRedToGreen", Direction::GreenRedToGreen),
        ("GreenYellowToYellow", Direction::GreenYellowToYellow),
        ("GreenYellowToGreen", Direction::GreenYellowToGreen),
        ("RedToRedYellow", Direction::RedToRedYellow),
        ("RedToGreenRed", Direction::RedToGreenRed),
        ("YellowToRedYellow", Direction::YellowToRedYellow),
        ("YellowToGreenYellow", Direction::YellowToGreenYellow),
        ("GreenToGreenRed", Direction::GreenToGreenRed),
        ("GreenToGreenYellow", Direction::GreenToGreenYellow),
    ]
}

fn sq(name: &str) -> Coord {
    let file = name.chars().next().unwrap();
    let rank: usize = name[1..].parse().unwrap();
    Coord(file, rank)
}

fn step(d: Direction, from: &str) -> Option<Coord> {
    let b = Board::new();
    let c = sq(from);
    let f = b.get_field(c.0, c.1).unwrap();
    d.next(&f, &b, &Player::Red).map(|f: Field| f.coord)
}

/// For each direction, the square one step from each square of the board,
/// in the board's order, or `-` where there is none.
const TABLE: [(&str, &str); 21] = [
    ("ForwardRed", "a2 a3 a4 a5 b2 b3 b4 b5 c2 c3 c4 c5 d2 d3 d4 d5 e2 e3 e4 e9 f2 f3 f4 f9 g2 g3 g4 g9 h2 h3 h4 h9 e10 e11 e12 - f10 f11 f12 - g10 g11 g12 - h10 h11 h12 - - - - - - - - - - - - - - - - - - - - - - - - - - - - - - - - - a6 a7 a8 - b6 b7 b8 - c6 c7 c8 - d6 d7 d8 -"),
    ("ForwardYellow", "- - - - - - - - - - - - - - - - - e1 e2 e3 - f1 f2 f3 - g1 g2 g3 - h1 h2 h3 e4 e9 e10 e11 f4 f9 f10 f11 g4 g9 g10 g11 h4 h9 h10 h11 i5 i9 i10 i11 j5 j9 j10 j11 k5 k9 k10 k11 l5 l9 l10 l11 i6 i7 i8 - j6 j7 j8 - k6 k7 k8 - l6 l7 l8 - - - - - - - - - - - - - - - - -"),
    ("ForwardGreen", "- a1 a2 a3 - b1 b2 b3 - c1 c2 c3 - d1 d2 d3 - - - - - - - - - - - - - - - - - - - - - - - - - - - - - - - - i10 i11 i12 - j10 j11 j12 - k10 k11 k12 - l10 l11 l12 - i9 i5 i6 i7 j9 j5 j6 j7 k9 k5 k6 k7 l9 l5 l6 l7 a4 a5 a6 a7 b4 b5 b6 b7 c4 c5 c6 c7 d4 d5 d6 d7"),
    ("RedRight", "b1 b2 b3 b4 c1 c2 c3 c4 d1 d2 d3 d4 e1 e2 e3 e4 f1 f2 f3 f4 g1 g2 g3 g4 h1 h2 h3 h4 - - - - - - - - - - - - - - - - - - - - - - - - - - - - - - - - - - - - - - - - - - - - - - - - - - - - - - - - - - - - - - - - - - - -"),
    ("RedLeft", "- - - - a1 a2 a3 a4 b1 b2 b3 b4 c1 c2 c3 c4 d1 d2 d3 d4 e1 e2 e3 e4 f1 f2 f3 f4 g1 g2 g3 g4 - - - - - - - - - - - - - - - - - - - - - - - - - - - - - - - - - - - - - - - - - - - - - - - - - - - - - - - - - - - - - - - -"),
    ("GreenRight", "- - - - - - - - - - - - - - - - - - - - - - - - - - - - - - - - - - - - - - - - - - - - - - - - - - - - - - - - - - - - - - - - d5 d6 d7 d8 i5 i6 i7 i8 j5 j6 j7 j8 k5 k6 k7 k8 - - - - a5 a6 a7 a8 b5 b6 b7 b8 c5 c6 c7 c8"),
    ("GreenLeft", "- - - - - - - - - - - - - - - - - - - - - - - - - - - - - - - - - - - - - - - - - - - - - - - - - - - - - - - - - - - - - - - - j5 j6 j7 j8 k5 k6 k7 k8 l5 l6 l7 l8 - - - - b5 b6 b7 b8 c5 c6 c7 c8 d5 d6 d7 d8 i5 i6 i7 i8"),
    ("YellowRight", "- - - - - - - - - - - - - - - - - - - - - - - - - - - - - - - - i9 i10 i11 i12 e9 e10 e11 e12 f9 f10 f11 f12 g9 g10 g11 g12 j9 j10 j11 j12 k9 k10 k11 k12 l9 l10 l11 l12 - - - - - - - - - - - - - - - - - - - - - - - - - - - - - - - - - - - -"),
    ("YellowLeft", "- - - - - - - - - - - - - - - - - - - - - - - - - - - - - - - - f9 f10 f11 f12 g9 g10 g11 g12 h9 h10 h11 h12 - - - - e9 e10 e11 e12 i9 i10 i11 i12 j9 j10 j11 j12 k9 k10 k11 k12 - - - - - - - - - - - - - - - - - - - - - - - - - - - - - - - -"),
    ("RedYellowToRed", "- - - - - a1 - - - b1 b2 - - c1 c2 c3 - d1 d2 d3 - e1 e2 e3 - f1 f2 f3 - g1 g2 g3 d4 - - - e4 e9 - - f4 f9 f10 - g4 g9 g10 g11 - - - - - - - - - - - - - - - - - - - - - - - - - - - - - - - - - - - - - - - - - - - - - - - -"),
    ("RedYellowToYellow", "- - - - - - - - - - - - - - - - - - - i9 - - e4 e9 - f3 f4 f9 g2 g3 g4 g9 i10 i11 i12 - e10 e11 e12 - f10 f11 f12 - g10 g11 g12 - j10 j11 j12 - - k11 k12 - - - l12 - - - - - - - - - - - - - - - - - - - - - - - - - - - - - - - - - - - - -"),
    ("GreenRedToRed", "- b1 b2 b3 - c1 c2 c3 - d1 d2 d3 - e1 e2 e3 - f1 f2 f3 - g1 g2 - - h1 - - - - - - - - - - - - - - - - - - - - - - - - - - - - - - - - - - - - - - - - - - - - - - - - - - - - - - b4 b5 b6 b7 c4 c5 c6 - d4 d5 - - e4 - - -"),
    ("GreenRedToGreen", "b2 b3 b4 b5 - c3 c4 c5 - - d4 d5 - - - i5 - - - - - - - - - - - - - - - - - - - - - - - - - - - - - - - - - - - - - - - - - - - - - - - - j6 j7 j8 - - k7 k8 - - - l8 - - - - - b6 b7 b8 - c6 c7 c8 - d6 d7 d8 - i6 i7 i8 -"),
    ("GreenYellowToYellow", "- - - - - - - - - - - - - - - - - - - - - - - - - - - - - - - - f10 f11 f12 - - g11 g12 - - - h12 - - - - - e10 e11 e12 - i10 i11 i12 - j10 j11 j12 - k10 k11 k12 - e9 - - - i9 i5 - - j9 j5 j6 - k9 k5 k6 k7 - - - - - - - - - - - - - - - -"),
    ("GreenYellowToGreen", "- - - - - - - - - - - - - - - - - - - - - - - - - - - - - - - - - - - - - - - - - - - - - - - - d5 - - - i5 i9 - - j5 j9 j10 - k5 k9 k10 k11 d6 d7 d8 - i6 i7 i8 - j6 j7 j8 - k6 k7 k8 - - - - - - - a8 - - b7 b8 - c6 c7 c8 -"),
    ("RedToRedYellow", "b2 - - - c2 c3 - - d2 d3 d4 - e2 e3 e4 e9 f2 f3 f4 f9 g2 g3 g4 g9 h2 h3 h4 h9 - - - - f10 - - - g10 g11 - - h10 h11 h12 - - - - - - - - - - - - - - - - - - - - - - - - - - - - - - - - - - - - - - - - - - - - - - - - - - - - -"),
    ("RedToGreenRed", "- - - - a2 a3 a4 a5 b2 b3 b4 b5 c2 c3 c4 c5 d2 d3 d4 d5 e2 e3 e4 - f2 f3 - - g2 - - - - - - - - - - - - - - - - - - - - - - - - - - - - - - - - - - - - - - - - - - - - - - - - - - - - - - - a6 a7 a8 - b6 b7 - - c6 - - -"),
    ("YellowToRedYellow", "- - - - - - - - - - - - - - - - - - - f3 - - g2 g3 - h1 h2 h3 - - - - f4 f9 f10 f11 g4 g9 g10 g11 h4 h9 h10 h11 - - - - e4 e9 e10 e11 - i9 i10 i11 - - j10 j11 - - - k11 - - - - - - - - - - - - - - - - - - - - - - - - - - - - - - - -"),
    ("YellowToGreenYellow", "- - - - - - - - - - - - - - - - - - - - - - - - - - - - - - - - i5 i9 i10 i11 - e9 e10 e11 - - f10 f11 - - - g11 j5 j9 j10 j11 k5 k9 k10 k11 l5 l9 l10 l11 - - - - j6 - - - k6 k7 - - l6 l7 l8 - - - - - - - - - - - - - - - - - - - - -"),
    ("GreenToGreenRed", "- - - - - a1 a2 a3 - - b2 b3 - - - c3 - - - - - - - - - - - - - - - - - - - - - - - - - - - - - - - - - - - - - - - - - - - - - - - - d4 d5 d6 d7 - i5 i6 i7 - - j6 j7 - - - k7 - - - - a4 a5 a6 a7 b4 b5 b6 b7 c4 c5 c6 c7"),
    ("GreenToGreenYellow", "- - - - - - - - - - - - - - - - - - - - - - - - - - - - - - - - - - - - - - - - - - - - - - - - j10 - - - k10 k11 - - l10 l11 l12 - - - - - j9 j5 j6 j7 k9 k5 k6 k7 l9 l5 l6 l7 - - - - - - - b7 - - c6 c7 - d5 d6 d7 i9 i5 i6 i7"),
];

#[test]
fn direction_table_conformance() {
    let b = Board::new();
    let fields = b.get_fields();
    let names = all_names();
    for (i, (name, row)) in TABLE.iter().enumerate() {
        assert_eq!(names[i].0, *name);
        let d = names[i].1;
        let expected: Vec<&str> = row.split(' ').collect();
        assert_eq!(expected.len(), 96);
        for (k, f) in fields.iter().enumerate() {
            let got = d.next(f, &b, &Player::Green).map(|g| g.coord);
            let want = if expected[k] == "-" { None } else { Some(sq(expected[k])) };
            assert_eq!(got, want, "{} from {:?}", name, f.coord);
        }
    }
}

#[test]
fn all_lists_every_direction_in_order() {
    let all = Direction::all();
    assert_eq!(all.len(), 21);
    let names = all_names();
    for i in 0..21 {
        assert_eq!(all[i], names[i].1);
    }
}

#[test]
fn straight_directions_are_the_first_nine() {
    let all = Direction::all();
    for (i, d) in all.iter().enumerate() {
        assert_eq!(d.is_straight(), i < 9);
    }
}

#[test]
fn opposites() {
    assert!(Direction::ForwardRed.is_opposite(&Direction::ForwardGreen));
    assert!(Direction::ForwardRed.is_opposite(&Direction::ForwardYellow));
    assert!(Direction::ForwardYellow.is_opposite(&Direction::ForwardRed));
    assert!(Direction::RedRight.is_opposite(&Direction::RedLeft));
    assert!(Direction::YellowLeft.is_opposite(&Direction::YellowRight));
    assert!(!Direction::RedRight.is_opposite(&Direction::GreenLeft));
    assert!(!Direction::ForwardRed.is_opposite(&Direction::ForwardRed));
    assert!(!Direction::RedToRedYellow.is_opposite(&Direction::RedYellowToRed));
}

#[test]
fn orthogonals_of_forward_and_lateral() {
    let o = Direction::ForwardRed.orthogonals();
    assert_eq!(
        o,
        vec![
            Direction::RedRight,
            Direction::RedLeft,
            Direction::GreenRight,
            Direction::GreenLeft,
            Direction::YellowRight,
            Direction::YellowLeft,
        ]
    );
    let o = Direction::GreenLeft.orthogonals();
    assert_eq!(
        o,
        vec![
            Direction::ForwardRed,
            Direction::ForwardYellow,
            Direction::ForwardGreen,
            Direction::RedRight,
            Direction::RedLeft,
            Direction::YellowRight,
            Direction::YellowLeft,
        ]
    );
    assert!(Direction::RedToGreenRed.orthogonals().iter().all(|d| d.is_straight()));
    assert_eq!(Direction::RedToGreenRed.orthogonals().len(), 9);
}

#[test]
fn seam_jumps() {
    assert_eq!(step(Direction::ForwardRed, "e4"), Some(sq("e9")));
    assert_eq!(step(Direction::ForwardRed, "d4"), Some(sq("d5")));
    assert_eq!(step(Direction::ForwardYellow, "i9"), Some(sq("i5")));
    assert_eq!(step(Direction::ForwardYellow, "h9"), Some(sq("h4")));
    assert_eq!(step(Direction::ForwardGreen, "i5"), Some(sq("i9")));
    assert_eq!(step(Direction::GreenRight, "i6"), Some(sq("d6")));
    assert_eq!(step(Direction::GreenLeft, "d6"), Some(sq("i6")));
    assert_eq!(step(Direction::YellowRight, "e10"), Some(sq("i10")));
    assert_eq!(step(Direction::YellowLeft, "i10"), Some(sq("e10")));
    assert_eq!(step(Direction::RedYellowToRed, "e9"), Some(sq("d4")));
    assert_eq!(step(Direction::RedToRedYellow, "d4"), Some(sq("e9")));
    assert_eq!(step(Direction::RedYellowToYellow, "d4"), None);
    assert_eq!(step(Direction::GreenToGreenRed, "i5"), Some(sq("d4")));
}

#[test]
fn board_edges_have_no_neighbour() {
    assert_eq!(step(Direction::ForwardRed, "a8"), None);
    assert_eq!(step(Direction::ForwardGreen, "a1"), None);
    assert_eq!(step(Direction::RedLeft, "a1"), None);
    assert_eq!(step(Direction::RedRight, "h1"), None);
    assert_eq!(step(Direction::YellowLeft, "h12"), None);
    assert_eq!(step(Direction::GreenLeft, "l5"), None);
    assert_eq!(step(Direction::ForwardYellow, "a3"), None);
}

#[test]
fn straight_step_and_back() {
    let cases = [
        (Direction::ForwardRed, "a2", Direction::ForwardGreen),
        (Direction::ForwardRed, "e4", Direction::ForwardYellow),
        (Direction::ForwardYellow, "k10", Direction::ForwardGreen),
        (Direction::ForwardGreen, "b6", Direction::ForwardRed),
        (Direction::RedRight, "d1", Direction::RedLeft),
        (Direction::GreenRight, "i5", Direction::GreenLeft),
        (Direction::YellowRight, "e9", Direction::YellowLeft),
        (Direction::YellowLeft, "j11", Direction::YellowRight),
    ];
    for (d, from, back) in cases {
        let to = step(d, from).unwrap();
        let name = format!("{}{}", to.0, to.1);
        assert_eq!(step(back, &name), Some(sq(from)), "{:?} from {}", d, from);
        for o in Direction::all() {
            if d.is_opposite(&o) {
                let r = step(o, &name);
                assert!(r.is_none() || r == Some(sq(from)));
            }
        }
    }
}
