use std::collections::BTreeSet;

use threechess::board::Board;
use threechess::{Coord, Field, Game, Piece, PieceType, Player};

fn sq(name: &str) -> Coord {
    let file = name.chars().next().unwrap();
    let rank: usize = name[1..].parse().unwrap();
    Coord(file, rank)
}

fn set(names: &[&str]) -> BTreeSet<(char, usize)> {
    names.iter().map(|n| {
        let c = sq(n);
        (c.0, c.1)
    }).collect()
}

fn as_set(v: &[Coord]) -> BTreeSet<(char, usize)> {
    v.iter().map(|c| (c.0, c.1)).collect()
}

fn put(b: &mut Board, at: &str, typ: PieceType, player: Player) {
    b.set_piece(sq(at), Some(Piece { typ, player }));
}

fn field(b: &Board, at: &str) -> Field {
    let c = sq(at);
    b.get_field(c.0, c.1).unwrap()
}

fn pseudo(b: &Board, at: &str) -> BTreeSet<(char, usize)> {
    as_set(&field(b, at).get_possible_moves_unchecked(b))
}

#[test]
fn rook_on_empty_board_slides_every_straight_ray() {
    let mut b = Board::new();
    put(&mut b, "b2", PieceType::Rook, Player::Red);
    assert_eq!(
        pseudo(&b, "b2"),
        set(&["a2", "b1", "b3", "b4", "b5", "b6", "b7", "b8", "c2", "d2", "e2", "f2", "g2", "h2"])
    );
    let mut b = Board::new();
    put(&mut b, "f10", PieceType::Rook, Player::Yellow);
    assert_eq!(
        pseudo(&b, "f10"),
        set(&["e10", "f1", "f11", "f12", "f2", "f3", "f4", "f9", "g10", "h10", "i10", "j10", "k10", "l10"])
    );
}

#[test]
fn rook_ray_stops_at_enemy_and_before_own_piece() {
    let mut b = Board::new();
    put(&mut b, "b2", PieceType::Rook, Player::Red);
    put(&mut b, "b5", PieceType::Pawn, Player::Green);
    assert_eq!(
        pseudo(&b, "b2"),
        set(&["a2", "b1", "b3", "b4", "b5", "c2", "d2", "e2", "f2", "g2", "h2"])
    );
    put(&mut b, "b5", PieceType::Pawn, Player::Red);
    assert_eq!(pseudo(&b, "b2"), set(&["a2", "b1", "b3", "b4", "c2", "d2", "e2", "f2", "g2", "h2"]));
}

#[test]
fn queen_moves_are_rook_and_bishop_moves() {
    let mut g = Game::new();
    put(&mut g.board, "d5", PieceType::Queen, Player::Red);
    let queen = pseudo(&g.board, "d5");
    assert_eq!(
        queen,
        set(&[
            "a5", "b3", "b5", "b7", "c4", "c5", "c6", "d3", "d4", "d6", "d7", "e4", "f3", "i5", "i6", "i9",
            "j10", "j5", "j7", "k11", "k5", "l5",
        ])
    );
    put(&mut g.board, "d5", PieceType::Rook, Player::Red);
    let rook = pseudo(&g.board, "d5");
    assert_eq!(rook, set(&["a5", "b5", "c5", "d3", "d4", "d6", "d7", "i5", "j5", "k5", "l5"]));
    put(&mut g.board, "d5", PieceType::Bishop, Player::Red);
    let bishop = pseudo(&g.board, "d5");
    assert_eq!(bishop, set(&["b3", "b7", "c4", "c6", "e4", "f3", "i6", "i9", "j10", "j7", "k11"]));
    let union: BTreeSet<_> = rook.union(&bishop).cloned().collect();
    assert_eq!(queen, union);
}

#[test]
fn queen_equals_rook_and_bishop_on_every_square_of_the_start_position() {
    let g = Game::new();
    for f in g.board.get_fields() {
        if f.piece.is_some() {
            continue;
        }
        let mut b = g.board.clone();
        b.set_piece(f.coord, Some(Piece { typ: PieceType::Queen, player: Player::Green }));
        let at = b.get_field(f.coord.0, f.coord.1).unwrap();
        let queen = as_set(&at.get_possible_moves_unchecked(&b));
        let rook = as_set(&Field { piece: Some(Piece { typ: PieceType::Rook, player: Player::Green }), ..at }
            .get_possible_moves_unchecked(&b));
        let bishop = as_set(&Field { piece: Some(Piece { typ: PieceType::Bishop, player: Player::Green }), ..at }
            .get_possible_moves_unchecked(&b));
        let union: BTreeSet<_> = rook.union(&bishop).cloned().collect();
        assert_eq!(queen, union, "at {:?}", f.coord);
    }
}

#[test]
fn bishop_on_empty_board() {
    let mut b = Board::new();
    put(&mut b, "e4", PieceType::Bishop, Player::Red);
    assert_eq!(
        pseudo(&b, "e4"),
        set(&[
            "a8", "b1", "b7", "c2", "c6", "d3", "d5", "f3", "f9", "g10", "g2", "h1", "h11", "i9", "j10", "k11",
            "l12",
        ])
    );
}

#[test]
fn knight_moves() {
    let g = Game::new();
    assert_eq!(pseudo(&g.board, "b1"), set(&["a3", "c3"]));
    let moves = field(&g.board, "b1").get_possible_moves_unchecked(&g.board);
    assert_eq!(moves.len(), 4);
    let mut b = Board::new();
    put(&mut b, "i5", PieceType::Knight, Player::Green);
    assert_eq!(
        pseudo(&b, "i5"),
        set(&["c4", "c6", "d3", "d7", "e10", "f9", "j10", "j7", "k6", "k9"])
    );
    put(&mut b, "c4", PieceType::Pawn, Player::Green);
    put(&mut b, "d3", PieceType::Pawn, Player::Red);
    assert_eq!(pseudo(&b, "i5"), set(&["c6", "d3", "d7", "e10", "f9", "j10", "j7", "k6", "k9"]));
}

#[test]
fn king_steps_in_all_directions() {
    let mut b = Board::new();
    put(&mut b, "e4", PieceType::King, Player::Red);
    assert_eq!(pseudo(&b, "e4"), set(&["d3", "d4", "d5", "e3", "e9", "f3", "f4", "f9", "i9"]));
    put(&mut b, "e9", PieceType::Pawn, Player::Red);
    put(&mut b, "f9", PieceType::Pawn, Player::Yellow);
    assert_eq!(pseudo(&b, "e4"), set(&["d3", "d4", "d5", "e3", "f3", "f4", "f9", "i9"]));
}

#[test]
fn pawn_double_step_from_home_rank() {
    let g = Game::new();
    assert_eq!(pseudo(&g.board, "a2"), set(&["a3", "a4"]));
    assert_eq!(pseudo(&g.board, "c7"), set(&["c6", "c5"]));
    assert_eq!(pseudo(&g.board, "j11"), set(&["j10", "j9"]));
    assert_eq!(pseudo(&g.board, "f11"), set(&["f10", "f9"]));
}

#[test]
fn pawn_blocked_and_single_step() {
    let mut b = Board::new();
    put(&mut b, "c3", PieceType::Pawn, Player::Red);
    assert_eq!(pseudo(&b, "c3"), set(&["c4"]));
    put(&mut b, "c4", PieceType::Knight, Player::Green);
    assert_eq!(pseudo(&b, "c3"), set(&[]));
    put(&mut b, "c2", PieceType::Pawn, Player::Red);
    put(&mut b, "c3", PieceType::Pawn, Player::Red);
    assert_eq!(pseudo(&b, "c2"), set(&[]));
}

#[test]
fn pawn_captures_only_enemies() {
    let mut b = Board::new();
    put(&mut b, "a4", PieceType::Pawn, Player::Red);
    put(&mut b, "b5", PieceType::Rook, Player::Green);
    assert_eq!(pseudo(&b, "a4"), set(&["a5", "b5"]));
    put(&mut b, "b5", PieceType::Rook, Player::Red);
    assert_eq!(pseudo(&b, "a4"), set(&["a5"]));
}

#[test]
fn pawn_forward_changes_across_seams() {
    let b = Board::new();
    let at = |n: &str| field(&b, n);
    assert_eq!(at("b3").get_pawn_dirs(Player::Red), vec![threechess::Direction::ForwardRed]);
    assert_eq!(at("j6").get_pawn_dirs(Player::Red), vec![threechess::Direction::ForwardYellow]);
    assert_eq!(at("j10").get_pawn_dirs(Player::Red), vec![threechess::Direction::ForwardGreen]);
    assert_eq!(at("g3").get_pawn_dirs(Player::Green), vec![threechess::Direction::ForwardYellow]);
    assert_eq!(at("g10").get_pawn_dirs(Player::Green), vec![threechess::Direction::ForwardRed]);
    assert_eq!(at("b3").get_pawn_dirs(Player::Yellow), vec![threechess::Direction::ForwardGreen]);
    assert_eq!(at("b6").get_pawn_dirs(Player::Yellow), vec![threechess::Direction::ForwardRed]);
    let mut b = Board::new();
    put(&mut b, "e4", PieceType::Pawn, Player::Red);
    assert_eq!(pseudo(&b, "e4"), set(&["e9"]));
}

#[test]
fn targets_of_all_pieces() {
    let mut b = Board::new();
    put(&mut b, "a1", PieceType::Rook, Player::Red);
    put(&mut b, "a3", PieceType::Pawn, Player::Green);
    put(&mut b, "l12", PieceType::King, Player::Yellow);
    let targets = as_set(&b.get_possible_move_targets_unchecked(Player::Red));
    assert_eq!(
        targets,
        set(&["a2", "a3", "b1", "c1", "d1", "e1", "f1", "g1", "h1", "k11", "k12", "l11"])
    );
}

#[test]
fn rook_on_the_same_rank_gives_check() {
    let mut b = Board::new();
    put(&mut b, "e1", PieceType::King, Player::Red);
    put(&mut b, "a1", PieceType::Rook, Player::Green);
    assert!(b.is_check(Player::Red));
    put(&mut b, "c1", PieceType::Bishop, Player::Red);
    assert!(!b.is_check(Player::Red));
    b.set_piece(sq("c1"), None);
    put(&mut b, "e3", PieceType::Rook, Player::Yellow);
    assert!(b.is_check(Player::Red));
}

#[test]
fn rook_on_the_same_file_gives_check() {
    let mut b = Board::new();
    put(&mut b, "d8", PieceType::King, Player::Green);
    put(&mut b, "d2", PieceType::Rook, Player::Red);
    assert!(b.is_check(Player::Green));
    put(&mut b, "d5", PieceType::Pawn, Player::Green);
    assert!(!b.is_check(Player::Green));
}

#[test]
fn own_pieces_never_give_check() {
    let mut b = Board::new();
    put(&mut b, "e1", PieceType::King, Player::Red);
    put(&mut b, "a1", PieceType::Rook, Player::Red);
    put(&mut b, "e2", PieceType::Queen, Player::Red);
    assert!(!b.is_check(Player::Red));
}

#[test]
fn no_king_no_check() {
    let mut b = Board::new();
    put(&mut b, "a1", PieceType::Rook, Player::Green);
    assert!(!b.is_check(Player::Red));
    let g = Game::new();
    assert!(!g.is_check(Player::Red));
    assert!(!g.is_check(Player::Green));
    assert!(!g.is_check(Player::Yellow));
}
