use std::collections::BTreeSet;

use threechess::board::Board;
use threechess::{Coord, Game, Piece, PieceType, PickOutcome, Player};

fn sq(name: &str) -> Coord {
    let file = name.chars().next().unwrap();
    let rank: usize = name[1..].parse().unwrap();
    Coord(file, rank)
}

fn set(names: &[&str]) -> BTreeSet<(char, usize)> {
    names.iter().map(|n| {
        let c = sq(n);
        (c.0, c.1)
    }).collect()
}

fn as_set(v: &[Coord]) -> BTreeSet<(char, usize)> {
    v.iter().map(|c| (c.0, c.1)).collect()
}

fn put(b: &mut Board, at: &str, typ: PieceType, player: Player) {
    b.set_piece(sq(at), Some(Piece { typ, player }));
}

fn piece_at(g: &Game, at: &str) -> Option<Piece> {
    let c = sq(at);
    g.board.get_field(c.0, c.1).unwrap().piece
}

fn play(g: &mut Game, from: &str, to: &str) -> PickOutcome {
    assert_eq!(g.select_or_move(sq(from)), PickOutcome::Selected);
    g.select_or_move(sq(to))
}

#[test]
fn new_game_state() {
    let g = Game::new();
    assert_eq!(g.current_player(), Player::Red);
    assert!(!g.mate_flag(Player::Red));
    assert!(!g.mate_flag(Player::Green));
    assert!(!g.mate_flag(Player::Yellow));
    assert_eq!(g.winner(), None);
    assert_eq!(as_set(&g.legal_destinations(sq("a2"))), set(&["a3", "a4"]));
    assert_eq!(as_set(&g.legal_destinations(sq("g1"))), set(&["f3", "h3"]));
    assert!(g.legal_destinations(sq("e4")).is_empty());
}

#[test]
fn picking_squares_without_a_selection() {
    let mut g = Game::new();
    assert_eq!(g.select_or_move(sq("e4")), PickOutcome::Ignored);
    assert_eq!(g.select_or_move(sq("a7")), PickOutcome::Ignored);
    assert!(g.board.active_field().is_none());
    assert_eq!(g.select_or_move(sq("b2")), PickOutcome::Selected);
    assert_eq!(g.board.active_field().unwrap().coord, sq("b2"));
    assert_eq!(g.select_or_move(sq("c2")), PickOutcome::Selected);
    assert_eq!(g.board.active_field().unwrap().coord, sq("c2"));
}

#[test]
fn picking_a_non_destination_cancels() {
    let mut g = Game::new();
    let before = g.board.get_fields();
    assert_eq!(g.select_or_move(sq("a2")), PickOutcome::Selected);
    assert_eq!(g.select_or_move(sq("a5")), PickOutcome::Cancelled);
    assert!(g.board.active_field().is_none());
    assert_eq!(g.current_player(), Player::Red);
    assert_eq!(g.board.get_fields(), before);
    assert_eq!(g.select_or_move(sq("a2")), PickOutcome::Selected);
    assert_eq!(g.select_or_move(sq("b7")), PickOutcome::Cancelled);
    assert_eq!(g.current_player(), Player::Red);
}

#[test]
fn a_move_passes_the_turn_around() {
    let mut g = Game::new();
    assert_eq!(play(&mut g, "a2", "a4"), PickOutcome::Moved { from: sq("a2"), to: sq("a4"), promoted: false });
    assert_eq!(piece_at(&g, "a4"), Some(Piece { typ: PieceType::Pawn, player: Player::Red }));
    assert!(piece_at(&g, "a2").is_none());
    assert_eq!(g.current_player(), Player::Green);
    assert_eq!(play(&mut g, "c7", "c5"), PickOutcome::Moved { from: sq("c7"), to: sq("c5"), promoted: false });
    assert_eq!(g.current_player(), Player::Yellow);
    assert_eq!(play(&mut g, "k12", "l10"), PickOutcome::Moved { from: sq("k12"), to: sq("l10"), promoted: false });
    assert_eq!(g.current_player(), Player::Red);
    assert_eq!(g.select_or_move(sq("c7")), PickOutcome::Ignored);
}

#[test]
fn pawn_on_the_far_rank_becomes_a_queen() {
    let mut b = Board::new();
    put(&mut b, "a7", PieceType::Pawn, Player::Red);
    put(&mut b, "h1", PieceType::King, Player::Red);
    put(&mut b, "j5", PieceType::King, Player::Green);
    put(&mut b, "e12", PieceType::King, Player::Yellow);
    let mut g = Game::with_board(b);
    assert_eq!(as_set(&g.legal_destinations(sq("a7"))), set(&["a8"]));
    assert_eq!(play(&mut g, "a7", "a8"), PickOutcome::Moved { from: sq("a7"), to: sq("a8"), promoted: true });
    assert_eq!(piece_at(&g, "a8"), Some(Piece { typ: PieceType::Queen, player: Player::Red }));
    assert_eq!(g.current_player(), Player::Green);
}

#[test]
fn double_step_opens_the_rook_file_against_the_king() {
    // From the start position, with the Green king brought to b4 and the
    // Red knight, bishop and pawn of the b- and c-files taken off, a3 is a
    // legal square for the Green king while the a2 pawn shields it; once
    // Red has played a2-a4, the a1 rook guards a3 and the king may not go
    // there.
    let mut g = Game::new();
    g.board.set_piece(sq("b1"), None);
    g.board.set_piece(sq("b2"), None);
    g.board.set_piece(sq("c1"), None);
    g.board.set_piece(sq("d8"), None);
    put(&mut g.board, "b4", PieceType::King, Player::Green);
    assert_eq!(as_set(&g.legal_destinations(sq("b4"))), set(&["a3", "a4", "a5", "b5", "c4", "c5"]));
    assert_eq!(play(&mut g, "a2", "a4"), PickOutcome::Moved { from: sq("a2"), to: sq("a4"), promoted: false });
    assert_eq!(g.current_player(), Player::Green);
    let after = as_set(&g.legal_destinations(sq("b4")));
    assert!(!after.contains(&('a', 3)));
    assert_eq!(after, set(&["a5", "c4", "c5"]));
    assert_eq!(g.select_or_move(sq("b4")), PickOutcome::Selected);
    assert_eq!(g.select_or_move(sq("a3")), PickOutcome::Cancelled);
    assert_eq!(g.current_player(), Player::Green);
    assert!(piece_at(&g, "a3").is_none());
}

#[test]
fn a_mated_player_is_marked_and_skipped() {
    let mut b = Board::new();
    put(&mut b, "a1", PieceType::Rook, Player::Red);
    put(&mut b, "l7", PieceType::Rook, Player::Red);
    put(&mut b, "h1", PieceType::King, Player::Red);
    put(&mut b, "d8", PieceType::King, Player::Green);
    put(&mut b, "e12", PieceType::King, Player::Yellow);
    let mut g = Game::with_board(b);
    assert_eq!(as_set(&g.legal_destinations(sq("d8"))), set(&["c8", "i8"]));
    assert_eq!(play(&mut g, "a1", "a8"), PickOutcome::Moved { from: sq("a1"), to: sq("a8"), promoted: false });
    assert!(g.legal_destinations(sq("d8")).is_empty());
    assert!(g.mate_flag(Player::Green));
    assert!(!g.mate_flag(Player::Yellow));
    assert!(!g.mate_flag(Player::Red));
    assert_eq!(g.current_player(), Player::Yellow);
    assert_eq!(g.winner(), None);
    assert_eq!(play(&mut g, "e12", "e11"), PickOutcome::Moved { from: sq("e12"), to: sq("e11"), promoted: false });
    assert_eq!(g.current_player(), Player::Red);
    assert_eq!(play(&mut g, "h1", "g1"), PickOutcome::Moved { from: sq("h1"), to: sq("g1"), promoted: false });
    assert_eq!(g.current_player(), Player::Yellow);
    assert!(g.mate_flag(Player::Green));
    assert_eq!(g.select_or_move(sq("d8")), PickOutcome::Ignored);
}

#[test]
fn two_mates_make_the_third_player_winner() {
    let mut g = Game::new();
    g.mated = [false, true, true];
    assert_eq!(g.winner(), Some(Player::Red));
    g.mated = [true, false, true];
    assert_eq!(g.winner(), Some(Player::Green));
    g.mated = [true, true, false];
    assert_eq!(g.winner(), Some(Player::Yellow));
    g.mated = [false, true, false];
    assert_eq!(g.winner(), None);
    g.mated = [false, false, false];
    assert_eq!(g.winner(), None);
}

#[test]
fn second_mate_ends_the_game() {
    let mut b = Board::new();
    put(&mut b, "a1", PieceType::Rook, Player::Red);
    put(&mut b, "h1", PieceType::King, Player::Red);
    put(&mut b, "c6", PieceType::King, Player::Green);
    put(&mut b, "e12", PieceType::King, Player::Yellow);
    let mut g = Game::with_board(b);
    g.mated = [false, true, false];
    assert_eq!(play(&mut g, "a1", "e1"), PickOutcome::Moved { from: sq("a1"), to: sq("e1"), promoted: false });
    assert!(g.is_check(Player::Yellow));
    assert!(g.mate_flag(Player::Yellow));
    assert_eq!(g.winner(), Some(Player::Red));
    assert_eq!(g.current_player(), Player::Red);
}
