use chess::{CastlingAvailability, ChessError, Color, Game, Kind, Piece, PieceMovement, Square};

const START: &str = "rnbqkbnr/pppppppp/8/8/8/8/PPPPPPPP/RNBQKBNR w KQkq - 0 1";

fn sq(rank: u8, file: u8) -> Square {
    Square::new(rank, file)
}

fn piece(kind: Kind, color: Color) -> Option<Piece> {
    Some(Piece::new(kind, color))
}

#[test]
fn standard_position_round_trips() {
    let g = Game::decode(START).unwrap();
    assert_eq!(g.encode(), START);
    assert_eq!(g.castling_availability.encode(), "KQkq");
    assert_eq!(g.en_passant, None);
    assert_eq!(g.turn, Color::White);
    assert_eq!(g.board.get(sq(0, 4)), piece(Kind::King, Color::White));
    assert_eq!(g.board.get(sq(7, 3)), piece(Kind::Queen, Color::Black));
}

#[test]
fn new_game_text() {
    assert_eq!(Game::new().encode(), "8/8/8/8/8/8/8/8 w KQkq - 0 1");
}

#[test]
fn position_with_target_round_trips() {
    let text = "4k3/8/8/8/4P3/8/8/4K3 b Kq e3 0 1";
    let g = Game::decode(text).unwrap();
    assert_eq!(g.turn, Color::Black);
    assert_eq!(g.en_passant, Some(sq(2, 4)));
    assert_eq!(g.castling_availability, CastlingAvailability {
        w_kingside: true,
        w_queenside: false,
        b_kingside: false,
        b_queenside: true,
    });
    assert_eq!(g.encode(), text);
}

#[test]
fn decode_ignores_extra_blanks_and_missing_clocks() {
    let g = Game::decode("  8/8/8/8/8/8/8/8   b  -  - ").unwrap();
    assert_eq!(g.encode(), "8/8/8/8/8/8/8/8 b - - 0 1");
}

#[test]
fn decode_rejects_bad_texts() {
    assert_eq!(Game::decode("8/8/8/8/8/8/8/8 w KQkq").err(), Some(ChessError::InvalidEncoding));
    assert_eq!(Game::decode("8/8/8/8/8/8/8 w KQkq - 0 1").err(), Some(ChessError::InvalidEncoding));
    assert_eq!(Game::decode("8/8/8/8/8/8/8/8 x KQkq - 0 1").err(), Some(ChessError::InvalidEncoding));
    assert_eq!(Game::decode("8/8/8/8/8/8/8/8 w KZ - 0 1").err(), Some(ChessError::InvalidEncoding));
    assert_eq!(Game::decode("8/8/8/8/8/8/8/8 w KQkq i9 0 1").err(), Some(ChessError::InvalidEncoding));
}

fn empty_game() -> Game {
    Game::decode("8/8/8/8/8/8/8/8 w - - 0 1").unwrap()
}

fn assert_same(a: &Game, b: &Game) {
    assert_eq!(a.encode(), b.encode());
    assert_eq!(a.turn, b.turn);
    assert_eq!(a.en_passant, b.en_passant);
    assert_eq!(a.castling_availability, b.castling_availability);
}

#[test]
fn quiet_move_and_undo() {
    let mut g = Game::decode("4k3/8/8/8/8/8/8/4K2R w K c6 0 1").unwrap();
    let before = g;
    let rec = g.make_move(PieceMovement::Quiet { from: sq(0, 7), to: sq(3, 7) }).unwrap();
    assert_eq!(g.board.get(sq(3, 7)), piece(Kind::Rook, Color::White));
    assert_eq!(g.board.get(sq(0, 7)), None);
    assert_eq!(g.en_passant, None);
    g.undo_move(rec).unwrap();
    assert_same(&g, &before);
}

#[test]
fn double_push_sets_target() {
    let mut g = empty_game();
    g.board.set(sq(1, 4), piece(Kind::Pawn, Color::White));
    let rec = g.make_move(PieceMovement::Quiet { from: sq(1, 4), to: sq(3, 4) }).unwrap();
    assert_eq!(g.en_passant, Some(sq(1, 4)));
    assert_eq!(rec.previous_en_passant, None);
    assert_eq!(rec.mover, Color::White);
}

#[test]
fn capture_and_undo() {
    let mut g = empty_game();
    g.board.set(sq(2, 2), piece(Kind::Bishop, Color::White));
    g.board.set(sq(4, 4), piece(Kind::Knight, Color::Black));
    let before = g;
    let rec = g
        .make_move(PieceMovement::Capture { from: sq(2, 2), to: sq(4, 4), captured: Kind::Knight })
        .unwrap();
    assert_eq!(g.board.get(sq(4, 4)), piece(Kind::Bishop, Color::White));
    assert_eq!(g.board.get(sq(2, 2)), None);
    g.undo_move(rec).unwrap();
    assert_same(&g, &before);
}

#[test]
fn promotion_and_undo() {
    let mut g = empty_game();
    g.board.set(sq(6, 0), piece(Kind::Pawn, Color::White));
    let before = g;
    let rec = g
        .make_move(PieceMovement::Promotion { from: sq(6, 0), to: sq(7, 0), promotion: Kind::Queen })
        .unwrap();
    assert_eq!(g.board.get(sq(6, 0)), None);
    assert_eq!(g.board.get(sq(7, 0)), piece(Kind::Queen, Color::White));
    g.undo_move(rec).unwrap();
    assert_same(&g, &before);
}

#[test]
fn promotion_undo_restores_pawn_of_mover() {
    let mut g = empty_game();
    g.board.set(sq(6, 1), piece(Kind::Pawn, Color::White));
    let rec = g
        .make_move(PieceMovement::Promotion { from: sq(6, 1), to: sq(7, 1), promotion: Kind::Knight })
        .unwrap();
    g.turn = Color::Black;
    g.undo_move(rec).unwrap();
    assert_eq!(g.board.get(sq(6, 1)), piece(Kind::Pawn, Color::White));
    assert_eq!(g.board.get(sq(7, 1)), None);
}

#[test]
fn en_passant_and_undo() {
    let mut g = empty_game();
    g.board.set(sq(4, 4), piece(Kind::Pawn, Color::White));
    g.board.set(sq(4, 3), piece(Kind::Pawn, Color::Black));
    let before = g;
    let rec = g
        .make_move(PieceMovement::EnPassant { from: sq(4, 4), to: sq(5, 3), captured: Kind::Pawn })
        .unwrap();
    assert_eq!(g.board.get(sq(5, 3)), piece(Kind::Pawn, Color::White));
    assert_eq!(g.board.get(sq(4, 4)), None);
    assert_eq!(g.board.get(sq(4, 3)), None);
    g.undo_move(rec).unwrap();
    assert_same(&g, &before);
}

#[test]
fn kingside_castling_moves_rook() {
    let mut g = empty_game();
    g.board.set(sq(0, 4), piece(Kind::King, Color::White));
    g.board.set(sq(0, 7), piece(Kind::Rook, Color::White));
    let before = g;
    let rec = g.make_move(PieceMovement::Castling { from: sq(0, 4), to: sq(0, 6) }).unwrap();
    assert_eq!(g.board.get(sq(0, 6)), piece(Kind::King, Color::White));
    assert_eq!(g.board.get(sq(0, 5)), piece(Kind::Rook, Color::White));
    assert_eq!(g.board.get(sq(0, 7)), None);
    assert_eq!(g.board.get(sq(0, 4)), None);
    g.undo_move(rec).unwrap();
    assert_same(&g, &before);
}

#[test]
fn queenside_castling_moves_rook() {
    let mut g = empty_game();
    g.board.set(sq(0, 4), piece(Kind::King, Color::White));
    g.board.set(sq(0, 0), piece(Kind::Rook, Color::White));
    let before = g;
    let rec = g.make_move(PieceMovement::Castling { from: sq(0, 4), to: sq(0, 2) }).unwrap();
    assert_eq!(g.board.get(sq(0, 2)), piece(Kind::King, Color::White));
    assert_eq!(g.board.get(sq(0, 3)), piece(Kind::Rook, Color::White));
    assert_eq!(g.board.get(sq(0, 0)), None);
    g.undo_move(rec).unwrap();
    assert_same(&g, &before);
}

#[test]
fn castling_to_other_file_is_invalid() {
    let mut g = empty_game();
    g.board.set(sq(0, 4), piece(Kind::King, Color::White));
    let before = g;
    assert_eq!(
        g.make_move(PieceMovement::Castling { from: sq(0, 4), to: sq(0, 5) }).err(),
        Some(ChessError::InvalidMove)
    );
    assert_same(&g, &before);
    let rec = chess::Move {
        piece_movement: PieceMovement::Castling { from: sq(0, 4), to: sq(0, 3) },
        previous_en_passant: None,
        previous_castling_availability: CastlingAvailability::new(),
        mover: Color::White,
    };
    assert_eq!(g.undo_move(rec), Err(ChessError::InvalidMove));
    assert_same(&g, &before);
}

#[test]
fn white_king_leaving_home_drops_white_rights() {
    let mut g = Game::new();
    g.board.set(sq(7, 4), piece(Kind::King, Color::White));
    g.board.set(sq(7, 0), piece(Kind::Rook, Color::White));
    g.board.set(sq(7, 7), piece(Kind::Rook, Color::White));
    g.board.set(sq(0, 4), piece(Kind::King, Color::Black));
    g.board.set(sq(0, 0), piece(Kind::Rook, Color::Black));
    g.board.set(sq(0, 7), piece(Kind::Rook, Color::Black));
    let rec = g.make_move(PieceMovement::Quiet { from: sq(7, 4), to: sq(6, 4) }).unwrap();
    assert!(!g.castling_availability.w_kingside);
    assert!(!g.castling_availability.w_queenside);
    assert!(g.castling_availability.b_kingside);
    assert!(g.castling_availability.b_queenside);
    g.undo_move(rec).unwrap();
    assert_eq!(g.castling_availability, CastlingAvailability::new());
}

#[test]
fn rook_leaving_corner_drops_one_right() {
    let mut g = Game::new();
    g.board.set(sq(0, 4), piece(Kind::King, Color::Black));
    g.board.set(sq(0, 0), piece(Kind::Rook, Color::Black));
    g.board.set(sq(0, 7), piece(Kind::Rook, Color::Black));
    g.make_move(PieceMovement::Quiet { from: sq(0, 0), to: sq(1, 0) }).unwrap();
    assert!(g.castling_availability.b_kingside);
    assert!(!g.castling_availability.b_queenside);
    assert!(!g.castling_availability.w_kingside);
    assert!(!g.castling_availability.w_queenside);
}

#[test]
fn capture_undo_restores_opponent_piece_after_turn_change() {
    let mut g = empty_game();
    g.board.set(sq(1, 1), piece(Kind::Rook, Color::Black));
    g.board.set(sq(6, 1), piece(Kind::Queen, Color::White));
    g.turn = Color::Black;
    let rec = g
        .make_move(PieceMovement::Capture { from: sq(1, 1), to: sq(6, 1), captured: Kind::Queen })
        .unwrap();
    g.turn = Color::White;
    g.undo_move(rec).unwrap();
    assert_eq!(g.board.get(sq(6, 1)), piece(Kind::Queen, Color::White));
    assert_eq!(g.board.get(sq(1, 1)), piece(Kind::Rook, Color::Black));
}

#[test]
fn moves_undone_in_reverse_order_restore_start() {
    let mut g = Game::decode("r3k3/8/8/3p4/8/8/4P3/4K2R w Kq - 0 1").unwrap();
    let before = g;
    let r1 = g.make_move(PieceMovement::Quiet { from: sq(1, 4), to: sq(3, 4) }).unwrap();
    assert_eq!(g.en_passant, Some(sq(1, 4)));
    let r2 = g.make_move(PieceMovement::Castling { from: sq(0, 4), to: sq(0, 6) }).unwrap();
    let r3 = g
        .make_move(PieceMovement::Capture { from: sq(3, 4), to: sq(4, 3), captured: Kind::Pawn })
        .unwrap();
    assert_eq!(g.encode(), "r3k3/8/8/3P4/8/8/8/5RK1 w - - 0 1");
    g.undo_move(r3).unwrap();
    g.undo_move(r2).unwrap();
    g.undo_move(r1).unwrap();
    assert_same(&g, &before);
}
