use chess::{Board, CastlingAvailability, ChessError, Color, Kind, Piece, Square};

const KINDS: [Kind; 6] = [Kind::Pawn, Kind::Knight, Kind::Bishop, Kind::Rook, Kind::Queen, Kind::King];
const COLORS: [Color; 2] = [Color::White, Color::Black];

#[test]
fn piece_codecs_round_trip_for_all_pieces() {
    for kind in KINDS {
        for color in COLORS {
            let p = Piece::new(kind, color);
            assert_eq!(Piece::decode(p.encode()), Ok(p));
            assert_eq!(Piece::decode_binary(p.encode_binary()), Ok(Some(p)));
        }
    }
}

#[test]
fn piece_letters_and_bytes() {
    assert_eq!(Piece::new(Kind::King, Color::White).encode(), 'K');
    assert_eq!(Piece::new(Kind::Pawn, Color::Black).encode(), 'p');
    assert_eq!(Piece::new(Kind::Knight, Color::White).encode(), 'N');
    assert_eq!(Piece::new(Kind::Pawn, Color::White).encode_binary(), 1);
    assert_eq!(Piece::new(Kind::Queen, Color::Black).encode_binary(), 13);
    assert_eq!(Piece::decode('q'), Ok(Piece::new(Kind::Queen, Color::Black)));
    assert_eq!(Piece::decode('B'), Ok(Piece::new(Kind::Bishop, Color::White)));
}

#[test]
fn piece_decoders_reject_bad_input() {
    assert_eq!(Piece::decode('x'), Err(ChessError::InvalidEncoding));
    assert_eq!(Piece::decode('1'), Err(ChessError::InvalidEncoding));
    assert_eq!(Piece::decode_binary(0), Ok(None));
    assert_eq!(Piece::decode_binary(7), Err(ChessError::InvalidEncoding));
    assert_eq!(Piece::decode_binary(8), Err(ChessError::InvalidEncoding));
    assert_eq!(Piece::decode_binary(22), Err(ChessError::InvalidEncoding));
}

#[test]
fn square_round_trip_for_all_squares() {
    for rank in 0..8u8 {
        for file in 0..8u8 {
            let s = Square::new(rank, file);
            assert_eq!(Square::decode(&s.encode()), Ok(s));
        }
    }
}

#[test]
fn square_names() {
    assert_eq!(Square::new(0, 0).encode(), "a1");
    assert_eq!(Square::new(7, 7).encode(), "h8");
    assert_eq!(Square::decode("e4"), Ok(Square { rank: 3, file: 4 }));
}

#[test]
fn square_decode_rejects_bad_names() {
    assert_eq!(Square::decode("i9"), Err(ChessError::InvalidEncoding));
    assert_eq!(Square::decode("a"), Err(ChessError::InvalidEncoding));
    assert_eq!(Square::decode("a10"), Err(ChessError::InvalidEncoding));
    assert_eq!(Square::decode("A1"), Err(ChessError::InvalidEncoding));
    assert_eq!(Square::decode("a0"), Err(ChessError::InvalidEncoding));
}

fn flags(bits: u8) -> CastlingAvailability {
    CastlingAvailability {
        w_kingside: bits & 1 != 0,
        w_queenside: bits & 2 != 0,
        b_kingside: bits & 4 != 0,
        b_queenside: bits & 8 != 0,
    }
}

#[test]
fn castling_round_trip_for_all_flag_sets() {
    for bits in 0..16u8 {
        let c = flags(bits);
        assert_eq!(CastlingAvailability::decode(&c.encode()), Ok(c));
    }
}

#[test]
fn castling_texts() {
    assert_eq!(CastlingAvailability::new().encode(), "KQkq");
    assert_eq!(flags(0).encode(), "-");
    assert_eq!(flags(1 | 8).encode(), "Kq");
}

#[test]
fn castling_dash_clears_earlier_flags() {
    assert_eq!(CastlingAvailability::decode("KQ-"), Ok(flags(0)));
    assert_eq!(CastlingAvailability::decode("KQkq-"), Ok(flags(0)));
    assert_eq!(CastlingAvailability::decode("-K"), Ok(flags(1)));
    assert_eq!(CastlingAvailability::decode("x"), Err(ChessError::InvalidEncoding));
    assert_eq!(CastlingAvailability::decode("Kx"), Err(ChessError::InvalidEncoding));
}

#[test]
fn empty_board_writes_eight_per_rank() {
    assert_eq!(Board::new().encode(), "8/8/8/8/8/8/8/8");
}

#[test]
fn board_placement_runs() {
    let mut b = Board::new();
    b.set(Square::new(0, 0), Some(Piece::new(Kind::Rook, Color::White)));
    b.set(Square::new(7, 4), Some(Piece::new(Kind::King, Color::Black)));
    b.set(Square::new(3, 7), Some(Piece::new(Kind::Pawn, Color::Black)));
    assert_eq!(b.encode(), "4k3/8/8/8/7p/8/8/R7");
    let back = Board::decode("4k3/8/8/8/7p/8/8/R7").unwrap();
    assert_eq!(back.get(Square::new(0, 0)), Some(Piece::new(Kind::Rook, Color::White)));
    assert_eq!(back.get(Square::new(7, 4)), Some(Piece::new(Kind::King, Color::Black)));
    assert_eq!(back.get(Square::new(3, 7)), Some(Piece::new(Kind::Pawn, Color::Black)));
    assert_eq!(back.get(Square::new(3, 6)), None);
    assert_eq!(back.encode(), b.encode());
}

#[test]
fn board_decode_accepts_split_runs() {
    let b = Board::decode("11111111/8/8/8/8/8/8/4P3").unwrap();
    assert_eq!(b.encode(), "8/8/8/8/8/8/8/4P3");
}

#[test]
fn board_decode_rejects_bad_placements() {
    assert_eq!(Board::decode("8/8/8/8/8/8/8").err(), Some(ChessError::InvalidEncoding));
    assert_eq!(Board::decode("8/8/8/8/8/8/8/8/8").err(), Some(ChessError::InvalidEncoding));
    assert_eq!(Board::decode("9/8/8/8/8/8/8/8").err(), Some(ChessError::InvalidEncoding));
    assert_eq!(Board::decode("7/8/8/8/8/8/8/8").err(), Some(ChessError::InvalidEncoding));
    assert_eq!(Board::decode("8/8/8/8/8/8/8/7P1").err(), Some(ChessError::InvalidEncoding));
    assert_eq!(Board::decode("8/8/8/8/8/8/8/7x").err(), Some(ChessError::InvalidEncoding));
}

#[test]
fn liveness_probe() {
    assert!(chess::test_fn());
}
