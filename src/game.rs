use vstd::prelude::*;

use crate::board::{
    decode_placement, decode_rank, idx, encode_placement, encode_rank, encode_ranks, is_rank_char,
    lemma_placement_round_trip, lemma_rank_round_trip, rank_row, Board,
};
use crate::castling::{lemma_castling_round_trip, CastlingAvailability};
use crate::piece::{Color, Kind, Piece};
use crate::square::{lemma_square_round_trip, Square};
use crate::text::{
    chars_of, is_blank, is_word, join_words, lemma_words_join, push_char, split_words, words,
};
use crate::ChessError;

verus! {

/// One ply, as a move generator describes it.
#[derive(Clone, Copy, Debug, PartialEq, Eq, Structural)]
pub enum PieceMovement {
    Quiet { from: Square, to: Square },
    Capture { from: Square, to: Square, captured: Kind },
    Promotion { from: Square, to: Square, promotion: Kind },
    EnPassant { from: Square, to: Square, captured: Kind },
    Castling { from: Square, to: Square },
}

/// What it takes to undo a ply: the ply itself and the state it overwrote.
#[derive(Clone, Copy, Debug, PartialEq, Eq, Structural)]
pub struct Move {
    pub piece_movement: PieceMovement,
    pub previous_en_passant: Option<Square>,
    pub previous_castling_availability: CastlingAvailability,
    /// The side that made the move.
    pub mover: Color,
}

/// A chess position.
#[derive(Clone, Copy, Debug)]
pub struct Game {
    pub board: Board,
    pub turn: Color,
    pub castling_availability: CastlingAvailability,
    pub en_passant: Option<Square>,
}

/// The contents of a position as mathematical values.
pub struct GameView {
    pub board: Seq<Option<Piece>>,
    pub turn: Color,
    pub castling: CastlingAvailability,
    pub en_passant: Option<Square>,
}

pub open spec fn occupied_by(b: Seq<Option<Piece>>, i: int, kind: Kind, color: Color) -> bool {
    b[i] == Some(Piece { kind, color })
}

impl PieceMovement {
    pub open spec fn from(self) -> Square {
        match self {
            PieceMovement::Quiet { from, .. } => from,
            PieceMovement::Capture { from, .. } => from,
            PieceMovement::Promotion { from, .. } => from,
            PieceMovement::EnPassant { from, .. } => from,
            PieceMovement::Castling { from, .. } => from,
        }
    }

    pub open spec fn to(self) -> Square {
        match self {
            PieceMovement::Quiet { to, .. } => to,
            PieceMovement::Capture { to, .. } => to,
            PieceMovement::Promotion { to, .. } => to,
            PieceMovement::EnPassant { to, .. } => to,
            PieceMovement::Castling { to, .. } => to,
        }
    }

    /// Both squares lie on the board.
    pub open spec fn wf(self) -> bool {
        self.from().wf() && self.to().wf()
    }

    /// The engine can dispatch it: a castling lands on file 2 or file 6.
    pub open spec fn dispatchable(self) -> bool {
        match self {
            PieceMovement::Castling { to, .. } => to.file == 2 || to.file == 6,
            _ => true,
        }
    }
}

/// The square of the pawn that an en-passant capture from `from` to `to` takes.
pub open spec fn en_passant_victim(from: Square, to: Square) -> int {
    idx(from.rank as int, to.file as int)
}

/// Where the rook of a castling that brings the king to `to` starts and ends.
pub open spec fn rook_home(to: Square) -> int {
    if to.file == 2 { idx(to.rank as int, 0) } else { idx(to.rank as int, 7) }
}

pub open spec fn rook_dest(to: Square) -> int {
    if to.file == 2 { idx(to.rank as int, 3) } else { idx(to.rank as int, 5) }
}

/// Moves the content of square `a` to square `b`, leaving `a` empty.
pub open spec fn relocate(b: Seq<Option<Piece>>, a: int, c: int) -> Seq<Option<Piece>> {
    b.update(c, b[a]).update(a, None)
}

/// The board after a move by `turn`.
pub open spec fn apply_board(b: Seq<Option<Piece>>, m: PieceMovement, turn: Color) -> Seq<Option<Piece>> {
    match m {
        PieceMovement::Quiet { from, to } => relocate(b, from.index(), to.index()),
        PieceMovement::Capture { from, to, .. } => relocate(b, from.index(), to.index()),
        PieceMovement::Promotion { from, to, promotion } => b.update(
            to.index(),
            Some(Piece { kind: promotion, color: turn }),
        ).update(from.index(), None),
        PieceMovement::EnPassant { from, to, .. } => relocate(b, from.index(), to.index()).update(
            en_passant_victim(from, to),
            None,
        ),
        PieceMovement::Castling { from, to } => relocate(
            relocate(b, from.index(), to.index()),
            rook_home(to),
            rook_dest(to),
        ),
    }
}

/// The board after undoing a move made by `mover`: a captured piece comes back in
/// the opponent's color, and a promoted piece gives way to the mover's pawn.
pub open spec fn undo_board(b: Seq<Option<Piece>>, m: PieceMovement, mover: Color) -> Seq<Option<Piece>> {
    match m {
        PieceMovement::Quiet { from, to } => relocate(b, to.index(), from.index()),
        PieceMovement::Capture { from, to, captured } => b.update(from.index(), b[to.index()]).update(
            to.index(),
            Some(Piece { kind: captured, color: mover.opposite() }),
        ),
        PieceMovement::Promotion { from, to, .. } => b.update(
            to.index(),
            None,
        ).update(from.index(), Some(Piece { kind: Kind::Pawn, color: mover })),
        PieceMovement::EnPassant { from, to, captured } => relocate(b, to.index(), from.index()).update(
            en_passant_victim(from, to),
            Some(Piece { kind: captured, color: mover.opposite() }),
        ),
        PieceMovement::Castling { from, to } => relocate(
            relocate(b, to.index(), from.index()),
            rook_dest(to),
            rook_home(to),
        ),
    }
}

/// Castling rights that survive the board `b`: a right stays only while its king and
/// rook stand on their home squares (White's on rank 7, Black's on rank 0).
pub open spec fn derive_castling(c: CastlingAvailability, b: Seq<Option<Piece>>) -> CastlingAvailability {
    let wk = occupied_by(b, idx(7, 4), Kind::King, Color::White);
    let bk = occupied_by(b, idx(0, 4), Kind::King, Color::Black);
    CastlingAvailability {
        w_kingside: c.w_kingside && wk && occupied_by(b, idx(7, 7), Kind::Rook, Color::White),
        w_queenside: c.w_queenside && wk && occupied_by(b, idx(7, 0), Kind::Rook, Color::White),
        b_kingside: c.b_kingside && bk && occupied_by(b, idx(0, 7), Kind::Rook, Color::Black),
        b_queenside: c.b_queenside && bk && occupied_by(b, idx(0, 0), Kind::Rook, Color::Black),
    }
}

/// A pawn that advances two ranks leaves its start square as the en-passant target.
pub open spec fn double_push_target(p: Option<Piece>, from: Square, to: Square) -> Option<Square> {
    if p is Some && p->0.kind == Kind::Pawn && (from.rank == to.rank + 2 || to.rank == from.rank + 2) {
        Some(from)
    } else {
        None
    }
}

/// The en-passant target after a move on board `b`.
pub open spec fn en_passant_after(b: Seq<Option<Piece>>, m: PieceMovement) -> Option<Square> {
    match m {
        PieceMovement::Quiet { from, to } => double_push_target(b[from.index()], from, to),
        PieceMovement::Capture { from, to, .. } => double_push_target(b[from.index()], from, to),
        _ => None,
    }
}

impl GameView {
    /// The en-passant target, if any, is a square of the board.
    pub open spec fn wf(self) -> bool {
        self.board.len() == 64 && (self.en_passant is Some ==> self.en_passant->0.wf())
    }

    /// The position after a move.
    pub open spec fn apply(self, m: PieceMovement) -> GameView {
        let b = apply_board(self.board, m, self.turn);
        GameView {
            board: b,
            turn: self.turn,
            castling: derive_castling(self.castling, b),
            en_passant: en_passant_after(self.board, m),
        }
    }

    /// The record that applying `m` hands back.
    pub open spec fn record(self, m: PieceMovement) -> Move {
        Move {
            piece_movement: m,
            previous_en_passant: self.en_passant,
            previous_castling_availability: self.castling,
            mover: self.turn,
        }
    }

    /// The position after undoing a recorded move.
    pub open spec fn undo(self, rec: Move) -> GameView {
        GameView {
            board: undo_board(self.board, rec.piece_movement, rec.mover),
            turn: self.turn,
            castling: rec.previous_castling_availability,
            en_passant: rec.previous_en_passant,
        }
    }
}

impl GameView {
    /// The board agrees with the move, so that its undo restores the position: the
    /// destination of a quiet move is empty; a captured piece of the recorded kind
    /// and of the opponent's color stands where the capture takes it (for an
    /// en-passant capture, beside the start square on the destination's file, with
    /// the destination empty); a promotion finds a pawn of the side to move on its
    /// start square and an empty destination (a promotion that captures cannot be
    /// restored: the movement does not record what it took); a castling's
    /// destination and rook destination are empty and the king's start square is
    /// none of the rook's.
    pub open spec fn admits(self, m: PieceMovement) -> bool {
        let b = self.board;
        match m {
            PieceMovement::Quiet { from, to } => from != to && b[to.index()] is None,
            PieceMovement::Capture { from, to, captured } => from != to && occupied_by(
                b,
                to.index(),
                captured,
                self.turn.opposite(),
            ),
            PieceMovement::Promotion { from, to, .. } => from != to && occupied_by(
                b,
                from.index(),
                Kind::Pawn,
                self.turn,
            ) && b[to.index()] is None,
            PieceMovement::EnPassant { from, to, captured } => from.rank != to.rank && from.file
                != to.file && b[to.index()] is None && occupied_by(
                b,
                en_passant_victim(from, to),
                captured,
                self.turn.opposite(),
            ),
            PieceMovement::Castling { from, to } => from != to && b[to.index()] is None
                && b[rook_dest(to)] is None && from.index() != rook_home(to) && from.index()
                != rook_dest(to),
        }
    }
}

/// Undoing a move right after applying it, with the record that the apply handed
/// back, restores the position exactly, for every move that the board admits (see
/// `GameView::admits`): quiet moves, captures, en-passant captures, promotions onto
/// an empty square and castlings.
pub proof fn lemma_apply_undo(p: GameView, m: PieceMovement)
    requires
        p.wf(),
        m.wf(),
        m.dispatchable(),
        p.admits(m),
    ensures
        p.apply(m).undo(p.record(m)) == p,
{
    let b = p.board;
    let after = p.apply(m).undo(p.record(m));
    assert(after.board =~= b);
}

/// Undoing in last-in-first-out order: after two moves, undoing the second and then
/// the first, each with its own record, restores the starting position.
pub proof fn lemma_undo_in_reverse_order(p: GameView, m1: PieceMovement, m2: PieceMovement)
    requires
        p.wf(),
        m1.wf(),
        m2.wf(),
        m1.dispatchable(),
        m2.dispatchable(),
        p.admits(m1),
        p.apply(m1).admits(m2),
    ensures
        p.apply(m1).apply(m2).undo(p.apply(m1).record(m2)).undo(p.record(m1)) == p,
{
    lemma_apply_undo(p, m1);
    lemma_apply_undo(p.apply(m1), m2);
}

/// A castling moves the rook from the corner on the king's side to the square the
/// king passed over: from file 7 to file 5 when the king lands on file 6, from file
/// 0 to file 3 when it lands on file 2, leaving the corner empty.
pub proof fn lemma_castling_rook(p: GameView, from: Square, to: Square)
    requires
        p.wf(),
        from.wf(),
        to.wf(),
        to.file == 2 || to.file == 6,
        from.index() != rook_home(to),
        from.index() != rook_dest(to),
    ensures
        to.file == 6 ==> p.apply(PieceMovement::Castling { from, to }).board[idx(to.rank as int, 5)]
            == p.board[idx(to.rank as int, 7)]
            && p.apply(PieceMovement::Castling { from, to }).board[idx(to.rank as int, 7)] is None,
        to.file == 2 ==> p.apply(PieceMovement::Castling { from, to }).board[idx(to.rank as int, 3)]
            == p.board[idx(to.rank as int, 0)]
            && p.apply(PieceMovement::Castling { from, to }).board[idx(to.rank as int, 0)] is None,
{
}

/// Whatever the move, once the White king is off its home square both White
/// castling rights are gone.
pub proof fn lemma_white_king_off_home(p: GameView, m: PieceMovement)
    requires
        p.wf(),
        m.wf(),
        !occupied_by(p.apply(m).board, idx(7, 4), Kind::King, Color::White),
    ensures
        !p.apply(m).castling.w_kingside,
        !p.apply(m).castling.w_queenside,
{
}

pub open spec fn turn_text(c: Color) -> Seq<char> {
    match c {
        Color::White => seq!['w'],
        Color::Black => seq!['b'],
    }
}

pub open spec fn turn_of(t: Seq<char>) -> Option<Color> {
    if t == seq!['w'] {
        Some(Color::White)
    } else if t == seq!['b'] {
        Some(Color::Black)
    } else {
        None
    }
}

pub open spec fn en_passant_text(e: Option<Square>) -> Seq<char> {
    match e {
        Some(sq) => sq.spec_name(),
        None => seq!['-'],
    }
}

pub open spec fn en_passant_of(t: Seq<char>) -> Option<Option<Square>> {
    if t == seq!['-'] {
        Some(None)
    } else {
        match Square::spec_of_name(t) {
            Some(sq) => Some(Some(sq)),
            None => None,
        }
    }
}

impl GameView {
    /// The fields of the interchange text; the clocks are not kept and read "0 1".
    pub open spec fn fields(self) -> Seq<Seq<char>> {
        seq![
            encode_placement(self.board),
            turn_text(self.turn),
            self.castling.spec_encode(),
            en_passant_text(self.en_passant),
            seq!['0'],
            seq!['1'],
        ]
    }

    /// The interchange text: the fields separated by single spaces.
    pub open spec fn spec_encode(self) -> Seq<char> {
        join_words(self.fields())
    }

    /// The position that an interchange text describes: at least four fields
    /// (placement, side to move, castling rights, en-passant target), each of which
    /// reads; later fields are not looked at.
    pub open spec fn spec_decode(s: Seq<char>) -> Option<GameView> {
        let w = words(s);
        if w.len() >= 4 && decode_placement(w[0]) is Some && turn_of(w[1]) is Some
            && CastlingAvailability::spec_decode(w[2]) is Some && en_passant_of(w[3]) is Some {
            Some(
                GameView {
                    board: decode_placement(w[0])->0,
                    turn: turn_of(w[1])->0,
                    castling: CastlingAvailability::spec_decode(w[2])->0,
                    en_passant: en_passant_of(w[3])->0,
                },
            )
        } else {
            None
        }
    }
}

proof fn lemma_placement_is_word(b: Seq<Option<Piece>>, k: nat)
    requires
        b.len() == 64,
        1 <= k <= 8,
    ensures
        is_word(encode_ranks(b, k)),
    decreases k,
{
    let y = encode_rank(rank_row(b, 8 - k));
    lemma_rank_round_trip(rank_row(b, 8 - k));
    assert forall|i: int| 0 <= i < y.len() implies !#[trigger] is_blank(y[i]) by {
        assert(is_rank_char(y[i]));
    }
    if y.len() == 0 {
        assert(decode_rank(y) == Some(Seq::<Option<Piece>>::empty()));
        assert(rank_row(b, 8 - k).len() == 8);
    }
    if k > 1 {
        let x = encode_ranks(b, (k - 1) as nat);
        lemma_placement_is_word(b, (k - 1) as nat);
        let e = x.push('/') + y;
        assert forall|i: int| 0 <= i < e.len() implies !#[trigger] is_blank(e[i]) by {
            if i < x.len() {
                assert(e[i] == x[i]);
            } else if i > x.len() {
                assert(e[i] == y[i - x.len() - 1]);
            }
        }
    }
}

proof fn lemma_join_push(fs: Seq<Seq<char>>, w: Seq<char>)
    requires
        fs.len() >= 1,
    ensures
        join_words(fs.push(w)) == join_words(fs).push(' ') + w,
{
    assert(fs.push(w).drop_last() =~= fs);
}

/// The interchange text of any position reads back as that position.
pub proof fn lemma_fen_round_trip(p: GameView)
    requires
        p.wf(),
    ensures
        GameView::spec_decode(p.spec_encode()) == Some(p),
{
    let fs = p.fields();
    lemma_placement_is_word(p.board, 8);
    lemma_placement_round_trip(p.board);
    lemma_castling_round_trip(p.castling);
    let ct = p.castling.spec_encode();
    assert(ct.len() > 0);
    assert forall|i: int| 0 <= i < ct.len() implies !#[trigger] is_blank(ct[i]) by {
        assert(ct[i] == 'K' || ct[i] == 'Q' || ct[i] == 'k' || ct[i] == 'q' || ct[i] == '-');
    }
    assert(is_word(turn_text(p.turn)));
    assert(is_word(en_passant_text(p.en_passant)));
    assert(is_word(seq!['0']));
    assert(is_word(seq!['1']));
    assert forall|i: int| 0 <= i < fs.len() implies #[trigger] is_word(fs[i]) by {
    }
    lemma_words_join(fs);
    if p.en_passant is Some {
        lemma_square_round_trip(p.en_passant->0);
        assert(p.en_passant->0.spec_name() != seq!['-']);
    }
    assert(seq!['b'] != seq!['w']) by {
        assert(seq!['b'][0] != seq!['w'][0]);
    }
    assert(turn_of(turn_text(p.turn)) == Some(p.turn));
}

impl Game {
    pub open spec fn view(&self) -> GameView {
        GameView {
            board: self.board@,
            turn: self.turn,
            castling: self.castling_availability,
            en_passant: self.en_passant,
        }
    }

    pub open spec fn wf(&self) -> bool {
        self.en_passant is Some ==> self.en_passant->0.wf()
    }

    /// The view of a well-formed position is well formed: its board has 64 squares.
    pub proof fn lemma_view_wf(&self)
        requires
            self.wf(),
        ensures
            self@.wf(),
    {
        Board::lemma_len(&self.board);
    }

    /// A position is determined by its contents.
    pub proof fn lemma_view_determines(&self, other: &Game)
        requires
            self@ == other@,
        ensures
            *self == *other,
    {
        self.board.lemma_ext(&other.board);
    }

    /// An empty board, White to move, every castling right, no en-passant target.
    pub fn new() -> (r: Game)
        ensures
            r.wf(),
            r@.board == crate::board::empties(64),
            r.turn == Color::White,
            r.castling_availability == (CastlingAvailability {
                w_kingside: true,
                w_queenside: true,
                b_kingside: true,
                b_queenside: true,
            }),
            r.en_passant is None,
    {
        Game {
            board: Board::new(),
            turn: Color::White,
            castling_availability: CastlingAvailability::new(),
            en_passant: None,
        }
    }

    fn holds(&self, rank: u8, file: u8, kind: Kind, color: Color) -> (r: bool)
        requires
            rank < 8,
            file < 8,
        ensures
            r == occupied_by(self.board@, idx(rank as int, file as int), kind, color),
    {
        match self.board.get(Square::new(rank, file)) {
            Some(p) => p.kind == kind && p.color == color,
            None => false,
        }
    }

    /// Clears each castling right whose king or rook has left its home square.
    fn refresh_castling(&mut self)
        ensures
            final(self).board == old(self).board,
            final(self).turn == old(self).turn,
            final(self).en_passant == old(self).en_passant,
            final(self).castling_availability == derive_castling(
                old(self).castling_availability,
                old(self).board@,
            ),
    {
        if !self.holds(7, 4, Kind::King, Color::White) {
            self.castling_availability.w_kingside = false;
            self.castling_availability.w_queenside = false;
        }
        if !self.holds(7, 0, Kind::Rook, Color::White) {
            self.castling_availability.w_queenside = false;
        }
        if !self.holds(7, 7, Kind::Rook, Color::White) {
            self.castling_availability.w_kingside = false;
        }
        if !self.holds(0, 4, Kind::King, Color::Black) {
            self.castling_availability.b_kingside = false;
            self.castling_availability.b_queenside = false;
        }
        if !self.holds(0, 0, Kind::Rook, Color::Black) {
            self.castling_availability.b_queenside = false;
        }
        if !self.holds(0, 7, Kind::Rook, Color::Black) {
            self.castling_availability.b_kingside = false;
        }
    }

    /// Moves whatever stands on `a` to `c`, leaving `a` empty.
    fn relocate(&mut self, a: Square, c: Square)
        requires
            a.wf(),
            c.wf(),
        ensures
            final(self).board@ == relocate(old(self).board@, a.index(), c.index()),
            final(self).turn == old(self).turn,
            final(self).en_passant == old(self).en_passant,
            final(self).castling_availability == old(self).castling_availability,
    {
        let p = self.board.get(a);
        self.board.set(c, p);
        self.board.set(a, None);
    }

    /// Plays one ply on the board and returns what undoing it takes.
    ///
    /// The board changes as the movement says, the castling rights lose each right
    /// whose king or rook no longer stands at home, and a two-rank pawn advance
    /// leaves its start square as the en-passant target (any other move clears it).
    /// The side to move is left to the caller. A castling whose king lands
    /// elsewhere than file 2 or file 6 fails with `InvalidMove` and changes nothing.
    pub fn make_move(&mut self, movement: PieceMovement) -> (r: Result<Move, ChessError>)
        requires
            old(self).wf(),
            movement.wf(),
        ensures
            final(self).wf(),
            movement.dispatchable() ==> r == Ok::<Move, ChessError>(old(self)@.record(movement))
                && final(self)@ == old(self)@.apply(movement),
            !movement.dispatchable() ==> r == Err::<Move, ChessError>(ChessError::InvalidMove)
                && final(self)@ == old(self)@,
            r is Ok && !occupied_by(final(self)@.board, idx(7, 4), Kind::King, Color::White)
                ==> !final(self).castling_availability.w_kingside
                && !final(self).castling_availability.w_queenside,
    {
        let record = Move {
            piece_movement: movement,
            previous_en_passant: self.en_passant,
            previous_castling_availability: self.castling_availability,
            mover: self.turn,
        };
        match movement {
            PieceMovement::Quiet { from, to } | PieceMovement::Capture { from, to, .. } => {
                let piece = self.board.get(from);
                self.en_passant = match piece {
                    Some(p) => {
                        if p.kind == Kind::Pawn && (from.rank == to.rank + 2 || to.rank == from.rank + 2) {
                            Some(from)
                        } else {
                            None
                        }
                    },
                    None => None,
                };
                self.relocate(from, to);
            },
            PieceMovement::Promotion { from, to, promotion } => {
                self.board.set(to, Some(Piece::new(promotion, self.turn)));
                self.board.set(from, None);
                self.en_passant = None;
            },
            PieceMovement::EnPassant { from, to, .. } => {
                self.relocate(from, to);
                self.board.set(Square::new(from.rank, to.file), None);
                self.en_passant = None;
            },
            PieceMovement::Castling { from, to } => {
                if to.file != 2 && to.file != 6 {
                    return Err(ChessError::InvalidMove);
                }
                self.relocate(from, to);
                if to.file == 2 {
                    self.relocate(Square::new(to.rank, 0), Square::new(to.rank, 3));
                } else {
                    self.relocate(Square::new(to.rank, 7), Square::new(to.rank, 5));
                }
                self.en_passant = None;
            },
        }
        self.refresh_castling();
        Ok(record)
    }

    /// Takes back a ply played by `make_move`, given the record it returned.
    ///
    /// En-passant target and castling rights come back from the record. A captured
    /// piece, en-passant victim included, comes back in the color opposite to the
    /// record's mover; a promotion puts back a pawn of the mover's color on the start
    /// square and empties the destination. The side to move is not read. A castling record whose king landed elsewhere than file 2 or 6
    /// fails with `InvalidMove` and changes nothing.
    pub fn undo_move(&mut self, record: Move) -> (r: Result<(), ChessError>)
        requires
            old(self).wf(),
            record.piece_movement.wf(),
            record.previous_en_passant is Some ==> record.previous_en_passant->0.wf(),
        ensures
            final(self).wf(),
            record.piece_movement.dispatchable() ==> r == Ok::<(), ChessError>(())
                && final(self)@ == old(self)@.undo(record),
            !record.piece_movement.dispatchable() ==> r == Err::<(), ChessError>(ChessError::InvalidMove)
                && final(self)@ == old(self)@,
    {
        match record.piece_movement {
            PieceMovement::Quiet { from, to } => {
                self.relocate(to, from);
            },
            PieceMovement::Capture { from, to, captured } => {
                let p = self.board.get(to);
                self.board.set(from, p);
                self.board.set(to, Some(Piece::new(captured, record.mover.other())));
            },
            PieceMovement::Promotion { from, to, .. } => {
                self.board.set(to, None);
                self.board.set(from, Some(Piece::new(Kind::Pawn, record.mover)));
            },
            PieceMovement::EnPassant { from, to, captured } => {
                self.relocate(to, from);
                self.board.set(Square::new(from.rank, to.file), Some(Piece::new(captured, record.mover.other())));
            },
            PieceMovement::Castling { from, to } => {
                if to.file != 2 && to.file != 6 {
                    return Err(ChessError::InvalidMove);
                }
                self.relocate(to, from);
                if to.file == 2 {
                    self.relocate(Square::new(to.rank, 3), Square::new(to.rank, 0));
                } else {
                    self.relocate(Square::new(to.rank, 5), Square::new(to.rank, 7));
                }
            },
        }
        self.en_passant = record.previous_en_passant;
        self.castling_availability = record.previous_castling_availability;
        Ok(())
    }

    /// The interchange text: placement, side to move ('w' or 'b'), castling rights,
    /// en-passant target (or '-'), then "0 1" for the clocks, which are not kept.
    pub fn encode(&self) -> (r: String)
        requires
            self.wf(),
        ensures
            r@ == self@.spec_encode(),
    {
        let mut out = String::new();
        self.board.encode_into(&mut out);
        let ghost p0 = out@;
        push_char(&mut out, ' ');
        match self.turn {
            Color::White => push_char(&mut out, 'w'),
            Color::Black => push_char(&mut out, 'b'),
        }
        let ghost p1 = out@;
        push_char(&mut out, ' ');
        self.castling_availability.encode_into(&mut out);
        let ghost p2 = out@;
        push_char(&mut out, ' ');
        match self.en_passant {
            Some(sq) => sq.encode_into(&mut out),
            None => push_char(&mut out, '-'),
        }
        let ghost p3 = out@;
        push_char(&mut out, ' ');
        push_char(&mut out, '0');
        let ghost p4 = out@;
        push_char(&mut out, ' ');
        push_char(&mut out, '1');
        proof {
            let v = self@;
            let f = v.fields();
            let f1 = seq![f[0]];
            lemma_join_push(f1, f[1]);
            lemma_join_push(f1.push(f[1]), f[2]);
            lemma_join_push(f1.push(f[1]).push(f[2]), f[3]);
            lemma_join_push(f1.push(f[1]).push(f[2]).push(f[3]), f[4]);
            lemma_join_push(f1.push(f[1]).push(f[2]).push(f[3]).push(f[4]), f[5]);
            assert(f1.push(f[1]).push(f[2]).push(f[3]).push(f[4]).push(f[5]) =~= f);
            assert(join_words(f1) == f[0]);
            assert(p1 =~= p0.push(' ') + turn_text(self.turn));
            assert(p1 =~= join_words(f1.push(f[1])));
            assert(p2 =~= join_words(f1.push(f[1]).push(f[2])));
            assert(p3 =~= join_words(f1.push(f[1]).push(f[2]).push(f[3])));
            assert(p4 =~= join_words(f1.push(f[1]).push(f[2]).push(f[3]).push(f[4])));
            assert(out@ =~= join_words(f));
        }
        out
    }

    /// Reads an interchange text: at least four blank-separated fields, the
    /// placement, 'w' or 'b', the castling rights and '-' or the en-passant square;
    /// the clock fields, if present, are not read. Fails with `InvalidEncoding`
    /// when a field is missing or does not read.
    pub fn decode(fen: &str) -> (r: Result<Game, ChessError>)
        ensures
            match GameView::spec_decode(fen@) {
                Some(v) => r is Ok && r->Ok_0@ == v && r->Ok_0.wf(),
                None => r == Err::<Game, ChessError>(ChessError::InvalidEncoding),
            },
    {
        let chars = chars_of(fen);
        let w = split_words(&chars);
        let ghost ws = words(fen@);
        if w.len() < 4 {
            return Err(ChessError::InvalidEncoding);
        }
        assert(w@[0]@ == ws[0] && w@[1]@ == ws[1] && w@[2]@ == ws[2] && w@[3]@ == ws[3]);
        let board = match Board::decode_chars(&w[0]) {
            Ok(b) => b,
            Err(e) => {
                return Err(e);
            },
        };
        let t = &w[1];
        let turn = if t.len() == 1 && t[0] == 'w' {
            assert(t@ =~= seq!['w']);
            Color::White
        } else if t.len() == 1 && t[0] == 'b' {
            assert(t@ =~= seq!['b']);
            Color::Black
        } else {
            assert(t@ != seq!['w'] && t@ != seq!['b']) by {
                if t@ == seq!['w'] {
                    assert(t@[0] == 'w');
                }
                if t@ == seq!['b'] {
                    assert(t@[0] == 'b');
                }
            }
            return Err(ChessError::InvalidEncoding);
        };
        let castling_availability = match CastlingAvailability::decode_chars(&w[2]) {
            Ok(c) => c,
            Err(e) => {
                return Err(e);
            },
        };
        let e = &w[3];
        let en_passant = if e.len() == 1 && e[0] == '-' {
            assert(e@ =~= seq!['-']);
            None
        } else {
            assert(e@ != seq!['-']) by {
                if e@ == seq!['-'] {
                    assert(e@[0] == '-');
                }
            }
            match Square::decode_chars(e) {
                Ok(sq) => Some(sq),
                Err(err) => {
                    return Err(err);
                },
            }
        };
        Ok(Game { board, turn, castling_availability, en_passant })
    }
}

} // verus!
