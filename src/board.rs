use vstd::prelude::*;

use crate::piece::{lemma_piece_round_trip, Piece};
use crate::square::Square;
use crate::text::{lemma_split_on_append, lemma_split_on_sep, push_char, split_chars, split_on};
use crate::ChessError;

verus! {

/// An 8x8 grid of optional pieces, stored rank-major.
#[derive(Clone, Copy, Debug)]
pub struct Board {
    squares: [Option<Piece>; 64],
}

/// The character that stands for a run of `n` empty squares (1 to 8).
pub open spec fn run_digit(n: nat) -> char {
    ((48 + n) as u8) as char
}

pub open spec fn is_run_digit(c: char) -> bool {
    '1' <= c && c <= '8'
}

/// How many empty squares a run digit stands for.
pub open spec fn run_length(c: char) -> nat {
    ((c as u32) - 48) as nat
}

pub open spec fn empties(n: nat) -> Seq<Option<Piece>> {
    Seq::new(n, |i: int| None)
}

/// Text emitted so far for a prefix of a rank, and the count of empty squares not
/// yet written out.
pub open spec fn rank_scan(row: Seq<Option<Piece>>) -> (Seq<char>, nat)
    decreases row.len(),
{
    if row.len() == 0 {
        (Seq::empty(), 0)
    } else {
        let (out, n) = rank_scan(row.drop_last());
        match row.last() {
            None => (out, n + 1),
            Some(p) => (flush_run(out, n).push(p.spec_char()), 0),
        }
    }
}

/// Writes out a pending run of empty squares, if any.
pub open spec fn flush_run(out: Seq<char>, n: nat) -> Seq<char> {
    if n == 0 {
        out
    } else {
        out.push(run_digit(n))
    }
}

/// The text of one rank: pieces by letter, runs of empty squares by their count.
pub open spec fn encode_rank(row: Seq<Option<Piece>>) -> Seq<char> {
    flush_run(rank_scan(row).0, rank_scan(row).1)
}

/// The eight squares of rank `r`, file 0 first.
pub open spec fn rank_row(b: Seq<Option<Piece>>, r: int) -> Seq<Option<Piece>> {
    b.subrange(r * 8, r * 8 + 8)
}

/// The text of the first `k` ranks written, from rank 7 downwards, separated by '/'.
pub open spec fn encode_ranks(b: Seq<Option<Piece>>, k: nat) -> Seq<char>
    decreases k,
{
    if k == 0 {
        Seq::empty()
    } else if k == 1 {
        encode_rank(rank_row(b, 7))
    } else {
        encode_ranks(b, (k - 1) as nat).push('/') + encode_rank(rank_row(b, 8 - k))
    }
}

/// The placement text of a board.
pub open spec fn encode_placement(b: Seq<Option<Piece>>) -> Seq<char> {
    encode_ranks(b, 8)
}

/// The effect of one character of a rank's text on the squares read so far.
pub open spec fn rank_step(row: Seq<Option<Piece>>, c: char) -> Option<Seq<Option<Piece>>> {
    if is_run_digit(c) {
        Some(row + empties(run_length(c)))
    } else {
        match Piece::spec_of_char(c) {
            Some(p) => Some(row.push(Some(p))),
            None => None,
        }
    }
}

/// The squares that a rank's text describes, read left to right; `None` if some
/// character is neither a run digit nor a piece letter.
pub open spec fn decode_rank(s: Seq<char>) -> Option<Seq<Option<Piece>>>
    decreases s.len(),
{
    if s.len() == 0 {
        Some(Seq::empty())
    } else {
        match decode_rank(s.drop_last()) {
            Some(row) => rank_step(row, s.last()),
            None => None,
        }
    }
}

/// A rank's text that reads as exactly eight squares.
pub open spec fn is_full_rank(s: Seq<char>) -> bool {
    decode_rank(s) is Some && decode_rank(s)->0.len() == 8
}

/// The board that a placement text describes: eight ranks separated by '/', rank 7
/// first, each reading as exactly eight squares.
pub open spec fn decode_placement(s: Seq<char>) -> Option<Seq<Option<Piece>>> {
    let parts = split_on(s, '/');
    if parts.len() == 8 && forall|i: int| 0 <= i < 8 ==> #[trigger] is_full_rank(parts[i]) {
        Some(Seq::new(64, |j: int| decode_rank(parts[7 - j / 8])->0[j % 8]))
    } else {
        None
    }
}

/// Once a prefix of a rank's text fails to read, the whole text does.
proof fn lemma_rank_error_persists(s: Seq<char>, k: int)
    requires
        0 <= k <= s.len(),
        decode_rank(s.take(k)) is None,
    ensures
        decode_rank(s) is None,
    decreases s.len() - k,
{
    if k < s.len() {
        assert(s.take(k + 1).drop_last() =~= s.take(k));
        lemma_rank_error_persists(s, k + 1);
    } else {
        assert(s.take(k) =~= s);
    }
}

/// Reads the squares of one rank's text.
fn decode_rank_chars(s: &Vec<char>) -> (r: Result<Vec<Option<Piece>>, ChessError>)
    ensures
        match decode_rank(s@) {
            Some(row) => r is Ok && r->Ok_0@ == row,
            None => r == Err::<Vec<Option<Piece>>, ChessError>(ChessError::InvalidEncoding),
        },
{
    let mut row: Vec<Option<Piece>> = Vec::new();
    let mut i: usize = 0;
    while i < s.len()
        invariant
            i <= s@.len(),
            decode_rank(s@.take(i as int)) == Some(row@),
        decreases s@.len() - i,
    {
        assert(s@.take(i + 1).drop_last() =~= s@.take(i as int));
        let c = s[i];
        if '1' <= c && c <= '8' {
            let n: u32 = (c as u32) - 48;
            let ghost start = row@;
            let mut j: u32 = 0;
            while j < n
                invariant
                    j <= n,
                    n == run_length(c),
                    row@ == start + empties(j as nat),
                decreases n - j,
            {
                row.push(None);
                j = j + 1;
                assert(row@ =~= start + empties(j as nat));
            }
        } else {
            match Piece::decode(c) {
                Ok(p) => row.push(Some(p)),
                Err(_) => {
                    proof {
                        lemma_rank_error_persists(s@, i + 1);
                    }
                    return Err(ChessError::InvalidEncoding);
                },
            }
        }
        i = i + 1;
    }
    assert(s@.take(i as int) =~= s@);
    Ok(row)
}

/// A character that can stand in a rank's text.
pub open spec fn is_rank_char(c: char) -> bool {
    is_run_digit(c) || Piece::spec_of_char(c) is Some
}

/// Reading one more character of a rank's text applies it to what was read before.
proof fn lemma_decode_rank_push(s: Seq<char>, c: char)
    ensures
        decode_rank(s.push(c)) == match decode_rank(s) {
            Some(row) => rank_step(row, c),
            None => None,
        },
{
    assert(s.push(c).drop_last() =~= s);
}

/// What the scan of a rank has written reads back as the squares before the
/// pending run of empty squares, and that run is all empty.
proof fn lemma_rank_scan(row: Seq<Option<Piece>>)
    requires
        row.len() <= 8,
    ensures
        rank_scan(row).1 <= row.len(),
        decode_rank(rank_scan(row).0) == Some(row.take(row.len() - rank_scan(row).1)),
        row.subrange(row.len() - rank_scan(row).1, row.len() as int) == empties(rank_scan(row).1),
        forall|i: int| 0 <= i < rank_scan(row).0.len() ==> #[trigger] is_rank_char(rank_scan(row).0[i]),
    decreases row.len(),
{
    if row.len() > 0 {
        let r0 = row.drop_last();
        lemma_rank_scan(r0);
        let (out, n) = rank_scan(r0);
        match row.last() {
            None => {
                assert(row.take(row.len() - (n + 1)) =~= r0.take(r0.len() - n));
                assert forall|i: int| 0 <= i < n + 1 implies #[trigger] row.subrange(
                    row.len() - (n + 1),
                    row.len() as int,
                )[i] == None::<Piece> by {
                    if i < n {
                        assert(r0.subrange(r0.len() - n, r0.len() as int)[i] == empties(n)[i]);
                    }
                }
                assert(row.subrange(row.len() - (n + 1), row.len() as int) =~= empties(n + 1));
            },
            Some(p) => {
                lemma_flush_run(out, n, r0.take(r0.len() - n));
                assert(r0.take(r0.len() - n) + empties(n) =~= r0);
                lemma_piece_round_trip(p);
                let f = flush_run(out, n);
                lemma_decode_rank_push(f, p.spec_char());
                assert(r0.push(Some(p)) =~= row);
                assert(row.take(row.len() as int) =~= row);
                assert(row.subrange(row.len() as int, row.len() as int) =~= empties(0));
                assert forall|i: int| 0 <= i < f.push(p.spec_char()).len() implies #[trigger] is_rank_char(
                    f.push(p.spec_char())[i],
                ) by {
                    if i < out.len() {
                        assert(f[i] == out[i]);
                    }
                }
            },
        }
    } else {
        assert(row.take(0) =~= row);
        assert(row.subrange(0, 0) =~= empties(0));
    }
}

/// Writing out a pending run of at most eight empty squares adds them to what reads back.
proof fn lemma_flush_run(out: Seq<char>, n: nat, row: Seq<Option<Piece>>)
    requires
        n <= 8,
        decode_rank(out) == Some(row),
        forall|i: int| 0 <= i < out.len() ==> #[trigger] is_rank_char(out[i]),
    ensures
        decode_rank(flush_run(out, n)) == Some(row + empties(n)),
        forall|i: int| 0 <= i < flush_run(out, n).len() ==> #[trigger] is_rank_char(flush_run(out, n)[i]),
{
    if n == 0 {
        assert(row + empties(0) =~= row);
    } else {
        lemma_decode_rank_push(out, run_digit(n));
        assert(is_run_digit(run_digit(n)));
        assert(run_length(run_digit(n)) == n);
        assert forall|i: int| 0 <= i < flush_run(out, n).len() implies #[trigger] is_rank_char(
            flush_run(out, n)[i],
        ) by {
            if i < out.len() {
                assert(flush_run(out, n)[i] == out[i]);
            }
        }
    }
}

/// The text of a rank of at most eight squares reads back as that rank, and holds
/// only run digits and piece letters.
pub proof fn lemma_rank_round_trip(row: Seq<Option<Piece>>)
    requires
        row.len() <= 8,
    ensures
        decode_rank(encode_rank(row)) == Some(row),
        forall|i: int| 0 <= i < encode_rank(row).len() ==> #[trigger] is_rank_char(encode_rank(row)[i]),
{
    lemma_rank_scan(row);
    let (out, n) = rank_scan(row);
    lemma_flush_run(out, n, row.take(row.len() - n));
    assert(row.take(row.len() - n) + empties(n) =~= row);
}

/// Splitting the text of the first `k` ranks at '/' gives back each rank's text.
proof fn lemma_split_encode_ranks(b: Seq<Option<Piece>>, k: nat)
    requires
        b.len() == 64,
        1 <= k <= 8,
    ensures
        split_on(encode_ranks(b, k), '/') == Seq::new(k, |i: int| encode_rank(rank_row(b, 7 - i))),
    decreases k,
{
    let y = encode_rank(rank_row(b, 8 - k));
    lemma_rank_round_trip(rank_row(b, 8 - k));
    assert forall|i: int| 0 <= i < y.len() implies y[i] != '/' by {
        assert(is_rank_char(y[i]));
    }
    if k == 1 {
        lemma_split_on_append(Seq::empty(), y, '/');
        assert(Seq::<char>::empty() + y =~= y);
        assert(Seq::<char>::empty() + y =~= encode_ranks(b, k));
        assert(split_on(encode_ranks(b, k), '/') =~= Seq::new(k, |i: int| encode_rank(rank_row(b, 7 - i))));
    } else {
        let x = encode_ranks(b, (k - 1) as nat);
        lemma_split_encode_ranks(b, (k - 1) as nat);
        lemma_split_on_sep(x, '/');
        lemma_split_on_append(x.push('/'), y, '/');
        assert(Seq::<char>::empty() + y =~= y);
        assert(split_on(encode_ranks(b, k), '/') =~= Seq::new(k, |i: int| encode_rank(rank_row(b, 7 - i))));
    }
}

/// The placement text of a board reads back as that board.
pub proof fn lemma_placement_round_trip(b: Seq<Option<Piece>>)
    requires
        b.len() == 64,
    ensures
        decode_placement(encode_placement(b)) == Some(b),
{
    lemma_split_encode_ranks(b, 8);
    let parts = split_on(encode_placement(b), '/');
    assert forall|i: int| 0 <= i < 8 implies #[trigger] is_full_rank(parts[i]) by {
        lemma_rank_round_trip(rank_row(b, 7 - i));
    }
    assert forall|j: int| 0 <= j < 64 implies decode_rank(parts[7 - j / 8])->0[j % 8] == b[j] by {
        lemma_rank_round_trip(rank_row(b, j / 8));
    }
    assert(decode_placement(encode_placement(b))->0 =~= b);
}

proof fn lemma_rank_scan_empty(k: nat)
    ensures
        rank_scan(empties(k)) == (Seq::<char>::empty(), k),
    decreases k,
{
    if k > 0 {
        assert(empties(k).drop_last() =~= empties((k - 1) as nat));
        lemma_rank_scan_empty((k - 1) as nat);
    }
}

/// A rank with no piece on it is written as the single character '8'.
pub proof fn lemma_empty_rank(row: Seq<Option<Piece>>)
    requires
        row.len() == 8,
        forall|i: int| 0 <= i < 8 ==> #[trigger] row[i] is None,
    ensures
        encode_rank(row) == seq!['8'],
{
    assert(row =~= empties(8));
    lemma_rank_scan_empty(8);
    assert(flush_run(Seq::empty(), 8) =~= seq!['8']);
}

/// In the placement text of a board, a rank with no piece on it is the segment "8"
/// (segments are counted from rank 7).
pub proof fn lemma_empty_rank_segment(b: Seq<Option<Piece>>, r: int)
    requires
        b.len() == 64,
        0 <= r < 8,
        forall|f: int| 0 <= f < 8 ==> #[trigger] b[idx(r, f)] is None,
    ensures
        split_on(encode_placement(b), '/').len() == 8,
        split_on(encode_placement(b), '/')[7 - r] == seq!['8'],
{
    lemma_split_encode_ranks(b, 8);
    let row = rank_row(b, r);
    assert forall|i: int| 0 <= i < 8 implies #[trigger] row[i] is None by {
        assert(row[i] == b[idx(r, i)]);
    }
    lemma_empty_rank(row);
}

/// Index of the square at (`rank`, `file`) in a board's view.
pub open spec fn idx(rank: int, file: int) -> int {
    rank * 8 + file
}

impl Board {
    pub closed spec fn view(&self) -> Seq<Option<Piece>> {
        self.squares@
    }

    /// The view of every board holds its 64 squares.
    pub broadcast proof fn lemma_len(b: &Board)
        ensures
            #[trigger] b@.len() == 64,
    {
    }

    /// Two boards with the same contents are the same board.
    pub proof fn lemma_ext(&self, other: &Board)
        requires
            self@ == other@,
        ensures
            *self == *other,
    {
        assert(self.squares =~= other.squares);
    }

    /// A board with every square empty.
    pub fn new() -> (r: Board)
        ensures
            r@ == empties(64),
    {
        let r = Board { squares: [None; 64] };
        assert(r@ =~= empties(64));
        r
    }

    pub fn get(&self, square: Square) -> (r: Option<Piece>)
        requires
            square.wf(),
        ensures
            r == self@[square.index()],
    {
        self.squares[(square.rank as usize) * 8 + square.file as usize]
    }

    pub fn set(&mut self, square: Square, piece: Option<Piece>)
        requires
            square.wf(),
        ensures
            final(self)@ == old(self)@.update(square.index(), piece),
    {
        self.squares[(square.rank as usize) * 8 + square.file as usize] = piece;
    }

    /// Appends the placement text to `out`: ranks from 7 down to 0 separated by '/',
    /// and within a rank files 0 to 7, a run of empty squares written as its count.
    pub fn encode_into(&self, out: &mut String)
        ensures
            final(out)@ == old(out)@ + encode_placement(self@),
    {
        let ghost start = out@;
        let ghost b = self@;
        let mut k: u8 = 0;
        while k < 8
            invariant
                k <= 8,
                b == self@,
                b.len() == 64,
                out@ == start + encode_ranks(b, k as nat),
            decreases 8 - k,
        {
            let rank: u8 = 7 - k;
            if k > 0 {
                push_char(out, '/');
            }
            let ghost before = out@;
            let ghost row = rank_row(b, rank as int);
            let mut empty: u8 = 0;
            let mut file: u8 = 0;
            while file < 8
                invariant
                    file <= 8,
                    rank < 8,
                    b == self@,
                    b.len() == 64,
                    row == rank_row(b, rank as int),
                    empty <= file,
                    out@ == before + rank_scan(row.take(file as int)).0,
                    empty == rank_scan(row.take(file as int)).1,
                decreases 8 - file,
            {
                assert(row.take(file + 1).drop_last() =~= row.take(file as int));
                match self.get(Square::new(rank, file)) {
                    Some(p) => {
                        if empty > 0 {
                            push_char(out, (48u8 + empty) as char);
                            empty = 0;
                        }
                        push_char(out, p.encode());
                    },
                    None => {
                        empty = empty + 1;
                    },
                }
                file = file + 1;
            }
            if empty > 0 {
                push_char(out, (48u8 + empty) as char);
            }
            assert(row.take(8) =~= row);
            assert(out@ =~= start + encode_ranks(b, (k + 1) as nat));
            k = k + 1;
        }
    }

    pub fn encode(&self) -> (r: String)
        ensures
            r@ == encode_placement(self@),
    {
        let mut r = String::new();
        self.encode_into(&mut r);
        assert(r@ =~= encode_placement(self@));
        r
    }

    /// Reads a placement text given as characters.
    pub fn decode_chars(encoded: &Vec<char>) -> (r: Result<Board, ChessError>)
        ensures
            match decode_placement(encoded@) {
                Some(b) => r is Ok && r->Ok_0@ == b,
                None => r == Err::<Board, ChessError>(ChessError::InvalidEncoding),
            },
    {
        let parts = split_chars(encoded, '/');
        let ghost sp = split_on(encoded@, '/');
        if parts.len() != 8 {
            return Err(ChessError::InvalidEncoding);
        }
        let mut board = Board::new();
        let mut i: usize = 0;
        while i < 8
            invariant
                i <= 8,
                parts@.len() == 8,
                sp == split_on(encoded@, '/'),
                sp.len() == 8,
                forall|j: int| 0 <= j < 8 ==> #[trigger] parts@[j]@ == sp[j],
                forall|j: int| 0 <= j < i ==> #[trigger] is_full_rank(sp[j]),
                board@.len() == 64,
                forall|q: int|
                    0 <= q < 64 && 7 - q / 8 < i ==> #[trigger] board@[q] == decode_rank(sp[7 - q / 8])->0[q % 8],
            decreases 8 - i,
        {
            let row = match decode_rank_chars(&parts[i]) {
                Ok(row) => row,
                Err(e) => {
                    assert(!is_full_rank(sp[i as int]));
                    return Err(e);
                },
            };
            if row.len() != 8 {
                assert(!is_full_rank(sp[i as int]));
                return Err(ChessError::InvalidEncoding);
            }
            let rank: u8 = 7 - i as u8;
            let mut file: u8 = 0;
            while file < 8
                invariant
                    file <= 8,
                    i < 8,
                    rank == 7 - i,
                    row@.len() == 8,
                    sp.len() == 8,
                    row@ == decode_rank(sp[i as int])->0,
                    board@.len() == 64,
                    forall|q: int|
                        0 <= q < 64 && 7 - q / 8 < i ==> #[trigger] board@[q] == decode_rank(sp[7 - q / 8])->0[q % 8],
                    forall|q: int|
                        0 <= q < 64 && 7 - q / 8 == i && q % 8 < file ==> #[trigger] board@[q] == decode_rank(sp[7 - q / 8])->0[q % 8],
                decreases 8 - file,
            {
                board.set(Square::new(rank, file), row[file as usize]);
                file = file + 1;
            }
            i = i + 1;
        }
        assert(board@ =~= decode_placement(encoded@)->0);
        Ok(board)
    }

    /// Reads a placement text; fails unless it has exactly eight ranks separated by
    /// '/', each made of run digits 1-8 and piece letters that cover exactly eight
    /// squares.
    pub fn decode(encoded: &str) -> (r: Result<Board, ChessError>)
        ensures
            match decode_placement(encoded@) {
                Some(b) => r is Ok && r->Ok_0@ == b,
                None => r == Err::<Board, ChessError>(ChessError::InvalidEncoding),
            },
    {
        Board::decode_chars(&crate::text::chars_of(encoded))
    }
}

} // verus!
