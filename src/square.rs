use vstd::prelude::*;

use crate::text::push_char;
use crate::ChessError;

verus! {

/// A square of the board: rank 0 is the rank written "1", file 0 the file written "a".
#[derive(Clone, Copy, Debug, PartialEq, Eq, Structural)]
pub struct Square {
    pub rank: u8,
    pub file: u8,
}

impl Square {
    /// Both coordinates lie on the board.
    pub open spec fn wf(self) -> bool {
        self.rank < 8 && self.file < 8
    }

    /// Position of the square in a rank-major list of the 64 squares.
    pub open spec fn index(self) -> int {
        self.rank * 8 + self.file
    }

    /// The algebraic name: file letter, then rank digit.
    pub open spec fn spec_name(self) -> Seq<char> {
        seq![((97 + self.file) as u8) as char, ((49 + self.rank) as u8) as char]
    }

    /// The square that an algebraic name denotes, if it denotes one.
    pub open spec fn spec_of_name(s: Seq<char>) -> Option<Square> {
        if s.len() == 2 && 'a' <= s[0] && s[0] <= 'h' && '1' <= s[1] && s[1] <= '8' {
            Some(Square { rank: ((s[1] as u32) - 49) as u8, file: ((s[0] as u32) - 97) as u8 })
        } else {
            None
        }
    }

    pub fn new(rank: u8, file: u8) -> (r: Square)
        requires
            rank < 8,
            file < 8,
        ensures
            r == (Square { rank, file }),
            r.wf(),
    {
        Square { rank, file }
    }

    /// Appends the algebraic name to `out`.
    pub fn encode_into(&self, out: &mut String)
        requires
            self.wf(),
        ensures
            final(out)@ == old(out)@ + self.spec_name(),
    {
        push_char(out, (97u8 + self.file) as char);
        push_char(out, (49u8 + self.rank) as char);
        assert(final(out)@ =~= old(out)@ + self.spec_name());
    }

    /// The algebraic name, e.g. "a1" for rank 0, file 0.
    pub fn encode(&self) -> (r: String)
        requires
            self.wf(),
        ensures
            r@ == self.spec_name(),
    {
        let mut r = String::new();
        self.encode_into(&mut r);
        r
    }

    /// Reads an algebraic name given as characters.
    pub fn decode_chars(encoded: &Vec<char>) -> (r: Result<Square, ChessError>)
        ensures
            match Square::spec_of_name(encoded@) {
                Some(sq) => r == Ok::<Square, ChessError>(sq),
                None => r == Err::<Square, ChessError>(ChessError::InvalidEncoding),
            },
    {
        if encoded.len() != 2 {
            return Err(ChessError::InvalidEncoding);
        }
        let f = encoded[0];
        let k = encoded[1];
        if !('a' <= f && f <= 'h' && '1' <= k && k <= '8') {
            return Err(ChessError::InvalidEncoding);
        }
        Ok(Square { rank: ((k as u32) - 49) as u8, file: ((f as u32) - 97) as u8 })
    }

    /// Reads an algebraic name: exactly a letter a-h followed by a digit 1-8.
    pub fn decode(encoded: &str) -> (r: Result<Square, ChessError>)
        ensures
            match Square::spec_of_name(encoded@) {
                Some(sq) => r == Ok::<Square, ChessError>(sq),
                None => r == Err::<Square, ChessError>(ChessError::InvalidEncoding),
            },
    {
        Square::decode_chars(&crate::text::chars_of(encoded))
    }
}

/// Every square of the board is read back from its algebraic name.
pub proof fn lemma_square_round_trip(s: Square)
    requires
        s.wf(),
    ensures
        Square::spec_of_name(s.spec_name()) == Some(s),
{
}

} // verus!
