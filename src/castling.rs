use vstd::prelude::*;

use crate::text::push_char;
use crate::ChessError;

verus! {

/// Which castling moves each side may still make.
#[derive(Clone, Copy, Debug, PartialEq, Eq, Structural)]
pub struct CastlingAvailability {
    pub w_kingside: bool,
    pub w_queenside: bool,
    pub b_kingside: bool,
    pub b_queenside: bool,
}

/// Availability with every flag cleared.
pub open spec fn no_castling() -> CastlingAvailability {
    CastlingAvailability { w_kingside: false, w_queenside: false, b_kingside: false, b_queenside: false }
}

/// The effect of one character of the textual form on the flags read so far.
pub open spec fn castling_step(c: CastlingAvailability, ch: char) -> Option<CastlingAvailability> {
    if ch == 'K' {
        Some(CastlingAvailability { w_kingside: true, ..c })
    } else if ch == 'Q' {
        Some(CastlingAvailability { w_queenside: true, ..c })
    } else if ch == 'k' {
        Some(CastlingAvailability { b_kingside: true, ..c })
    } else if ch == 'q' {
        Some(CastlingAvailability { b_queenside: true, ..c })
    } else if ch == '-' {
        Some(no_castling())
    } else {
        None
    }
}

impl CastlingAvailability {
    /// The textual form: K, Q, k, q for each flag set, in that order, or "-" if none is.
    pub open spec fn spec_encode(self) -> Seq<char> {
        let s = (if self.w_kingside { seq!['K'] } else { Seq::<char>::empty() })
            + (if self.w_queenside { seq!['Q'] } else { Seq::<char>::empty() })
            + (if self.b_kingside { seq!['k'] } else { Seq::<char>::empty() })
            + (if self.b_queenside { seq!['q'] } else { Seq::<char>::empty() });
        if s.len() == 0 { seq!['-'] } else { s }
    }

    /// Reading a textual form: start from no flags and apply each character in turn.
    pub open spec fn spec_decode(s: Seq<char>) -> Option<CastlingAvailability>
        decreases s.len(),
    {
        if s.len() == 0 {
            Some(no_castling())
        } else {
            match CastlingAvailability::spec_decode(s.drop_last()) {
                Some(c) => castling_step(c, s.last()),
                None => None,
            }
        }
    }

    /// Every flag set.
    pub fn new() -> (r: CastlingAvailability)
        ensures
            r == (CastlingAvailability { w_kingside: true, w_queenside: true, b_kingside: true, b_queenside: true }),
    {
        CastlingAvailability { w_kingside: true, w_queenside: true, b_kingside: true, b_queenside: true }
    }

    /// Appends the textual form to `out`.
    pub fn encode_into(&self, out: &mut String)
        ensures
            final(out)@ == old(out)@ + self.spec_encode(),
    {
        if self.w_kingside {
            push_char(out, 'K');
        }
        if self.w_queenside {
            push_char(out, 'Q');
        }
        if self.b_kingside {
            push_char(out, 'k');
        }
        if self.b_queenside {
            push_char(out, 'q');
        }
        if !self.w_kingside && !self.w_queenside && !self.b_kingside && !self.b_queenside {
            push_char(out, '-');
        }
        assert(final(out)@ =~= old(out)@ + self.spec_encode());
    }

    pub fn encode(&self) -> (r: String)
        ensures
            r@ == self.spec_encode(),
    {
        let mut r = String::new();
        self.encode_into(&mut r);
        r
    }

    /// Reads a textual form given as characters.
    pub fn decode_chars(encoded: &Vec<char>) -> (r: Result<CastlingAvailability, ChessError>)
        ensures
            match CastlingAvailability::spec_decode(encoded@) {
                Some(c) => r == Ok::<CastlingAvailability, ChessError>(c),
                None => r == Err::<CastlingAvailability, ChessError>(ChessError::InvalidEncoding),
            },
    {
        let mut c = CastlingAvailability {
            w_kingside: false,
            w_queenside: false,
            b_kingside: false,
            b_queenside: false,
        };
        let mut i: usize = 0;
        while i < encoded.len()
            invariant
                i <= encoded@.len(),
                CastlingAvailability::spec_decode(encoded@.subrange(0, i as int)) == Some(c),
            decreases encoded@.len() - i,
        {
            assert(encoded@.subrange(0, i + 1).drop_last() =~= encoded@.subrange(0, i as int));
            match encoded[i] {
                'K' => c.w_kingside = true,
                'Q' => c.w_queenside = true,
                'k' => c.b_kingside = true,
                'q' => c.b_queenside = true,
                '-' => {
                    c.w_kingside = false;
                    c.w_queenside = false;
                    c.b_kingside = false;
                    c.b_queenside = false;
                },
                _ => {
                    proof {
                        lemma_castling_error_persists(encoded@, i as int + 1);
                    }
                    return Err(ChessError::InvalidEncoding);
                },
            }
            i = i + 1;
        }
        assert(encoded@.subrange(0, i as int) =~= encoded@);
        Ok(c)
    }

    /// Reads a textual form: any of K, Q, k, q sets its flag, "-" clears all four,
    /// any other character is an error.
    pub fn decode(encoded: &str) -> (r: Result<CastlingAvailability, ChessError>)
        ensures
            match CastlingAvailability::spec_decode(encoded@) {
                Some(c) => r == Ok::<CastlingAvailability, ChessError>(c),
                None => r == Err::<CastlingAvailability, ChessError>(ChessError::InvalidEncoding),
            },
    {
        CastlingAvailability::decode_chars(&crate::text::chars_of(encoded))
    }
}

/// Once a prefix fails to read, the whole text does.
proof fn lemma_castling_error_persists(s: Seq<char>, k: int)
    requires
        0 <= k <= s.len(),
        CastlingAvailability::spec_decode(s.subrange(0, k)) is None,
    ensures
        CastlingAvailability::spec_decode(s) is None,
    decreases s.len() - k,
{
    if k < s.len() {
        assert(s.subrange(0, k + 1).drop_last() =~= s.subrange(0, k));
        lemma_castling_error_persists(s, k + 1);
    } else {
        assert(s.subrange(0, k) =~= s);
    }
}

/// Reading one more character applies it to what was read before.
proof fn lemma_castling_decode_push(s: Seq<char>, ch: char)
    ensures
        CastlingAvailability::spec_decode(s.push(ch)) == match CastlingAvailability::spec_decode(s) {
            Some(c) => castling_step(c, ch),
            None => None,
        },
{
    assert(s.push(ch).drop_last() =~= s);
}

/// The textual form of any availability reads back as that availability.
pub proof fn lemma_castling_round_trip(c: CastlingAvailability)
    ensures
        CastlingAvailability::spec_decode(c.spec_encode()) == Some(c),
{
    let s0 = Seq::<char>::empty();
    let s1 = if c.w_kingside { s0.push('K') } else { s0 };
    let s2 = if c.w_queenside { s1.push('Q') } else { s1 };
    let s3 = if c.b_kingside { s2.push('k') } else { s2 };
    let s4 = if c.b_queenside { s3.push('q') } else { s3 };
    lemma_castling_decode_push(s0, 'K');
    lemma_castling_decode_push(s1, 'Q');
    lemma_castling_decode_push(s2, 'k');
    lemma_castling_decode_push(s3, 'q');
    lemma_castling_decode_push(s0, '-');
    assert(CastlingAvailability::spec_decode(s0) == Some(no_castling()));
    if s4.len() == 0 {
        assert(c.spec_encode() =~= s0.push('-'));
    } else {
        assert(c.spec_encode() =~= s4);
    }
}

/// A '-' clears every flag, whatever the characters before it had set.
pub proof fn lemma_dash_clears(s: Seq<char>)
    requires
        CastlingAvailability::spec_decode(s) is Some,
    ensures
        CastlingAvailability::spec_decode(s.push('-')) == Some(no_castling()),
{
    lemma_castling_decode_push(s, '-');
}

} // verus!
