use vstd::prelude::*;

use crate::ChessError;

verus! {

#[derive(Clone, Copy, Debug, PartialEq, Eq, Structural)]
pub enum Color {
    White,
    Black,
}

#[derive(Clone, Copy, Debug, PartialEq, Eq, Structural)]
pub enum Kind {
    Pawn,
    Knight,
    Bishop,
    Rook,
    Queen,
    King,
}

#[derive(Clone, Copy, Debug, PartialEq, Eq, Structural)]
pub struct Piece {
    pub kind: Kind,
    pub color: Color,
}

/// The three-bit code of a kind; 0 and 7 are left unused.
pub open spec fn kind_code(k: Kind) -> u8 {
    match k {
        Kind::Pawn => 1,
        Kind::Knight => 2,
        Kind::Bishop => 3,
        Kind::Rook => 4,
        Kind::Queen => 5,
        Kind::King => 6,
    }
}

pub open spec fn kind_of_code(c: u8) -> Option<Kind> {
    if c == 1 {
        Some(Kind::Pawn)
    } else if c == 2 {
        Some(Kind::Knight)
    } else if c == 3 {
        Some(Kind::Bishop)
    } else if c == 4 {
        Some(Kind::Rook)
    } else if c == 5 {
        Some(Kind::Queen)
    } else if c == 6 {
        Some(Kind::King)
    } else {
        None
    }
}

/// The lowercase letter of a kind.
pub open spec fn kind_letter(k: Kind) -> char {
    match k {
        Kind::Pawn => 'p',
        Kind::Knight => 'n',
        Kind::Bishop => 'b',
        Kind::Rook => 'r',
        Kind::Queen => 'q',
        Kind::King => 'k',
    }
}

/// The kind named by a letter of either case.
pub open spec fn kind_of_letter(c: char) -> Option<Kind> {
    if c == 'p' || c == 'P' {
        Some(Kind::Pawn)
    } else if c == 'n' || c == 'N' {
        Some(Kind::Knight)
    } else if c == 'b' || c == 'B' {
        Some(Kind::Bishop)
    } else if c == 'r' || c == 'R' {
        Some(Kind::Rook)
    } else if c == 'q' || c == 'Q' {
        Some(Kind::Queen)
    } else if c == 'k' || c == 'K' {
        Some(Kind::King)
    } else {
        None
    }
}

/// The uppercase letter of a kind.
pub open spec fn kind_upper_letter(k: Kind) -> char {
    match k {
        Kind::Pawn => 'P',
        Kind::Knight => 'N',
        Kind::Bishop => 'B',
        Kind::Rook => 'R',
        Kind::Queen => 'Q',
        Kind::King => 'K',
    }
}

pub open spec fn is_upper(c: char) -> bool {
    'A' <= c && c <= 'Z'
}

impl Color {
    pub open spec fn opposite(self) -> Color {
        match self {
            Color::White => Color::Black,
            Color::Black => Color::White,
        }
    }

    /// The other side.
    pub fn other(self) -> (r: Color)
        ensures
            r == self.opposite(),
    {
        match self {
            Color::White => Color::Black,
            Color::Black => Color::White,
        }
    }
}

impl Piece {
    /// The single letter of a piece: uppercase for White, lowercase for Black.
    pub open spec fn spec_char(self) -> char {
        match self.color {
            Color::White => kind_upper_letter(self.kind),
            Color::Black => kind_letter(self.kind),
        }
    }

    /// The piece named by a letter, if the letter names one.
    pub open spec fn spec_of_char(c: char) -> Option<Piece> {
        match kind_of_letter(c) {
            Some(k) => Some(Piece { kind: k, color: if is_upper(c) { Color::White } else { Color::Black } }),
            None => None,
        }
    }

    /// Kind in the low three bits, color in bit 3 (set for Black).
    pub open spec fn spec_byte(self) -> u8 {
        match self.color {
            Color::White => kind_code(self.kind),
            Color::Black => (kind_code(self.kind) + 8) as u8,
        }
    }

    /// What a byte decodes to: 0 is an empty square, bits above bit 3 must be clear,
    /// and the low three bits must name a kind.
    pub open spec fn spec_of_byte(b: u8) -> Option<Option<Piece>> {
        if b == 0 {
            Some(None)
        } else if b >= 16 {
            None
        } else {
            match kind_of_code((b % 8) as u8) {
                Some(k) => Some(Some(Piece { kind: k, color: if b >= 8 { Color::Black } else { Color::White } })),
                None => None,
            }
        }
    }

    pub fn new(kind: Kind, color: Color) -> (r: Piece)
        ensures
            r == (Piece { kind, color }),
    {
        Piece { kind, color }
    }

    /// The piece's letter in the interchange format.
    pub fn encode(&self) -> (r: char)
        ensures
            r == self.spec_char(),
    {
        match self.color {
            Color::White => match self.kind {
                Kind::Pawn => 'P',
                Kind::Knight => 'N',
                Kind::Bishop => 'B',
                Kind::Rook => 'R',
                Kind::Queen => 'Q',
                Kind::King => 'K',
            },
            Color::Black => match self.kind {
                Kind::Pawn => 'p',
                Kind::Knight => 'n',
                Kind::Bishop => 'b',
                Kind::Rook => 'r',
                Kind::Queen => 'q',
                Kind::King => 'k',
            },
        }
    }

    /// Reads a piece letter: the letter picks the kind whatever its case, and the
    /// case picks the color (uppercase for White).
    pub fn decode(encoded: char) -> (r: Result<Piece, ChessError>)
        ensures
            match Piece::spec_of_char(encoded) {
                Some(p) => r == Ok::<Piece, ChessError>(p),
                None => r == Err::<Piece, ChessError>(ChessError::InvalidEncoding),
            },
    {
        let kind = match encoded {
            'p' | 'P' => Kind::Pawn,
            'n' | 'N' => Kind::Knight,
            'b' | 'B' => Kind::Bishop,
            'r' | 'R' => Kind::Rook,
            'q' | 'Q' => Kind::Queen,
            'k' | 'K' => Kind::King,
            _ => return Err(ChessError::InvalidEncoding),
        };
        let color = if 'A' <= encoded && encoded <= 'Z' {
            Color::White
        } else {
            Color::Black
        };
        Ok(Piece::new(kind, color))
    }

    /// The compact binary form of a piece.
    pub fn encode_binary(&self) -> (r: u8)
        ensures
            r == self.spec_byte(),
    {
        let code: u8 = match self.kind {
            Kind::Pawn => 1,
            Kind::Knight => 2,
            Kind::Bishop => 3,
            Kind::Rook => 4,
            Kind::Queen => 5,
            Kind::King => 6,
        };
        match self.color {
            Color::White => code,
            Color::Black => code + 8,
        }
    }

    /// Reads the binary form of a square's content: `Ok(None)` for 0.
    pub fn decode_binary(encoded: u8) -> (r: Result<Option<Piece>, ChessError>)
        ensures
            match Piece::spec_of_byte(encoded) {
                Some(p) => r == Ok::<Option<Piece>, ChessError>(p),
                None => r == Err::<Option<Piece>, ChessError>(ChessError::InvalidEncoding),
            },
    {
        if encoded == 0 {
            return Ok(None);
        }
        if encoded >= 16 {
            return Err(ChessError::InvalidEncoding);
        }
        let kind = match encoded % 8 {
            1 => Kind::Pawn,
            2 => Kind::Knight,
            3 => Kind::Bishop,
            4 => Kind::Rook,
            5 => Kind::Queen,
            6 => Kind::King,
            _ => return Err(ChessError::InvalidEncoding),
        };
        let color = if encoded >= 8 {
            Color::Black
        } else {
            Color::White
        };
        Ok(Some(Piece::new(kind, color)))
    }
}

/// Both piece codecs give back the piece they were handed: the letter form and the
/// binary form.
pub proof fn lemma_piece_round_trip(p: Piece)
    ensures
        Piece::spec_of_char(p.spec_char()) == Some(p),
        Piece::spec_of_byte(p.spec_byte()) == Some(Some(p)),
{
}

} // verus!
