use vstd::prelude::*;
use crate::text::str_chars;

verus! {

pub const NUM_COLORS: usize = 2;
pub const NUM_PIECE_TYPES: usize = 6;

// ── Color ─────────────────────────────────────────────────────────────────────

#[derive(Clone, Copy, PartialEq, Eq, Debug, Hash, Structural)]
pub enum Color {
    White,
    Black,
}

impl Color {
    /// Index of the colour in per-colour tables (White = 0, Black = 1).
    pub open spec fn index(self) -> int {
        match self {
            Color::White => 0,
            Color::Black => 1,
        }
    }

    pub open spec fn opposite(self) -> Color {
        match self {
            Color::White => Color::Black,
            Color::Black => Color::White,
        }
    }

    pub fn flip(self) -> (r: Color)
        ensures
            r == self.opposite(),
    {
        match self {
            Color::White => Color::Black,
            Color::Black => Color::White,
        }
    }

    /// Human-readable name ("White" / "Black").
    pub fn name(self) -> (r: &'static str)
        ensures
            self == Color::White ==> r@ == "White"@,
            self == Color::Black ==> r@ == "Black"@,
    {
        match self {
            Color::White => "White",
            Color::Black => "Black",
        }
    }
}

// ── PieceType ─────────────────────────────────────────────────────────────────

#[derive(Clone, Copy, PartialEq, Eq, Debug, Hash, Structural)]
pub enum PieceType {
    Pawn,
    Knight,
    Bishop,
    Rook,
    Queen,
    King,
}

/// Lower-case FEN letter of a piece type.
pub open spec fn spec_lower_char(pt: PieceType) -> char {
    match pt {
        PieceType::Pawn => 'p',
        PieceType::Knight => 'n',
        PieceType::Bishop => 'b',
        PieceType::Rook => 'r',
        PieceType::Queen => 'q',
        PieceType::King => 'k',
    }
}

/// Upper-case FEN letter of a piece type.
pub open spec fn spec_upper_char(pt: PieceType) -> char {
    match pt {
        PieceType::Pawn => 'P',
        PieceType::Knight => 'N',
        PieceType::Bishop => 'B',
        PieceType::Rook => 'R',
        PieceType::Queen => 'Q',
        PieceType::King => 'K',
    }
}

/// FEN letter of a piece: upper case for White, lower case for Black.
pub open spec fn spec_piece_char(pt: PieceType, color: Color) -> char {
    if color == Color::White {
        spec_upper_char(pt)
    } else {
        spec_lower_char(pt)
    }
}

/// The (colour, piece type) that a FEN letter denotes, if any.
pub open spec fn spec_from_char(c: char) -> Option<(Color, PieceType)> {
    if c == 'P' {
        Some((Color::White, PieceType::Pawn))
    } else if c == 'N' {
        Some((Color::White, PieceType::Knight))
    } else if c == 'B' {
        Some((Color::White, PieceType::Bishop))
    } else if c == 'R' {
        Some((Color::White, PieceType::Rook))
    } else if c == 'Q' {
        Some((Color::White, PieceType::Queen))
    } else if c == 'K' {
        Some((Color::White, PieceType::King))
    } else if c == 'p' {
        Some((Color::Black, PieceType::Pawn))
    } else if c == 'n' {
        Some((Color::Black, PieceType::Knight))
    } else if c == 'b' {
        Some((Color::Black, PieceType::Bishop))
    } else if c == 'r' {
        Some((Color::Black, PieceType::Rook))
    } else if c == 'q' {
        Some((Color::Black, PieceType::Queen))
    } else if c == 'k' {
        Some((Color::Black, PieceType::King))
    } else {
        None
    }
}

impl PieceType {
    pub const ALL: [PieceType; 6] = [
        PieceType::Pawn,
        PieceType::Knight,
        PieceType::Bishop,
        PieceType::Rook,
        PieceType::Queen,
        PieceType::King,
    ];

    /// Index of the piece type in per-type tables (Pawn = 0 … King = 5).
    pub open spec fn index(self) -> int {
        match self {
            PieceType::Pawn => 0,
            PieceType::Knight => 1,
            PieceType::Bishop => 2,
            PieceType::Rook => 3,
            PieceType::Queen => 4,
            PieceType::King => 5,
        }
    }

    pub fn to_char(self, color: Color) -> (c: char)
        ensures
            c == spec_piece_char(self, color),
    {
        let white = match color {
            Color::White => true,
            Color::Black => false,
        };
        match self {
            PieceType::Pawn => if white { 'P' } else { 'p' },
            PieceType::Knight => if white { 'N' } else { 'n' },
            PieceType::Bishop => if white { 'B' } else { 'b' },
            PieceType::Rook => if white { 'R' } else { 'r' },
            PieceType::Queen => if white { 'Q' } else { 'q' },
            PieceType::King => if white { 'K' } else { 'k' },
        }
    }

    pub fn from_char(c: char) -> (r: Option<(Color, PieceType)>)
        ensures
            r == spec_from_char(c),
    {
        match c {
            'P' => Some((Color::White, PieceType::Pawn)),
            'N' => Some((Color::White, PieceType::Knight)),
            'B' => Some((Color::White, PieceType::Bishop)),
            'R' => Some((Color::White, PieceType::Rook)),
            'Q' => Some((Color::White, PieceType::Queen)),
            'K' => Some((Color::White, PieceType::King)),
            'p' => Some((Color::Black, PieceType::Pawn)),
            'n' => Some((Color::Black, PieceType::Knight)),
            'b' => Some((Color::Black, PieceType::Bishop)),
            'r' => Some((Color::Black, PieceType::Rook)),
            'q' => Some((Color::Black, PieceType::Queen)),
            'k' => Some((Color::Black, PieceType::King)),
            _ => None,
        }
    }
}

/// Reading back the letter of a piece gives the piece again.
pub proof fn lemma_piece_char_roundtrip(pt: PieceType, color: Color)
    ensures
        spec_from_char(spec_piece_char(pt, color)) == Some((color, pt)),
{
}

// ── Piece ─────────────────────────────────────────────────────────────────────

#[derive(Clone, Copy, PartialEq, Eq, Debug, Hash, Structural)]
pub struct Piece {
    pub color: Color,
    pub piece_type: PieceType,
}

impl Piece {
    pub fn new(color: Color, piece_type: PieceType) -> (p: Piece)
        ensures
            p.color == color,
            p.piece_type == piece_type,
    {
        Piece { color, piece_type }
    }

    pub fn to_char(self) -> (c: char)
        ensures
            c == spec_piece_char(self.piece_type, self.color),
    {
        self.piece_type.to_char(self.color)
    }
}

// ── Square ────────────────────────────────────────────────────────────────────

/// Square index: a1 = 0, b1 = 1, …, h1 = 7, a2 = 8, …, h8 = 63.
/// Bit n in a Bitboard corresponds to Square(n).
#[derive(Clone, Copy, PartialEq, Eq, Debug, Hash, PartialOrd, Ord, Structural)]
pub struct Square(pub u8);

impl Square {
    pub open spec fn valid(self) -> bool {
        self.0 < 64
    }

    pub open spec fn spec_file(self) -> int {
        self.0 as int % 8
    }

    pub open spec fn spec_rank(self) -> int {
        self.0 as int / 8
    }

    pub fn new(file: u8, rank: u8) -> (s: Square)
        requires
            file < 8,
            rank < 8,
        ensures
            s.0 == rank * 8 + file,
            s.valid(),
            s.spec_file() == file,
            s.spec_rank() == rank,
    {
        Square(rank * 8 + file)
    }

    pub fn file(self) -> (f: u8)
        ensures
            f == self.0 % 8,
    {
        let x = self.0;
        assert(x & 7 == x % 8) by (bit_vector);
        x & 7
    }

    pub fn rank(self) -> (r: u8)
        ensures
            r == self.0 / 8,
    {
        let x = self.0;
        assert(x >> 3 == x / 8) by (bit_vector);
        x >> 3
    }

    /// All 64 squares in index order.
    pub fn all() -> (v: Vec<Square>)
        ensures
            v@.len() == 64,
            forall|i: int| 0 <= i < 64 ==> #[trigger] v@[i] == Square(i as u8),
    {
        let mut v: Vec<Square> = Vec::new();
        let mut i: u8 = 0;
        while i < 64
            invariant
                i <= 64,
                v@.len() == i,
                forall|j: int| 0 <= j < i ==> #[trigger] v@[j] == Square(j as u8),
            decreases 64 - i,
        {
            v.push(Square(i));
            i = i + 1;
        }
        v
    }

    /// Parse algebraic notation ("e4") from a sequence of characters.
    pub fn parse_chars(s: &Vec<char>) -> (r: Option<Square>)
        ensures
            r == spec_parse_square(s@),
    {
        if s.len() != 2 {
            return None;
        }
        let f = s[0];
        let rk = s[1];
        if 'a' <= f && f <= 'h' && '1' <= rk && rk <= '8' {
            let file = (f as u32 - 'a' as u32) as u8;
            let rank = (rk as u32 - '1' as u32) as u8;
            Some(Square::new(file, rank))
        } else {
            None
        }
    }

    /// Algebraic notation of a square, e.g. ['e', '4'].
    pub fn to_chars(self) -> (v: Vec<char>)
        requires
            self.valid(),
        ensures
            v@ == spec_square_chars(self),
    {
        let f = self.file();
        let r = self.rank();
        let mut v: Vec<char> = Vec::new();
        v.push(file_char(f));
        v.push(rank_char(r));
        v
    }
}

pub open spec fn spec_file_char(f: int) -> char {
    (('a' as int) + f) as char
}

pub open spec fn spec_rank_char(r: int) -> char {
    (('1' as int) + r) as char
}

pub open spec fn spec_square_chars(s: Square) -> Seq<char> {
    seq![spec_file_char(s.spec_file()), spec_rank_char(s.spec_rank())]
}

/// Letter of a file ('a' … 'h').
pub fn file_char(f: u8) -> (c: char)
    requires
        f < 8,
    ensures
        c == spec_file_char(f as int),
{
    match f {
        0 => 'a',
        1 => 'b',
        2 => 'c',
        3 => 'd',
        4 => 'e',
        5 => 'f',
        6 => 'g',
        _ => 'h',
    }
}

/// Digit of a rank ('1' … '8').
pub fn rank_char(r: u8) -> (c: char)
    requires
        r < 8,
    ensures
        c == spec_rank_char(r as int),
{
    match r {
        0 => '1',
        1 => '2',
        2 => '3',
        3 => '4',
        4 => '5',
        5 => '6',
        6 => '7',
        _ => '8',
    }
}

/// The square that two characters name in algebraic notation, if any.
pub open spec fn spec_parse_square(s: Seq<char>) -> Option<Square> {
    if s.len() == 2 && 'a' <= s[0] <= 'h' && '1' <= s[1] <= '8' {
        Some(Square(((s[1] as int - '1' as int) * 8 + (s[0] as int - 'a' as int)) as u8))
    } else {
        None
    }
}

// ── CastlingRights ────────────────────────────────────────────────────────────

/// Castling availability packed into 4 bits.
///   Bit 0: White kingside  (K)
///   Bit 1: White queenside (Q)
///   Bit 2: Black kingside  (k)
///   Bit 3: Black queenside (q)
#[derive(Clone, Copy, PartialEq, Eq, Debug, Structural)]
pub struct CastlingRights(pub u8);

pub const WHITE_KINGSIDE: u8 = 1u8;
pub const WHITE_QUEENSIDE: u8 = 2u8;
pub const BLACK_KINGSIDE: u8 = 4u8;
pub const BLACK_QUEENSIDE: u8 = 8u8;

impl CastlingRights {
    pub const WHITE_KINGSIDE: u8 = 1u8;
    pub const WHITE_QUEENSIDE: u8 = 2u8;
    pub const BLACK_KINGSIDE: u8 = 4u8;
    pub const BLACK_QUEENSIDE: u8 = 8u8;

    pub fn none() -> (c: CastlingRights)
        ensures
            c.0 == 0,
    {
        CastlingRights(0)
    }

    pub fn all() -> (c: CastlingRights)
        ensures
            c.0 == 15,
    {
        CastlingRights(15)
    }

    pub open spec fn spec_has(self, flag: u8) -> bool {
        self.0 & flag != 0
    }

    pub fn has(self, flag: u8) -> (b: bool)
        ensures
            b == self.spec_has(flag),
    {
        self.0 & flag != 0
    }

    pub fn set(&mut self, flag: u8)
        ensures
            final(self).0 == old(self).0 | flag,
    {
        self.0 = self.0 | flag;
    }

    pub fn remove(&mut self, flag: u8)
        ensures
            final(self).0 == old(self).0 & !flag,
    {
        self.0 = self.0 & !flag;
    }

    pub open spec fn spec_kingside(self, color: Color) -> bool {
        match color {
            Color::White => self.spec_has(WHITE_KINGSIDE),
            Color::Black => self.spec_has(BLACK_KINGSIDE),
        }
    }

    pub open spec fn spec_queenside(self, color: Color) -> bool {
        match color {
            Color::White => self.spec_has(WHITE_QUEENSIDE),
            Color::Black => self.spec_has(BLACK_QUEENSIDE),
        }
    }

    pub fn kingside(self, color: Color) -> (b: bool)
        ensures
            b == self.spec_kingside(color),
    {
        match color {
            Color::White => self.has(WHITE_KINGSIDE),
            Color::Black => self.has(BLACK_KINGSIDE),
        }
    }

    pub fn queenside(self, color: Color) -> (b: bool)
        ensures
            b == self.spec_queenside(color),
    {
        match color {
            Color::White => self.has(WHITE_QUEENSIDE),
            Color::Black => self.has(BLACK_QUEENSIDE),
        }
    }

    /// The castling field of a FEN string: "-" or a subset of "KQkq" in that order.
    pub fn to_chars(self) -> (v: Vec<char>)
        ensures
            v@ == spec_castling_chars(self),
    {
        let mut v: Vec<char> = Vec::new();
        if self.0 == 0 {
            v.push('-');
        } else {
            if self.has(WHITE_KINGSIDE) {
                v.push('K');
            }
            if self.has(WHITE_QUEENSIDE) {
                v.push('Q');
            }
            if self.has(BLACK_KINGSIDE) {
                v.push('k');
            }
            if self.has(BLACK_QUEENSIDE) {
                v.push('q');
            }
        }
        v
    }
}

pub open spec fn opt_char(b: bool, c: char) -> Seq<char> {
    if b {
        seq![c]
    } else {
        Seq::empty()
    }
}

pub open spec fn spec_castling_chars(c: CastlingRights) -> Seq<char> {
    if c.0 == 0 {
        seq!['-']
    } else {
        opt_char(c.spec_has(WHITE_KINGSIDE), 'K') + opt_char(c.spec_has(WHITE_QUEENSIDE), 'Q')
            + opt_char(c.spec_has(BLACK_KINGSIDE), 'k') + opt_char(c.spec_has(BLACK_QUEENSIDE), 'q')
    }
}

impl std::str::FromStr for Square {
    type Err = ();

    /// Algebraic notation ("e4"); see `Square::parse_chars`.
    fn from_str(s: &str) -> (r: Result<Square, ()>)
        ensures
            r == (match spec_parse_square(s@) {
                Some(sq) => Ok(sq),
                None => Err(()),
            }),
    {
        match Square::parse_chars(&str_chars(s)) {
            Some(sq) => Ok(sq),
            None => Err(()),
        }
    }
}

} // verus!
