use vstd::prelude::*;
use super::types::{PieceType, Square, spec_square_chars};
use crate::utils::string_from_chars;

verus! {

// ── Move flags ────────────────────────────────────────────────────────────────

#[derive(Clone, Copy, PartialEq, Eq, Debug, Structural)]
pub enum MoveFlag {
    Normal,
    Promo,
    EnPassant,
    Castling,
}

#[derive(Clone, Copy, PartialEq, Eq, Debug, Structural)]
pub enum PromoKind {
    Knight,
    Bishop,
    Rook,
    Queen,
}

pub open spec fn flag_code(f: MoveFlag) -> u16 {
    match f {
        MoveFlag::Normal => 0,
        MoveFlag::Promo => 1,
        MoveFlag::EnPassant => 2,
        MoveFlag::Castling => 3,
    }
}

pub open spec fn promo_code(p: PromoKind) -> u16 {
    match p {
        PromoKind::Knight => 0,
        PromoKind::Bishop => 1,
        PromoKind::Rook => 2,
        PromoKind::Queen => 3,
    }
}

pub open spec fn flag_of_code(c: u16) -> MoveFlag {
    if c == 0 {
        MoveFlag::Normal
    } else if c == 1 {
        MoveFlag::Promo
    } else if c == 2 {
        MoveFlag::EnPassant
    } else {
        MoveFlag::Castling
    }
}

pub open spec fn promo_of_code(c: u16) -> PromoKind {
    if c == 0 {
        PromoKind::Knight
    } else if c == 1 {
        PromoKind::Bishop
    } else if c == 2 {
        PromoKind::Rook
    } else {
        PromoKind::Queen
    }
}

pub open spec fn spec_promo_piece(p: PromoKind) -> PieceType {
    match p {
        PromoKind::Knight => PieceType::Knight,
        PromoKind::Bishop => PieceType::Bishop,
        PromoKind::Rook => PieceType::Rook,
        PromoKind::Queen => PieceType::Queen,
    }
}

impl PromoKind {
    pub fn piece_type(self) -> (pt: PieceType)
        ensures
            pt == spec_promo_piece(self),
    {
        match self {
            PromoKind::Knight => PieceType::Knight,
            PromoKind::Bishop => PieceType::Bishop,
            PromoKind::Rook => PieceType::Rook,
            PromoKind::Queen => PieceType::Queen,
        }
    }
}

// ── Move ──────────────────────────────────────────────────────────────────────
//
// Bit layout (u16):
//   bits  0– 5 : from square  (0–63)
//   bits  6–11 : to square    (0–63)
//   bits 12–13 : promo piece  (Knight=0, Bishop=1, Rook=2, Queen=3)
//   bits 14–15 : flag         (Normal=0, Promo=1, EnPassant=2, Castling=3)

#[derive(Clone, Copy, PartialEq, Eq, Debug, Structural)]
pub struct Move(pub u16);

pub open spec fn encode_move(from: u16, to: u16, promo: u16, flag: u16) -> u16 {
    from | (to << 6u16) | (promo << 12u16) | (flag << 14u16)
}

proof fn lemma_move_codec(from: u16, to: u16, promo: u16, flag: u16)
    by (bit_vector)
    requires
        from < 64,
        to < 64,
        promo < 4,
        flag < 4,
    ensures
        encode_move(from, to, promo, flag) & 0x3Fu16 == from,
        (encode_move(from, to, promo, flag) >> 6u16) & 0x3Fu16 == to,
        (encode_move(from, to, promo, flag) >> 12u16) & 3u16 == promo,
        (encode_move(from, to, promo, flag) >> 14u16) & 3u16 == flag,
        (encode_move(from, to, promo, flag) == 0) == (from == 0 && to == 0 && promo == 0 && flag == 0),
{
}

proof fn lemma_move_fields(m: u16)
    by (bit_vector)
    ensures
        m & 0x3Fu16 < 64,
        (m >> 6u16) & 0x3Fu16 < 64,
        (m >> 12u16) & 3u16 < 4,
        (m >> 14u16) & 3u16 < 4,
        encode_move(m & 0x3Fu16, (m >> 6u16) & 0x3Fu16, (m >> 12u16) & 3u16, (m >> 14u16) & 3u16) == m,
{
}

impl Move {
    /// The null move (all bits zero); stands for "no move".
    pub fn null() -> (m: Move)
        ensures
            m.0 == 0,
    {
        Move(0)
    }

    pub open spec fn spec_from(self) -> Square {
        Square((self.0 & 0x3Fu16) as u8)
    }

    pub open spec fn spec_to(self) -> Square {
        Square(((self.0 >> 6u16) & 0x3Fu16) as u8)
    }

    pub open spec fn spec_promo(self) -> PromoKind {
        promo_of_code((self.0 >> 12u16) & 3u16)
    }

    pub open spec fn spec_flag(self) -> MoveFlag {
        flag_of_code((self.0 >> 14u16) & 3u16)
    }

    /// The move that packs these four fields.
    pub open spec fn spec_new(from: Square, to: Square, flag: MoveFlag, promo: PromoKind) -> Move {
        Move(encode_move(from.0 as u16, to.0 as u16, promo_code(promo), flag_code(flag)))
    }

    pub fn new(from: Square, to: Square, flag: MoveFlag, promo: PromoKind) -> (m: Move)
        requires
            from.valid(),
            to.valid(),
        ensures
            m == Move::spec_new(from, to, flag, promo),
            m.spec_from() == from,
            m.spec_to() == to,
            m.spec_flag() == flag,
            m.spec_promo() == promo,
    {
        let p: u16 = match promo {
            PromoKind::Knight => 0,
            PromoKind::Bishop => 1,
            PromoKind::Rook => 2,
            PromoKind::Queen => 3,
        };
        let f: u16 = match flag {
            MoveFlag::Normal => 0,
            MoveFlag::Promo => 1,
            MoveFlag::EnPassant => 2,
            MoveFlag::Castling => 3,
        };
        proof {
            lemma_move_codec(from.0 as u16, to.0 as u16, p, f);
        }
        Move((from.0 as u16) | ((to.0 as u16) << 6) | (p << 12) | (f << 14))
    }

    pub fn normal(from: Square, to: Square) -> (m: Move)
        requires
            from.valid(),
            to.valid(),
        ensures
            m == Move::spec_new(from, to, MoveFlag::Normal, PromoKind::Knight),
            m.spec_from() == from,
            m.spec_to() == to,
            m.spec_flag() == MoveFlag::Normal,
            m.spec_promo() == PromoKind::Knight,
    {
        Move::new(from, to, MoveFlag::Normal, PromoKind::Knight)
    }

    pub fn promo(from: Square, to: Square, kind: PromoKind) -> (m: Move)
        requires
            from.valid(),
            to.valid(),
        ensures
            m == Move::spec_new(from, to, MoveFlag::Promo, kind),
            m.spec_from() == from,
            m.spec_to() == to,
            m.spec_flag() == MoveFlag::Promo,
            m.spec_promo() == kind,
    {
        Move::new(from, to, MoveFlag::Promo, kind)
    }

    pub fn en_passant(from: Square, to: Square) -> (m: Move)
        requires
            from.valid(),
            to.valid(),
        ensures
            m == Move::spec_new(from, to, MoveFlag::EnPassant, PromoKind::Knight),
            m.spec_from() == from,
            m.spec_to() == to,
            m.spec_flag() == MoveFlag::EnPassant,
            m.spec_promo() == PromoKind::Knight,
    {
        Move::new(from, to, MoveFlag::EnPassant, PromoKind::Knight)
    }

    pub fn castling(from: Square, to: Square) -> (m: Move)
        requires
            from.valid(),
            to.valid(),
        ensures
            m == Move::spec_new(from, to, MoveFlag::Castling, PromoKind::Knight),
            m.spec_from() == from,
            m.spec_to() == to,
            m.spec_flag() == MoveFlag::Castling,
            m.spec_promo() == PromoKind::Knight,
    {
        Move::new(from, to, MoveFlag::Castling, PromoKind::Knight)
    }

    pub fn from_sq(self) -> (s: Square)
        ensures
            s == self.spec_from(),
            s.valid(),
    {
        proof {
            lemma_move_fields(self.0);
        }
        Square((self.0 & 0x3F) as u8)
    }

    pub fn to_sq(self) -> (s: Square)
        ensures
            s == self.spec_to(),
            s.valid(),
    {
        proof {
            lemma_move_fields(self.0);
        }
        Square(((self.0 >> 6) & 0x3F) as u8)
    }

    pub fn promo_kind(self) -> (p: PromoKind)
        ensures
            p == self.spec_promo(),
    {
        let c = (self.0 >> 12) & 3;
        if c == 0 {
            PromoKind::Knight
        } else if c == 1 {
            PromoKind::Bishop
        } else if c == 2 {
            PromoKind::Rook
        } else {
            PromoKind::Queen
        }
    }

    pub fn flag(self) -> (f: MoveFlag)
        ensures
            f == self.spec_flag(),
    {
        let c = (self.0 >> 14) & 3;
        if c == 0 {
            MoveFlag::Normal
        } else if c == 1 {
            MoveFlag::Promo
        } else if c == 2 {
            MoveFlag::EnPassant
        } else {
            MoveFlag::Castling
        }
    }

    pub fn is_null(self) -> (b: bool)
        ensures
            b == (self.0 == 0),
    {
        self.0 == 0
    }

    pub fn is_promo(self) -> (b: bool)
        ensures
            b == (self.spec_flag() == MoveFlag::Promo),
    {
        match self.flag() {
            MoveFlag::Promo => true,
            _ => false,
        }
    }

    pub fn is_en_passant(self) -> (b: bool)
        ensures
            b == (self.spec_flag() == MoveFlag::EnPassant),
    {
        match self.flag() {
            MoveFlag::EnPassant => true,
            _ => false,
        }
    }

    pub fn is_castling(self) -> (b: bool)
        ensures
            b == (self.spec_flag() == MoveFlag::Castling),
    {
        match self.flag() {
            MoveFlag::Castling => true,
            _ => false,
        }
    }

    pub fn promo_piece_type(self) -> (pt: PieceType)
        ensures
            pt == spec_promo_piece(self.spec_promo()),
    {
        self.promo_kind().piece_type()
    }

    /// UCI notation as characters: "e2e4", "e7e8q".
    pub fn to_uci_chars(self) -> (v: Vec<char>)
        ensures
            v@ == spec_uci_chars(self),
    {
        let mut v = self.from_sq().to_chars();
        let t = self.to_sq().to_chars();
        v.push(t[0]);
        v.push(t[1]);
        if self.is_promo() {
            let c = match self.promo_kind() {
                PromoKind::Knight => 'n',
                PromoKind::Bishop => 'b',
                PromoKind::Rook => 'r',
                PromoKind::Queen => 'q',
            };
            v.push(c);
        }
        proof {
            assert(v@ =~= spec_uci_chars(self));
        }
        v
    }

    /// UCI notation: "e2e4", "e7e8q".
    pub fn to_uci(self) -> (s: String)
        ensures
            s@ == spec_uci_chars(self),
    {
        string_from_chars(self.to_uci_chars())
    }
}

pub open spec fn spec_promo_letter(p: PromoKind) -> char {
    match p {
        PromoKind::Knight => 'n',
        PromoKind::Bishop => 'b',
        PromoKind::Rook => 'r',
        PromoKind::Queen => 'q',
    }
}

/// UCI text of a move: from square, to square, and the promotion letter for promotions.
pub open spec fn spec_uci_chars(m: Move) -> Seq<char> {
    spec_square_chars(m.spec_from()) + spec_square_chars(m.spec_to()) + (if m.spec_flag() == MoveFlag::Promo {
        seq![spec_promo_letter(m.spec_promo())]
    } else {
        Seq::empty()
    })
}

/// A move is the packing of its own four fields.
pub proof fn lemma_move_decode(m: Move)
    ensures
        m.spec_from().valid(),
        m.spec_to().valid(),
        m == Move::spec_new(m.spec_from(), m.spec_to(), m.spec_flag(), m.spec_promo()),
{
    lemma_move_fields(m.0);
    let f = m.0 & 0x3Fu16;
    let t = (m.0 >> 6u16) & 0x3Fu16;
    let p = (m.0 >> 12u16) & 3u16;
    let g = (m.0 >> 14u16) & 3u16;
    assert(promo_code(promo_of_code(p)) == p);
    assert(flag_code(flag_of_code(g)) == g);
    assert((f as u8) as u16 == f);
    assert((t as u8) as u16 == t);
}

/// Decoding a packed move gives back the fields it was packed from.
pub proof fn lemma_move_roundtrip(from: Square, to: Square, flag: MoveFlag, promo: PromoKind)
    requires
        from.valid(),
        to.valid(),
    ensures
        Move::spec_new(from, to, flag, promo).spec_from() == from,
        Move::spec_new(from, to, flag, promo).spec_to() == to,
        Move::spec_new(from, to, flag, promo).spec_flag() == flag,
        Move::spec_new(from, to, flag, promo).spec_promo() == promo,
{
    lemma_move_codec(from.0 as u16, to.0 as u16, promo_code(promo), flag_code(flag));
}

// ── MoveList ──────────────────────────────────────────────────────────────────

pub struct MoveList {
    moves: Vec<Move>,
}

impl View for MoveList {
    type V = Seq<Move>;

    closed spec fn view(&self) -> Seq<Move> {
        self.moves@
    }
}

impl MoveList {
    pub fn new() -> (l: MoveList)
        ensures
            l@ == Seq::<Move>::empty(),
    {
        MoveList { moves: Vec::new() }
    }

    pub fn push(&mut self, m: Move)
        ensures
            final(self)@ == old(self)@.push(m),
    {
        self.moves.push(m);
    }

    pub fn len(&self) -> (n: usize)
        ensures
            n == self@.len(),
    {
        self.moves.len()
    }

    pub fn is_empty(&self) -> (b: bool)
        ensures
            b == (self@.len() == 0),
    {
        self.moves.len() == 0
    }

    pub fn as_slice(&self) -> (s: &[Move])
        ensures
            s@ == self@,
    {
        self.moves.as_slice()
    }

    /// The move at position `i`.
    pub fn get(&self, i: usize) -> (m: Move)
        requires
            i < self@.len(),
        ensures
            m == self@[i as int],
    {
        self.moves[i]
    }
}

impl Default for MoveList {
    fn default() -> (l: MoveList)
        ensures
            l@ == Seq::<Move>::empty(),
    {
        MoveList::new()
    }
}

} // verus!
