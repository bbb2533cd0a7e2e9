use vstd::prelude::*;
use super::bitboard::{bb_has, set_bit, clear_bit, lemma_bb_ext, lemma_zero_all, lemma_and_nonzero, lemma_bits_all, lsb, spec_lsb};
use super::attacks::{lemma_rook_attack_sym, lemma_bishop_attack_sym, spec_queen_attack, pawn_attacks, knight_attacks, king_attacks, bishop_attacks, rook_attacks, spec_pawn_attack,
    spec_knight_attack, spec_king_attack, spec_bishop_attack, spec_rook_attack};
use super::moves::{Move, MoveFlag, spec_promo_piece};
use super::types::{Color, PieceType, Piece, Square, CastlingRights};
use super::zobrist::{ZobristKeys, zobrist_keys, lemma_keys_unique};

verus! {

broadcast use vstd::array::group_array_axioms;

pub const STARTING_FEN: &'static str = "rnbqkbnr/pppppppp/8/8/8/8/PPPPPPPP/RNBQKBNR w KQkq - 0 1";

// ── Hash model ────────────────────────────────────────────────────────────────

/// Key contributed by the content of square `s`.
pub open spec fn piece_key(k: ZobristKeys, p: Option<Piece>, s: int) -> u64 {
    match p {
        None => 0,
        Some(p) => k.piece_sq[p.color.index()][p.piece_type.index()][s],
    }
}

/// XOR of the keys of the first `n` squares.
pub open spec fn pieces_hash(k: ZobristKeys, mb: Seq<Option<Piece>>, n: int) -> u64
    decreases n,
{
    if n <= 0 {
        0
    } else {
        pieces_hash(k, mb, n - 1) ^ piece_key(k, mb[n - 1], n - 1)
    }
}

pub open spec fn side_key(k: ZobristKeys, c: Color) -> u64 {
    if c == Color::Black {
        k.side
    } else {
        0
    }
}

pub open spec fn ep_key(k: ZobristKeys, ep: Option<Square>) -> u64 {
    match ep {
        None => 0,
        Some(sq) => k.en_passant[sq.spec_file()],
    }
}

/// The Zobrist hash of a position: pieces, side to move, castling rights, en-passant file.
pub open spec fn spec_hash(b: Board) -> u64 {
    pieces_hash(b.keys, b.mailbox@, 64) ^ side_key(b.keys, b.side_to_move) ^ b.keys.castling[b.castling_rights.0 as int]
        ^ ep_key(b.keys, b.en_passant)
}

proof fn lemma_xor_assoc(a: u64, b: u64, c: u64)
    by (bit_vector)
    ensures
        (a ^ b) ^ c == a ^ (b ^ c),
        a ^ b == b ^ a,
        a ^ 0 == a,
        a ^ a == 0,
{
}

/// Changing one square changes the piece hash by the keys of the old and new content.
pub proof fn lemma_pieces_hash_update(k: ZobristKeys, mb: Seq<Option<Piece>>, s: int, p: Option<Piece>, n: int)
    requires
        0 <= s < mb.len(),
        n <= mb.len(),
    ensures
        pieces_hash(k, mb.update(s, p), n) == (if s < n {
            pieces_hash(k, mb, n) ^ (piece_key(k, mb[s], s) ^ piece_key(k, p, s))
        } else {
            pieces_hash(k, mb, n)
        }),
    decreases n,
{
    if n <= 0 {
    } else {
        lemma_pieces_hash_update(k, mb, s, p, n - 1);
        let a = pieces_hash(k, mb, n - 1);
        let d = piece_key(k, mb[s], s) ^ piece_key(k, p, s);
        let e = piece_key(k, mb[n - 1], n - 1);
        if s < n - 1 {
            assert(mb.update(s, p)[n - 1] == mb[n - 1]);
            lemma_xor_assoc(a, d, e);
            lemma_xor_assoc(a, e, d);
            lemma_xor_assoc(d, e, 0);
        } else if s == n - 1 {
            assert(mb.update(s, p)[n - 1] == p);
            lemma_xor_assoc(a, e, e ^ piece_key(k, p, s));
            lemma_xor_assoc(e, e, piece_key(k, p, s));
            lemma_xor_assoc(0, piece_key(k, p, s), 0);
            lemma_xor_assoc(piece_key(k, p, s), 0, 0);
        } else {
            assert(mb.update(s, p)[n - 1] == mb[n - 1]);
        }
    }
}

// ── IrreversibleState ─────────────────────────────────────────────────────────

#[derive(Clone, Copy, Debug)]
pub struct IrreversibleState {
    pub captured: Option<Piece>,
    pub en_passant: Option<Square>,
    pub castling_rights: CastlingRights,
    pub half_move_clock: u32,
    pub hash: u64,
}

// ── Board ─────────────────────────────────────────────────────────────────────

/// Hybrid board representation.
///
/// **Bit-centric view** — `pieces[color][piece_type]` bitboards plus
/// pre-computed occupancy unions — supports fast bitwise algorithms (move
/// generation, attack masks).
///
/// **Board-centric view** — `mailbox[square]` gives an O(1) piece lookup by
/// square index, convenient for move legality, display, and FEN serialisation.
///
/// Both views are always kept in sync through `put_piece` / `remove_piece`
/// (see `sync`). Each board carries the Zobrist key table it hashes with.
#[derive(Clone, Copy, Debug)]
pub struct Board {
    /// `pieces[color][piece_type]` — one bitboard per (color, piece) pair.
    pub pieces: [[u64; 6]; 2],
    /// Union of all squares occupied by each color.
    pub occupancy: [u64; 2],
    /// Union of all occupied squares (both colors).
    pub all_occupancy: u64,
    /// Direct square → piece mapping for O(1) lookup.
    pub mailbox: [Option<Piece>; 64],
    pub side_to_move: Color,
    pub castling_rights: CastlingRights,
    pub en_passant: Option<Square>,
    pub half_move_clock: u32,
    pub full_move_number: u32,
    /// Incrementally-updated Zobrist hash of the current position.
    pub hash: u64,
    /// Zobrist keys used for `hash`.
    pub keys: ZobristKeys,
}

/// Index of the colour of a piece type pair, as used by `pieces`.
pub open spec fn holds(mb: Seq<Option<Piece>>, s: int, c: Color, pt: PieceType) -> bool {
    mb[s] == Some(Piece { color: c, piece_type: pt })
}

pub open spec fn holds_color(mb: Seq<Option<Piece>>, s: int, c: Color) -> bool {
    mb[s] is Some && mb[s].unwrap().color == c
}

pub open spec fn castling_mask(s: int) -> u8 {
    if s == 0 {
        0xFDu8
    } else if s == 4 {
        0xFCu8
    } else if s == 7 {
        0xFEu8
    } else if s == 56 {
        0xF7u8
    } else if s == 60 {
        0xF3u8
    } else if s == 63 {
        0xFBu8
    } else {
        0xFFu8
    }
}

// Index by `from` and `to` of any move, AND both values into castling_rights.0.
// Clears the correct bits for king moves, rook moves, and rook captures.
pub const CASTLING_RIGHTS_MASK: [u8; 64] = [
    0xFD, 0xFF, 0xFF, 0xFF, 0xFC, 0xFF, 0xFF, 0xFE,
    0xFF, 0xFF, 0xFF, 0xFF, 0xFF, 0xFF, 0xFF, 0xFF,
    0xFF, 0xFF, 0xFF, 0xFF, 0xFF, 0xFF, 0xFF, 0xFF,
    0xFF, 0xFF, 0xFF, 0xFF, 0xFF, 0xFF, 0xFF, 0xFF,
    0xFF, 0xFF, 0xFF, 0xFF, 0xFF, 0xFF, 0xFF, 0xFF,
    0xFF, 0xFF, 0xFF, 0xFF, 0xFF, 0xFF, 0xFF, 0xFF,
    0xFF, 0xFF, 0xFF, 0xFF, 0xFF, 0xFF, 0xFF, 0xFF,
    0xF7, 0xFF, 0xFF, 0xFF, 0xF3, 0xFF, 0xFF, 0xFB,
];

fn castling_rights_mask(s: Square) -> (m: u8)
    requires
        s.valid(),
    ensures
        m == castling_mask(s.0 as int),
{
    let m = CASTLING_RIGHTS_MASK[s.0 as usize];
    proof {
        assert(CASTLING_RIGHTS_MASK@ =~= seq![
            0xFDu8, 0xFF, 0xFF, 0xFF, 0xFC, 0xFF, 0xFF, 0xFE,
            0xFF, 0xFF, 0xFF, 0xFF, 0xFF, 0xFF, 0xFF, 0xFF,
            0xFF, 0xFF, 0xFF, 0xFF, 0xFF, 0xFF, 0xFF, 0xFF,
            0xFF, 0xFF, 0xFF, 0xFF, 0xFF, 0xFF, 0xFF, 0xFF,
            0xFF, 0xFF, 0xFF, 0xFF, 0xFF, 0xFF, 0xFF, 0xFF,
            0xFF, 0xFF, 0xFF, 0xFF, 0xFF, 0xFF, 0xFF, 0xFF,
            0xFF, 0xFF, 0xFF, 0xFF, 0xFF, 0xFF, 0xFF, 0xFF,
            0xF7, 0xFF, 0xFF, 0xFF, 0xF3, 0xFF, 0xFF, 0xFB,
        ]);
    }
    m
}

/// King destinations of the four castling moves.
pub open spec fn valid_castle_dest(to: int) -> bool {
    to == 6 || to == 2 || to == 62 || to == 58
}

/// (rook_from, rook_to) for a castling king destination.
pub open spec fn spec_castling_rook(to: int) -> (int, int) {
    if to == 6 {
        (7, 5)
    } else if to == 2 {
        (0, 3)
    } else if to == 62 {
        (63, 61)
    } else {
        (56, 59)
    }
}

/// Returns (rook_from, rook_to) given the king's castling destination square.
pub fn castling_rook_squares(king_to: Square) -> (r: (Square, Square))
    requires
        valid_castle_dest(king_to.0 as int),
    ensures
        r.0.0 as int == spec_castling_rook(king_to.0 as int).0,
        r.1.0 as int == spec_castling_rook(king_to.0 as int).1,
{
    if king_to.0 == 6 {
        (Square(7), Square(5))
    } else if king_to.0 == 2 {
        (Square(0), Square(3))
    } else if king_to.0 == 62 {
        (Square(63), Square(61))
    } else {
        (Square(56), Square(59))
    }
}

/// Square of the pawn taken by an en-passant capture from `from` to `to`.
pub open spec fn ep_capture_square(from: Square, to: Square) -> int {
    from.spec_rank() * 8 + to.spec_file()
}

/// Contents of the squares after `mv` is played on `b`.
pub open spec fn spec_make_mailbox(b: Board, mv: Move) -> Seq<Option<Piece>> {
    let from = mv.spec_from().0 as int;
    let to = mv.spec_to().0 as int;
    let us = b.side_to_move;
    let mb = b.mailbox@;
    let moving = mb[from];
    match mv.spec_flag() {
        MoveFlag::Normal => mb.update(from, None).update(to, moving),
        MoveFlag::Promo => mb.update(from, None).update(
            to,
            Some(Piece { color: us, piece_type: spec_promo_piece(mv.spec_promo()) }),
        ),
        MoveFlag::EnPassant => mb.update(ep_capture_square(mv.spec_from(), mv.spec_to()), None).update(from, None).update(to, moving),
        MoveFlag::Castling => {
            let (rf, rt) = spec_castling_rook(to);
            mb.update(from, None).update(rf, None).update(to, moving).update(
                rt,
                Some(Piece { color: us, piece_type: PieceType::Rook }),
            )
        },
    }
}

pub open spec fn spec_is_capture(b: Board, mv: Move) -> bool {
    b.mailbox[mv.spec_to().0 as int] is Some
}

pub open spec fn spec_moving_is_pawn(b: Board, mv: Move) -> bool {
    b.mailbox[mv.spec_from().0 as int] is Some && b.mailbox[mv.spec_from().0 as int].unwrap().piece_type == PieceType::Pawn
}

/// En-passant target after `mv`: set only by a double pawn push.
pub open spec fn spec_make_ep(b: Board, mv: Move) -> Option<Square> {
    let from = mv.spec_from();
    let to = mv.spec_to();
    let us = b.side_to_move;
    if mv.spec_flag() == MoveFlag::Normal && spec_moving_is_pawn(b, mv) && ((us == Color::White && from.spec_rank() == 1
        && to.spec_rank() == 3) || (us == Color::Black && from.spec_rank() == 6 && to.spec_rank() == 4)) {
        Some(Square(((if us == Color::White { 2int } else { 5int }) * 8 + from.spec_file()) as u8))
    } else {
        None
    }
}

pub open spec fn spec_make_half(b: Board, mv: Move) -> u32 {
    if spec_moving_is_pawn(b, mv) || spec_is_capture(b, mv) {
        0
    } else {
        (b.half_move_clock + 1) as u32
    }
}

pub open spec fn spec_make_full(b: Board) -> u32 {
    if b.side_to_move == Color::Black {
        (b.full_move_number + 1) as u32
    } else {
        b.full_move_number
    }
}

/// The snapshot that `make_move` returns.
pub open spec fn spec_state(b: Board, mv: Move) -> IrreversibleState {
    IrreversibleState {
        captured: b.mailbox[mv.spec_to().0 as int],
        en_passant: b.en_passant,
        castling_rights: b.castling_rights,
        half_move_clock: b.half_move_clock,
        hash: b.hash,
    }
}

/// `after` is the board that playing `mv` on `b` produces.
pub open spec fn made(b: Board, mv: Move, after: Board) -> bool {
    &&& after.wf()
    &&& after.mailbox@ == spec_make_mailbox(b, mv)
    &&& after.side_to_move == b.side_to_move.opposite()
    &&& after.castling_rights.0 == b.castling_rights.0 & castling_mask(mv.spec_from().0 as int) & castling_mask(mv.spec_to().0 as int)
    &&& after.en_passant == spec_make_ep(b, mv)
    &&& after.half_move_clock == spec_make_half(b, mv)
    &&& after.full_move_number == spec_make_full(b)
    &&& after.keys == b.keys
}

/// What `make_move` needs of the board and the move: the mover is on `from`, and
/// every square a piece is put on is empty at that point; the move counters do not
/// overflow.
pub open spec fn make_pre(b: Board, mv: Move) -> bool {
    let from = mv.spec_from().0 as int;
    let to = mv.spec_to().0 as int;
    let mb = b.mailbox@;
    &&& b.wf()
    &&& from != to
    &&& mb[from] is Some
    &&& (mv.spec_flag() == MoveFlag::EnPassant ==> {
        let cap = ep_capture_square(mv.spec_from(), mv.spec_to());
        &&& 0 <= cap < 64
        &&& cap != to
        &&& mb[to] is None
    })
    &&& (mv.spec_flag() == MoveFlag::Castling ==> {
        let (rf, rt) = spec_castling_rook(to);
        &&& valid_castle_dest(to)
        &&& rf != from
        &&& mb[to] is None
        &&& mb[rt] is None
        &&& rt != from
    })
    &&& (spec_moving_is_pawn(b, mv) || spec_is_capture(b, mv) || b.half_move_clock < u32::MAX)
    &&& (b.side_to_move == Color::Black ==> b.full_move_number < u32::MAX)
}

/// Extra conditions under which `unmake_move` restores the position: what it puts
/// back (a pawn for promotions and en passant, king and rook for castling) is what stood there.
pub open spec fn reversible(b: Board, mv: Move) -> bool {
    let from = mv.spec_from().0 as int;
    let to = mv.spec_to().0 as int;
    let us = b.side_to_move;
    let mb = b.mailbox@;
    &&& (mv.spec_flag() == MoveFlag::Promo ==> mb[from] == Some(Piece { color: us, piece_type: PieceType::Pawn }))
    &&& (mv.spec_flag() == MoveFlag::EnPassant ==> {
        &&& mb[from] == Some(Piece { color: us, piece_type: PieceType::Pawn })
        &&& mb[ep_capture_square(mv.spec_from(), mv.spec_to())] == Some(Piece { color: us.opposite(), piece_type: PieceType::Pawn })
    })
    &&& (mv.spec_flag() == MoveFlag::Castling ==> {
        &&& mb[from] == Some(Piece { color: us, piece_type: PieceType::King })
        &&& mb[spec_castling_rook(to).0] == Some(Piece { color: us, piece_type: PieceType::Rook })
    })
}

/// A piece of type `pt` and colour `c` on `s` attacks `t` (with occupancy `occ`).
/// Slider attacks are read from the target square: the rays from `t` reach `s`
/// (rays are symmetric).
pub open spec fn spec_piece_attacks(pt: PieceType, c: Color, s: int, t: int, occ: u64) -> bool {
    match pt {
        PieceType::Pawn => spec_pawn_attack(c, s, t),
        PieceType::Knight => spec_knight_attack(s, t),
        PieceType::King => spec_king_attack(s, t),
        PieceType::Bishop => spec_bishop_attack(t, occ, s),
        PieceType::Rook => spec_rook_attack(t, occ, s),
        PieceType::Queen => spec_bishop_attack(t, occ, s) || spec_rook_attack(t, occ, s),
    }
}

/// The piece on `s` belongs to `by` and attacks `t`.
pub open spec fn attacker(b: Board, s: int, t: int, by: Color) -> bool {
    &&& 0 <= s < 64
    &&& b.mailbox[s] is Some
    &&& b.mailbox[s].unwrap().color == by
    &&& spec_piece_attacks(b.mailbox[s].unwrap().piece_type, by, s, t, b.all_occupancy)
}

/// Square `t` is attacked by a piece of colour `by`.
pub open spec fn spec_attacked(b: Board, t: int, by: Color) -> bool {
    exists|s: int| #[trigger] attacker(b, s, t, by)
}

/// `t` is among the squares that the attack query for a piece of type `pt` and
/// colour `c` on `s` returns: `pawn_attacks(c, s)`, `knight_attacks(s)`,
/// `bishop_attacks(s, occ)`, `rook_attacks(s, occ)`, `queen_attacks(s, occ)` or
/// `king_attacks(s)`.
pub open spec fn attacks_from(pt: PieceType, c: Color, s: int, occ: u64, t: int) -> bool {
    match pt {
        PieceType::Pawn => spec_pawn_attack(c, s, t),
        PieceType::Knight => spec_knight_attack(s, t),
        PieceType::Bishop => spec_bishop_attack(s, occ, t),
        PieceType::Rook => spec_rook_attack(s, occ, t),
        PieceType::Queen => spec_queen_attack(s, occ, t),
        PieceType::King => spec_king_attack(s, t),
    }
}

/// A square is attacked by `by` exactly when one of `by`'s pieces, found in its
/// piece bitboard, has the square among the squares its attack query returns.
pub proof fn lemma_attacked_by_pieces(b: Board, t: int, by: Color)
    requires
        b.sync(),
        0 <= t < 64,
    ensures
        spec_attacked(b, t, by) <==> exists|s: int, pt: PieceType| 0 <= s < 64
            && #[trigger] bb_has(b.pieces[by.index()][pt.index()], s as u64)
            && attacks_from(pt, by, s, b.all_occupancy, t),
{
    let occ = b.all_occupancy;
    if spec_attacked(b, t, by) {
        let s = choose|s: int| #[trigger] attacker(b, s, t, by);
        let pt = b.mailbox[s].unwrap().piece_type;
        assert(holds(b.mailbox@, s, by, pt));
        assert(bb_has(b.pieces[by.index()][pt.index()], s as u64));
        lemma_rook_attack_sym(s, t, occ);
        lemma_bishop_attack_sym(s, t, occ);
        assert(attacks_from(pt, by, s, occ, t));
    }
    if exists|s: int, pt: PieceType| 0 <= s < 64 && #[trigger] bb_has(b.pieces[by.index()][pt.index()], s as u64)
        && attacks_from(pt, by, s, occ, t) {
        let (s, pt) = choose|s: int, pt: PieceType| 0 <= s < 64 && #[trigger] bb_has(b.pieces[by.index()][pt.index()], s as u64)
            && attacks_from(pt, by, s, occ, t);
        assert(holds(b.mailbox@, (s as u64) as int, by, pt));
        lemma_rook_attack_sym(s, t, occ);
        lemma_bishop_attack_sym(s, t, occ);
        assert(attacker(b, s, t, by));
    }
}

/// Square of the lowest king of colour `c`.
pub open spec fn spec_lsb_king(b: Board, c: Color) -> int {
    spec_lsb(b.pieces[c.index()][PieceType::King.index()]) as int
}

/// `made` determines the board it describes.
pub proof fn lemma_made_unique(b: Board, mv: Move, a1: Board, a2: Board)
    requires
        made(b, mv, a1),
        made(b, mv, a2),
    ensures
        a1 == a2,
{
    lemma_sync_unique(a1, a2);
}

/// The side to move's king (the lowest one, if several) is attacked; false without a king.
pub open spec fn spec_in_check(b: Board) -> bool {
    let kings = b.pieces[b.side_to_move.index()][PieceType::King.index()];
    kings != 0 && spec_attacked(b, spec_lsb(kings) as int, b.side_to_move.opposite())
}

/// Two optional pieces are the same.
pub fn same_piece(a: Option<Piece>, b: Option<Piece>) -> (r: bool)
    ensures
        r == (a == b),
{
    match (a, b) {
        (None, None) => true,
        (Some(x), Some(y)) => x.color == y.color && x.piece_type == y.piece_type,
        _ => false,
    }
}

impl Board {
    /// Bitboards agree with the mailbox.
    pub open spec fn sync(&self) -> bool {
        &&& forall|s: u64, c: Color, pt: PieceType| s < 64 ==> (#[trigger] bb_has(self.pieces[c.index()][pt.index()], s) <==> holds(self.mailbox@, s as int, c, pt))
        &&& forall|s: u64, c: Color| s < 64 ==> (#[trigger] bb_has(self.occupancy[c.index()], s) <==> holds_color(self.mailbox@, s as int, c))
        &&& forall|s: u64| s < 64 ==> (#[trigger] bb_has(self.all_occupancy, s) <==> self.mailbox[s as int] is Some)
    }

    /// Difference between the stored hash and the hash of the position.
    pub open spec fn hash_err(&self) -> u64 {
        self.hash ^ spec_hash(*self)
    }

    /// The en-passant target, if any, is the empty square just behind an enemy pawn
    /// that has just made a double push.
    pub open spec fn ep_ok(&self) -> bool {
        match self.en_passant {
            None => true,
            Some(sq) => {
                &&& sq.valid()
                &&& self.mailbox[sq.0 as int] is None
                &&& (self.side_to_move == Color::White ==> sq.spec_rank() == 5 && self.mailbox[sq.0 as int - 8]
                    == Some(Piece { color: Color::Black, piece_type: PieceType::Pawn }))
                &&& (self.side_to_move == Color::Black ==> sq.spec_rank() == 2 && self.mailbox[sq.0 as int + 8]
                    == Some(Piece { color: Color::White, piece_type: PieceType::Pawn }))
            },
        }
    }

    /// Every castling right still held has its king and rook on their home squares.
    pub open spec fn castle_ok(&self) -> bool {
        let mb = self.mailbox@;
        let wk = Some(Piece { color: Color::White, piece_type: PieceType::King });
        let wr = Some(Piece { color: Color::White, piece_type: PieceType::Rook });
        let bk = Some(Piece { color: Color::Black, piece_type: PieceType::King });
        let br = Some(Piece { color: Color::Black, piece_type: PieceType::Rook });
        &&& (self.castling_rights.spec_has(1) ==> mb[4] == wk && mb[7] == wr)
        &&& (self.castling_rights.spec_has(2) ==> mb[4] == wk && mb[0] == wr)
        &&& (self.castling_rights.spec_has(4) ==> mb[60] == bk && mb[63] == br)
        &&& (self.castling_rights.spec_has(8) ==> mb[60] == bk && mb[56] == br)
    }

    /// A consistent board whose en-passant target and castling rights fit the pieces.
    ///
    /// Move generation, make/unmake and everything built on them ask for this:
    /// on a board whose castling right has no rook at home, castling conjures a
    /// rook and undoing it leaves a rook on the corner that was never there; on one
    /// whose en-passant target has no pawn behind it (or is occupied), the capture
    /// removes the wrong square and undoing it puts back a pawn that never stood
    /// there. `unmake_move` restoring the board holds only on valid boards.
    pub open spec fn valid(&self) -> bool {
        &&& self.wf()
        &&& self.ep_ok()
        &&& self.castle_ok()
    }

    /// Internal consistency of a board.
    pub open spec fn wf(&self) -> bool {
        &&& self.sync()
        &&& self.keys.wf()
        &&& self.castling_rights.0 < 16
        &&& (self.en_passant matches Some(sq) ==> sq.valid())
        &&& self.hash == spec_hash(*self)
    }

    /// Whether a consistent board is also valid: its en-passant target and its
    /// castling rights fit the pieces.
    pub fn is_valid(&self) -> (r: bool)
        requires
            self.wf(),
        ensures
            r == self.valid(),
    {
        let wk = Some(Piece { color: Color::White, piece_type: PieceType::King });
        let wr = Some(Piece { color: Color::White, piece_type: PieceType::Rook });
        let bk = Some(Piece { color: Color::Black, piece_type: PieceType::King });
        let br = Some(Piece { color: Color::Black, piece_type: PieceType::Rook });
        let cr = self.castling_rights;
        if cr.has(1) && !(same_piece(self.mailbox[4], wk) && same_piece(self.mailbox[7], wr)) {
            return false;
        }
        if cr.has(2) && !(same_piece(self.mailbox[4], wk) && same_piece(self.mailbox[0], wr)) {
            return false;
        }
        if cr.has(4) && !(same_piece(self.mailbox[60], bk) && same_piece(self.mailbox[63], br)) {
            return false;
        }
        if cr.has(8) && !(same_piece(self.mailbox[60], bk) && same_piece(self.mailbox[56], br)) {
            return false;
        }
        match self.en_passant {
            None => true,
            Some(sq) => {
                if self.mailbox[sq.0 as usize].is_some() {
                    return false;
                }
                match self.side_to_move {
                    Color::White => sq.rank() == 5 && same_piece(
                        self.mailbox[sq.0 as usize - 8],
                        Some(Piece { color: Color::Black, piece_type: PieceType::Pawn }),
                    ),
                    Color::Black => sq.rank() == 2 && same_piece(
                        self.mailbox[sq.0 as usize + 8],
                        Some(Piece { color: Color::White, piece_type: PieceType::Pawn }),
                    ),
                }
            },
        }
    }

    // ── Constructors ──────────────────────────────────────────────────────────

    pub fn empty() -> (b: Board)
        ensures
            b.wf(),
            forall|s: int| 0 <= s < 64 ==> b.mailbox[s] is None,
            b.side_to_move == Color::White,
            b.castling_rights.0 == 0,
            b.en_passant is None,
            b.half_move_clock == 0,
            b.full_move_number == 1,
    {
        let keys = zobrist_keys();
        let b = Board {
            pieces: [[0u64; 6]; 2],
            occupancy: [0u64; 2],
            all_occupancy: 0,
            mailbox: [None; 64],
            side_to_move: Color::White,
            castling_rights: CastlingRights::none(),
            en_passant: None,
            half_move_clock: 0,
            full_move_number: 1,
            hash: 0,
            keys,
        };
        proof {
            lemma_zero_all();
            lemma_pieces_hash_empty(keys, b.mailbox@, 64);
            lemma_xor_assoc(0, 0, 0);
        }
        b
    }

    // ── Internal mutation (keeps both views in sync) ──────────────────────────

    pub fn put_piece(&mut self, piece: Piece, sq: Square)
        requires
            sq.valid(),
            old(self).sync(),
            old(self).mailbox[sq.0 as int] is None,
        ensures
            final(self).sync(),
            final(self).mailbox@ == old(self).mailbox@.update(sq.0 as int, Some(piece)),
            final(self).hash == old(self).hash ^ piece_key(old(self).keys, Some(piece), sq.0 as int),
            final(self).hash_err() == old(self).hash_err(),
            final(self).side_to_move == old(self).side_to_move,
            final(self).castling_rights == old(self).castling_rights,
            final(self).en_passant == old(self).en_passant,
            final(self).half_move_clock == old(self).half_move_clock,
            final(self).full_move_number == old(self).full_move_number,
            final(self).keys == old(self).keys,
    {
        let c = match piece.color {
            Color::White => 0usize,
            Color::Black => 1usize,
        };
        let pt = match piece.piece_type {
            PieceType::Pawn => 0usize,
            PieceType::Knight => 1usize,
            PieceType::Bishop => 2usize,
            PieceType::Rook => 3usize,
            PieceType::Queen => 4usize,
            PieceType::King => 5usize,
        };
        let ghost old_self = *self;
        let mut bb = self.pieces[c][pt];
        set_bit(&mut bb, sq);
        self.pieces[c][pt] = bb;
        let mut oc = self.occupancy[c];
        set_bit(&mut oc, sq);
        self.occupancy[c] = oc;
        set_bit(&mut self.all_occupancy, sq);
        self.mailbox[sq.0 as usize] = Some(piece);
        let key = self.keys.piece_sq[c][pt][sq.0 as usize];
        self.hash = self.hash ^ key;
        proof {
            assert(self.mailbox@ =~= old_self.mailbox@.update(sq.0 as int, Some(piece)));
            assert forall|s: u64, c2: Color, pt2: PieceType| s < 64 implies (#[trigger] bb_has(self.pieces[c2.index()][pt2.index()], s) <==> holds(self.mailbox@, s as int, c2, pt2)) by {
                assert(bb_has(old_self.pieces[c2.index()][pt2.index()], s) <==> holds(old_self.mailbox@, s as int, c2, pt2));
            }
            assert forall|s: u64, c2: Color| s < 64 implies (#[trigger] bb_has(self.occupancy[c2.index()], s) <==> holds_color(self.mailbox@, s as int, c2)) by {
                assert(bb_has(old_self.occupancy[c2.index()], s) <==> holds_color(old_self.mailbox@, s as int, c2));
            }
            assert forall|s: u64| s < 64 implies (#[trigger] bb_has(self.all_occupancy, s) <==> self.mailbox[s as int] is Some) by {
                assert(bb_has(old_self.all_occupancy, s) <==> old_self.mailbox[s as int] is Some);
            }
            assert(piece_key(old_self.keys, Some(piece), sq.0 as int) == key);
            lemma_xor_assoc(0, key, 0);
            lemma_xor_assoc(key, 0, 0);
            lemma_hash_err_piece_change(old_self, *self, sq.0 as int, Some(piece));
        }
    }

    pub fn remove_piece(&mut self, sq: Square)
        requires
            sq.valid(),
            old(self).sync(),
        ensures
            final(self).sync(),
            final(self).mailbox@ == old(self).mailbox@.update(sq.0 as int, None),
            final(self).hash == old(self).hash ^ piece_key(old(self).keys, old(self).mailbox[sq.0 as int], sq.0 as int),
            final(self).hash_err() == old(self).hash_err(),
            final(self).side_to_move == old(self).side_to_move,
            final(self).castling_rights == old(self).castling_rights,
            final(self).en_passant == old(self).en_passant,
            final(self).half_move_clock == old(self).half_move_clock,
            final(self).full_move_number == old(self).full_move_number,
            final(self).keys == old(self).keys,
    {
        let ghost old_self = *self;
        match self.mailbox[sq.0 as usize] {
            None => {
                proof {
                    assert(self.mailbox@ =~= old_self.mailbox@.update(sq.0 as int, None));
                    lemma_xor_assoc(self.hash, 0, 0);
                }
            },
            Some(piece) => {
                let c = match piece.color {
                    Color::White => 0usize,
                    Color::Black => 1usize,
                };
                let pt = match piece.piece_type {
                    PieceType::Pawn => 0usize,
                    PieceType::Knight => 1usize,
                    PieceType::Bishop => 2usize,
                    PieceType::Rook => 3usize,
                    PieceType::Queen => 4usize,
                    PieceType::King => 5usize,
                };
                self.mailbox[sq.0 as usize] = None;
                let mut bb = self.pieces[c][pt];
                clear_bit(&mut bb, sq);
                self.pieces[c][pt] = bb;
                let mut oc = self.occupancy[c];
                clear_bit(&mut oc, sq);
                self.occupancy[c] = oc;
                clear_bit(&mut self.all_occupancy, sq);
                let key = self.keys.piece_sq[c][pt][sq.0 as usize];
                self.hash = self.hash ^ key;
                proof {
                    assert(self.mailbox@ =~= old_self.mailbox@.update(sq.0 as int, None));
                    assert forall|s: u64, c2: Color, pt2: PieceType| s < 64 implies (#[trigger] bb_has(self.pieces[c2.index()][pt2.index()], s) <==> holds(self.mailbox@, s as int, c2, pt2)) by {
                        assert(bb_has(old_self.pieces[c2.index()][pt2.index()], s) <==> holds(old_self.mailbox@, s as int, c2, pt2));
                    }
                    assert forall|s: u64, c2: Color| s < 64 implies (#[trigger] bb_has(self.occupancy[c2.index()], s) <==> holds_color(self.mailbox@, s as int, c2)) by {
                        assert(bb_has(old_self.occupancy[c2.index()], s) <==> holds_color(old_self.mailbox@, s as int, c2));
                    }
                    assert forall|s: u64| s < 64 implies (#[trigger] bb_has(self.all_occupancy, s) <==> self.mailbox[s as int] is Some) by {
                        assert(bb_has(old_self.all_occupancy, s) <==> old_self.mailbox[s as int] is Some);
                    }
                    assert(piece_key(old_self.keys, Some(piece), sq.0 as int) == key);
                    lemma_xor_assoc(key, 0, 0);
                }
            },
        }
        proof {
            lemma_hash_err_piece_change(old_self, *self, sq.0 as int, None);
        }
    }

    // ── Make / Unmake ─────────────────────────────────────────────────────────

    /// Apply `mv` to the board and return the state needed to undo it.
    pub fn make_move(&mut self, mv: Move) -> (state: IrreversibleState)
        requires
            make_pre(*old(self), mv),
        ensures
            made(*old(self), mv, *final(self)),
            state == spec_state(*old(self), mv),
    {
        let ghost b0 = *self;
        proof {
            lemma_xor_zero(b0.hash, spec_hash(b0));
        }
        let from = mv.from_sq();
        let to = mv.to_sq();
        let us = self.side_to_move;
        let state = IrreversibleState {
            captured: self.piece_at(to),
            en_passant: self.en_passant,
            castling_rights: self.castling_rights,
            half_move_clock: self.half_move_clock,
            hash: self.hash,
        };
        let moving = self.piece_at(from).unwrap();
        let is_pawn = match moving.piece_type {
            PieceType::Pawn => true,
            _ => false,
        };
        let is_capture = state.captured.is_some();
        let white = match us {
            Color::White => true,
            Color::Black => false,
        };
        let mut new_ep: Option<Square> = None;
        match mv.flag() {
            MoveFlag::Normal => {
                if is_capture {
                    self.remove_piece(to);
                }
                self.remove_piece(from);
                self.put_piece(moving, to);
                if is_pawn {
                    let fr = from.rank();
                    let tr = to.rank();
                    if (white && fr == 1 && tr == 3) || (!white && fr == 6 && tr == 4) {
                        let ep_rank: u8 = if white { 2 } else { 5 };
                        new_ep = Some(Square::new(from.file(), ep_rank));
                    }
                }
                proof {
                    assert(self.mailbox@ =~= spec_make_mailbox(b0, mv));
                }
            },
            MoveFlag::Promo => {
                if is_capture {
                    self.remove_piece(to);
                }
                self.remove_piece(from);
                self.put_piece(Piece::new(us, mv.promo_piece_type()), to);
                proof {
                    assert(self.mailbox@ =~= spec_make_mailbox(b0, mv));
                }
            },
            MoveFlag::EnPassant => {
                let cap_sq = Square::new(to.file(), from.rank());
                self.remove_piece(cap_sq);
                self.remove_piece(from);
                self.put_piece(moving, to);
                proof {
                    assert(self.mailbox@ =~= spec_make_mailbox(b0, mv));
                }
            },
            MoveFlag::Castling => {
                let (rook_from, rook_to) = castling_rook_squares(to);
                self.remove_piece(from);
                self.remove_piece(rook_from);
                self.put_piece(moving, to);
                self.put_piece(Piece::new(us, PieceType::Rook), rook_to);
                proof {
                    assert(self.mailbox@ =~= spec_make_mailbox(b0, mv));
                }
            },
        }
        // Update castling rights for any king/rook move or rook capture; the
        // en-passant target; the side to move; and their hash contributions.
        let new_cr = self.castling_rights.0 & castling_rights_mask(from) & castling_rights_mask(to);
        proof {
            lemma_and_le(self.castling_rights.0, castling_mask(from.0 as int), castling_mask(to.0 as int));
        }
        let old_ep_key: u64 = match self.en_passant {
            Some(sq) => self.keys.en_passant[sq.file() as usize],
            None => 0,
        };
        let new_ep_key: u64 = match new_ep {
            Some(sq) => self.keys.en_passant[sq.file() as usize],
            None => 0,
        };
        let old_side_key: u64 = if white { 0 } else { self.keys.side };
        let new_side_key: u64 = if white { self.keys.side } else { 0 };
        let old_cr_key = self.keys.castling[self.castling_rights.0 as usize];
        let new_cr_key = self.keys.castling[new_cr as usize];
        let delta = (old_side_key ^ new_side_key) ^ (old_cr_key ^ new_cr_key) ^ (old_ep_key ^ new_ep_key);
        let ghost b1 = *self;
        self.hash = self.hash ^ delta;
        self.castling_rights = CastlingRights(new_cr);
        self.en_passant = new_ep;
        self.side_to_move = us.flip();
        proof {
            assert(old_side_key == side_key(b1.keys, b1.side_to_move));
            assert(new_side_key == side_key(b1.keys, self.side_to_move));
            assert(old_ep_key == ep_key(b1.keys, b1.en_passant));
            assert(new_ep_key == ep_key(b1.keys, self.en_passant));
            assert(old_cr_key == b1.keys.castling[b1.castling_rights.0 as int]);
            assert(new_cr_key == b1.keys.castling[self.castling_rights.0 as int]);
            assert(self.hash == b1.hash ^ delta);
            lemma_hash_err_fields(b1, *self);
        }
        self.half_move_clock = if is_pawn || is_capture { 0 } else { self.half_move_clock + 1 };
        if !white {
            self.full_move_number = self.full_move_number + 1;
        }
        proof {
            lemma_xor_zero(self.hash, spec_hash(*self));
        }
        state
    }

    /// Undo a move previously applied with `make_move`.
    /// `mv` and `state` must be exactly those from the matching `make_move` call.
    pub fn unmake_move(&mut self, mv: Move, state: IrreversibleState)
        requires
            exists|prev: Board| make_pre(prev, mv) && reversible(prev, mv) && made(prev, mv, *old(self)) && state == spec_state(prev, mv),
        ensures
            forall|prev: Board| make_pre(prev, mv) && reversible(prev, mv) && made(prev, mv, *old(self)) && state == spec_state(prev, mv)
                ==> *final(self) == prev,
    {
        let ghost b0 = *self;
        let ghost w = choose|prev: Board| make_pre(prev, mv) && reversible(prev, mv) && made(prev, mv, *old(self)) && state == spec_state(prev, mv);
        let from = mv.from_sq();
        let to = mv.to_sq();
        self.side_to_move = self.side_to_move.flip();
        let us = self.side_to_move;
        let white = match us {
            Color::White => true,
            Color::Black => false,
        };
        if !white {
            self.full_move_number = self.full_move_number - 1;
        }
        self.en_passant = state.en_passant;
        self.castling_rights = state.castling_rights;
        self.half_move_clock = state.half_move_clock;
        match mv.flag() {
            MoveFlag::Normal => {
                let moved = self.piece_at(to).unwrap();
                self.remove_piece(to);
                self.put_piece(moved, from);
                match state.captured {
                    Some(cap) => {
                        self.put_piece(cap, to);
                    },
                    None => {},
                }
            },
            MoveFlag::Promo => {
                self.remove_piece(to);
                self.put_piece(Piece::new(us, PieceType::Pawn), from);
                match state.captured {
                    Some(cap) => {
                        self.put_piece(cap, to);
                    },
                    None => {},
                }
            },
            MoveFlag::EnPassant => {
                self.remove_piece(to);
                self.put_piece(Piece::new(us, PieceType::Pawn), from);
                let cap_sq = Square::new(to.file(), from.rank());
                self.put_piece(Piece::new(us.flip(), PieceType::Pawn), cap_sq);
            },
            MoveFlag::Castling => {
                let (rook_from, rook_to) = castling_rook_squares(to);
                self.remove_piece(to);
                self.put_piece(Piece::new(us, PieceType::King), from);
                self.remove_piece(rook_to);
                self.put_piece(Piece::new(us, PieceType::Rook), rook_from);
            },
        }
        // Restore pre-move hash; the put/remove calls above XOR'd piece keys
        // that are not needed since we're restoring the saved snapshot.
        self.hash = state.hash;
        proof {
            assert forall|prev: Board| make_pre(prev, mv) && reversible(prev, mv) && made(prev, mv, b0) && state == spec_state(prev, mv)
                implies *self == prev by {
                assert(self.mailbox@ =~= prev.mailbox@);
                lemma_sync_unique(*self, prev);
            }
        }
    }

    // ── Zobrist ───────────────────────────────────────────────────────────────

    /// Recompute the Zobrist hash from scratch.
    pub fn compute_hash(&self) -> (h: u64)
        requires
            self.castling_rights.0 < 16,
            self.en_passant matches Some(sq) ==> sq.valid(),
        ensures
            h == spec_hash(*self),
    {
        let mut h: u64 = 0;
        let mut sq: usize = 0;
        while sq < 64
            invariant
                sq <= 64,
                h == pieces_hash(self.keys, self.mailbox@, sq as int),
            decreases 64 - sq,
        {
            match self.mailbox[sq] {
                Some(p) => {
                    let c = match p.color {
                        Color::White => 0usize,
                        Color::Black => 1usize,
                    };
                    let pt = match p.piece_type {
                        PieceType::Pawn => 0usize,
                        PieceType::Knight => 1usize,
                        PieceType::Bishop => 2usize,
                        PieceType::Rook => 3usize,
                        PieceType::Queen => 4usize,
                        PieceType::King => 5usize,
                    };
                    h = h ^ self.keys.piece_sq[c][pt][sq];
                },
                None => {
                    proof {
                        lemma_xor_assoc(h, 0, 0);
                    }
                },
            }
            sq = sq + 1;
        }
        let side: u64 = match self.side_to_move {
            Color::White => 0,
            Color::Black => self.keys.side,
        };
        let cr = self.keys.castling[self.castling_rights.0 as usize];
        let ep: u64 = match self.en_passant {
            Some(s) => self.keys.en_passant[s.file() as usize],
            None => 0,
        };
        h ^ side ^ cr ^ ep
    }

    // ── Attack queries ────────────────────────────────────────────────────────

    /// Returns true if `sq` is attacked by any piece of `by`.
    pub fn is_attacked_by(&self, sq: Square, by: Color) -> (r: bool)
        requires
            self.sync(),
            sq.valid(),
        ensures
            r == spec_attacked(*self, sq.0 as int, by),
    {
        let occ = self.all_occupancy;
        let ghost t = sq.0 as int;
        let pawns = self.piece_bb(by, PieceType::Pawn);
        let pa = pawn_attacks(by.flip(), sq);
        proof {
            lemma_and_nonzero(pa, pawns);
        }
        if pa & pawns != 0 {
            proof {
                let s = choose|s: u64| s < 64 && #[trigger] bb_has(pa, s) && bb_has(pawns, s);
                assert(holds(self.mailbox@, s as int, by, PieceType::Pawn));
                assert(attacker(*self, s as int, t, by));
            }
            return true;
        }
        let knights = self.piece_bb(by, PieceType::Knight);
        let na = knight_attacks(sq);
        proof {
            lemma_and_nonzero(na, knights);
        }
        if na & knights != 0 {
            proof {
                let s = choose|s: u64| s < 64 && #[trigger] bb_has(na, s) && bb_has(knights, s);
                assert(holds(self.mailbox@, s as int, by, PieceType::Knight));
                assert(attacker(*self, s as int, t, by));
            }
            return true;
        }
        let kings = self.piece_bb(by, PieceType::King);
        let ka = king_attacks(sq);
        proof {
            lemma_and_nonzero(ka, kings);
        }
        if ka & kings != 0 {
            proof {
                let s = choose|s: u64| s < 64 && #[trigger] bb_has(ka, s) && bb_has(kings, s);
                assert(holds(self.mailbox@, s as int, by, PieceType::King));
                assert(attacker(*self, s as int, t, by));
            }
            return true;
        }
        let bishops = self.piece_bb(by, PieceType::Bishop);
        let rooks = self.piece_bb(by, PieceType::Rook);
        let queens = self.piece_bb(by, PieceType::Queen);
        let diag = bishop_attacks(sq, occ);
        proof {
            lemma_bits_all(bishops, queens);
            lemma_and_nonzero(diag, bishops | queens);
        }
        if diag & (bishops | queens) != 0 {
            proof {
                let s = choose|s: u64| s < 64 && #[trigger] bb_has(diag, s) && bb_has(bishops | queens, s);
                assert(holds(self.mailbox@, s as int, by, PieceType::Bishop) || holds(self.mailbox@, s as int, by, PieceType::Queen));
                assert(attacker(*self, s as int, t, by));
            }
            return true;
        }
        let ortho = rook_attacks(sq, occ);
        proof {
            lemma_bits_all(rooks, queens);
            lemma_and_nonzero(ortho, rooks | queens);
        }
        if ortho & (rooks | queens) != 0 {
            proof {
                let s = choose|s: u64| s < 64 && #[trigger] bb_has(ortho, s) && bb_has(rooks | queens, s);
                assert(holds(self.mailbox@, s as int, by, PieceType::Rook) || holds(self.mailbox@, s as int, by, PieceType::Queen));
                assert(attacker(*self, s as int, t, by));
            }
            return true;
        }
        proof {
            assert forall|s: int| !#[trigger] attacker(*self, s, t, by) by {
                if attacker(*self, s, t, by) {
                    let su = s as u64;
                    let pt = self.mailbox[s].unwrap().piece_type;
                    assert(holds(self.mailbox@, s, by, pt));
                    assert(bb_has(self.pieces[by.index()][pt.index()], su));
                    match pt {
                        PieceType::Pawn => {
                            assert(bb_has(pa, su));
                        },
                        PieceType::Knight => {
                            assert(bb_has(na, su));
                        },
                        PieceType::King => {
                            assert(bb_has(ka, su));
                        },
                        PieceType::Bishop => {
                            assert(bb_has(diag, su));
                            assert(bb_has(bishops | queens, su));
                        },
                        PieceType::Rook => {
                            assert(bb_has(ortho, su));
                            assert(bb_has(rooks | queens, su));
                        },
                        PieceType::Queen => {
                            assert(bb_has(bishops | queens, su));
                            assert(bb_has(rooks | queens, su));
                            if spec_bishop_attack(t, occ, s) {
                                assert(bb_has(diag, su));
                            } else {
                                assert(bb_has(ortho, su));
                            }
                        },
                    }
                }
            }
        }
        false
    }

    /// Returns true if the side to move's king is currently in check.
    pub fn is_in_check(&self) -> (r: bool)
        requires
            self.sync(),
        ensures
            r == spec_in_check(*self),
    {
        let king_bb = self.piece_bb(self.side_to_move, PieceType::King);
        if king_bb == 0 {
            return false;
        }
        let k = lsb(king_bb);
        self.is_attacked_by(k, self.side_to_move.flip())
    }

    // ── Queries ───────────────────────────────────────────────────────────────

    /// O(1) piece lookup via mailbox.
    pub fn piece_at(&self, sq: Square) -> (p: Option<Piece>)
        requires
            sq.valid(),
        ensures
            p == self.mailbox[sq.0 as int],
    {
        self.mailbox[sq.0 as usize]
    }

    /// Bitboard for a specific (color, piece type) combination.
    pub fn piece_bb(&self, color: Color, pt: PieceType) -> (b: u64)
        ensures
            b == self.pieces[color.index()][pt.index()],
    {
        let c = match color {
            Color::White => 0usize,
            Color::Black => 1usize,
        };
        let p = match pt {
            PieceType::Pawn => 0usize,
            PieceType::Knight => 1usize,
            PieceType::Bishop => 2usize,
            PieceType::Rook => 3usize,
            PieceType::Queen => 4usize,
            PieceType::King => 5usize,
        };
        self.pieces[c][p]
    }
}

// ── Null move ─────────────────────────────────────────────────────────────────

/// What a null move changes and `unmake_null_move` restores.
#[derive(Clone, Copy, Debug)]
pub struct NullMoveState {
    pub en_passant: Option<Square>,
    pub hash: u64,
}

/// `after` is `b` with the turn passed: the other side moves, no en-passant target.
pub open spec fn null_made(b: Board, after: Board) -> bool {
    &&& after.wf()
    &&& after.mailbox@ == b.mailbox@
    &&& after.side_to_move == b.side_to_move.opposite()
    &&& after.castling_rights == b.castling_rights
    &&& after.en_passant is None
    &&& after.half_move_clock == b.half_move_clock
    &&& after.full_move_number == b.full_move_number
    &&& after.keys == b.keys
}

impl Board {
    /// Pass the turn (used by null-move pruning); the move counters are kept.
    pub fn make_null_move(&mut self) -> (ns: NullMoveState)
        requires
            old(self).wf(),
        ensures
            null_made(*old(self), *final(self)),
            ns == (NullMoveState { en_passant: old(self).en_passant, hash: old(self).hash }),
    {
        let ns = NullMoveState { en_passant: self.en_passant, hash: self.hash };
        self.side_to_move = self.side_to_move.flip();
        self.en_passant = None;
        self.hash = self.compute_hash();
        ns
    }

    /// Undo `make_null_move`.
    pub fn unmake_null_move(&mut self, ns: NullMoveState)
        requires
            exists|prev: Board| prev.wf() && null_made(prev, *old(self)) && ns == (NullMoveState {
                en_passant: prev.en_passant,
                hash: prev.hash,
            }),
        ensures
            forall|prev: Board| prev.wf() && null_made(prev, *old(self)) && ns == (NullMoveState {
                en_passant: prev.en_passant,
                hash: prev.hash,
            }) ==> *final(self) == prev,
    {
        let ghost b0 = *self;
        self.side_to_move = self.side_to_move.flip();
        self.en_passant = ns.en_passant;
        self.hash = ns.hash;
        proof {
            assert forall|prev: Board| prev.wf() && null_made(prev, b0) && ns == (NullMoveState {
                en_passant: prev.en_passant,
                hash: prev.hash,
            }) implies *self == prev by {
                lemma_sync_unique(*self, prev);
            }
        }
    }
}

/// Passing the turn keeps a board valid.
pub proof fn lemma_null_valid(b: Board, after: Board)
    requires
        b.valid(),
        null_made(b, after),
    ensures
        after.valid(),
{
}

/// A consistent board is determined by its position: squares, side to move,
/// castling rights, en-passant target and the two move counters.
pub proof fn lemma_board_ext(a: Board, b: Board)
    requires
        a.wf(),
        b.wf(),
        a.mailbox@ == b.mailbox@,
        a.side_to_move == b.side_to_move,
        a.castling_rights == b.castling_rights,
        a.en_passant == b.en_passant,
        a.half_move_clock == b.half_move_clock,
        a.full_move_number == b.full_move_number,
    ensures
        a == b,
{
    lemma_sync_unique(a, b);
    lemma_keys_unique(a.keys, b.keys);
}

/// Two synchronised boards with the same squares have the same bitboards.
pub proof fn lemma_sync_unique(a: Board, b: Board)
    requires
        a.sync(),
        b.sync(),
        a.mailbox@ == b.mailbox@,
    ensures
        a.pieces == b.pieces,
        a.occupancy == b.occupancy,
        a.all_occupancy == b.all_occupancy,
        a.mailbox == b.mailbox,
{
    assert forall|c: int, p: int| 0 <= c < 2 && 0 <= p < 6 implies a.pieces[c][p] == b.pieces[c][p] by {
        let col = if c == 0 { Color::White } else { Color::Black };
        let pt = if p == 0 { PieceType::Pawn } else if p == 1 { PieceType::Knight } else if p == 2 { PieceType::Bishop }
            else if p == 3 { PieceType::Rook } else if p == 4 { PieceType::Queen } else { PieceType::King };
        assert(col.index() == c && pt.index() == p);
        assert forall|s: u64| s < 64 implies (bb_has(a.pieces[c][p], s) <==> bb_has(b.pieces[c][p], s)) by {
            assert(bb_has(a.pieces[col.index()][pt.index()], s) <==> holds(a.mailbox@, s as int, col, pt));
            assert(bb_has(b.pieces[col.index()][pt.index()], s) <==> holds(b.mailbox@, s as int, col, pt));
        }
        lemma_bb_ext(a.pieces[c][p], b.pieces[c][p]);
    }
    assert forall|c: int| 0 <= c < 2 implies a.pieces[c] == b.pieces[c] by {
        assert(a.pieces[c] =~= b.pieces[c]);
    }
    assert(a.pieces =~= b.pieces);
    assert forall|c: int| 0 <= c < 2 implies a.occupancy[c] == b.occupancy[c] by {
        let col = if c == 0 { Color::White } else { Color::Black };
        assert(col.index() == c);
        assert forall|s: u64| s < 64 implies (bb_has(a.occupancy[c], s) <==> bb_has(b.occupancy[c], s)) by {
            assert(bb_has(a.occupancy[col.index()], s) <==> holds_color(a.mailbox@, s as int, col));
            assert(bb_has(b.occupancy[col.index()], s) <==> holds_color(b.mailbox@, s as int, col));
        }
        lemma_bb_ext(a.occupancy[c], b.occupancy[c]);
    }
    assert(a.occupancy =~= b.occupancy);
    assert forall|s: u64| s < 64 implies (bb_has(a.all_occupancy, s) <==> bb_has(b.all_occupancy, s)) by {
        assert(bb_has(a.all_occupancy, s) <==> a.mailbox[s as int] is Some);
        assert(bb_has(b.all_occupancy, s) <==> b.mailbox[s as int] is Some);
    }
    lemma_bb_ext(a.all_occupancy, b.all_occupancy);
    assert(a.mailbox =~= b.mailbox);
}

/// Changing the side, castling and en-passant fields while XOR-ing the matching key
/// differences into the stored hash keeps the hash error unchanged.
proof fn lemma_hash_err_fields(a: Board, b: Board)
    requires
        b.mailbox@ == a.mailbox@,
        b.keys == a.keys,
        b.hash == a.hash ^ ((side_key(a.keys, a.side_to_move) ^ side_key(a.keys, b.side_to_move)) ^ (a.keys.castling[a.castling_rights.0 as int]
            ^ a.keys.castling[b.castling_rights.0 as int]) ^ (ep_key(a.keys, a.en_passant) ^ ep_key(a.keys, b.en_passant))),
    ensures
        b.hash_err() == a.hash_err(),
{
    lemma_xor_fields(a.hash, pieces_hash(a.keys, a.mailbox@, 64), side_key(a.keys, a.side_to_move), side_key(a.keys, b.side_to_move),
        a.keys.castling[a.castling_rights.0 as int], a.keys.castling[b.castling_rights.0 as int], ep_key(a.keys, a.en_passant),
        ep_key(a.keys, b.en_passant));
}

proof fn lemma_xor_fields(h: u64, p: u64, s1: u64, s2: u64, c1: u64, c2: u64, e1: u64, e2: u64)
    by (bit_vector)
    ensures
        (h ^ ((s1 ^ s2) ^ (c1 ^ c2) ^ (e1 ^ e2))) ^ (((p ^ s2) ^ c2) ^ e2) == h ^ (((p ^ s1) ^ c1) ^ e1),
{
}

proof fn lemma_xor_zero(a: u64, b: u64)
    by (bit_vector)
    ensures
        (a ^ b == 0) <==> (a == b),
{
}

proof fn lemma_and_le(x: u8, m1: u8, m2: u8)
    by (bit_vector)
    ensures
        x & m1 & m2 <= x,
{
}

proof fn lemma_pieces_hash_empty(k: ZobristKeys, mb: Seq<Option<Piece>>, n: int)
    requires
        n <= mb.len(),
        forall|s: int| 0 <= s < mb.len() ==> mb[s] is None,
    ensures
        pieces_hash(k, mb, n) == 0,
    decreases n,
{
    if n > 0 {
        lemma_pieces_hash_empty(k, mb, n - 1);
        lemma_xor_assoc(0, 0, 0);
    }
}

/// Replacing the content of square `s` by `p` and XOR-ing both keys into the stored
/// hash keeps the hash error unchanged.
proof fn lemma_hash_err_piece_change(a: Board, b: Board, s: int, p: Option<Piece>)
    requires
        0 <= s < 64,
        b.mailbox@ == a.mailbox@.update(s, p),
        b.hash == a.hash ^ (piece_key(a.keys, a.mailbox[s], s) ^ piece_key(a.keys, p, s)),
        b.side_to_move == a.side_to_move,
        b.castling_rights == a.castling_rights,
        b.en_passant == a.en_passant,
        b.keys == a.keys,
    ensures
        b.hash_err() == a.hash_err(),
{
    lemma_pieces_hash_update(a.keys, a.mailbox@, s, p, 64);
    let d = piece_key(a.keys, a.mailbox[s], s) ^ piece_key(a.keys, p, s);
    let ph = pieces_hash(a.keys, a.mailbox@, 64);
    let rest = side_key(a.keys, a.side_to_move) ^ a.keys.castling[a.castling_rights.0 as int] ^ ep_key(a.keys, a.en_passant);
    lemma_xor_shift(a.hash, d, ph, side_key(a.keys, a.side_to_move), a.keys.castling[a.castling_rights.0 as int], ep_key(a.keys, a.en_passant));
}

proof fn lemma_xor_shift(h: u64, d: u64, ph: u64, x: u64, y: u64, z: u64)
    by (bit_vector)
    ensures
        (h ^ d) ^ ((((ph ^ d) ^ x) ^ y) ^ z) == h ^ (((ph ^ x) ^ y) ^ z),
{
}

} // verus!
