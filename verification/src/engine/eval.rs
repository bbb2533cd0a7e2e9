//! Hand-crafted static evaluation: material and piece-square tables, pawn
//! structure, rooks, bishop pair, king safety, mobility and check pressure, each
//! blended between middlegame and endgame weights by the game phase.
use vstd::prelude::*;
use crate::chess::bitboard::{bb_has, spec_popcount, popcount, test_bit, lsb, spec_lsb, lemma_popcount_le_64, lemma_bb_ext,
    lemma_bits_all, square_bb, north, south, east, west, FILES, FILE_A, FILE_H, RANK_2, RANK_7, EMPTY};
use crate::chess::board::{Board, spec_in_check};
use crate::chess::movegen::{generate_legal, has_legal_move, spec_legal, spec_reach, piece_attacks, piece_type_of};
use crate::chess::moves::Move;
use crate::chess::types::{Color, Piece, PieceType, Square};
use super::pst::{PHASE_QUEEN, PHASE_ROOK, PHASE_BISHOP, PHASE_KNIGHT, PHASE_MAX, PAWN_MG, KNIGHT_MG, BISHOP_MG, ROOK_MG, QUEEN_MG, PAWN_EG, KNIGHT_EG, BISHOP_EG, ROOK_EG, QUEEN_EG, PAWN_PST_MG, PAWN_PST_EG, KNIGHT_PST_MG, KNIGHT_PST_EG, BISHOP_PST_MG, BISHOP_PST_EG, ROOK_PST_MG, ROOK_PST_EG, QUEEN_PST_MG, QUEEN_PST_EG, KING_PST_MG, KING_PST_EG, lemma_pst_bounds};

verus! {

/// Score (absolute value) when the side to move is checkmated.
pub const CHECKMATE_SCORE: i32 = 30_000i32;

// ── Evaluation tuning constants ───────────────────────────────────────────────

// Pawn structure
pub const DOUBLED_MG: i32 = -12i32;
pub const DOUBLED_EG: i32 = -24i32;
pub const ISOLATED_MG: i32 = -15i32;
pub const ISOLATED_EG: i32 = -25i32;
pub const ISLAND_MG: i32 = -8i32;
pub const ISLAND_EG: i32 = -12i32;

// Passed pawn bonus by rank-advancement (0 = still on starting rank, 5 = one step from promotion)
pub const PASSED_MG: [i32; 6] = [0, 10, 20, 35, 55, 75];
pub const PASSED_EG: [i32; 6] = [0, 20, 40, 65, 105, 150];

// Rook positional bonuses
pub const ROOK_OPEN_MG: i32 = 22i32;
pub const ROOK_OPEN_EG: i32 = 28i32;
pub const ROOK_SEMI_MG: i32 = 10i32;
pub const ROOK_SEMI_EG: i32 = 16i32;
pub const ROOK_SEVENTH_MG: i32 = 16i32;
pub const ROOK_SEVENTH_EG: i32 = 28i32;

// Bishop pair
pub const BISHOP_PAIR_MG: i32 = 25i32;
pub const BISHOP_PAIR_EG: i32 = 50i32;

// King safety (middlegame only)
pub const PAWN_SHIELD_MG: i32 = 15i32;
pub const KING_OPEN_FILE_MG: i32 = -40i32;

// Mobility: bonus per attacked square not held by the mover
pub const MOB_KNIGHT: i32 = 7i32;
pub const MOB_BISHOP: i32 = 5i32;
pub const MOB_ROOK: i32 = 3i32;
pub const MOB_QUEEN: i32 = 2i32;

// Check pressure
pub const CHECK_PENALTY: i32 = 60i32;

/// Bound on every intermediate score of the evaluation.
pub open spec fn score_bound() -> int {
    1_000_000
}

// ── Arithmetic model ──────────────────────────────────────────────────────────

/// Integer division rounding toward zero, as Rust's `/` on signed integers.
pub open spec fn tdiv(a: int, b: int) -> int {
    if a >= 0 {
        a / b
    } else {
        -((-a) / b)
    }
}

/// +1 for White, -1 for Black.
pub open spec fn side_sign(c: Color) -> int {
    if c == Color::White {
        1
    } else {
        -1
    }
}

/// Linear interpolation: full MG weight at phase = PHASE_MAX, full EG weight at 0.
pub open spec fn spec_taper(mg: int, eg: int, phase: int) -> int {
    tdiv(mg * phase + eg * (PHASE_MAX - phase), PHASE_MAX as int)
}

fn taper(mg: i32, eg: i32, phase: i32) -> (r: i32)
    requires
        -score_bound() <= mg <= score_bound(),
        -score_bound() <= eg <= score_bound(),
        0 <= phase <= PHASE_MAX,
    ensures
        r == spec_taper(mg as int, eg as int, phase as int),
        -score_bound() <= r <= score_bound(),
{
    proof {
        assert(-score_bound() * PHASE_MAX <= mg * phase <= score_bound() * PHASE_MAX) by (nonlinear_arith)
            requires
                -score_bound() <= mg <= score_bound(),
                0 <= phase <= PHASE_MAX,
        ;
        assert(-score_bound() * PHASE_MAX <= eg * (PHASE_MAX - phase) <= score_bound() * PHASE_MAX) by (nonlinear_arith)
            requires
                -score_bound() <= eg <= score_bound(),
                0 <= phase <= PHASE_MAX,
        ;
        assert(-score_bound() * PHASE_MAX <= mg * phase + eg * (PHASE_MAX - phase) <= score_bound() * PHASE_MAX)
            by (nonlinear_arith)
            requires
                -score_bound() <= mg <= score_bound(),
                -score_bound() <= eg <= score_bound(),
                0 <= phase <= PHASE_MAX,
        ;
    }
    (mg * phase + eg * (PHASE_MAX - phase)) / PHASE_MAX
}

// ── Game phase ────────────────────────────────────────────────────────────────

/// Weighted count of the queens, rooks, bishops and knights of both sides.
pub open spec fn phase_count(b: Board) -> int {
    let q = spec_popcount(b.pieces[0][4]) + spec_popcount(b.pieces[1][4]);
    let r = spec_popcount(b.pieces[0][3]) + spec_popcount(b.pieces[1][3]);
    let bi = spec_popcount(b.pieces[0][2]) + spec_popcount(b.pieces[1][2]);
    let n = spec_popcount(b.pieces[0][1]) + spec_popcount(b.pieces[1][1]);
    q * PHASE_QUEEN + r * PHASE_ROOK + bi * PHASE_BISHOP + n * PHASE_KNIGHT
}

/// Current phase: PHASE_MAX = opening, 0 = bare-king endgame.
pub open spec fn spec_game_phase(b: Board) -> int {
    if phase_count(b) < PHASE_MAX {
        phase_count(b)
    } else {
        PHASE_MAX as int
    }
}

fn game_phase(board: &Board) -> (p: i32)
    ensures
        p == spec_game_phase(*board),
        0 <= p <= PHASE_MAX,
{
    let mut p: i32 = 0;
    let mut c: usize = 0;
    while c < 2
        invariant
            c <= 2,
            0 <= p <= 1024 * c,
            p == (if c >= 1 {
                spec_popcount(board.pieces[0][4]) * PHASE_QUEEN + spec_popcount(board.pieces[0][3]) * PHASE_ROOK
                    + spec_popcount(board.pieces[0][2]) * PHASE_BISHOP + spec_popcount(board.pieces[0][1]) * PHASE_KNIGHT
            } else {
                0
            }) + (if c >= 2 {
                spec_popcount(board.pieces[1][4]) * PHASE_QUEEN + spec_popcount(board.pieces[1][3]) * PHASE_ROOK
                    + spec_popcount(board.pieces[1][2]) * PHASE_BISHOP + spec_popcount(board.pieces[1][1]) * PHASE_KNIGHT
            } else {
                0
            }),
        decreases 2 - c,
    {
        proof {
            lemma_popcount_le_64(board.pieces[c as int][4]);
            lemma_popcount_le_64(board.pieces[c as int][3]);
            lemma_popcount_le_64(board.pieces[c as int][2]);
            lemma_popcount_le_64(board.pieces[c as int][1]);
        }
        p = p + popcount(board.pieces[c][4]) as i32 * PHASE_QUEEN;
        p = p + popcount(board.pieces[c][3]) as i32 * PHASE_ROOK;
        p = p + popcount(board.pieces[c][2]) as i32 * PHASE_BISHOP;
        p = p + popcount(board.pieces[c][1]) as i32 * PHASE_KNIGHT;
        c = c + 1;
    }
    if p < PHASE_MAX {
        p
    } else {
        PHASE_MAX
    }
}

// ── Material + piece-square tables ───────────────────────────────────────────

pub open spec fn piece_value(pt: PieceType, eg: bool) -> int {
    match pt {
        PieceType::Pawn => if eg { PAWN_EG as int } else { PAWN_MG as int },
        PieceType::Knight => if eg { KNIGHT_EG as int } else { KNIGHT_MG as int },
        PieceType::Bishop => if eg { BISHOP_EG as int } else { BISHOP_MG as int },
        PieceType::Rook => if eg { ROOK_EG as int } else { ROOK_MG as int },
        PieceType::Queen => if eg { QUEEN_EG as int } else { QUEEN_MG as int },
        PieceType::King => 0,
    }
}

pub open spec fn pst_value(pt: PieceType, eg: bool, i: int) -> int {
    match pt {
        PieceType::Pawn => if eg { PAWN_PST_EG@[i] as int } else { PAWN_PST_MG@[i] as int },
        PieceType::Knight => if eg { KNIGHT_PST_EG@[i] as int } else { KNIGHT_PST_MG@[i] as int },
        PieceType::Bishop => if eg { BISHOP_PST_EG@[i] as int } else { BISHOP_PST_MG@[i] as int },
        PieceType::Rook => if eg { ROOK_PST_EG@[i] as int } else { ROOK_PST_MG@[i] as int },
        PieceType::Queen => if eg { QUEEN_PST_EG@[i] as int } else { QUEEN_PST_MG@[i] as int },
        PieceType::King => if eg { KING_PST_EG@[i] as int } else { KING_PST_MG@[i] as int },
    }
}

/// Table index of a piece on `s`: the square itself for White, mirrored for Black.
pub open spec fn pst_index(c: Color, s: int) -> int {
    if c == Color::White {
        s
    } else {
        (7 - s / 8) * 8 + s % 8
    }
}

/// Signed material and table value of the piece on `s`.
pub open spec fn material_term(mb: Seq<Option<Piece>>, s: int, eg: bool) -> int {
    match mb[s] {
        None => 0,
        Some(p) => side_sign(p.color) * (piece_value(p.piece_type, eg) + pst_value(p.piece_type, eg, pst_index(p.color, s))),
    }
}

pub open spec fn material_sum(mb: Seq<Option<Piece>>, n: int, eg: bool) -> int
    decreases n,
{
    if n <= 0 {
        0
    } else {
        material_sum(mb, n - 1, eg) + material_term(mb, n - 1, eg)
    }
}

pub open spec fn spec_material_pst(b: Board, phase: int) -> int {
    spec_taper(material_sum(b.mailbox@, 64, false), material_sum(b.mailbox@, 64, true), phase)
}

fn pst_pair(pt: PieceType, i: usize) -> (r: (i32, i32))
    requires
        i < 64,
    ensures
        r.0 == piece_value(pt, false) + pst_value(pt, false, i as int),
        r.1 == piece_value(pt, true) + pst_value(pt, true, i as int),
        -1100 <= r.0 <= 1100,
        -1100 <= r.1 <= 1100,
{
    proof {
        lemma_pst_bounds();
    }
    match pt {
        PieceType::Pawn => (PAWN_MG + PAWN_PST_MG[i], PAWN_EG + PAWN_PST_EG[i]),
        PieceType::Knight => (KNIGHT_MG + KNIGHT_PST_MG[i], KNIGHT_EG + KNIGHT_PST_EG[i]),
        PieceType::Bishop => (BISHOP_MG + BISHOP_PST_MG[i], BISHOP_EG + BISHOP_PST_EG[i]),
        PieceType::Rook => (ROOK_MG + ROOK_PST_MG[i], ROOK_EG + ROOK_PST_EG[i]),
        PieceType::Queen => (QUEEN_MG + QUEEN_PST_MG[i], QUEEN_EG + QUEEN_PST_EG[i]),
        PieceType::King => (KING_PST_MG[i], KING_PST_EG[i]),
    }
}

fn material_pst(board: &Board, phase: i32) -> (r: i32)
    requires
        0 <= phase <= PHASE_MAX,
    ensures
        r == spec_material_pst(*board, phase as int),
        -score_bound() <= r <= score_bound(),
{
    let mut mg: i32 = 0;
    let mut eg: i32 = 0;
    let mut sq: usize = 0;
    while sq < 64
        invariant
            sq <= 64,
            mg == material_sum(board.mailbox@, sq as int, false),
            eg == material_sum(board.mailbox@, sq as int, true),
            -1100 * sq <= mg <= 1100 * sq,
            -1100 * sq <= eg <= 1100 * sq,
        decreases 64 - sq,
    {
        match board.mailbox[sq] {
            None => {},
            Some(piece) => {
                let white = match piece.color {
                    Color::White => true,
                    Color::Black => false,
                };
                let idx = if white { sq } else { (7 - sq / 8) * 8 + sq % 8 };
                let (val_mg, val_eg) = pst_pair(piece.piece_type, idx);
                if white {
                    mg = mg + val_mg;
                    eg = eg + val_eg;
                } else {
                    mg = mg - val_mg;
                    eg = eg - val_eg;
                }
            },
        }
        sq = sq + 1;
    }
    taper(mg, eg, phase)
}

// ── Pawn structure ────────────────────────────────────────────────────────────

/// Files next to file `f`.
pub open spec fn adjacent_mask(f: int) -> u64 {
    (if f > 0 { FILES@[f - 1] } else { 0u64 }) | (if f < 7 { FILES@[f + 1] } else { 0u64 })
}

/// Doubled- and isolated-pawn terms of the files `0..n`.
pub open spec fn file_terms(ours: u64, n: int, eg: bool) -> int
    decreases n,
{
    if n <= 0 {
        0
    } else {
        let f = n - 1;
        let on_file = ours & FILES@[f];
        let cnt = spec_popcount(on_file) as int;
        let term = if on_file == 0 {
            0
        } else {
            (if cnt >= 2 { (cnt - 1) * (if eg { DOUBLED_EG } else { DOUBLED_MG }) } else { 0 }) + (if ours & adjacent_mask(f)
                == 0 {
                cnt * (if eg { ISOLATED_EG } else { ISOLATED_MG })
            } else {
                0
            })
        };
        file_terms(ours, n - 1, eg) + term
    }
}

/// Number of maximal runs of adjacent files holding a pawn, among files `0..n`.
pub open spec fn islands(pawns: u64, n: int) -> int
    decreases n,
{
    if n <= 0 {
        0
    } else {
        let f = n - 1;
        let occupied = pawns & FILES@[f] != 0;
        let starts = occupied && (f == 0 || pawns & FILES@[f - 1] == 0);
        islands(pawns, n - 1) + (if starts { 1int } else { 0 })
    }
}

/// Ranks a pawn on `s` has advanced from its starting rank.
pub open spec fn spec_rank_advancement(s: int, us: Color) -> int {
    if us == Color::White {
        if s / 8 >= 1 { s / 8 - 1 } else { 0 }
    } else {
        if 6 >= s / 8 { 6 - s / 8 } else { 0 }
    }
}

/// All squares reached by sliding `x` forward (toward the enemy) by 8, 16 and 32
/// ranks, doubling each time: the squares ahead of the bits of `x` on their files.
pub open spec fn spec_fill_forward(x: u64, us: Color) -> u64 {
    if us == Color::White {
        let a = x | (x << 8u64);
        let b = a | (a << 16u64);
        b | (b << 32u64)
    } else {
        let a = x | (x >> 8u64);
        let b = a | (a >> 16u64);
        b | (b >> 32u64)
    }
}

/// No enemy pawn stands ahead of the pawn on `s`, on its file or the adjacent ones.
pub open spec fn spec_is_passed(s: int, theirs: u64, us: Color) -> bool {
    let bb = 1u64 << (s as u64);
    let one_ahead = if us == Color::White { bb << 8u64 } else { bb >> 8u64 };
    &&& one_ahead != 0
    &&& theirs & spec_fill_forward(one_ahead, us) & (FILES@[s % 8] | adjacent_mask(s % 8)) == 0
}

/// Passed-pawn bonus of the pawns of `ours` on squares `0..n`.
pub open spec fn passed_sum(ours: u64, theirs: u64, us: Color, n: int, eg: bool) -> int
    decreases n,
{
    if n <= 0 {
        0
    } else {
        let s = n - 1;
        let adv = if spec_rank_advancement(s, us) < 5 { spec_rank_advancement(s, us) } else { 5 };
        let term = if bb_has(ours, s as u64) && spec_is_passed(s, theirs, us) {
            if eg { PASSED_EG@[adv] as int } else { PASSED_MG@[adv] as int }
        } else {
            0
        };
        passed_sum(ours, theirs, us, n - 1, eg) + term
    }
}

/// Pawn-structure score of one side (middlegame or endgame weights).
pub open spec fn pawn_side(ours: u64, theirs: u64, us: Color, eg: bool) -> int {
    let isl = islands(ours, 8);
    file_terms(ours, 8, eg) + (if isl > 1 { (isl - 1) * (if eg { ISLAND_EG } else { ISLAND_MG }) } else { 0 })
        + passed_sum(ours, theirs, us, 64, eg)
}

pub open spec fn spec_pawn_structure(b: Board, phase: int) -> int {
    let w = b.pieces[0][0];
    let bl = b.pieces[1][0];
    spec_taper(
        pawn_side(w, bl, Color::White, false) - pawn_side(bl, w, Color::Black, false),
        pawn_side(w, bl, Color::White, true) - pawn_side(bl, w, Color::Black, true),
        phase,
    )
}

fn pawn_structure(board: &Board, phase: i32) -> (r: i32)
    requires
        0 <= phase <= PHASE_MAX,
    ensures
        r == spec_pawn_structure(*board, phase as int),
        -score_bound() <= r <= score_bound(),
{
    let w = board.piece_bb(Color::White, PieceType::Pawn);
    let b = board.piece_bb(Color::Black, PieceType::Pawn);
    let (w_mg, w_eg) = pawn_eval_side(w, b, Color::White);
    let (b_mg, b_eg) = pawn_eval_side(b, w, Color::Black);
    taper(w_mg - b_mg, w_eg - b_eg, phase)
}

fn pawn_eval_side(ours: u64, theirs: u64, us: Color) -> (r: (i32, i32))
    ensures
        r.0 == pawn_side(ours, theirs, us, false),
        r.1 == pawn_side(ours, theirs, us, true),
        -100_000 <= r.0 <= 100_000,
        -100_000 <= r.1 <= 100_000,
{
    let mut mg: i32 = 0;
    let mut eg: i32 = 0;
    let mut f: usize = 0;
    while f < 8
        invariant
            f <= 8,
            mg == file_terms(ours, f as int, false),
            eg == file_terms(ours, f as int, true),
            -4000 * f <= mg <= 0,
            -4000 * f <= eg <= 0,
        decreases 8 - f,
    {
        let on_file = ours & FILES[f];
        if on_file != EMPTY {
            proof {
                lemma_popcount_le_64(on_file);
            }
            let cnt = popcount(on_file) as i32;
            if cnt >= 2 {
                mg = mg + (cnt - 1) * DOUBLED_MG;
                eg = eg + (cnt - 1) * DOUBLED_EG;
            }
            if ours & adjacent_files(f) == EMPTY {
                mg = mg + cnt * ISOLATED_MG;
                eg = eg + cnt * ISOLATED_EG;
            }
        }
        f = f + 1;
    }
    let islands = count_pawn_islands(ours) as i32;
    if islands > 1 {
        mg = mg + (islands - 1) * ISLAND_MG;
        eg = eg + (islands - 1) * ISLAND_EG;
    }
    let ghost base_mg = mg;
    let ghost base_eg = eg;
    let mut s: u8 = 0;
    while s < 64
        invariant
            s <= 64,
            mg == base_mg + passed_sum(ours, theirs, us, s as int, false),
            eg == base_eg + passed_sum(ours, theirs, us, s as int, true),
            -40_000 <= base_mg <= 0,
            -40_000 <= base_eg <= 0,
            0 <= mg - base_mg <= 150 * s,
            0 <= eg - base_eg <= 150 * s,
        decreases 64 - s,
    {
        let sq = Square(s);
        if test_bit(ours, sq) && is_passed(sq, theirs, us) {
            let a = rank_advancement(sq, us);
            let adv: usize = if a < 5 { a as usize } else { 5 };
            mg = mg + PASSED_MG[adv];
            eg = eg + PASSED_EG[adv];
        }
        s = s + 1;
    }
    (mg, eg)
}

fn adjacent_files(f: usize) -> (adj: u64)
    requires
        f < 8,
    ensures
        adj == adjacent_mask(f as int),
{
    let mut adj = EMPTY;
    if f > 0 {
        adj = adj | FILES[f - 1];
    }
    if f < 7 {
        adj = adj | FILES[f + 1];
    }
    proof {
        assert(0u64 | 0u64 == 0u64) by (bit_vector);
        assert(forall|x: u64| 0u64 | x == x) by (bit_vector);
        assert(forall|x: u64| x | 0u64 == x) by (bit_vector);
    }
    adj
}

/// Ranks this pawn has advanced from its starting rank (0 = still on rank 2/7, 5 = rank 7/2).
fn rank_advancement(sq: Square, us: Color) -> (r: u8)
    requires
        sq.valid(),
    ensures
        r == spec_rank_advancement(sq.0 as int, us),
{
    match us {
        Color::White => sq.rank().saturating_sub(1),
        Color::Black => 6u8.saturating_sub(sq.rank()),
    }
}

fn fill_forward(bb: u64, us: Color) -> (f: u64)
    ensures
        f == spec_fill_forward(bb, us),
{
    let mut f = bb;
    match us {
        Color::White => {
            f = f | (f << 8);
            f = f | (f << 16);
            f = f | (f << 32);
        },
        Color::Black => {
            f = f | (f >> 8);
            f = f | (f >> 16);
            f = f | (f >> 32);
        },
    }
    f
}

/// True if no enemy pawn blocks or guards the promotion path (same + adjacent files ahead).
fn is_passed(sq: Square, theirs: u64, us: Color) -> (r: bool)
    requires
        sq.valid(),
    ensures
        r == spec_is_passed(sq.0 as int, theirs, us),
{
    let one_ahead = match us {
        Color::White => square_bb(sq) << 8,
        Color::Black => square_bb(sq) >> 8,
    };
    if one_ahead == EMPTY {
        return false;
    }
    let ahead = fill_forward(one_ahead, us);
    let span = FILES[sq.file() as usize] | adjacent_files(sq.file() as usize);
    theirs & ahead & span == EMPTY
}

fn count_pawn_islands(pawns: u64) -> (count: u32)
    ensures
        count == islands(pawns, 8),
        count <= 8,
{
    let mut count: u32 = 0;
    let mut on_island = false;
    let mut f: usize = 0;
    while f < 8
        invariant
            f <= 8,
            count == islands(pawns, f as int),
            count <= f,
            on_island == (f > 0 && pawns & FILES@[f - 1] != 0),
        decreases 8 - f,
    {
        let occupied = pawns & FILES[f] != EMPTY;
        if occupied && !on_island {
            count = count + 1;
        }
        on_island = occupied;
        f = f + 1;
    }
    count
}

// ── Rook bonuses ──────────────────────────────────────────────────────────────

/// File and seventh-rank bonus of a rook on `s`.
pub open spec fn rook_term(s: int, our_pawns: u64, their_pawns: u64, seventh: u64, eg: bool) -> int {
    let file = FILES@[s % 8];
    (if our_pawns & file == 0 {
        if their_pawns & file == 0 {
            if eg { ROOK_OPEN_EG as int } else { ROOK_OPEN_MG as int }
        } else {
            if eg { ROOK_SEMI_EG as int } else { ROOK_SEMI_MG as int }
        }
    } else {
        0
    }) + (if bb_has(seventh, s as u64) {
        if eg { ROOK_SEVENTH_EG as int } else { ROOK_SEVENTH_MG as int }
    } else {
        0
    })
}

pub open spec fn rook_sum(rooks: u64, our_pawns: u64, their_pawns: u64, seventh: u64, n: int, eg: bool) -> int
    decreases n,
{
    if n <= 0 {
        0
    } else {
        rook_sum(rooks, our_pawns, their_pawns, seventh, n - 1, eg) + (if bb_has(rooks, (n - 1) as u64) {
            rook_term(n - 1, our_pawns, their_pawns, seventh, eg)
        } else {
            0
        })
    }
}

pub open spec fn spec_rook_eval(b: Board, phase: int) -> int {
    let wp = b.pieces[0][0];
    let bp = b.pieces[1][0];
    let wr = b.pieces[0][3];
    let br = b.pieces[1][3];
    spec_taper(
        rook_sum(wr, wp, bp, RANK_7, 64, false) - rook_sum(br, bp, wp, RANK_2, 64, false),
        rook_sum(wr, wp, bp, RANK_7, 64, true) - rook_sum(br, bp, wp, RANK_2, 64, true),
        phase,
    )
}

fn rook_eval(board: &Board, phase: i32) -> (r: i32)
    requires
        0 <= phase <= PHASE_MAX,
    ensures
        r == spec_rook_eval(*board, phase as int),
        -score_bound() <= r <= score_bound(),
{
    let w_pawns = board.piece_bb(Color::White, PieceType::Pawn);
    let b_pawns = board.piece_bb(Color::Black, PieceType::Pawn);
    let (w_mg, w_eg) = rook_eval_side(board, Color::White, w_pawns, b_pawns, RANK_7);
    let (b_mg, b_eg) = rook_eval_side(board, Color::Black, b_pawns, w_pawns, RANK_2);
    taper(w_mg - b_mg, w_eg - b_eg, phase)
}

fn rook_eval_side(board: &Board, us: Color, our_pawns: u64, their_pawns: u64, seventh: u64) -> (r: (i32, i32))
    ensures
        r.0 == rook_sum(board.pieces[us.index()][3], our_pawns, their_pawns, seventh, 64, false),
        r.1 == rook_sum(board.pieces[us.index()][3], our_pawns, their_pawns, seventh, 64, true),
        0 <= r.0 <= 64 * 60,
        0 <= r.1 <= 64 * 60,
{
    let rooks = board.piece_bb(us, PieceType::Rook);
    let mut mg: i32 = 0;
    let mut eg: i32 = 0;
    let mut s: u8 = 0;
    while s < 64
        invariant
            s <= 64,
            rooks == board.pieces[us.index()][3],
            mg == rook_sum(rooks, our_pawns, their_pawns, seventh, s as int, false),
            eg == rook_sum(rooks, our_pawns, their_pawns, seventh, s as int, true),
            0 <= mg <= 60 * s,
            0 <= eg <= 60 * s,
        decreases 64 - s,
    {
        let sq = Square(s);
        if test_bit(rooks, sq) {
            let file = FILES[sq.file() as usize];
            if our_pawns & file == EMPTY {
                if their_pawns & file == EMPTY {
                    mg = mg + ROOK_OPEN_MG;
                    eg = eg + ROOK_OPEN_EG;
                } else {
                    mg = mg + ROOK_SEMI_MG;
                    eg = eg + ROOK_SEMI_EG;
                }
            }
            if test_bit(seventh, sq) {
                mg = mg + ROOK_SEVENTH_MG;
                eg = eg + ROOK_SEVENTH_EG;
            }
        }
        s = s + 1;
    }
    (mg, eg)
}

// ── Bishop pair ───────────────────────────────────────────────────────────────

pub open spec fn spec_bishop_pair(b: Board, phase: int) -> int {
    let w: int = if spec_popcount(b.pieces[0][2]) >= 2 { 1 } else { 0 };
    let bl: int = if spec_popcount(b.pieces[1][2]) >= 2 { 1 } else { 0 };
    spec_taper((w - bl) * BISHOP_PAIR_MG, (w - bl) * BISHOP_PAIR_EG, phase)
}

fn bishop_pair(board: &Board, phase: i32) -> (r: i32)
    requires
        0 <= phase <= PHASE_MAX,
    ensures
        r == spec_bishop_pair(*board, phase as int),
        -score_bound() <= r <= score_bound(),
{
    let w: i32 = if popcount(board.piece_bb(Color::White, PieceType::Bishop)) >= 2 { 1 } else { 0 };
    let b: i32 = if popcount(board.piece_bb(Color::Black, PieceType::Bishop)) >= 2 { 1 } else { 0 };
    taper((w - b) * BISHOP_PAIR_MG, (w - b) * BISHOP_PAIR_EG, phase)
}

// ── King safety ───────────────────────────────────────────────────────────────

/// The two rows of squares in front of the king (its file and the neighbouring ones).
pub open spec fn spec_pawn_shield(s: int, us: Color) -> u64 {
    let bb = 1u64 << (s as u64);
    let fwd1 = if us == Color::White { bb << 8u64 } else { bb >> 8u64 };
    let fwd2 = if us == Color::White { fwd1 << 8u64 } else { fwd1 >> 8u64 };
    let row1 = fwd1 | ((fwd1 & !FILE_H) << 1u64) | ((fwd1 & !FILE_A) >> 1u64);
    let row2 = fwd2 | ((fwd2 & !FILE_H) << 1u64) | ((fwd2 & !FILE_A) >> 1u64);
    row1 | row2
}

/// Shield and open-file terms of the king of `us` (the lowest one, if several).
pub open spec fn king_side(b: Board, us: Color) -> int {
    let kings = b.pieces[us.index()][5];
    if kings == 0 {
        0
    } else {
        let s = spec_lsb(kings) as int;
        let all_pawns = b.pieces[0][0] | b.pieces[1][0];
        spec_popcount(b.pieces[us.index()][0] & spec_pawn_shield(s, us)) * PAWN_SHIELD_MG + (if all_pawns & FILES@[s
            % 8] == 0 {
            KING_OPEN_FILE_MG as int
        } else {
            0
        })
    }
}

pub open spec fn spec_king_safety(b: Board, phase: int) -> int {
    if phase <= PHASE_MAX / 4 {
        0
    } else {
        tdiv((king_side(b, Color::White) - king_side(b, Color::Black)) * (phase - PHASE_MAX / 4), 3 * PHASE_MAX / 4)
    }
}

fn king_safety(board: &Board, phase: i32) -> (r: i32)
    requires
        0 <= phase <= PHASE_MAX,
    ensures
        r == spec_king_safety(*board, phase as int),
        -score_bound() <= r <= score_bound(),
{
    if phase <= PHASE_MAX / 4 {
        return 0;
    }
    let mg = king_safety_side(board, Color::White) - king_safety_side(board, Color::Black);
    proof {
        assert(-2000 * 18 <= mg * (phase - PHASE_MAX / 4) <= 2000 * 18) by (nonlinear_arith)
            requires
                -2000 <= mg <= 2000,
                0 < phase - PHASE_MAX / 4 <= 18,
        ;
    }
    mg * (phase - PHASE_MAX / 4) / (3 * PHASE_MAX / 4)
}

fn king_safety_side(board: &Board, us: Color) -> (r: i32)
    ensures
        r == king_side(*board, us),
        -1000 <= r <= 1000,
{
    let king_bb = board.piece_bb(us, PieceType::King);
    if king_bb == EMPTY {
        return 0;
    }
    let king_sq = lsb(king_bb);
    let our_pawns = board.piece_bb(us, PieceType::Pawn);
    let shield = pawn_shield(king_sq, us);
    proof {
        lemma_popcount_le_64(our_pawns & shield);
    }
    let mut score: i32 = popcount(our_pawns & shield) as i32 * PAWN_SHIELD_MG;
    let king_file = FILES[king_sq.file() as usize];
    let all_pawns = board.piece_bb(Color::White, PieceType::Pawn) | board.piece_bb(Color::Black, PieceType::Pawn);
    if all_pawns & king_file == EMPTY {
        score = score + KING_OPEN_FILE_MG;
    }
    score
}

fn pawn_shield(king_sq: Square, us: Color) -> (s: u64)
    requires
        king_sq.valid(),
    ensures
        s == spec_pawn_shield(king_sq.0 as int, us),
{
    let bb = square_bb(king_sq);
    let white = match us {
        Color::White => true,
        Color::Black => false,
    };
    let fwd1 = if white { north(bb) } else { south(bb) };
    let fwd2 = if white { north(fwd1) } else { south(fwd1) };
    let row1 = fwd1 | east(fwd1) | west(fwd1);
    let row2 = fwd2 | east(fwd2) | west(fwd2);
    row1 | row2
}

// ── Mobility ──────────────────────────────────────────────────────────────────

/// `x` holds exactly the squares a piece of type `pt` on `s` attacks.
pub open spec fn is_attack_set(x: u64, pt: PieceType, s: int, occ: u64) -> bool {
    forall|i: u64| i < 64 ==> (#[trigger] bb_has(x, i) <==> spec_reach(pt, s, i as int, occ))
}

/// Squares a knight, bishop, rook or queen on `s` attacks.
pub open spec fn attack_set(pt: PieceType, s: int, occ: u64) -> u64 {
    choose|x: u64| #[trigger] is_attack_set(x, pt, s, occ)
}

pub open spec fn mob_weight(pt: PieceType) -> int {
    match pt {
        PieceType::Knight => MOB_KNIGHT as int,
        PieceType::Bishop => MOB_BISHOP as int,
        PieceType::Rook => MOB_ROOK as int,
        PieceType::Queen => MOB_QUEEN as int,
        _ => 0,
    }
}

/// Mobility of the piece of `us` on `s`: attacked squares not held by `us`, weighted.
pub open spec fn mob_term(b: Board, us: Color, s: int) -> int {
    match b.mailbox[s] {
        Some(p) => if p.color == us && p.piece_type != PieceType::Pawn && p.piece_type != PieceType::King {
            spec_popcount(attack_set(p.piece_type, s, b.all_occupancy) & !b.occupancy[us.index()]) * mob_weight(p.piece_type)
        } else {
            0
        },
        None => 0,
    }
}

pub open spec fn mob_sum(b: Board, us: Color, n: int) -> int
    decreases n,
{
    if n <= 0 {
        0
    } else {
        mob_sum(b, us, n - 1) + mob_term(b, us, n - 1)
    }
}

pub open spec fn spec_mobility(b: Board, phase: int) -> int {
    spec_taper(mob_sum(b, Color::White, 64) - mob_sum(b, Color::Black, 64), 0, phase)
}

fn mobility(board: &Board, phase: i32) -> (r: i32)
    requires
        board.wf(),
        0 <= phase <= PHASE_MAX,
    ensures
        r == spec_mobility(*board, phase as int),
        -score_bound() <= r <= score_bound(),
{
    let occ = board.all_occupancy;
    let w = mobility_side(board, Color::White, occ);
    let b = mobility_side(board, Color::Black, occ);
    taper(w - b, 0, phase)
}

fn mobility_side(board: &Board, us: Color, occ: u64) -> (r: i32)
    requires
        board.wf(),
        occ == board.all_occupancy,
    ensures
        r == mob_sum(*board, us, 64),
        0 <= r <= 64 * 64 * 7,
{
    let c: usize = match us {
        Color::White => 0,
        Color::Black => 1,
    };
    let own = board.occupancy[c];
    let free = !own;
    let mut score: i32 = 0;
    let mut s: u8 = 0;
    while s < 64
        invariant
            board.wf(),
            occ == board.all_occupancy,
            us.index() == c,
            own == board.occupancy[c as int],
            free == !own,
            s <= 64,
            score == mob_sum(*board, us, s as int),
            0 <= score <= 448 * s,
        decreases 64 - s,
    {
        let sq = Square(s);
        match board.mailbox[s as usize] {
            Some(p) => {
                let same = match (p.color, us) {
                    (Color::White, Color::White) => true,
                    (Color::Black, Color::Black) => true,
                    _ => false,
                };
                let pt: usize = match p.piece_type {
                    PieceType::Knight => 1,
                    PieceType::Bishop => 2,
                    PieceType::Rook => 3,
                    PieceType::Queen => 4,
                    _ => 0,
                };
                if same && pt != 0 {
                    let att = piece_attacks(pt, sq, occ);
                    proof {
                        assert(piece_type_of(pt as int) == p.piece_type);
                        assert(is_attack_set(att, p.piece_type, s as int, occ));
                        lemma_bb_ext(att, attack_set(p.piece_type, s as int, occ));
                        lemma_popcount_le_64(att & free);
                    }
                    let weight = match p.piece_type {
                        PieceType::Knight => MOB_KNIGHT,
                        PieceType::Bishop => MOB_BISHOP,
                        PieceType::Rook => MOB_ROOK,
                        _ => MOB_QUEEN,
                    };
                    let cnt = popcount(att & free);
                    assert(cnt <= 64);
                    assert(0 <= cnt as i32 * weight <= 64 * 7) by (nonlinear_arith)
                        requires
                            cnt <= 64,
                            0 <= weight <= 7,
                    ;
                    let add = cnt as i32 * weight;
                    assert(score <= 448 * s);
                    assert(add <= 448);
                    score = score + add;
                }
            },
            None => {},
        }
        s = s + 1;
    }
    score
}

// ── Check pressure ────────────────────────────────────────────────────────────

pub open spec fn spec_check_penalty(b: Board) -> int {
    if !spec_in_check(b) {
        0
    } else if b.side_to_move == Color::White {
        -CHECK_PENALTY
    } else {
        CHECK_PENALTY as int
    }
}

fn check_penalty(board: &Board) -> (r: i32)
    requires
        board.wf(),
    ensures
        r == spec_check_penalty(*board),
{
    if !board.is_in_check() {
        return 0;
    }
    match board.side_to_move {
        Color::White => -CHECK_PENALTY,
        Color::Black => CHECK_PENALTY,
    }
}

// ── Public API ────────────────────────────────────────────────────────────────

/// The static evaluation: the sum of the seven terms.
pub open spec fn spec_static_eval(b: Board) -> int {
    let phase = spec_game_phase(b);
    spec_material_pst(b, phase) + spec_pawn_structure(b, phase) + spec_rook_eval(b, phase) + spec_bishop_pair(b, phase)
        + spec_king_safety(b, phase) + spec_mobility(b, phase) + spec_check_penalty(b)
}

/// Static evaluation in centipawns from White's perspective.
/// Positive = White is better, negative = Black is better.
/// Does NOT detect checkmate or stalemate — the search handles those.
pub fn static_eval(board: &Board) -> (r: i32)
    requires
        board.wf(),
    ensures
        r == spec_static_eval(*board),
        -7 * score_bound() - 60 <= r <= 7 * score_bound() + 60,
{
    let phase = game_phase(board);
    material_pst(board, phase) + pawn_structure(board, phase) + rook_eval(board, phase) + bishop_pair(board, phase)
        + king_safety(board, phase) + mobility(board, phase) + check_penalty(board)
}

/// Mate and stalemate scores from White's side; otherwise the static evaluation.
pub open spec fn spec_evaluate(b: Board) -> int {
    if !has_legal_move(b) {
        if spec_in_check(b) {
            if b.side_to_move == Color::White {
                -CHECKMATE_SCORE
            } else {
                CHECKMATE_SCORE as int
            }
        } else {
            0
        }
    } else {
        spec_static_eval(b)
    }
}

/// The mated side has lost: seen from the side to move, a checkmate scores
/// `-CHECKMATE_SCORE`, so from White's side a mated Black is `+CHECKMATE_SCORE`
/// and a mated White `-CHECKMATE_SCORE`; a stalemate is a draw.
pub proof fn lemma_mated_side_loses(b: Board)
    requires
        !has_legal_move(b),
    ensures
        spec_in_check(b) ==> side_sign(b.side_to_move) * spec_evaluate(b) == -CHECKMATE_SCORE,
        spec_in_check(b) && b.side_to_move == Color::Black ==> spec_evaluate(b) > 0,
        spec_in_check(b) && b.side_to_move == Color::White ==> spec_evaluate(b) < 0,
        !spec_in_check(b) ==> spec_evaluate(b) == 0,
{
}

/// Full evaluation including checkmate/stalemate detection (from White's perspective).
pub fn evaluate(board: &Board) -> (r: i32)
    requires
        board.valid(),
        board.half_move_clock < u32::MAX,
        board.full_move_number < u32::MAX,
    ensures
        r == spec_evaluate(*board),
{
    let legal = generate_legal(board);
    if legal.is_empty() {
        proof {
            assert forall|m: Move| !spec_legal(*board, m) by {
                if spec_legal(*board, m) {
                    assert(legal@.contains(m));
                }
            }
        }
        return if board.is_in_check() {
            match board.side_to_move {
                Color::White => -CHECKMATE_SCORE,
                Color::Black => CHECKMATE_SCORE,
            }
        } else {
            0
        };
    }
    proof {
        assert(legal@.contains(legal@[0]));
    }
    static_eval(board)
}

} // verus!
