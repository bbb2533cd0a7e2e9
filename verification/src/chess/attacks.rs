use vstd::prelude::*;
use super::bitboard::{bb_has, square_bb, north_east, north_west, south_east, south_west, lemma_bits_all, lemma_single_all, lemma_zero_all, lemma_zero_bit, lemma_bb_ext, FILE_A, FILE_B, FILE_G, FILE_H};
use super::types::{Color, Square};
use super::magic::{SliderTable, init_slider_table};

verus! {

// ── Geometry ──────────────────────────────────────────────────────────────────

pub open spec fn sq_file(i: int) -> int {
    i % 8
}

pub open spec fn sq_rank(i: int) -> int {
    i / 8
}

pub open spec fn abs_diff(a: int, b: int) -> int {
    if a >= b {
        a - b
    } else {
        b - a
    }
}

/// A white pawn on `s` attacks the two squares diagonally in front of it;
/// a black pawn the two diagonally behind (from White's view).
pub open spec fn spec_pawn_attack(color: Color, s: int, t: int) -> bool {
    &&& 0 <= t < 64
    &&& abs_diff(sq_file(t), sq_file(s)) == 1
    &&& sq_rank(t) - sq_rank(s) == (if color == Color::White { 1int } else { -1int })
}

pub open spec fn spec_knight_attack(s: int, t: int) -> bool {
    let df = abs_diff(sq_file(t), sq_file(s));
    let dr = abs_diff(sq_rank(t), sq_rank(s));
    &&& 0 <= t < 64
    &&& ((df == 1 && dr == 2) || (df == 2 && dr == 1))
}

pub open spec fn spec_king_attack(s: int, t: int) -> bool {
    let df = abs_diff(sq_file(t), sq_file(s));
    let dr = abs_diff(sq_rank(t), sq_rank(s));
    &&& 0 <= t < 64
    &&& t != s
    &&& df <= 1
    &&& dr <= 1
}

pub open spec fn on_board(f: int, r: int) -> bool {
    0 <= f < 8 && 0 <= r < 8
}

pub open spec fn ray_measure(f: int, r: int, df: int, dr: int) -> int {
    if df > 0 {
        7 - f
    } else if df < 0 {
        f
    } else if dr > 0 {
        7 - r
    } else {
        r
    }
}

/// `t` is reached by a slider standing on (f, r) and moving in direction (df, dr):
/// every square up to and including the first occupied one.
pub open spec fn in_ray(f: int, r: int, df: int, dr: int, occ: u64, t: int) -> bool
    decreases ray_measure(f, r, df, dr),
{
    let nf = f + df;
    let nr = r + dr;
    if (df == 0 && dr == 0) || !on_board(f, r) || !on_board(nf, nr) {
        false
    } else if t == nr * 8 + nf {
        true
    } else if bb_has(occ, (nr * 8 + nf) as u64) {
        false
    } else {
        in_ray(nf, nr, df, dr, occ, t)
    }
}

pub open spec fn spec_rook_attack(s: int, occ: u64, t: int) -> bool {
    let f = sq_file(s);
    let r = sq_rank(s);
    in_ray(f, r, 1, 0, occ, t) || in_ray(f, r, -1, 0, occ, t) || in_ray(f, r, 0, 1, occ, t)
        || in_ray(f, r, 0, -1, occ, t)
}

pub open spec fn spec_bishop_attack(s: int, occ: u64, t: int) -> bool {
    let f = sq_file(s);
    let r = sq_rank(s);
    in_ray(f, r, 1, 1, occ, t) || in_ray(f, r, 1, -1, occ, t) || in_ray(f, r, -1, 1, occ, t)
        || in_ray(f, r, -1, -1, occ, t)
}

pub open spec fn spec_queen_attack(s: int, occ: u64, t: int) -> bool {
    spec_rook_attack(s, occ, t) || spec_bishop_attack(s, occ, t)
}

/// A square on a ray always lies on the board.
pub proof fn lemma_in_ray_on_board(f: int, r: int, df: int, dr: int, occ: u64, t: int)
    requires
        in_ray(f, r, df, dr, occ, t),
    ensures
        0 <= t < 64,
    decreases ray_measure(f, r, df, dr),
{
    let nf = f + df;
    let nr = r + dr;
    if t != nr * 8 + nf {
        lemma_in_ray_on_board(nf, nr, df, dr, occ, t);
    }
}

/// `k * d` for a unit step `d` in {-1, 0, 1}.
pub open spec fn steps(k: int, d: int) -> int {
    if d > 0 {
        k
    } else if d < 0 {
        -k
    } else {
        0
    }
}

/// `in_ray` as a formula: `t` lies `k >= 1` steps from (f, r) in direction
/// (df, dr), on the board, and every square strictly between is empty.
pub open spec fn ray_reaches(f: int, r: int, df: int, dr: int, occ: u64, t: int, k: int) -> bool {
    &&& 1 <= k
    &&& on_board(f + steps(k, df), r + steps(k, dr))
    &&& t == (r + steps(k, dr)) * 8 + f + steps(k, df)
    &&& forall|j: int| 1 <= j < k ==> !#[trigger] bb_has(occ, ((r + steps(j, dr)) * 8 + f + steps(j, df)) as u64)
}

pub open spec fn unit_dir(df: int, dr: int) -> bool {
    -1 <= df <= 1 && -1 <= dr <= 1 && !(df == 0 && dr == 0)
}

proof fn lemma_in_ray_closed(f: int, r: int, df: int, dr: int, occ: u64, t: int)
    requires
        unit_dir(df, dr),
        on_board(f, r),
    ensures
        in_ray(f, r, df, dr, occ, t) <==> exists|k: int| #[trigger] ray_reaches(f, r, df, dr, occ, t, k),
    decreases ray_measure(f, r, df, dr),
{
    let nf = f + df;
    let nr = r + dr;
    if in_ray(f, r, df, dr, occ, t) {
        if t == nr * 8 + nf {
            assert(ray_reaches(f, r, df, dr, occ, t, 1));
        } else {
            lemma_in_ray_closed(nf, nr, df, dr, occ, t);
            let k = choose|k: int| #[trigger] ray_reaches(nf, nr, df, dr, occ, t, k);
            assert forall|j: int| 1 <= j < k + 1 implies !#[trigger] bb_has(occ, ((r + steps(j, dr)) * 8 + f + steps(j, df)) as u64) by {
                if j > 1 {
                    assert(bb_has(occ, ((nr + steps(j - 1, dr)) * 8 + nf + steps(j - 1, df)) as u64) == bb_has(occ, ((r + steps(j, dr)) * 8 + f + steps(j, df)) as u64));
                }
            }
            assert(ray_reaches(f, r, df, dr, occ, t, k + 1));
        }
    }
    if exists|k: int| #[trigger] ray_reaches(f, r, df, dr, occ, t, k) {
        let k = choose|k: int| #[trigger] ray_reaches(f, r, df, dr, occ, t, k);
        assert(on_board(nf, nr));
        if k > 1 {
            assert(!bb_has(occ, ((r + steps(1, dr)) * 8 + f + steps(1, df)) as u64));
            assert(t != nr * 8 + nf);
            assert forall|j: int| 1 <= j < k - 1 implies !#[trigger] bb_has(occ, ((nr + steps(j, dr)) * 8 + nf + steps(j, df)) as u64) by {
                assert(bb_has(occ, ((r + steps(j + 1, dr)) * 8 + f + steps(j + 1, df)) as u64) == bb_has(occ, ((nr + steps(j, dr)) * 8 + nf + steps(j, df)) as u64));
            }
            assert(ray_reaches(nf, nr, df, dr, occ, t, k - 1));
            lemma_in_ray_closed(nf, nr, df, dr, occ, t);
        }
    }
}

/// A slider ray is symmetric: if `t` is reached from `s` in direction (df, dr),
/// then `s` is reached from `t` in the opposite direction.
proof fn lemma_in_ray_sym(s: int, t: int, df: int, dr: int, occ: u64)
    requires
        unit_dir(df, dr),
        0 <= s < 64,
        in_ray(sq_file(s), sq_rank(s), df, dr, occ, t),
    ensures
        in_ray(sq_file(t), sq_rank(t), -df, -dr, occ, s),
{
    let f = sq_file(s);
    let r = sq_rank(s);
    lemma_in_ray_closed(f, r, df, dr, occ, t);
    let k = choose|k: int| #[trigger] ray_reaches(f, r, df, dr, occ, t, k);
    let f2 = f + steps(k, df);
    let r2 = r + steps(k, dr);
    assert(sq_file(t) == f2 && sq_rank(t) == r2);
    assert forall|j: int| 1 <= j < k implies !#[trigger] bb_has(occ, ((r2 + steps(j, -dr)) * 8 + f2 + steps(j, -df)) as u64) by {
        assert(bb_has(occ, ((r + steps(k - j, dr)) * 8 + f + steps(k - j, df)) as u64) == bb_has(occ, ((r2 + steps(j, -dr)) * 8 + f2 + steps(j, -df)) as u64));
    }
    assert(ray_reaches(f2, r2, -df, -dr, occ, s, k));
    lemma_in_ray_closed(f2, r2, -df, -dr, occ, s);
}

/// Rook attacks are symmetric: a rook on `s` sees `t` exactly when one on `t` sees `s`.
pub proof fn lemma_rook_attack_sym(s: int, t: int, occ: u64)
    requires
        0 <= s < 64,
        0 <= t < 64,
    ensures
        spec_rook_attack(s, occ, t) == spec_rook_attack(t, occ, s),
{
    if spec_rook_attack(s, occ, t) {
        if in_ray(sq_file(s), sq_rank(s), 1, 0, occ, t) { lemma_in_ray_sym(s, t, 1, 0, occ); }
        if in_ray(sq_file(s), sq_rank(s), -1, 0, occ, t) { lemma_in_ray_sym(s, t, -1, 0, occ); }
        if in_ray(sq_file(s), sq_rank(s), 0, 1, occ, t) { lemma_in_ray_sym(s, t, 0, 1, occ); }
        if in_ray(sq_file(s), sq_rank(s), 0, -1, occ, t) { lemma_in_ray_sym(s, t, 0, -1, occ); }
    }
    if spec_rook_attack(t, occ, s) {
        if in_ray(sq_file(t), sq_rank(t), 1, 0, occ, s) { lemma_in_ray_sym(t, s, 1, 0, occ); }
        if in_ray(sq_file(t), sq_rank(t), -1, 0, occ, s) { lemma_in_ray_sym(t, s, -1, 0, occ); }
        if in_ray(sq_file(t), sq_rank(t), 0, 1, occ, s) { lemma_in_ray_sym(t, s, 0, 1, occ); }
        if in_ray(sq_file(t), sq_rank(t), 0, -1, occ, s) { lemma_in_ray_sym(t, s, 0, -1, occ); }
    }
}

/// Bishop attacks are symmetric: a bishop on `s` sees `t` exactly when one on `t` sees `s`.
pub proof fn lemma_bishop_attack_sym(s: int, t: int, occ: u64)
    requires
        0 <= s < 64,
        0 <= t < 64,
    ensures
        spec_bishop_attack(s, occ, t) == spec_bishop_attack(t, occ, s),
{
    if spec_bishop_attack(s, occ, t) {
        if in_ray(sq_file(s), sq_rank(s), 1, 1, occ, t) { lemma_in_ray_sym(s, t, 1, 1, occ); }
        if in_ray(sq_file(s), sq_rank(s), 1, -1, occ, t) { lemma_in_ray_sym(s, t, 1, -1, occ); }
        if in_ray(sq_file(s), sq_rank(s), -1, 1, occ, t) { lemma_in_ray_sym(s, t, -1, 1, occ); }
        if in_ray(sq_file(s), sq_rank(s), -1, -1, occ, t) { lemma_in_ray_sym(s, t, -1, -1, occ); }
    }
    if spec_bishop_attack(t, occ, s) {
        if in_ray(sq_file(t), sq_rank(t), 1, 1, occ, s) { lemma_in_ray_sym(t, s, 1, 1, occ); }
        if in_ray(sq_file(t), sq_rank(t), 1, -1, occ, s) { lemma_in_ray_sym(t, s, 1, -1, occ); }
        if in_ray(sq_file(t), sq_rank(t), -1, 1, occ, s) { lemma_in_ray_sym(t, s, -1, 1, occ); }
        if in_ray(sq_file(t), sq_rank(t), -1, -1, occ, s) { lemma_in_ray_sym(t, s, -1, -1, occ); }
    }
}

// ── Leaper attacks ────────────────────────────────────────────────────────────

pub fn pawn_attacks(color: Color, sq: Square) -> (b: u64)
    requires
        sq.valid(),
    ensures
        forall|i: u64| i < 64 ==> (#[trigger] bb_has(b, i) <==> spec_pawn_attack(color, sq.0 as int, i as int)),
{
    let bb = square_bb(sq);
    let s = sq.0 as u64;
    match color {
        Color::White => {
            let a = north_east(bb);
            let c = north_west(bb);
            proof {
                lemma_bits_all(a, c);
                assert forall|i: u64| i < 64 implies (#[trigger] bb_has(a | c, i) <==> spec_pawn_attack(color, s as int, i as int)) by {
                    assert(bb_has(a, i) <==> (i >= 9 && i % 8 != 0 && (i - 9) as u64 == s));
                    assert(bb_has(c, i) <==> (i >= 7 && i % 8 != 7 && (i - 7) as u64 == s));
                }
            }
            a | c
        },
        Color::Black => {
            let a = south_east(bb);
            let c = south_west(bb);
            proof {
                lemma_bits_all(a, c);
                assert forall|i: u64| i < 64 implies (#[trigger] bb_has(a | c, i) <==> spec_pawn_attack(color, s as int, i as int)) by {
                    assert(bb_has(a, i) <==> (i < 57 && i % 8 != 0 && (i + 7) as u64 == s));
                    assert(bb_has(c, i) <==> (i < 55 && i % 8 != 7 && (i + 9) as u64 == s));
                }
            }
            a | c
        },
    }
}

proof fn lemma_knight_bits(s: u64, i: u64)
    by (bit_vector)
    requires
        s < 64,
        i < 64,
    ensures
        bb_has(
            (((1u64 << s) & !0x0101_0101_0101_0101u64 & !0x0202_0202_0202_0202u64) >> 10u64)
            | (((1u64 << s) & !0x0101_0101_0101_0101u64) >> 17u64)
            | (((1u64 << s) & !0x8080_8080_8080_8080u64) >> 15u64)
            | (((1u64 << s) & !0x4040_4040_4040_4040u64 & !0x8080_8080_8080_8080u64) >> 6u64)
            | (((1u64 << s) & !0x4040_4040_4040_4040u64 & !0x8080_8080_8080_8080u64) << 10u64)
            | (((1u64 << s) & !0x8080_8080_8080_8080u64) << 17u64)
            | (((1u64 << s) & !0x0101_0101_0101_0101u64) << 15u64)
            | (((1u64 << s) & !0x0101_0101_0101_0101u64 & !0x0202_0202_0202_0202u64) << 6u64),
            i,
        ) <==> (
            (s >= 10 && s % 8 >= 2 && i == s - 10)
            || (s >= 17 && s % 8 >= 1 && i == s - 17)
            || (s >= 15 && s % 8 <= 6 && i == s - 15)
            || (s >= 6 && s % 8 <= 5 && i == s - 6)
            || (s < 54 && s % 8 <= 5 && i == s + 10)
            || (s < 47 && s % 8 <= 6 && i == s + 17)
            || (s < 49 && s % 8 >= 1 && i == s + 15)
            || (s < 58 && s % 8 >= 2 && i == s + 6)
        ),
{
}

pub fn knight_attacks(sq: Square) -> (b: u64)
    requires
        sq.valid(),
    ensures
        forall|i: u64| i < 64 ==> (#[trigger] bb_has(b, i) <==> spec_knight_attack(sq.0 as int, i as int)),
{
    let bb = square_bb(sq);
    let r = ((bb & !FILE_A & !FILE_B) >> 10) | ((bb & !FILE_A) >> 17) | ((bb & !FILE_H) >> 15)
        | ((bb & !FILE_G & !FILE_H) >> 6) | ((bb & !FILE_G & !FILE_H) << 10) | ((bb & !FILE_H) << 17)
        | ((bb & !FILE_A) << 15) | ((bb & !FILE_A & !FILE_B) << 6);
    proof {
        let s = sq.0 as u64;
        assert forall|i: u64| i < 64 implies (#[trigger] bb_has(r, i) <==> spec_knight_attack(s as int, i as int)) by {
            lemma_knight_bits(s, i);
        }
    }
    r
}

proof fn lemma_king_bits(s: u64, i: u64)
    by (bit_vector)
    requires
        s < 64,
        i < 64,
    ensures
        bb_has(
            (((1u64 << s) & !0x0101_0101_0101_0101u64) >> 1u64)
            | (((1u64 << s) & !0x8080_8080_8080_8080u64) << 1u64)
            | ((1u64 << s) >> 8u64)
            | ((1u64 << s) << 8u64)
            | (((1u64 << s) & !0x0101_0101_0101_0101u64) >> 9u64)
            | (((1u64 << s) & !0x8080_8080_8080_8080u64) >> 7u64)
            | (((1u64 << s) & !0x0101_0101_0101_0101u64) << 7u64)
            | (((1u64 << s) & !0x8080_8080_8080_8080u64) << 9u64),
            i,
        ) <==> (
            (s >= 1 && s % 8 >= 1 && i == s - 1)
            || (s % 8 <= 6 && i == s + 1)
            || (s >= 8 && i == s - 8)
            || (s < 56 && i == s + 8)
            || (s >= 9 && s % 8 >= 1 && i == s - 9)
            || (s >= 7 && s % 8 <= 6 && i == s - 7)
            || (s < 57 && s % 8 >= 1 && i == s + 7)
            || (s < 55 && s % 8 <= 6 && i == s + 9)
        ),
{
}

pub fn king_attacks(sq: Square) -> (b: u64)
    requires
        sq.valid(),
    ensures
        forall|i: u64| i < 64 ==> (#[trigger] bb_has(b, i) <==> spec_king_attack(sq.0 as int, i as int)),
{
    let bb = square_bb(sq);
    let r = ((bb & !FILE_A) >> 1) | ((bb & !FILE_H) << 1) | (bb >> 8) | (bb << 8) | ((bb & !FILE_A) >> 9)
        | ((bb & !FILE_H) >> 7) | ((bb & !FILE_A) << 7) | ((bb & !FILE_H) << 9);
    proof {
        let s = sq.0 as u64;
        assert forall|i: u64| i < 64 implies (#[trigger] bb_has(r, i) <==> spec_king_attack(s as int, i as int)) by {
            lemma_king_bits(s, i);
        }
    }
    r
}

// ── Slider attacks (ray casting) ──────────────────────────────────────────────

/// Loop invariant of ray casting: the squares found so far plus the rest of
/// the ray from (pf, pr) make up the whole ray from (file, rank).
pub open spec fn ray_split(file: int, rank: int, df: int, dr: int, occ: u64, attacks: u64, pf: int, pr: int) -> bool {
    forall|i: u64| i < 64 ==> (in_ray(file, rank, df, dr, occ, i as int)
        <==> (#[trigger] bb_has(attacks, i) || in_ray(pf, pr, df, dr, occ, i as int)))
}

pub open spec fn ray_done(file: int, rank: int, df: int, dr: int, occ: u64, attacks: u64) -> bool {
    forall|i: u64| i < 64 ==> (#[trigger] bb_has(attacks, i) <==> in_ray(file, rank, df, dr, occ, i as int))
}

proof fn lemma_ray_step(file: int, rank: int, df: int, dr: int, occ: u64, f: int, r: int, old_attacks: u64, attacks: u64)
    requires
        -1 <= df <= 1,
        -1 <= dr <= 1,
        df != 0 || dr != 0,
        on_board(f - df, r - dr),
        on_board(f, r),
        attacks == old_attacks | (1u64 << ((r * 8 + f) as u64)),
        ray_split(file, rank, df, dr, occ, old_attacks, f - df, r - dr),
    ensures
        bb_has(occ, (r * 8 + f) as u64) ==> ray_done(file, rank, df, dr, occ, attacks),
        !bb_has(occ, (r * 8 + f) as u64) ==> ray_split(file, rank, df, dr, occ, attacks, f, r),
{
    let idx = (r * 8 + f) as u64;
    lemma_bits_all(old_attacks, 1u64 << idx);
    lemma_single_all(idx);
    assert forall|i: u64| i < 64 implies (bb_has(attacks, i) <==> (bb_has(old_attacks, i) || i == idx)) by {
        assert(bb_has(old_attacks | (1u64 << idx), i) <==> (bb_has(old_attacks, i) || bb_has(1u64 << idx, i)));
        assert(bb_has(1u64 << idx, i) <==> i == idx);
    }
    assert forall|i: u64| i < 64 implies (in_ray(f - df, r - dr, df, dr, occ, i as int) <==> (i == idx
        || (!bb_has(occ, idx) && in_ray(f, r, df, dr, occ, i as int)))) by {
        assert(f - df + df == f);
        assert(r - dr + dr == r);
    }
    if bb_has(occ, idx) {
        assert forall|i: u64| i < 64 implies (#[trigger] bb_has(attacks, i) <==> in_ray(file, rank, df, dr, occ, i as int)) by {
            assert(in_ray(file, rank, df, dr, occ, i as int) <==> (bb_has(old_attacks, i) || in_ray(f - df, r - dr, df, dr, occ, i as int)));
        }
    } else {
        assert forall|i: u64| i < 64 implies (in_ray(file, rank, df, dr, occ, i as int)
            <==> (#[trigger] bb_has(attacks, i) || in_ray(f, r, df, dr, occ, i as int))) by {
            assert(in_ray(file, rank, df, dr, occ, i as int) <==> (bb_has(old_attacks, i) || in_ray(f - df, r - dr, df, dr, occ, i as int)));
            assert(in_ray(f - df, r - dr, df, dr, occ, i as int) <==> (i == idx || in_ray(f, r, df, dr, occ, i as int)));
            assert(bb_has(attacks, i) <==> (bb_has(old_attacks, i) || i == idx));
        }
        assert(ray_split(file, rank, df, dr, occ, attacks, f, r)) by {
            assert forall|i: u64| i < 64 implies (in_ray(file, rank, df, dr, occ, i as int)
                <==> (#[trigger] bb_has(attacks, i) || in_ray(f, r, df, dr, occ, i as int))) by {
                assert(in_ray(file, rank, df, dr, occ, i as int) <==> (bb_has(old_attacks, i) || in_ray(f - df, r - dr, df, dr, occ, i as int)));
                assert(in_ray(f - df, r - dr, df, dr, occ, i as int) <==> (i == idx || in_ray(f, r, df, dr, occ, i as int)));
                assert(bb_has(attacks, i) <==> (bb_has(old_attacks, i) || i == idx));
            }
        }
    }
}

/// Squares reached from (file, rank) along one direction, stopping at the first
/// occupied square (which is included).
fn ray_attacks(file: i32, rank: i32, df: i32, dr: i32, occ: u64) -> (b: u64)
    requires
        on_board(file as int, rank as int),
        -1 <= df <= 1,
        -1 <= dr <= 1,
        df != 0 || dr != 0,
    ensures
        forall|i: u64| i < 64 ==> (#[trigger] bb_has(b, i) <==> in_ray(file as int, rank as int, df as int, dr as int, occ, i as int)),
{
    let mut attacks: u64 = 0;
    let mut f: i32 = file + df;
    let mut r: i32 = rank + dr;
    proof {
        lemma_zero_all();
        assert(ray_split(file as int, rank as int, df as int, dr as int, occ, attacks, file as int, rank as int));
    }
    while 0 <= f && f < 8 && 0 <= r && r < 8
        invariant_except_break
            ray_split(file as int, rank as int, df as int, dr as int, occ, attacks, (f - df) as int, (r - dr) as int),
        invariant
            -1 <= df <= 1,
            -1 <= dr <= 1,
            df != 0 || dr != 0,
            on_board(file as int, rank as int),
            on_board((f - df) as int, (r - dr) as int),
            -1 <= f <= 8,
            -1 <= r <= 8,
        ensures
            ray_done(file as int, rank as int, df as int, dr as int, occ, attacks),
        decreases ray_measure(f as int, r as int, df as int, dr as int) + 1,
    {
        let idx = (r * 8 + f) as u64;
        let bit = 1u64 << idx;
        let ghost old_attacks = attacks;
        attacks = attacks | bit;
        proof {
            lemma_ray_step(file as int, rank as int, df as int, dr as int, occ, f as int, r as int, old_attacks, attacks);
            lemma_bits_all(occ, bit);
            lemma_single_all(idx);
        }
        if occ & bit != 0 {
            proof {
                if !bb_has(occ, idx) {
                    assert forall|i: u64| i < 64 implies (#[trigger] bb_has(occ & bit, i) <==> bb_has(0u64, i)) by {
                        lemma_zero_bit(i);
                    }
                    lemma_bb_ext(occ & bit, 0u64);
                }
            }
            break;
        }
        proof {
            if bb_has(occ, idx) {
                assert(bb_has(occ & bit, idx));
                lemma_zero_bit(idx);
            }
        }
        f = f + df;
        r = r + dr;
    }
    attacks
}

pub fn slow_rook_attacks(sq: Square, occ: u64) -> (b: u64)
    requires
        sq.valid(),
    ensures
        forall|i: u64| i < 64 ==> (#[trigger] bb_has(b, i) <==> spec_rook_attack(sq.0 as int, occ, i as int)),
{
    let file = sq.file() as i32;
    let rank = sq.rank() as i32;
    let a = ray_attacks(file, rank, 1, 0, occ);
    let b = ray_attacks(file, rank, -1, 0, occ);
    let c = ray_attacks(file, rank, 0, 1, occ);
    let d = ray_attacks(file, rank, 0, -1, occ);
    proof {
        lemma_bits_all(a, b);
        lemma_bits_all(a | b, c);
        lemma_bits_all(a | b | c, d);
    }
    a | b | c | d
}

pub fn slow_bishop_attacks(sq: Square, occ: u64) -> (b: u64)
    requires
        sq.valid(),
    ensures
        forall|i: u64| i < 64 ==> (#[trigger] bb_has(b, i) <==> spec_bishop_attack(sq.0 as int, occ, i as int)),
{
    let file = sq.file() as i32;
    let rank = sq.rank() as i32;
    let a = ray_attacks(file, rank, 1, 1, occ);
    let b = ray_attacks(file, rank, 1, -1, occ);
    let c = ray_attacks(file, rank, -1, 1, occ);
    let d = ray_attacks(file, rank, -1, -1, occ);
    proof {
        lemma_bits_all(a, b);
        lemma_bits_all(a | b, c);
        lemma_bits_all(a | b | c, d);
    }
    a | b | c | d
}

pub fn bishop_attacks(sq: Square, occ: u64) -> (b: u64)
    requires
        sq.valid(),
    ensures
        forall|i: u64| i < 64 ==> (#[trigger] bb_has(b, i) <==> spec_bishop_attack(sq.0 as int, occ, i as int)),
{
    slow_bishop_attacks(sq, occ)
}

pub fn rook_attacks(sq: Square, occ: u64) -> (b: u64)
    requires
        sq.valid(),
    ensures
        forall|i: u64| i < 64 ==> (#[trigger] bb_has(b, i) <==> spec_rook_attack(sq.0 as int, occ, i as int)),
{
    slow_rook_attacks(sq, occ)
}

pub fn queen_attacks(sq: Square, occ: u64) -> (b: u64)
    requires
        sq.valid(),
    ensures
        forall|i: u64| i < 64 ==> (#[trigger] bb_has(b, i) <==> spec_queen_attack(sq.0 as int, occ, i as int)),
{
    let a = bishop_attacks(sq, occ);
    let c = rook_attacks(sq, occ);
    proof {
        lemma_bits_all(a, c);
    }
    a | c
}

// ── Attack tables ─────────────────────────────────────────────────────────────

/// Precomputed attack tables: leapers indexed by square, sliders by magic index.
pub struct Attacks {
    pub pawn: [[u64; 64]; 2],
    pub knight: [u64; 64],
    pub king: [u64; 64],
    pub rook: SliderTable,
    pub bishop: SliderTable,
}

impl Attacks {
    pub open spec fn wf(&self) -> bool {
        &&& forall|s: int, i: u64| 0 <= s < 64 && i < 64 ==> (#[trigger] bb_has(self.pawn[0][s], i) <==> spec_pawn_attack(Color::White, s, i as int))
        &&& forall|s: int, i: u64| 0 <= s < 64 && i < 64 ==> (#[trigger] bb_has(self.pawn[1][s], i) <==> spec_pawn_attack(Color::Black, s, i as int))
        &&& forall|s: int, i: u64| 0 <= s < 64 && i < 64 ==> (#[trigger] bb_has(self.knight[s], i) <==> spec_knight_attack(s, i as int))
        &&& forall|s: int, i: u64| 0 <= s < 64 && i < 64 ==> (#[trigger] bb_has(self.king[s], i) <==> spec_king_attack(s, i as int))
        &&& self.rook.wf(false)
        &&& self.bishop.wf(true)
    }

    pub fn init() -> (a: Attacks)
        ensures
            a.wf(),
    {
        let mut a = Attacks {
            pawn: [[0u64; 64]; 2],
            knight: [0u64; 64],
            king: [0u64; 64],
            rook: init_slider_table(false),
            bishop: init_slider_table(true),
        };
        a.init_pawn_attacks();
        a.init_knight_attacks();
        a.init_king_attacks();
        a
    }

    /// Rebuilds the rook and bishop magic tables.
    pub fn init_slider_tables(&mut self)
        ensures
            final(self).rook.wf(false),
            final(self).bishop.wf(true),
            final(self).pawn == old(self).pawn,
            final(self).knight == old(self).knight,
            final(self).king == old(self).king,
    {
        self.rook = init_slider_table(false);
        self.bishop = init_slider_table(true);
    }

    /// Rook attacks from `sq` under occupancy `occ`, by magic lookup.
    pub fn rook_attacks(&self, sq: Square, occ: u64) -> (b: u64)
        requires
            self.wf(),
            sq.valid(),
        ensures
            forall|i: u64| i < 64 ==> (#[trigger] bb_has(b, i) <==> spec_rook_attack(sq.0 as int, occ, i as int)),
    {
        self.rook.lookup(false, sq, occ)
    }

    /// Bishop attacks from `sq` under occupancy `occ`, by magic lookup.
    pub fn bishop_attacks(&self, sq: Square, occ: u64) -> (b: u64)
        requires
            self.wf(),
            sq.valid(),
        ensures
            forall|i: u64| i < 64 ==> (#[trigger] bb_has(b, i) <==> spec_bishop_attack(sq.0 as int, occ, i as int)),
    {
        self.bishop.lookup(true, sq, occ)
    }

    fn init_pawn_attacks(&mut self)
        ensures
            forall|s: int, i: u64| 0 <= s < 64 && i < 64 ==> (#[trigger] bb_has(final(self).pawn[0][s], i) <==> spec_pawn_attack(Color::White, s, i as int)),
            forall|s: int, i: u64| 0 <= s < 64 && i < 64 ==> (#[trigger] bb_has(final(self).pawn[1][s], i) <==> spec_pawn_attack(Color::Black, s, i as int)),
            final(self).knight == old(self).knight,
            final(self).king == old(self).king,
            final(self).rook == old(self).rook,
            final(self).bishop == old(self).bishop,
    {
        let mut sq: u8 = 0;
        while sq < 64
            invariant
                self.rook == old(self).rook,
                self.bishop == old(self).bishop,
                sq <= 64,
                self.knight == old(self).knight,
                self.king == old(self).king,
                forall|s: int, i: u64| 0 <= s < sq && i < 64 ==> (#[trigger] bb_has(self.pawn[0][s], i) <==> spec_pawn_attack(Color::White, s, i as int)),
                forall|s: int, i: u64| 0 <= s < sq && i < 64 ==> (#[trigger] bb_has(self.pawn[1][s], i) <==> spec_pawn_attack(Color::Black, s, i as int)),
            decreases 64 - sq,
        {
            let w = pawn_attacks(Color::White, Square(sq));
            let b = pawn_attacks(Color::Black, Square(sq));
            self.pawn[0][sq as usize] = w;
            self.pawn[1][sq as usize] = b;
            sq = sq + 1;
        }
    }

    fn init_knight_attacks(&mut self)
        ensures
            forall|s: int, i: u64| 0 <= s < 64 && i < 64 ==> (#[trigger] bb_has(final(self).knight[s], i) <==> spec_knight_attack(s, i as int)),
            final(self).pawn == old(self).pawn,
            final(self).king == old(self).king,
            final(self).rook == old(self).rook,
            final(self).bishop == old(self).bishop,
    {
        let mut sq: u8 = 0;
        while sq < 64
            invariant
                self.rook == old(self).rook,
                self.bishop == old(self).bishop,
                sq <= 64,
                self.pawn == old(self).pawn,
                self.king == old(self).king,
                forall|s: int, i: u64| 0 <= s < sq && i < 64 ==> (#[trigger] bb_has(self.knight[s], i) <==> spec_knight_attack(s, i as int)),
            decreases 64 - sq,
        {
            let k = knight_attacks(Square(sq));
            self.knight[sq as usize] = k;
            sq = sq + 1;
        }
    }

    fn init_king_attacks(&mut self)
        ensures
            forall|s: int, i: u64| 0 <= s < 64 && i < 64 ==> (#[trigger] bb_has(final(self).king[s], i) <==> spec_king_attack(s, i as int)),
            final(self).pawn == old(self).pawn,
            final(self).knight == old(self).knight,
            final(self).rook == old(self).rook,
            final(self).bishop == old(self).bishop,
    {
        let mut sq: u8 = 0;
        while sq < 64
            invariant
                self.rook == old(self).rook,
                self.bishop == old(self).bishop,
                sq <= 64,
                self.pawn == old(self).pawn,
                self.knight == old(self).knight,
                forall|s: int, i: u64| 0 <= s < sq && i < 64 ==> (#[trigger] bb_has(self.king[s], i) <==> spec_king_attack(s, i as int)),
            decreases 64 - sq,
        {
            let k = king_attacks(Square(sq));
            self.king[sq as usize] = k;
            sq = sq + 1;
        }
    }
}

/// The leaper attack tables.
pub fn get() -> (a: Attacks)
    ensures
        a.wf(),
{
    Attacks::init()
}

} // verus!
