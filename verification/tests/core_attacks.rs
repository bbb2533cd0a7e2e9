use rchess::chess::attacks::{
    bishop_attacks, king_attacks, knight_attacks, pawn_attacks, queen_attacks, rook_attacks, slow_bishop_attacks,
    slow_rook_attacks, Attacks,
};
use rchess::chess::magic::{bishop_mask, rook_mask};
use rchess::chess::bitboard::{popcount, EMPTY, FILE_A, RANK_1};
use rchess::chess::types::{Color, Square};

#[test]
fn pawn_attacks_e4() {
    let sq = Square::new(4, 3);
    let att = pawn_attacks(Color::White, sq);
    assert_eq!(popcount(att), 2);
    assert!(att & (1u64 << Square::new(3, 4).0) != 0);
    assert!(att & (1u64 << Square::new(5, 4).0) != 0);
}

#[test]
fn knight_attacks_center() {
    let sq = Square::new(3, 3);
    let att = knight_attacks(sq);
    assert_eq!(popcount(att), 8);
}

#[test]
fn knight_attacks_corner() {
    let sq = Square::new(0, 0);
    let att = knight_attacks(sq);
    assert_eq!(popcount(att), 2);
}

#[test]
fn rook_attacks_empty_board() {
    let sq = Square::new(4, 4);
    let att = rook_attacks(sq, EMPTY);
    assert_eq!(popcount(att), 14);
}

#[test]
fn rook_attacks_blocked() {
    let sq = Square::new(0, 0);
    let blocker_sq = Square::new(0, 2);
    let occ = 1u64 << blocker_sq.0;
    let att = rook_attacks(sq, occ);
    assert!(att & (1u64 << Square::new(0, 1).0) != 0);
    assert!(att & (1u64 << Square::new(0, 2).0) != 0);
    assert!(att & (1u64 << Square::new(0, 3).0) == 0);
}

#[test]
fn bishop_attacks_empty_board() {
    let sq = Square::new(3, 3);
    let att = bishop_attacks(sq, EMPTY);
    assert_eq!(popcount(att), 13);
}

#[test]
fn queen_attacks_is_union() {
    let sq = Square::new(3, 3);
    let occ = EMPTY;
    assert_eq!(queen_attacks(sq, occ), rook_attacks(sq, occ) | bishop_attacks(sq, occ));
}

#[test]
fn king_attacks_center() {
    let sq = Square::new(3, 3);
    assert_eq!(popcount(king_attacks(sq)), 8);
}

#[test]
fn king_attacks_corner() {
    let sq = Square::new(0, 0);
    assert_eq!(popcount(king_attacks(sq)), 3);
}

#[test]
fn magic_tables_consistent() {
    let tables = Attacks::init();
    for sq in 0u8..64 {
        let sq = Square(sq);
        for &occ in &[EMPTY, RANK_1, FILE_A, 0x8040201008040201u64] {
            let slow_r = slow_rook_attacks(sq, occ);
            let fast_r = tables.rook_attacks(sq, occ);
            assert_eq!(slow_r, fast_r, "rook mismatch at sq={}", sq.0);
            assert_eq!(rook_attacks(sq, occ), fast_r);
            let slow_b = slow_bishop_attacks(sq, occ);
            let fast_b = tables.bishop_attacks(sq, occ);
            assert_eq!(slow_b, fast_b, "bishop mismatch at sq={}", sq.0);
            assert_eq!(bishop_attacks(sq, occ), fast_b);
        }
    }
}

#[test]
fn magic_lookups_hit_their_own_slot() {
    // Every relevant occupancy of every square is found in the table itself.
    let tables = Attacks::init();
    for s in 0u8..64 {
        let sq = Square(s);
        for (bishop, t) in [(false, &tables.rook), (true, &tables.bishop)] {
            let e = t.entries[s as usize];
            let mask = if bishop { bishop_mask(sq) } else { rook_mask(sq) };
            assert_eq!(e.mask, mask);
            let bits = popcount(mask);
            assert_eq!(e.shift, 64 - bits);
            let mut sub: u64 = 0;
            loop {
                let idx = e.offset as usize + (sub.wrapping_mul(e.magic) >> e.shift) as usize;
                let expect = if bishop { slow_bishop_attacks(sq, sub) } else { slow_rook_attacks(sq, sub) };
                assert_eq!(t.attacks[idx], expect);
                sub = sub.wrapping_sub(mask) & mask;
                if sub == 0 {
                    break;
                }
            }
        }
    }
}

#[test]
fn rook_attacks_stop_at_both_blockers() {
    // Rook on d4 with pieces on d6 and f4: d5, d6 seen; d7 not; e4, f4 seen; g4 not.
    let occ = (1u64 << 43) | (1u64 << 29);
    let att = rook_attacks(Square(27), occ);
    assert!(att & (1u64 << 35) != 0);
    assert!(att & (1u64 << 43) != 0);
    assert!(att & (1u64 << 51) == 0);
    assert!(att & (1u64 << 28) != 0);
    assert!(att & (1u64 << 29) != 0);
    assert!(att & (1u64 << 30) == 0);
    assert_eq!(popcount(att), 10);
}

#[test]
fn black_pawn_attacks_down() {
    // Black pawn on e5 attacks d4 and f4; a black pawn on a2 attacks only b1.
    assert_eq!(pawn_attacks(Color::Black, Square::new(4, 4)), (1u64 << 27) | (1u64 << 29));
    assert_eq!(pawn_attacks(Color::Black, Square::new(0, 1)), 1u64 << 1);
}
