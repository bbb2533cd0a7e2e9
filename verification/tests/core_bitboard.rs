use rchess::chess::bitboard::{
    east, iter_bits, lsb, more_than_one, north, pop_lsb, popcount, square_bb, west, EMPTY, FILE_A, FILE_B, FILE_H,
    RANK_1, RANK_8,
};
use rchess::chess::types::Square;

#[test]
fn square_bb_roundtrip() {
    for i in 0u8..64 {
        let sq = Square(i);
        assert_eq!(lsb(square_bb(sq)), sq);
    }
}

#[test]
fn pop_lsb_drains_correctly() {
    let mut bb = FILE_A;
    let mut count = 0;
    while bb != 0 {
        let sq = pop_lsb(&mut bb);
        assert_eq!(sq.file(), 0);
        count += 1;
    }
    assert_eq!(count, 8);
}

#[test]
fn directional_shifts_no_wrap() {
    assert_eq!(east(FILE_H), EMPTY);
    assert_eq!(west(FILE_A), EMPTY);
    assert_eq!(east(FILE_A), FILE_B);
}

#[test]
fn iter_bits_exact_size() {
    let bb = RANK_1;
    let iter = iter_bits(bb);
    assert_eq!(iter.len(), 8);
    let squares: Vec<Square> = iter_bits(bb).to_vec();
    assert_eq!(squares.len(), 8);
    for sq in squares {
        assert_eq!(sq.rank(), 0);
    }
}

#[test]
fn popcount_and_more_than_one() {
    assert_eq!(popcount(0), 0);
    assert_eq!(popcount(u64::MAX), 64);
    assert!(!more_than_one(0));
    assert!(!more_than_one(1u64 << 40));
    assert!(more_than_one((1u64 << 40) | 1));
}

#[test]
fn north_drops_the_last_rank() {
    assert_eq!(north(RANK_8), EMPTY);
    assert_eq!(north(RANK_1), RANK_1 << 8);
}

#[test]
fn bitboard_grid() {
    let text = rchess::chess::bitboard::bb_grid(0x8000_0000_0000_0001);
    let lines: Vec<&str> = text.lines().collect();
    assert_eq!(lines.len(), 9);
    assert_eq!(lines[0], "8 . . . . . . . 1 ");
    assert_eq!(lines[7], "1 1 . . . . . . . ");
    assert_eq!(lines[8], "  a b c d e f g h");
}
