use vstd::prelude::*;
use vstd::arithmetic::power2::{pow2, lemma_pow2_unfold, lemma2_to64};
use vstd::std_specs::bits::{u64_trailing_zeros, axiom_u64_trailing_zeros};
use super::types::Square;
use crate::utils::string_from_chars;

verus! {

pub type Bitboard = u64;

pub const EMPTY: u64 = 0u64;
pub const FULL: u64 = 0xFFFF_FFFF_FFFF_FFFFu64;

// ── File masks ────────────────────────────────────────────────────────────────

pub const FILE_A: u64 = 0x0101_0101_0101_0101u64;
pub const FILE_B: u64 = 0x0202_0202_0202_0202u64;
pub const FILE_C: u64 = 0x0404_0404_0404_0404u64;
pub const FILE_D: u64 = 0x0808_0808_0808_0808u64;
pub const FILE_E: u64 = 0x1010_1010_1010_1010u64;
pub const FILE_F: u64 = 0x2020_2020_2020_2020u64;
pub const FILE_G: u64 = 0x4040_4040_4040_4040u64;
pub const FILE_H: u64 = 0x8080_8080_8080_8080u64;

pub const FILES: [u64; 8] = [FILE_A, FILE_B, FILE_C, FILE_D, FILE_E, FILE_F, FILE_G, FILE_H];

// ── Rank masks ────────────────────────────────────────────────────────────────

pub const RANK_1: u64 = 0x0000_0000_0000_00FFu64;
pub const RANK_2: u64 = 0x0000_0000_0000_FF00u64;
pub const RANK_3: u64 = 0x0000_0000_00FF_0000u64;
pub const RANK_4: u64 = 0x0000_0000_FF00_0000u64;
pub const RANK_5: u64 = 0x0000_00FF_0000_0000u64;
pub const RANK_6: u64 = 0x0000_FF00_0000_0000u64;
pub const RANK_7: u64 = 0x00FF_0000_0000_0000u64;
pub const RANK_8: u64 = 0xFF00_0000_0000_0000u64;

pub const RANKS: [u64; 8] = [RANK_1, RANK_2, RANK_3, RANK_4, RANK_5, RANK_6, RANK_7, RANK_8];

// ── Bit-level model ───────────────────────────────────────────────────────────

/// Bit `i` of a bitboard is set (square `i` belongs to the set).
pub open spec fn bb_has(bb: u64, i: u64) -> bool {
    (bb >> i) & 1u64 == 1u64
}

/// Number of set bits.
pub open spec fn spec_popcount(bb: u64) -> nat
    decreases bb,
{
    if bb == 0 {
        0
    } else {
        (bb % 2) as nat + spec_popcount(bb / 2)
    }
}

/// Two bitboards are equal exactly when they hold the same squares.
pub proof fn lemma_bb_ext(a: u64, b: u64)
    requires
        forall|i: u64| i < 64 ==> (bb_has(a, i) <==> bb_has(b, i)),
    ensures
        a == b,
{
    assert forall|i: u64| i < 64 implies #[trigger] ((a >> i) & 1u64) == ((b >> i) & 1u64) by {
        assert(bb_has(a, i) <==> bb_has(b, i));
        lemma_bit_is_bool(a, i);
        lemma_bit_is_bool(b, i);
    }
    lemma_bits_eq(a, b);
}

proof fn lemma_bit_is_bool(a: u64, i: u64)
    by (bit_vector)
    ensures
        (a >> i) & 1u64 == 0u64 || (a >> i) & 1u64 == 1u64,
{
}

proof fn lemma_bits_eq(a: u64, b: u64)
    by (bit_vector)
    requires
        (a >> 0u64) & 1u64 == (b >> 0u64) & 1u64,
        (a >> 1u64) & 1u64 == (b >> 1u64) & 1u64,
        (a >> 2u64) & 1u64 == (b >> 2u64) & 1u64,
        (a >> 3u64) & 1u64 == (b >> 3u64) & 1u64,
        (a >> 4u64) & 1u64 == (b >> 4u64) & 1u64,
        (a >> 5u64) & 1u64 == (b >> 5u64) & 1u64,
        (a >> 6u64) & 1u64 == (b >> 6u64) & 1u64,
        (a >> 7u64) & 1u64 == (b >> 7u64) & 1u64,
        (a >> 8u64) & 1u64 == (b >> 8u64) & 1u64,
        (a >> 9u64) & 1u64 == (b >> 9u64) & 1u64,
        (a >> 10u64) & 1u64 == (b >> 10u64) & 1u64,
        (a >> 11u64) & 1u64 == (b >> 11u64) & 1u64,
        (a >> 12u64) & 1u64 == (b >> 12u64) & 1u64,
        (a >> 13u64) & 1u64 == (b >> 13u64) & 1u64,
        (a >> 14u64) & 1u64 == (b >> 14u64) & 1u64,
        (a >> 15u64) & 1u64 == (b >> 15u64) & 1u64,
        (a >> 16u64) & 1u64 == (b >> 16u64) & 1u64,
        (a >> 17u64) & 1u64 == (b >> 17u64) & 1u64,
        (a >> 18u64) & 1u64 == (b >> 18u64) & 1u64,
        (a >> 19u64) & 1u64 == (b >> 19u64) & 1u64,
        (a >> 20u64) & 1u64 == (b >> 20u64) & 1u64,
        (a >> 21u64) & 1u64 == (b >> 21u64) & 1u64,
        (a >> 22u64) & 1u64 == (b >> 22u64) & 1u64,
        (a >> 23u64) & 1u64 == (b >> 23u64) & 1u64,
        (a >> 24u64) & 1u64 == (b >> 24u64) & 1u64,
        (a >> 25u64) & 1u64 == (b >> 25u64) & 1u64,
        (a >> 26u64) & 1u64 == (b >> 26u64) & 1u64,
        (a >> 27u64) & 1u64 == (b >> 27u64) & 1u64,
        (a >> 28u64) & 1u64 == (b >> 28u64) & 1u64,
        (a >> 29u64) & 1u64 == (b >> 29u64) & 1u64,
        (a >> 30u64) & 1u64 == (b >> 30u64) & 1u64,
        (a >> 31u64) & 1u64 == (b >> 31u64) & 1u64,
        (a >> 32u64) & 1u64 == (b >> 32u64) & 1u64,
        (a >> 33u64) & 1u64 == (b >> 33u64) & 1u64,
        (a >> 34u64) & 1u64 == (b >> 34u64) & 1u64,
        (a >> 35u64) & 1u64 == (b >> 35u64) & 1u64,
        (a >> 36u64) & 1u64 == (b >> 36u64) & 1u64,
        (a >> 37u64) & 1u64 == (b >> 37u64) & 1u64,
        (a >> 38u64) & 1u64 == (b >> 38u64) & 1u64,
        (a >> 39u64) & 1u64 == (b >> 39u64) & 1u64,
        (a >> 40u64) & 1u64 == (b >> 40u64) & 1u64,
        (a >> 41u64) & 1u64 == (b >> 41u64) & 1u64,
        (a >> 42u64) & 1u64 == (b >> 42u64) & 1u64,
        (a >> 43u64) & 1u64 == (b >> 43u64) & 1u64,
        (a >> 44u64) & 1u64 == (b >> 44u64) & 1u64,
        (a >> 45u64) & 1u64 == (b >> 45u64) & 1u64,
        (a >> 46u64) & 1u64 == (b >> 46u64) & 1u64,
        (a >> 47u64) & 1u64 == (b >> 47u64) & 1u64,
        (a >> 48u64) & 1u64 == (b >> 48u64) & 1u64,
        (a >> 49u64) & 1u64 == (b >> 49u64) & 1u64,
        (a >> 50u64) & 1u64 == (b >> 50u64) & 1u64,
        (a >> 51u64) & 1u64 == (b >> 51u64) & 1u64,
        (a >> 52u64) & 1u64 == (b >> 52u64) & 1u64,
        (a >> 53u64) & 1u64 == (b >> 53u64) & 1u64,
        (a >> 54u64) & 1u64 == (b >> 54u64) & 1u64,
        (a >> 55u64) & 1u64 == (b >> 55u64) & 1u64,
        (a >> 56u64) & 1u64 == (b >> 56u64) & 1u64,
        (a >> 57u64) & 1u64 == (b >> 57u64) & 1u64,
        (a >> 58u64) & 1u64 == (b >> 58u64) & 1u64,
        (a >> 59u64) & 1u64 == (b >> 59u64) & 1u64,
        (a >> 60u64) & 1u64 == (b >> 60u64) & 1u64,
        (a >> 61u64) & 1u64 == (b >> 61u64) & 1u64,
        (a >> 62u64) & 1u64 == (b >> 62u64) & 1u64,
        (a >> 63u64) & 1u64 == (b >> 63u64) & 1u64,
    ensures
        a == b,
{
}

pub proof fn lemma_or_bit(a: u64, b: u64, i: u64)
    by (bit_vector)
    requires
        i < 64,
    ensures
        bb_has(a | b, i) <==> (bb_has(a, i) || bb_has(b, i)),
{
}

pub proof fn lemma_and_bit(a: u64, b: u64, i: u64)
    by (bit_vector)
    requires
        i < 64,
    ensures
        bb_has(a & b, i) <==> (bb_has(a, i) && bb_has(b, i)),
{
}

pub proof fn lemma_not_bit(a: u64, i: u64)
    by (bit_vector)
    requires
        i < 64,
    ensures
        bb_has(!a, i) <==> !bb_has(a, i),
{
}

pub proof fn lemma_xor_bit(a: u64, b: u64, i: u64)
    by (bit_vector)
    requires
        i < 64,
    ensures
        bb_has(a ^ b, i) <==> (bb_has(a, i) != bb_has(b, i)),
{
}

pub proof fn lemma_single_bit(s: u64, i: u64)
    by (bit_vector)
    requires
        s < 64,
        i < 64,
    ensures
        bb_has(1u64 << s, i) <==> i == s,
{
}

pub proof fn lemma_zero_bit(i: u64)
    by (bit_vector)
    requires
        i < 64,
    ensures
        !bb_has(0u64, i),
{
}

/// A non-empty bitboard has a set bit.
pub proof fn lemma_nonzero_has_bit(a: u64)
    requires
        a != 0,
    ensures
        exists|i: u64| i < 64 && bb_has(a, i),
{
    if forall|i: u64| i < 64 ==> !bb_has(a, i) {
        assert forall|i: u64| i < 64 implies (bb_has(a, i) <==> bb_has(0u64, i)) by {
            lemma_zero_bit(i);
        }
        lemma_bb_ext(a, 0u64);
    }
}

/// Two bitboards intersect exactly when they share a square.
pub proof fn lemma_and_nonzero(a: u64, b: u64)
    ensures
        (a & b != 0) <==> exists|s: u64| s < 64 && #[trigger] bb_has(a, s) && bb_has(b, s),
{
    lemma_bits_all(a, b);
    if a & b != 0 {
        lemma_nonzero_has_bit(a & b);
        let s = choose|i: u64| i < 64 && bb_has(a & b, i);
        assert(bb_has(a, s) && bb_has(b, s));
    } else {
        lemma_zero_all();
        assert forall|s: u64| s < 64 implies !(#[trigger] bb_has(a, s) && bb_has(b, s)) by {
            assert(!bb_has(a & b, s));
        }
    }
}

/// Every square test of the bitwise connectives, at once.
pub proof fn lemma_bits_all(a: u64, b: u64)
    ensures
        forall|i: u64| i < 64 ==> (#[trigger] bb_has(a | b, i) <==> (bb_has(a, i) || bb_has(b, i))),
        forall|i: u64| i < 64 ==> (#[trigger] bb_has(a & b, i) <==> (bb_has(a, i) && bb_has(b, i))),
        forall|i: u64| i < 64 ==> (#[trigger] bb_has(a ^ b, i) <==> (bb_has(a, i) != bb_has(b, i))),
        forall|i: u64| i < 64 ==> (#[trigger] bb_has(!a, i) <==> !bb_has(a, i)),
{
    assert forall|i: u64| i < 64 implies (#[trigger] bb_has(a | b, i) <==> (bb_has(a, i) || bb_has(b, i))) by {
        lemma_or_bit(a, b, i);
    }
    assert forall|i: u64| i < 64 implies (#[trigger] bb_has(a & b, i) <==> (bb_has(a, i) && bb_has(b, i))) by {
        lemma_and_bit(a, b, i);
    }
    assert forall|i: u64| i < 64 implies (#[trigger] bb_has(a ^ b, i) <==> (bb_has(a, i) != bb_has(b, i))) by {
        lemma_xor_bit(a, b, i);
    }
    assert forall|i: u64| i < 64 implies (#[trigger] bb_has(!a, i) <==> !bb_has(a, i)) by {
        lemma_not_bit(a, i);
    }
}

pub proof fn lemma_single_all(s: u64)
    requires
        s < 64,
    ensures
        forall|i: u64| i < 64 ==> (#[trigger] bb_has(1u64 << s, i) <==> i == s),
{
    assert forall|i: u64| i < 64 implies (#[trigger] bb_has(1u64 << s, i) <==> i == s) by {
        lemma_single_bit(s, i);
    }
}

pub proof fn lemma_zero_all()
    ensures
        forall|i: u64| i < 64 ==> !(#[trigger] bb_has(0u64, i)),
{
    assert forall|i: u64| i < 64 implies !(#[trigger] bb_has(0u64, i)) by {
        lemma_zero_bit(i);
    }
}

// ── Population count ──────────────────────────────────────────────────────────

proof fn lemma_clear_lowest_odd(x: u64)
    by (bit_vector)
    requires
        x % 2 == 1,
    ensures
        x & (((x) - (1u64)) as u64) == (((x) - (1u64)) as u64),
        (((x) - (1u64)) as u64) / 2 == x / 2,
        (((x) - (1u64)) as u64) % 2 == 0,
{
}

proof fn lemma_clear_lowest_even(x: u64)
    by (bit_vector)
    requires
        x % 2 == 0,
        x != 0,
    ensures
        (x & (((x) - (1u64)) as u64)) / 2 == (x / 2) & (((x / 2) - (1u64)) as u64),
        (x & (((x) - (1u64)) as u64)) % 2 == 0,
        x / 2 != 0,
{
}

/// Clearing the lowest set bit removes exactly one from the population count.
pub proof fn lemma_popcount_clear_lowest(x: u64)
    requires
        x != 0,
    ensures
        spec_popcount(x & (((x) - (1u64)) as u64)) + 1 == spec_popcount(x),
    decreases x,
{
    if x % 2 == 1 {
        lemma_clear_lowest_odd(x);
        let y = (((x) - (1u64)) as u64);
        assert(spec_popcount(y) == spec_popcount(y / 2));
    } else {
        lemma_clear_lowest_even(x);
        lemma_popcount_clear_lowest(x / 2);
        let z = x & (((x) - (1u64)) as u64);
        if z == 0 {
            assert(spec_popcount(z) == 0);
        } else {
            assert(spec_popcount(z) == spec_popcount(z / 2));
        }
    }
}

proof fn lemma_popcount_below(x: u64, d: nat)
    requires
        x < pow2(d),
    ensures
        spec_popcount(x) <= d,
    decreases d,
{
    if x != 0 {
        if d == 0 {
            lemma2_to64();
        } else {
            lemma_pow2_unfold(d);
            lemma_popcount_below(x / 2, (d - 1) as nat);
        }
    }
}

/// A bitboard has at most 64 squares.
pub proof fn lemma_popcount_le_64(x: u64)
    ensures
        spec_popcount(x) <= 64,
{
    lemma2_to64();
    lemma_popcount_below(x, 64);
}

/// Number of set bits, one cleared lowest bit at a time.
pub fn popcount(bb: u64) -> (n: u32)
    ensures
        n as nat == spec_popcount(bb),
{
    let mut x = bb;
    let mut n: u32 = 0;
    proof {
        lemma_popcount_le_64(bb);
    }
    while x != 0
        invariant
            n + spec_popcount(x) == spec_popcount(bb),
            spec_popcount(bb) <= 64,
        decreases spec_popcount(x),
    {
        proof {
            lemma_popcount_clear_lowest(x);
        }
        x = x & (x - 1);
        n = n + 1;
    }
    n
}

// ── Bit utilities ─────────────────────────────────────────────────────────────

pub fn square_bb(sq: Square) -> (b: u64)
    requires
        sq.valid(),
    ensures
        b == 1u64 << sq.0,
        forall|i: u64| i < 64 ==> (#[trigger] bb_has(b, i) <==> i == sq.0),
{
    proof {
        lemma_single_all(sq.0 as u64);
    }
    1u64 << sq.0
}

pub fn set_bit(bb: &mut u64, sq: Square)
    requires
        sq.valid(),
    ensures
        *final(bb) == *old(bb) | (1u64 << sq.0),
        forall|i: u64| i < 64 ==> (#[trigger] bb_has(*final(bb), i) <==> (bb_has(*old(bb), i) || i == sq.0)),
{
    let s = square_bb(sq);
    proof {
        lemma_bits_all(*bb, s);
    }
    *bb = *bb | s;
}

pub fn clear_bit(bb: &mut u64, sq: Square)
    requires
        sq.valid(),
    ensures
        *final(bb) == *old(bb) & !(1u64 << sq.0),
        forall|i: u64| i < 64 ==> (#[trigger] bb_has(*final(bb), i) <==> (bb_has(*old(bb), i) && i != sq.0)),
{
    let s = square_bb(sq);
    proof {
        lemma_bits_all(*bb, !s);
        lemma_bits_all(s, s);
    }
    *bb = *bb & !s;
}

pub fn test_bit(bb: u64, sq: Square) -> (b: bool)
    requires
        sq.valid(),
    ensures
        b == bb_has(bb, sq.0 as u64),
{
    let s = square_bb(sq);
    let x = sq.0 as u64;
    assert((bb & (1u64 << x) != 0) == bb_has(bb, x)) by (bit_vector)
        requires
            x < 64,
    ;
    bb & s != 0
}

/// Lowest set bit of a non-empty bitboard.
pub open spec fn spec_lsb(bb: u64) -> u64 {
    choose|s: u64| s < 64 && #[trigger] bb_has(bb, s) && (forall|i: u64| i < s ==> !#[trigger] bb_has(bb, i))
}

/// The lowest set bit is the only set bit with no set bit below it.
pub proof fn lemma_spec_lsb(bb: u64, s: u64)
    requires
        s < 64,
        bb_has(bb, s),
        forall|i: u64| i < s ==> !#[trigger] bb_has(bb, i),
    ensures
        spec_lsb(bb) == s,
{
    let t = spec_lsb(bb);
    assert(t < 64 && bb_has(bb, t) && (forall|i: u64| i < t ==> !#[trigger] bb_has(bb, i)));
    if t < s {
        assert(!bb_has(bb, t));
    }
    if s < t {
        assert(!bb_has(bb, s));
    }
}

/// Index of the least-significant set bit.
pub fn lsb(bb: u64) -> (sq: Square)
    requires
        bb != 0,
    ensures
        sq.valid(),
        bb_has(bb, sq.0 as u64),
        forall|i: u64| i < sq.0 ==> !#[trigger] bb_has(bb, i),
        sq.0 as u64 == spec_lsb(bb),
{
    let t = bb.trailing_zeros();
    proof {
        axiom_u64_trailing_zeros(bb);
        assert forall|i: u64| i < t implies !#[trigger] bb_has(bb, i) by {
            assert((bb >> i) & 1u64 == 0u64);
        }
        lemma_spec_lsb(bb, t as u64);
    }
    Square(t as u8)
}

/// Remove and return the least-significant set bit.
pub fn pop_lsb(bb: &mut u64) -> (sq: Square)
    requires
        *old(bb) != 0,
    ensures
        sq.valid(),
        bb_has(*old(bb), sq.0 as u64),
        forall|i: u64| i < sq.0 ==> !#[trigger] bb_has(*old(bb), i),
        *final(bb) == *old(bb) & (((*old(bb)) - (1u64)) as u64),
        forall|i: u64| i < 64 ==> (#[trigger] bb_has(*final(bb), i) <==> (bb_has(*old(bb), i) && i != sq.0)),
        spec_popcount(*final(bb)) + 1 == spec_popcount(*old(bb)),
        *final(bb) < *old(bb),
{
    let sq = lsb(*bb);
    let x = *bb;
    let s = sq.0 as u64;
    proof {
        lemma_popcount_clear_lowest(x);
        assert forall|i: u64| i < 64 implies (#[trigger] bb_has(x & (((x) - (1u64)) as u64), i) <==> (bb_has(x, i) && i != s)) by {
            assert(forall|j: u64| j < s ==> !#[trigger] bb_has(x, j));
            lemma_clear_lowest_bit(x, s, i);
        }
        lemma_clear_lowest_smaller(x);
    }
    *bb = x & (x - 1);
    sq
}

proof fn lemma_clear_lowest_smaller(x: u64)
    by (bit_vector)
    requires
        x != 0,
    ensures
        x & (((x) - (1u64)) as u64) < x,
{
}

proof fn lemma_clear_lowest_bit(x: u64, s: u64, i: u64)
    requires
        x != 0,
        s < 64,
        i < 64,
        bb_has(x, s),
        forall|j: u64| j < s ==> !#[trigger] bb_has(x, j),
    ensures
        bb_has(x & (((x) - (1u64)) as u64), i) <==> (bb_has(x, i) && i != s),
{
    // x has the shape  hi · 1 · 0^s ; x - 1 = hi · 0 · 1^s.
    let low = (1u64 << s);
    assert(x & (((low) - (1u64)) as u64) == 0u64) by {
        assert forall|j: u64| j < 64 implies (#[trigger] bb_has(x & (((low) - (1u64)) as u64), j) <==> bb_has(0u64, j)) by {
            lemma_and_bit(x, (((low) - (1u64)) as u64), j);
            lemma_low_mask_bit(s, j);
            lemma_zero_bit(j);
            if j < s {
                assert(!bb_has(x, j));
            }
        }
        lemma_bb_ext(x & (((low) - (1u64)) as u64), 0u64);
    }
    lemma_clear_bit_shape(x, s, i);
}

proof fn lemma_low_mask_bit(s: u64, j: u64)
    by (bit_vector)
    requires
        s < 64,
        j < 64,
    ensures
        bb_has((((1u64 << s) - (1u64)) as u64), j) <==> j < s,
{
}

proof fn lemma_clear_bit_shape(x: u64, s: u64, i: u64)
    by (bit_vector)
    requires
        s < 64,
        i < 64,
        (x >> s) & 1u64 == 1u64,
        x & (((1u64 << s) - (1u64)) as u64) == 0u64,
    ensures
        ((x & (((x) - (1u64)) as u64)) >> i) & 1u64 == 1u64 <==> (((x >> i) & 1u64 == 1u64) && i != s),
{
}

/// Returns true if two or more bits are set.
pub fn more_than_one(bb: u64) -> (b: bool)
    ensures
        b <==> spec_popcount(bb) >= 2,
{
    let r = bb != 0 && bb & bb.wrapping_sub(1) != 0;
    proof {
        if bb != 0 {
            lemma_popcount_clear_lowest(bb);
            let y = bb & (((bb) - (1u64)) as u64);
            assert(bb.wrapping_sub(1) == (((bb) - (1u64)) as u64)) by (bit_vector)
                requires bb != 0;
            if y != 0 {
                lemma_popcount_pos(y);
            } else {
                assert(spec_popcount(y) == 0);
            }
        } else {
            assert(spec_popcount(bb) == 0);
        }
    }
    r
}

proof fn lemma_popcount_pos(x: u64)
    requires
        x != 0,
    ensures
        spec_popcount(x) >= 1,
{
    lemma_popcount_clear_lowest(x);
}

// ── Directional shifts ────────────────────────────────────────────────────────
// File-boundary guards prevent wrap-around. Used by pawn and attack generation.

pub proof fn lemma_north_bit(bb: u64, i: u64)
    by (bit_vector)
    requires
        i < 64,
    ensures
        bb_has(bb << 8u64, i) <==> (i >= 8 && bb_has(bb, (((i) - (8u64)) as u64))),
{
}

pub proof fn lemma_south_bit(bb: u64, i: u64)
    by (bit_vector)
    requires
        i < 64,
    ensures
        bb_has(bb >> 8u64, i) <==> (i < 56 && bb_has(bb, (((i) + (8u64)) as u64))),
{
}

pub proof fn lemma_rank_mask_bit(r: u64, i: u64)
    by (bit_vector)
    requires
        r < 8,
        i < 64,
    ensures
        bb_has(0xFFu64 << (r * 8), i) <==> i / 8 == r,
{
}

/// Squares of the ranks used by pawn move generation.
pub proof fn lemma_rank_masks()
    ensures
        forall|i: u64| i < 64 ==> (#[trigger] bb_has(RANK_1, i) <==> i / 8 == 0),
        forall|i: u64| i < 64 ==> (#[trigger] bb_has(RANK_2, i) <==> i / 8 == 1),
        forall|i: u64| i < 64 ==> (#[trigger] bb_has(RANK_3, i) <==> i / 8 == 2),
        forall|i: u64| i < 64 ==> (#[trigger] bb_has(RANK_6, i) <==> i / 8 == 5),
        forall|i: u64| i < 64 ==> (#[trigger] bb_has(RANK_7, i) <==> i / 8 == 6),
        forall|i: u64| i < 64 ==> (#[trigger] bb_has(RANK_8, i) <==> i / 8 == 7),
{
    assert(RANK_1 == 0xFFu64 << (0u64 * 8) && RANK_2 == 0xFFu64 << (1u64 * 8) && RANK_3 == 0xFFu64 << (2u64 * 8)
        && RANK_6 == 0xFFu64 << (5u64 * 8) && RANK_7 == 0xFFu64 << (6u64 * 8) && RANK_8 == 0xFFu64 << (7u64 * 8))
        by (bit_vector);
    assert forall|i: u64| i < 64 implies (#[trigger] bb_has(RANK_1, i) <==> i / 8 == 0) by {
        lemma_rank_mask_bit(0, i);
    }
    assert forall|i: u64| i < 64 implies (#[trigger] bb_has(RANK_2, i) <==> i / 8 == 1) by {
        lemma_rank_mask_bit(1, i);
    }
    assert forall|i: u64| i < 64 implies (#[trigger] bb_has(RANK_3, i) <==> i / 8 == 2) by {
        lemma_rank_mask_bit(2, i);
    }
    assert forall|i: u64| i < 64 implies (#[trigger] bb_has(RANK_6, i) <==> i / 8 == 5) by {
        lemma_rank_mask_bit(5, i);
    }
    assert forall|i: u64| i < 64 implies (#[trigger] bb_has(RANK_7, i) <==> i / 8 == 6) by {
        lemma_rank_mask_bit(6, i);
    }
    assert forall|i: u64| i < 64 implies (#[trigger] bb_has(RANK_8, i) <==> i / 8 == 7) by {
        lemma_rank_mask_bit(7, i);
    }
}

pub fn north(bb: u64) -> (r: u64)
    ensures
        r == bb << 8u64,
        forall|i: u64| i < 64 ==> (#[trigger] bb_has(r, i) <==> (i >= 8 && bb_has(bb, (i - 8) as u64))),
{
    proof {
        assert forall|i: u64| i < 64 implies (#[trigger] bb_has(bb << 8u64, i) <==> (i >= 8 && bb_has(bb, (i - 8) as u64))) by {
            lemma_north_bit(bb, i);
        }
    }
    bb << 8
}

pub fn south(bb: u64) -> (r: u64)
    ensures
        r == bb >> 8u64,
        forall|i: u64| i < 64 ==> (#[trigger] bb_has(r, i) <==> (i < 56 && bb_has(bb, (i + 8) as u64))),
{
    proof {
        assert forall|i: u64| i < 64 implies (#[trigger] bb_has(bb >> 8u64, i) <==> (i < 56 && bb_has(bb, (i + 8) as u64))) by {
            lemma_south_bit(bb, i);
        }
    }
    bb >> 8
}

proof fn lemma_east_bit(bb: u64, i: u64)
    by (bit_vector)
    requires
        i < 64,
    ensures
        bb_has((bb & !0x8080_8080_8080_8080u64) << 1u64, i) <==> (i % 8 != 0 && bb_has(bb, (((i) - (1u64)) as u64))),
{
}

proof fn lemma_west_bit(bb: u64, i: u64)
    by (bit_vector)
    requires
        i < 64,
    ensures
        bb_has((bb & !0x0101_0101_0101_0101u64) >> 1u64, i) <==> (i % 8 != 7 && bb_has(bb, (((i) + (1u64)) as u64))),
{
}

proof fn lemma_ne_bit(bb: u64, i: u64)
    by (bit_vector)
    requires
        i < 64,
    ensures
        bb_has((bb & !0x8080_8080_8080_8080u64) << 9u64, i) <==> (i >= 9 && i % 8 != 0 && bb_has(bb, (((i) - (9u64)) as u64))),
{
}

proof fn lemma_nw_bit(bb: u64, i: u64)
    by (bit_vector)
    requires
        i < 64,
    ensures
        bb_has((bb & !0x0101_0101_0101_0101u64) << 7u64, i) <==> (i >= 7 && i % 8 != 7 && bb_has(bb, (((i) - (7u64)) as u64))),
{
}

proof fn lemma_se_bit(bb: u64, i: u64)
    by (bit_vector)
    requires
        i < 64,
    ensures
        bb_has((bb & !0x8080_8080_8080_8080u64) >> 7u64, i) <==> (i < 57 && i % 8 != 0 && bb_has(bb, (((i) + (7u64)) as u64))),
{
}

proof fn lemma_sw_bit(bb: u64, i: u64)
    by (bit_vector)
    requires
        i < 64,
    ensures
        bb_has((bb & !0x0101_0101_0101_0101u64) >> 9u64, i) <==> (i < 55 && i % 8 != 7 && bb_has(bb, (((i) + (9u64)) as u64))),
{
}

pub fn east(bb: u64) -> (r: u64)
    ensures
        r == (bb & !FILE_H) << 1u64,
        forall|i: u64| i < 64 ==> (#[trigger] bb_has(r, i) <==> (i % 8 != 0 && bb_has(bb, (i - 1) as u64))),
{
    proof {
        assert forall|i: u64| i < 64 implies (#[trigger] bb_has((bb & !FILE_H) << 1u64, i) <==> (i % 8 != 0 && bb_has(bb, (i - 1) as u64))) by {
            lemma_east_bit(bb, i);
        }
    }
    (bb & !FILE_H) << 1
}

pub fn west(bb: u64) -> (r: u64)
    ensures
        r == (bb & !FILE_A) >> 1u64,
        forall|i: u64| i < 64 ==> (#[trigger] bb_has(r, i) <==> (i % 8 != 7 && bb_has(bb, (i + 1) as u64))),
{
    proof {
        assert forall|i: u64| i < 64 implies (#[trigger] bb_has((bb & !FILE_A) >> 1u64, i) <==> (i % 8 != 7 && bb_has(bb, (i + 1) as u64))) by {
            lemma_west_bit(bb, i);
        }
    }
    (bb & !FILE_A) >> 1
}

pub fn north_east(bb: u64) -> (r: u64)
    ensures
        r == (bb & !FILE_H) << 9u64,
        forall|i: u64| i < 64 ==> (#[trigger] bb_has(r, i) <==> (i >= 9 && i % 8 != 0 && bb_has(bb, (i - 9) as u64))),
{
    proof {
        assert forall|i: u64| i < 64 implies (#[trigger] bb_has((bb & !FILE_H) << 9u64, i) <==> (i >= 9 && i % 8 != 0 && bb_has(bb, (i - 9) as u64))) by {
            lemma_ne_bit(bb, i);
        }
    }
    (bb & !FILE_H) << 9
}

pub fn north_west(bb: u64) -> (r: u64)
    ensures
        r == (bb & !FILE_A) << 7u64,
        forall|i: u64| i < 64 ==> (#[trigger] bb_has(r, i) <==> (i >= 7 && i % 8 != 7 && bb_has(bb, (i - 7) as u64))),
{
    proof {
        assert forall|i: u64| i < 64 implies (#[trigger] bb_has((bb & !FILE_A) << 7u64, i) <==> (i >= 7 && i % 8 != 7 && bb_has(bb, (i - 7) as u64))) by {
            lemma_nw_bit(bb, i);
        }
    }
    (bb & !FILE_A) << 7
}

pub fn south_east(bb: u64) -> (r: u64)
    ensures
        r == (bb & !FILE_H) >> 7u64,
        forall|i: u64| i < 64 ==> (#[trigger] bb_has(r, i) <==> (i < 57 && i % 8 != 0 && bb_has(bb, (i + 7) as u64))),
{
    proof {
        assert forall|i: u64| i < 64 implies (#[trigger] bb_has((bb & !FILE_H) >> 7u64, i) <==> (i < 57 && i % 8 != 0 && bb_has(bb, (i + 7) as u64))) by {
            lemma_se_bit(bb, i);
        }
    }
    (bb & !FILE_H) >> 7
}

pub fn south_west(bb: u64) -> (r: u64)
    ensures
        r == (bb & !FILE_A) >> 9u64,
        forall|i: u64| i < 64 ==> (#[trigger] bb_has(r, i) <==> (i < 55 && i % 8 != 7 && bb_has(bb, (i + 9) as u64))),
{
    proof {
        assert forall|i: u64| i < 64 implies (#[trigger] bb_has((bb & !FILE_A) >> 9u64, i) <==> (i < 55 && i % 8 != 7 && bb_has(bb, (i + 9) as u64))) by {
            lemma_sw_bit(bb, i);
        }
    }
    (bb & !FILE_A) >> 9
}

// ── Bit iteration ─────────────────────────────────────────────────────────────

/// The squares of a bitboard, lowest first, exactly once each.
pub open spec fn is_square_list(bb: u64, s: Seq<Square>) -> bool {
    &&& forall|k: int| 0 <= k < s.len() ==> (#[trigger] s[k]).valid()
    &&& forall|k: int, l: int| 0 <= k < l < s.len() ==> (#[trigger] s[k]).0 < (#[trigger] s[l]).0
    &&& forall|i: u64| i < 64 ==> (#[trigger] bb_has(bb, i) <==> exists|k: int| 0 <= k < s.len() && s[k].0 == i)
}

/// Iterator over all squares with a set bit, LSB first.
pub struct BitIter(pub u64);

impl BitIter {
    /// Next square (lowest set bit), removing it from the iterator.
    pub fn next(&mut self) -> (r: Option<Square>)
        ensures
            old(self).0 == 0 ==> r.is_none() && final(self).0 == 0,
            old(self).0 != 0 ==> r.is_some() && r.unwrap().valid()
                && bb_has(old(self).0, r.unwrap().0 as u64)
                && (forall|i: u64| i < r.unwrap().0 ==> !#[trigger] bb_has(old(self).0, i))
                && (forall|i: u64| i < 64 ==> (#[trigger] bb_has(final(self).0, i) <==> (bb_has(old(self).0, i) && i != r.unwrap().0))),
    {
        if self.0 == 0 {
            None
        } else {
            Some(pop_lsb(&mut self.0))
        }
    }

    /// Exact number of squares left (lower, upper bound).
    pub fn size_hint(&self) -> (r: (usize, Option<usize>))
        ensures
            r.0 as nat == spec_popcount(self.0),
            r.1 == Some(r.0),
    {
        let n = popcount(self.0) as usize;
        (n, Some(n))
    }

    /// Number of squares left.
    pub fn len(&self) -> (n: usize)
        ensures
            n as nat == spec_popcount(self.0),
    {
        popcount(self.0) as usize
    }

    /// All remaining squares, lowest first.
    pub fn to_vec(&self) -> (v: Vec<Square>)
        ensures
            is_square_list(self.0, v@),
            v@.len() == spec_popcount(self.0),
    {
        squares_of(self.0)
    }
}

pub fn iter_bits(bb: u64) -> (it: BitIter)
    ensures
        it.0 == bb,
{
    BitIter(bb)
}

/// The squares of a bitboard, lowest first.
pub fn squares_of(bb: u64) -> (v: Vec<Square>)
    ensures
        is_square_list(bb, v@),
        v@.len() == spec_popcount(bb),
{
    let mut v: Vec<Square> = Vec::new();
    let mut rest = bb;
    proof {
        lemma_bits_all(bb, bb);
    }
    while rest != 0
        invariant
            forall|k: int| 0 <= k < v@.len() ==> (#[trigger] v@[k]).valid(),
            forall|k: int, l: int| 0 <= k < l < v@.len() ==> (#[trigger] v@[k]).0 < (#[trigger] v@[l]).0,
            forall|k: int, i: u64| 0 <= k < v@.len() && i < 64 && bb_has(rest, i) ==> v@[k].0 < i,
            forall|i: u64| i < 64 ==> (#[trigger] bb_has(bb, i) <==> (bb_has(rest, i) || exists|k: int| 0 <= k < v@.len() && v@[k].0 == i)),
            v@.len() + spec_popcount(rest) == spec_popcount(bb),
        decreases rest,
    {
        let ghost old_rest = rest;
        let ghost old_v = v@;
        let sq = pop_lsb(&mut rest);
        v.push(sq);
        proof {
            assert forall|i: u64| i < 64 implies (#[trigger] bb_has(bb, i) <==> (bb_has(rest, i) || exists|k: int| 0 <= k < v@.len() && v@[k].0 == i)) by {
                if bb_has(bb, i) {
                    if !bb_has(rest, i) {
                        if i == sq.0 {
                            assert(v@[v@.len() - 1].0 == i);
                        } else {
                            let k = choose|k: int| 0 <= k < old_v.len() && old_v[k].0 == i;
                            assert(v@[k].0 == i);
                        }
                    }
                } else {
                    if exists|k: int| 0 <= k < v@.len() && v@[k].0 == i {
                        let k = choose|k: int| 0 <= k < v@.len() && v@[k].0 == i;
                        if k < old_v.len() {
                            assert(old_v[k].0 == i);
                        }
                    }
                }
            }
            assert forall|k: int, i: u64| 0 <= k < v@.len() && i < 64 && bb_has(rest, i) implies v@[k].0 < i by {
                if k < old_v.len() {
                    assert(bb_has(old_rest, i));
                } else {
                    assert(bb_has(old_rest, i));
                    if i < sq.0 {
                        assert(!bb_has(old_rest, i));
                    }
                }
            }
            assert forall|k: int, l: int| 0 <= k < l < v@.len() implies (#[trigger] v@[k]).0 < (#[trigger] v@[l]).0 by {
                if l == v@.len() - 1 {
                    assert(bb_has(old_rest, sq.0 as u64));
                }
            }
        }
    }
    proof {
        assert forall|i: u64| i < 64 implies (#[trigger] bb_has(bb, i) <==> exists|k: int| 0 <= k < v@.len() && v@[k].0 == i) by {
            lemma_zero_bit(i);
        }
        assert(spec_popcount(0u64) == 0);
    }
    v
}

// ── Drawing ───────────────────────────────────────────────────────────────────

/// Files `f..8` of rank `r` of a drawn bitboard: `1 ` for a set bit, `. ` else.
pub open spec fn bb_cells(bb: u64, r: int, f: int) -> Seq<char>
    decreases 8 - f,
{
    if f >= 8 {
        Seq::empty()
    } else {
        seq![if bb_has(bb, (r * 8 + f) as u64) { '1' } else { '.' }, ' '] + bb_cells(bb, r, f + 1)
    }
}

/// Ranks `r` down to 1 of a drawn bitboard, each led by its number.
pub open spec fn bb_rows(bb: u64, r: int) -> Seq<char>
    decreases r + 1,
{
    if r < 0 {
        Seq::empty()
    } else {
        seq![(('1' as int) + r) as char, ' '] + bb_cells(bb, r, 0) + seq!['\n'] + bb_rows(bb, r - 1)
    }
}

/// A bitboard drawn as an 8×8 grid with rank 8 at the top, then the file letters.
pub open spec fn bb_text(bb: u64) -> Seq<char> {
    bb_rows(bb, 7) + "  a b c d e f g h\n"@
}

/// Draws a bitboard as an 8×8 grid with rank 8 at the top.
pub fn bb_grid(bb: u64) -> (s: String)
    ensures
        s@ == bb_text(bb),
{
    let mut v: Vec<char> = Vec::new();
    let mut r: u8 = 8;
    while r > 0
        invariant
            r <= 8,
            bb_rows(bb, 7) == v@ + bb_rows(bb, r as int - 1),
        decreases r,
    {
        let rank = r - 1;
        v.push(rank_digit(rank));
        v.push(' ');
        let ghost after_label = v@;
        let mut f: u8 = 0;
        while f < 8
            invariant
                f <= 8,
                rank < 8,
                after_label + bb_cells(bb, rank as int, 0) == v@ + bb_cells(bb, rank as int, f as int),
            decreases 8 - f,
        {
            let c = if test_bit(bb, Square::new(f, rank)) { '1' } else { '.' };
            v.push(c);
            v.push(' ');
            proof {
                assert(bb_cells(bb, rank as int, f as int) =~= seq![c, ' '] + bb_cells(bb, rank as int, f + 1));
            }
            f = f + 1;
        }
        v.push('\n');
        proof {
            assert(bb_cells(bb, rank as int, 8) =~= Seq::<char>::empty());
            assert(bb_rows(bb, rank as int) =~= seq![(('1' as int) + rank) as char, ' '] + bb_cells(bb, rank as int, 0)
                + seq!['\n'] + bb_rows(bb, rank as int - 1));
        }
        r = r - 1;
    }
    let tail = "  a b c d e f g h\n";
    let n = tail.unicode_len();
    let mut i: usize = 0;
    while i < n
        invariant
            n == tail@.len(),
            i <= n,
            bb_rows(bb, 7) + tail@.subrange(0, i as int) == v@,
        decreases n - i,
    {
        v.push(tail.get_char(i));
        i = i + 1;
        proof {
            assert(bb_rows(bb, 7) + tail@.subrange(0, i as int) =~= v@);
        }
    }
    proof {
        assert(bb_rows(bb, -1) =~= Seq::<char>::empty());
        assert(tail@.subrange(0, n as int) =~= tail@);
    }
    string_from_chars(v)
}

/// The digit of rank `r` ('1' … '8').
fn rank_digit(r: u8) -> (c: char)
    requires
        r < 8,
    ensures
        c == (('1' as int) + r) as char,
{
    match r {
        0 => '1',
        1 => '2',
        2 => '3',
        3 => '4',
        4 => '5',
        5 => '6',
        6 => '7',
        _ => '8',
    }
}

} // verus!
