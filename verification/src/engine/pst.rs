//! Material values, game-phase weights and piece-square tables.
//! Tables are from White's side, indexed by square (a1 = 0 … h8 = 63); a black
//! piece reads the table at the square mirrored vertically (`sq ^ 56`).
use vstd::prelude::*;

verus! {

pub const PHASE_QUEEN: i32 = 4;
pub const PHASE_ROOK: i32 = 2;
pub const PHASE_BISHOP: i32 = 1;
pub const PHASE_KNIGHT: i32 = 1;
pub const PHASE_MAX: i32 = 24;
pub const PAWN_MG: i32 = 100;
pub const KNIGHT_MG: i32 = 320;
pub const BISHOP_MG: i32 = 330;
pub const ROOK_MG: i32 = 500;
pub const QUEEN_MG: i32 = 900;
pub const PAWN_EG: i32 = 110;
pub const KNIGHT_EG: i32 = 300;
pub const BISHOP_EG: i32 = 340;
pub const ROOK_EG: i32 = 530;
pub const QUEEN_EG: i32 = 940;

pub const PAWN_PST_MG: [i32; 64] = [
       0,    0,    0,    0,    0,    0,    0,    0,
       5,   10,   10,  -20,  -20,   10,   10,    5,
       5,   -5,  -10,    0,    0,  -10,   -5,    5,
       0,    0,    0,   20,   20,    0,    0,    0,
       5,    5,   10,   25,   25,   10,    5,    5,
      10,   10,   20,   30,   30,   20,   10,   10,
      50,   50,   50,   50,   50,   50,   50,   50,
       0,    0,    0,    0,    0,    0,    0,    0,
];

pub const PAWN_PST_EG: [i32; 64] = [
       0,    0,    0,    0,    0,    0,    0,    0,
       0,    0,    0,    0,    0,    0,    0,    0,
       5,    5,    5,    5,    5,    5,    5,    5,
      10,   10,   10,   10,   10,   10,   10,   10,
      20,   20,   20,   20,   20,   20,   20,   20,
      35,   35,   35,   35,   35,   35,   35,   35,
      55,   55,   55,   55,   55,   55,   55,   55,
       0,    0,    0,    0,    0,    0,    0,    0,
];

pub const KNIGHT_PST_MG: [i32; 64] = [
     -50,  -40,  -30,  -30,  -30,  -30,  -40,  -50,
     -40,  -20,    0,    5,    5,    0,  -20,  -40,
     -30,    5,   10,   15,   15,   10,    5,  -30,
     -30,    0,   15,   20,   20,   15,    0,  -30,
     -30,    5,   15,   20,   20,   15,    5,  -30,
     -30,    0,   10,   15,   15,   10,    0,  -30,
     -40,  -20,    0,    0,    0,    0,  -20,  -40,
     -50,  -40,  -30,  -30,  -30,  -30,  -40,  -50,
];

pub const KNIGHT_PST_EG: [i32; 64] = [
     -50,  -40,  -30,  -30,  -30,  -30,  -40,  -50,
     -40,  -20,    0,    0,    0,    0,  -20,  -40,
     -30,    0,   10,   15,   15,   10,    0,  -30,
     -30,    5,   15,   20,   20,   15,    5,  -30,
     -30,    5,   15,   20,   20,   15,    5,  -30,
     -30,    0,   10,   15,   15,   10,    0,  -30,
     -40,  -20,    0,    0,    0,    0,  -20,  -40,
     -50,  -40,  -30,  -30,  -30,  -30,  -40,  -50,
];

pub const BISHOP_PST_MG: [i32; 64] = [
     -20,  -10,  -10,  -10,  -10,  -10,  -10,  -20,
     -10,    5,    0,    0,    0,    0,    5,  -10,
     -10,   10,   10,   10,   10,   10,   10,  -10,
     -10,    0,   10,   10,   10,   10,    0,  -10,
     -10,    5,    5,   10,   10,    5,    5,  -10,
     -10,    0,    5,   10,   10,    5,    0,  -10,
     -10,    0,    0,    0,    0,    0,    0,  -10,
     -20,  -10,  -10,  -10,  -10,  -10,  -10,  -20,
];

pub const BISHOP_PST_EG: [i32; 64] = [
     -20,  -10,  -10,  -10,  -10,  -10,  -10,  -20,
     -10,    0,    0,    0,    0,    0,    0,  -10,
     -10,    0,    5,   10,   10,    5,    0,  -10,
     -10,    0,   10,   15,   15,   10,    0,  -10,
     -10,    0,   10,   15,   15,   10,    0,  -10,
     -10,    0,    5,   10,   10,    5,    0,  -10,
     -10,    0,    0,    0,    0,    0,    0,  -10,
     -20,  -10,  -10,  -10,  -10,  -10,  -10,  -20,
];

pub const ROOK_PST_MG: [i32; 64] = [
       0,    0,    0,    5,    5,    0,    0,    0,
      -5,    0,    0,    0,    0,    0,    0,   -5,
      -5,    0,    0,    0,    0,    0,    0,   -5,
      -5,    0,    0,    0,    0,    0,    0,   -5,
      -5,    0,    0,    0,    0,    0,    0,   -5,
      -5,    0,    0,    0,    0,    0,    0,   -5,
       5,   10,   10,   10,   10,   10,   10,    5,
       0,    0,    0,    0,    0,    0,    0,    0,
];

pub const ROOK_PST_EG: [i32; 64] = [
       5,    5,    5,    5,    5,    5,    5,    5,
       0,    0,    0,    0,    0,    0,    0,    0,
       0,    0,    0,    0,    0,    0,    0,    0,
       0,    0,    0,    0,    0,    0,    0,    0,
       0,    0,    0,    0,    0,    0,    0,    0,
       0,    0,    0,    0,    0,    0,    0,    0,
       0,    0,    0,    0,    0,    0,    0,    0,
       5,    5,    5,    5,    5,    5,    5,    5,
];

pub const QUEEN_PST_MG: [i32; 64] = [
     -20,  -10,  -10,   -5,   -5,  -10,  -10,  -20,
     -10,    0,    5,    0,    0,    0,    0,  -10,
     -10,    5,    5,    5,    5,    5,    0,  -10,
       0,    0,    5,    5,    5,    5,    0,   -5,
      -5,    0,    5,    5,    5,    5,    0,   -5,
     -10,    0,    5,    5,    5,    5,    0,  -10,
     -10,    0,    0,    0,    0,    0,    0,  -10,
     -20,  -10,  -10,   -5,   -5,  -10,  -10,  -20,
];

pub const QUEEN_PST_EG: [i32; 64] = [
     -20,  -10,  -10,   -5,   -5,  -10,  -10,  -20,
     -10,    0,    0,    0,    0,    0,    0,  -10,
     -10,    0,    5,    5,    5,    5,    0,  -10,
      -5,    0,    5,   10,   10,    5,    0,   -5,
      -5,    0,    5,   10,   10,    5,    0,   -5,
     -10,    0,    5,    5,    5,    5,    0,  -10,
     -10,    0,    0,    0,    0,    0,    0,  -10,
     -20,  -10,  -10,   -5,   -5,  -10,  -10,  -20,
];

pub const KING_PST_MG: [i32; 64] = [
      20,   30,   10,    0,    0,   10,   30,   20,
      20,   20,    0,    0,    0,    0,   20,   20,
     -10,  -20,  -20,  -20,  -20,  -20,  -20,  -10,
     -20,  -30,  -30,  -40,  -40,  -30,  -30,  -20,
     -30,  -40,  -40,  -50,  -50,  -40,  -40,  -30,
     -30,  -40,  -40,  -50,  -50,  -40,  -40,  -30,
     -30,  -40,  -40,  -50,  -50,  -40,  -40,  -30,
     -30,  -40,  -40,  -50,  -50,  -40,  -40,  -30,
];

pub const KING_PST_EG: [i32; 64] = [
     -50,  -30,  -30,  -30,  -30,  -30,  -30,  -50,
     -30,  -10,    0,    0,    0,    0,  -10,  -30,
     -30,    0,   20,   25,   25,   20,    0,  -30,
     -30,    5,   25,   30,   30,   25,    5,  -30,
     -30,    5,   25,   30,   30,   25,    5,  -30,
     -30,    0,   20,   25,   25,   20,    0,  -30,
     -30,  -10,    0,    0,    0,    0,  -10,  -30,
     -50,  -30,  -30,  -30,  -30,  -30,  -30,  -50,
];

/// Every table entry lies in `-60..=60`.
pub proof fn lemma_pst_bounds()
    ensures
        forall|i: int| 0 <= i < 64 ==> -60 <= #[trigger] PAWN_PST_MG@[i] <= 60,
        forall|i: int| 0 <= i < 64 ==> -60 <= #[trigger] PAWN_PST_EG@[i] <= 60,
        forall|i: int| 0 <= i < 64 ==> -60 <= #[trigger] KNIGHT_PST_MG@[i] <= 60,
        forall|i: int| 0 <= i < 64 ==> -60 <= #[trigger] KNIGHT_PST_EG@[i] <= 60,
        forall|i: int| 0 <= i < 64 ==> -60 <= #[trigger] BISHOP_PST_MG@[i] <= 60,
        forall|i: int| 0 <= i < 64 ==> -60 <= #[trigger] BISHOP_PST_EG@[i] <= 60,
        forall|i: int| 0 <= i < 64 ==> -60 <= #[trigger] ROOK_PST_MG@[i] <= 60,
        forall|i: int| 0 <= i < 64 ==> -60 <= #[trigger] ROOK_PST_EG@[i] <= 60,
        forall|i: int| 0 <= i < 64 ==> -60 <= #[trigger] QUEEN_PST_MG@[i] <= 60,
        forall|i: int| 0 <= i < 64 ==> -60 <= #[trigger] QUEEN_PST_EG@[i] <= 60,
        forall|i: int| 0 <= i < 64 ==> -60 <= #[trigger] KING_PST_MG@[i] <= 60,
        forall|i: int| 0 <= i < 64 ==> -60 <= #[trigger] KING_PST_EG@[i] <= 60,
{
    assert forall|i: int| 0 <= i < 64 implies -60 <= #[trigger] PAWN_PST_MG@[i] <= 60 by {}
    assert forall|i: int| 0 <= i < 64 implies -60 <= #[trigger] PAWN_PST_EG@[i] <= 60 by {}
    assert forall|i: int| 0 <= i < 64 implies -60 <= #[trigger] KNIGHT_PST_MG@[i] <= 60 by {}
    assert forall|i: int| 0 <= i < 64 implies -60 <= #[trigger] KNIGHT_PST_EG@[i] <= 60 by {}
    assert forall|i: int| 0 <= i < 64 implies -60 <= #[trigger] BISHOP_PST_MG@[i] <= 60 by {}
    assert forall|i: int| 0 <= i < 64 implies -60 <= #[trigger] BISHOP_PST_EG@[i] <= 60 by {}
    assert forall|i: int| 0 <= i < 64 implies -60 <= #[trigger] ROOK_PST_MG@[i] <= 60 by {}
    assert forall|i: int| 0 <= i < 64 implies -60 <= #[trigger] ROOK_PST_EG@[i] <= 60 by {}
    assert forall|i: int| 0 <= i < 64 implies -60 <= #[trigger] QUEEN_PST_MG@[i] <= 60 by {}
    assert forall|i: int| 0 <= i < 64 implies -60 <= #[trigger] QUEEN_PST_EG@[i] <= 60 by {}
    assert forall|i: int| 0 <= i < 64 implies -60 <= #[trigger] KING_PST_MG@[i] <= 60 by {}
    assert forall|i: int| 0 <= i < 64 implies -60 <= #[trigger] KING_PST_EG@[i] <= 60 by {}
}

} // verus!
