use vstd::prelude::*;
use crate::utils::{Xorshift64, xs_step};

verus! {

pub const ZOBRIST_SEED: u64 = 0x246C_CB38_BCEF_3C01u64;

/// The `n`-th output of the key generator (n = 0 is the seeded state itself).
pub open spec fn zob_seq(n: nat) -> u64
    decreases n,
{
    if n == 0 {
        ZOBRIST_SEED | 1u64
    } else {
        xs_step(zob_seq((n - 1) as nat))
    }
}

#[derive(Clone, Copy, Debug)]
pub struct ZobristKeys {
    /// `piece_sq[color][piece_type][square]`
    pub piece_sq: [[[u64; 64]; 6]; 2],
    /// XOR into hash when it is Black's turn to move.
    pub side: u64,
    /// Indexed by the 4-bit castling-rights value (0–15).
    /// `castling[0] == 0` by convention (no rights → zero contribution).
    pub castling: [u64; 16],
    /// Indexed by file (0–7); XOR in when en-passant is available on that file.
    pub en_passant: [u64; 8],
}


impl ZobristKeys {
    /// The keys are the outputs of xorshift64 seeded with `ZOBRIST_SEED`, drawn in
    /// order: the 768 piece-square keys, the side key, castling keys 1–15, and the
    /// 8 en-passant keys.
    pub open spec fn wf(&self) -> bool {
        &&& forall|c: int, p: int, s: int| 0 <= c < 2 && 0 <= p < 6 && 0 <= s < 64
            ==> #[trigger] self.piece_sq[c][p][s] == zob_seq((c * 384 + p * 64 + s + 1) as nat)
        &&& self.side == zob_seq(769)
        &&& self.castling[0] == 0
        &&& forall|i: int| 1 <= i < 16 ==> #[trigger] self.castling[i] == zob_seq((769 + i) as nat)
        &&& forall|f: int| 0 <= f < 8 ==> #[trigger] self.en_passant[f] == zob_seq((785 + f) as nat)
    }

    pub fn generate() -> (k: ZobristKeys)
        ensures
            k.wf(),
    {
        let mut rng = Xorshift64::new(ZOBRIST_SEED);
        let ghost mut n: nat = 0;
        let mut piece_sq = [[[0u64; 64]; 6]; 2];
        let mut c: usize = 0;
        while c < 2
            invariant
                c <= 2,
                n == c * 384,
                rng.state() == zob_seq(n),
                forall|c2: int, p: int, s: int| 0 <= c2 < c && 0 <= p < 6 && 0 <= s < 64
                    ==> #[trigger] piece_sq[c2][p][s] == zob_seq((c2 * 384 + p * 64 + s + 1) as nat),
            decreases 2 - c,
        {
            let mut p: usize = 0;
            while p < 6
                invariant
                    c < 2,
                    p <= 6,
                    n == c * 384 + p * 64,
                    rng.state() == zob_seq(n),
                    forall|c2: int, p2: int, s: int| 0 <= c2 < c && 0 <= p2 < 6 && 0 <= s < 64
                        ==> #[trigger] piece_sq[c2][p2][s] == zob_seq((c2 * 384 + p2 * 64 + s + 1) as nat),
                    forall|p2: int, s: int| 0 <= p2 < p && 0 <= s < 64
                        ==> #[trigger] piece_sq[c as int][p2][s] == zob_seq((c * 384 + p2 * 64 + s + 1) as nat),
                decreases 6 - p,
            {
                let mut s: usize = 0;
                while s < 64
                    invariant
                        c < 2,
                        p < 6,
                        s <= 64,
                        n == c * 384 + p * 64 + s,
                        rng.state() == zob_seq(n),
                        forall|c2: int, p2: int, s2: int| 0 <= c2 < c && 0 <= p2 < 6 && 0 <= s2 < 64
                            ==> #[trigger] piece_sq[c2][p2][s2] == zob_seq((c2 * 384 + p2 * 64 + s2 + 1) as nat),
                        forall|p2: int, s2: int| 0 <= p2 < p && 0 <= s2 < 64
                            ==> #[trigger] piece_sq[c as int][p2][s2] == zob_seq((c * 384 + p2 * 64 + s2 + 1) as nat),
                        forall|s2: int| 0 <= s2 < s
                            ==> #[trigger] piece_sq[c as int][p as int][s2] == zob_seq((c * 384 + p * 64 + s2 + 1) as nat),
                    decreases 64 - s,
                {
                    let v = rng.next_u64();
                    proof {
                        n = n + 1;
                    }
                    piece_sq[c][p][s] = v;
                    s = s + 1;
                }
                p = p + 1;
            }
            c = c + 1;
        }
        let side = rng.next_u64();
        proof {
            n = n + 1;
        }
        let mut castling = [0u64; 16];
        let mut i: usize = 1;
        while i < 16
            invariant
                1 <= i <= 16,
                n == 768 + i,
                rng.state() == zob_seq(n),
                castling[0] == 0,
                forall|j: int| 1 <= j < i ==> #[trigger] castling[j] == zob_seq((769 + j) as nat),
            decreases 16 - i,
        {
            let v = rng.next_u64();
            proof {
                n = n + 1;
            }
            castling[i] = v;
            i = i + 1;
        }
        let mut en_passant = [0u64; 8];
        let mut f: usize = 0;
        while f < 8
            invariant
                f <= 8,
                n == 784 + f,
                rng.state() == zob_seq(n),
                forall|j: int| 0 <= j < f ==> #[trigger] en_passant[j] == zob_seq((785 + j) as nat),
            decreases 8 - f,
        {
            let v = rng.next_u64();
            proof {
                n = n + 1;
            }
            en_passant[f] = v;
            f = f + 1;
        }
        ZobristKeys { piece_sq, side, castling, en_passant }
    }
}

/// The Zobrist key table (generated afresh on each call; the generator is deterministic).
pub fn zobrist_keys() -> (k: ZobristKeys)
    ensures
        k.wf(),
{
    ZobristKeys::generate()
}

/// The keys are fixed: any two well-formed key sets are the same.
pub proof fn lemma_keys_unique(a: ZobristKeys, b: ZobristKeys)
    requires
        a.wf(),
        b.wf(),
    ensures
        a == b,
{
    assert forall|c: int, p: int| 0 <= c < 2 && 0 <= p < 6 implies a.piece_sq[c][p] == b.piece_sq[c][p] by {
        assert forall|s: int| 0 <= s < 64 implies a.piece_sq[c][p][s] == b.piece_sq[c][p][s] by {
            assert(a.piece_sq[c][p][s] == zob_seq((c * 384 + p * 64 + s + 1) as nat));
            assert(b.piece_sq[c][p][s] == zob_seq((c * 384 + p * 64 + s + 1) as nat));
        }
        assert(a.piece_sq[c][p] =~= b.piece_sq[c][p]);
    }
    assert forall|c: int| 0 <= c < 2 implies a.piece_sq[c] == b.piece_sq[c] by {
        assert(a.piece_sq[c] =~= b.piece_sq[c]);
    }
    assert(a.piece_sq =~= b.piece_sq);
    assert forall|i: int| 0 <= i < 16 implies a.castling[i] == b.castling[i] by {
        if i > 0 {
            assert(a.castling[i] == zob_seq((769 + i) as nat));
            assert(b.castling[i] == zob_seq((769 + i) as nat));
        }
    }
    assert(a.castling =~= b.castling);
    assert forall|f: int| 0 <= f < 8 implies a.en_passant[f] == b.en_passant[f] by {
        assert(a.en_passant[f] == zob_seq((785 + f) as nat));
        assert(b.en_passant[f] == zob_seq((785 + f) as nat));
    }
    assert(a.en_passant =~= b.en_passant);
}

} // verus!
