//! An engine that plays a uniformly chosen legal move.
use vstd::prelude::*;
use crate::chess::board::Board;
use crate::chess::movegen::{generate_legal, spec_legal, has_legal_move};
use crate::chess::moves::Move;
use crate::utils::xs_step;
use super::Engine;
use super::clock::clock_seed;

verus! {

pub struct RandomEngine {
    pub rng: u64,
}

impl RandomEngine {
    /// Seeds the generator from the system clock; the low bit is set so the
    /// state is never zero.
    pub fn new() -> (e: RandomEngine)
        ensures
            e.rng & 1u64 == 1u64,
    {
        let seed = clock_seed();
        let rng = seed | 1;
        assert(rng & 1u64 == 1u64) by (bit_vector)
            requires
                rng == seed | 1u64,
        ;
        RandomEngine { rng }
    }

    /// One xorshift64 step; returns the new state.
    fn next_usize(&mut self) -> (r: usize)
        ensures
            final(self).rng == xs_step(old(self).rng),
            r == xs_step(old(self).rng) as usize,
    {
        let x = self.rng;
        let a = x ^ (x << 13);
        let b = a ^ (a >> 7);
        let c = b ^ (b << 17);
        self.rng = c;
        c as usize
    }
}

impl Engine for RandomEngine {
    open spec fn ready(&self) -> bool {
        true
    }

    fn choose_move(&mut self, board: &Board) -> (r: Option<Move>)
        ensures
            r is Some <==> has_legal_move(*board),
            has_legal_move(*board) ==> final(self).rng == xs_step(old(self).rng),
    {
        let moves = generate_legal(board);
        if moves.is_empty() {
            proof {
                assert forall|m: Move| !spec_legal(*board, m) by {
                    if spec_legal(*board, m) {
                        assert(moves@.contains(m));
                    }
                }
            }
            return None;
        }
        let idx = self.next_usize() % moves.len();
        let m = moves.get(idx);
        assert(moves@.contains(m));
        Some(m)
    }

    fn name(&self) -> (s: &str)
        ensures
            s@ == "RandomEngine"@,
    {
        "RandomEngine"
    }
}

} // verus!
