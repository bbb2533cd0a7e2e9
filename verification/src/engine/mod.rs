pub mod pst;
pub mod eval;
pub mod nnue;
pub mod abort;
pub mod clock;
pub mod time_manager;
pub mod alpha_beta;
pub mod random;

use vstd::prelude::*;
use crate::chess::board::Board;
use crate::chess::movegen::{spec_legal, has_legal_move};
use crate::chess::moves::Move;
use crate::chess::perft::counters_fit;
use self::alpha_beta::SEARCH_PLY_LIMIT;

verus! {

/// A move chooser.
pub trait Engine {
    /// The engine's own state is consistent, so that it can be asked for a move.
    spec fn ready(&self) -> bool;

    /// Pick a move for the current side to move. Returns `None` if there are
    /// no legal moves (checkmate or stalemate — caller should have checked).
    fn choose_move(&mut self, board: &Board) -> (r: Option<Move>)
        requires
            old(self).ready(),
            board.valid(),
            counters_fit(*board, SEARCH_PLY_LIMIT as int),
        ensures
            final(self).ready(),
            r matches Some(m) ==> spec_legal(*board, m),
            !has_legal_move(*board) ==> r is None,
    ;

    fn name(&self) -> &str;

    /// True if the most recent `choose_move` call was answered by an opening
    /// book rather than the engine's own search.  Defaults to false.
    fn last_was_book(&self) -> (b: bool)
        default_ensures
            !b,
    {
        false
    }

    /// Score (centipawns, from the engine's own side's perspective) produced
    /// by the most recent `choose_move` search.  Returns `None` for engines
    /// that don't search (random mover, opening book moves).
    fn last_score(&self) -> (s: Option<i32>)
        default_ensures
            s is None,
    {
        None
    }
}

} // verus!
