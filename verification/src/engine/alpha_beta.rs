//! Iterative-deepening negamax with alpha-beta pruning, quiescence search,
//! a transposition table, killer and history move ordering, null-move pruning,
//! futility pruning, late-move reductions and check extensions.
use vstd::prelude::*;
use std::sync::atomic::AtomicBool;
use std::sync::Arc;
use std::time::Instant;
use crate::chess::bitboard::{lsb, EMPTY};
use crate::chess::board::{Board, made, null_made, lemma_null_valid, spec_make_mailbox, lemma_made_unique, spec_in_check};
use crate::chess::movegen::{generate_pseudo_legal, spec_legal, spec_pseudo, has_legal_move, king_safe_after};
use crate::chess::moves::{Move, MoveFlag, MoveList, spec_promo_piece};
use crate::chess::perft::{counters_fit, lemma_legal_step};
use crate::chess::types::{Color, Piece, PieceType, Square};
use crate::text::{push_str, push_dec};
use crate::utils::string_from_chars;
use super::abort::{is_set, raise, new_flag};
use super::clock;
use super::eval::{static_eval, spec_static_eval, CHECKMATE_SCORE};
use super::nnue::{Nnue, AccumulatorStack, STACK_DEPTH, wrap32, lemma_wrap32, out_dot, EVAL_SCALE, spec_acc_eval};
use super::time_manager::TimeManager;
use super::Engine;

verus! {

pub const NEG_INF: i32 = -30_001i32;
pub const POS_INF: i32 = 30_001i32;
pub const MAX_PLY: usize = 64;

/// Deepest ply the search goes to; beyond it a position is scored statically
/// (the accumulator stack holds `STACK_DEPTH` plies).
pub const SEARCH_PLY_LIMIT: usize = 126;

// ── Time management ───────────────────────────────────────────────────────────

/// Check the hard deadline every this many nodes.
pub const NORMAL_CHECK_INTERVAL: u64 = 2048u64;
/// Tighter interval when the clock is nearly empty.
pub const PANIC_CHECK_INTERVAL: u64 = 256u64;

// ── Aspiration windows ────────────────────────────────────────────────────────

pub const ASPIRATION_DELTA: i32 = 50i32;
pub const ASPIRATION_MIN_DEPTH: u32 = 4u32;
pub const ASPIRATION_MAX_DELTA: i32 = 1500i32;

// ── Move ordering scores ──────────────────────────────────────────────────────

pub const SCORE_TT_MOVE: i32 = 30_000_000i32;
pub const SCORE_PROMO_BASE: i32 = 9_000_000i32;
pub const SCORE_CAPTURE_BASE: i32 = 1_000_000i32;
pub const SCORE_KILLER: i32 = 900_000i32;
pub const SCORE_QUIET_SKIP: i32 = -1i32;
pub const HISTORY_MAX: i32 = 32_000i32;

// ── Search tuning parameters ──────────────────────────────────────────────────

pub const NULL_MIN_DEPTH: u32 = 3u32;
pub const NULL_FULL_DEPTH: u32 = 6u32;
pub const NULL_R_PARTIAL: u32 = 2u32;
pub const NULL_R_FULL: u32 = 3u32;

pub const FUTILITY_MAX_DEPTH: u32 = 2u32;
pub const FUTILITY_MARGIN_1: i32 = 100i32;
pub const FUTILITY_MARGIN_2: i32 = 300i32;

pub const LMR_MIN_QUIET: usize = 3usize;
pub const LMR_MIN_DEPTH: u32 = 3u32;

// ── Transposition Table ───────────────────────────────────────────────────────

#[derive(Clone, Copy, PartialEq, Eq, Debug, Structural)]
pub enum Bound {
    Unset,
    Exact,
    Lower,
    Upper,
}

#[derive(Clone, Copy)]
pub struct TtEntry {
    pub hash: u64,
    pub score: i32,
    pub best_move: Move,
    pub depth: u8,
    pub bound: Bound,
}

pub const TT_SIZE: usize = 1_048_576;

pub struct TranspositionTable {
    pub entries: Vec<TtEntry>,
}

/// Slot of a position hash.
pub open spec fn tt_slot(hash: u64) -> int {
    (hash % (TT_SIZE as u64)) as int
}

impl TranspositionTable {
    pub open spec fn wf(&self) -> bool {
        self.entries@.len() == TT_SIZE
    }

    pub fn new() -> (t: TranspositionTable)
        ensures
            t.wf(),
            forall|i: int| 0 <= i < TT_SIZE ==> #[trigger] t.entries@[i].bound == Bound::Unset,
    {
        let mut entries: Vec<TtEntry> = Vec::new();
        let empty = TtEntry { hash: 0, score: 0, best_move: Move::null(), depth: 0, bound: Bound::Unset };
        let mut i: usize = 0;
        while i < TT_SIZE
            invariant
                i <= TT_SIZE,
                entries@.len() == i,
                forall|k: int| 0 <= k < i ==> #[trigger] entries@[k] == empty,
                empty.bound == Bound::Unset,
            decreases TT_SIZE - i,
        {
            entries.push(empty);
            i = i + 1;
        }
        TranspositionTable { entries }
    }

    /// The entry of `hash` if it was stored for this very position at `depth` or deeper.
    pub fn probe(&self, hash: u64, depth: u32) -> (r: Option<TtEntry>)
        requires
            self.wf(),
        ensures
            ({
                let e = self.entries@[tt_slot(hash)];
                r == (if e.bound != Bound::Unset && e.hash == hash && e.depth >= depth { Some(e) } else { None })
            }),
    {
        let e = self.entries[(hash % (TT_SIZE as u64)) as usize];
        if e.bound != Bound::Unset && e.hash == hash && e.depth as u32 >= depth {
            Some(e)
        } else {
            None
        }
    }

    /// The best move stored for this very position, or the null move.
    pub fn probe_move(&self, hash: u64) -> (m: Move)
        requires
            self.wf(),
        ensures
            ({
                let e = self.entries@[tt_slot(hash)];
                m == (if e.bound != Bound::Unset && e.hash == hash { e.best_move } else { Move(0) })
            }),
    {
        let e = self.entries[(hash % (TT_SIZE as u64)) as usize];
        if e.bound != Bound::Unset && e.hash == hash {
            e.best_move
        } else {
            Move::null()
        }
    }

    /// Stores a result unless the slot holds another position searched deeper.
    pub fn store(&mut self, hash: u64, depth: u32, score: i32, bound: Bound, best_move: Move)
        requires
            old(self).wf(),
        ensures
            final(self).wf(),
            ({
                let e = old(self).entries@[tt_slot(hash)];
                let new_e = TtEntry { hash, score, best_move, depth: depth as u8, bound };
                final(self).entries@ == (if e.bound == Bound::Unset || e.hash == hash || depth >= e.depth {
                    old(self).entries@.update(tt_slot(hash), new_e)
                } else {
                    old(self).entries@
                })
            }),
    {
        let idx = (hash % (TT_SIZE as u64)) as usize;
        let slot = self.entries[idx];
        if slot.bound == Bound::Unset || slot.hash == hash || depth >= slot.depth as u32 {
            self.entries.set(idx, TtEntry { hash, score, best_move, depth: depth as u8, bound });
        }
    }
}

// ── Killer moves (2 per ply) ──────────────────────────────────────────────────

pub struct KillerTable(pub [[Move; 2]; 64]);

impl KillerTable {
    pub fn new() -> (k: KillerTable)
        ensures
            forall|p: int, s: int| 0 <= p < 64 && 0 <= s < 2 ==> (#[trigger] k.0[p][s]).0 == 0,
    {
        let m = Move::null();
        let mut t = [[m; 2]; 64];
        let mut p: usize = 0;
        while p < 64
            invariant
                p <= 64,
                m.0 == 0,
                forall|q: int, s: int| 0 <= q < p && 0 <= s < 2 ==> (#[trigger] t[q][s]).0 == 0,
            decreases 64 - p,
        {
            t[p] = [m, m];
            p = p + 1;
        }
        KillerTable(t)
    }

    /// Records a quiet move that caused a cutoff at `ply`.
    pub fn update(&mut self, mv: Move, ply: usize)
        ensures
            ply >= 64 ==> final(self).0 == old(self).0,
            ply < 64 ==> final(self).0@ == old(self).0@.update(
                ply as int,
                if old(self).0[ply as int][0] != mv { [mv, old(self).0[ply as int][0]] } else { old(self).0[ply as int] },
            ),
    {
        if ply >= MAX_PLY {
            return;
        }
        let slot = self.0[ply];
        if slot[0] != mv {
            self.0[ply] = [mv, slot[0]];
        }
        proof {
            assert(self.0@ =~= old(self).0@.update(
                ply as int,
                if old(self).0[ply as int][0] != mv { [mv, old(self).0[ply as int][0]] } else { old(self).0[ply as int] },
            ));
        }
    }

    pub fn is_killer(&self, mv: Move, ply: usize) -> (b: bool)
        ensures
            b == (ply < 64 && (self.0[ply as int][0] == mv || self.0[ply as int][1] == mv)),
    {
        if ply >= MAX_PLY {
            return false;
        }
        let s = self.0[ply];
        s[0] == mv || s[1] == mv
    }
}

// ── History heuristic ─────────────────────────────────────────────────────────

/// Index of the history score of a (side, from, to) triple.
pub open spec fn history_index(c: Color, from: int, to: int) -> int {
    c.index() * 4096 + from * 64 + to
}

pub struct HistoryTable(pub Vec<i32>);

impl HistoryTable {
    pub open spec fn wf(&self) -> bool {
        &&& self.0@.len() == 8192
        &&& forall|i: int| 0 <= i < 8192 ==> 0 <= #[trigger] self.0@[i] <= HISTORY_MAX
    }

    pub fn new() -> (h: HistoryTable)
        ensures
            h.wf(),
            forall|i: int| 0 <= i < 8192 ==> #[trigger] h.0@[i] == 0,
    {
        let mut v: Vec<i32> = Vec::new();
        let mut i: usize = 0;
        while i < 8192
            invariant
                i <= 8192,
                v@.len() == i,
                forall|k: int| 0 <= k < i ==> #[trigger] v@[k] == 0,
            decreases 8192 - i,
        {
            v.push(0);
            i = i + 1;
        }
        HistoryTable(v)
    }

    /// Rewards a quiet move that caused a cutoff: adds `depth²`, capped at `HISTORY_MAX`.
    pub fn update(&mut self, color: Color, from: u8, to: u8, depth: u32)
        requires
            old(self).wf(),
            from < 64,
            to < 64,
        ensures
            final(self).wf(),
            ({
                let i = history_index(color, from as int, to as int);
                let v = old(self).0@[i] + depth * depth;
                final(self).0@ == old(self).0@.update(i, if v < HISTORY_MAX { v as i32 } else { HISTORY_MAX })
            }),
    {
        let c: usize = match color {
            Color::White => 0,
            Color::Black => 1,
        };
        let i = c * 4096 + from as usize * 64 + to as usize;
        let old_v = self.0[i];
        let d = depth as u64;
        proof {
            assert(d * d <= 0xFFFF_FFFFu64 * 0xFFFF_FFFFu64) by (nonlinear_arith)
                requires
                    d <= 0xFFFF_FFFFu64,
            ;
        }
        let sum = old_v as u64 + d * d;
        let nv: i32 = if sum < HISTORY_MAX as u64 { sum as i32 } else { HISTORY_MAX };
        self.0.set(i, nv);
    }

    pub fn get(&self, color: Color, from: u8, to: u8) -> (v: i32)
        requires
            self.wf(),
            from < 64,
            to < 64,
        ensures
            v == self.0@[history_index(color, from as int, to as int)],
            0 <= v <= HISTORY_MAX,
    {
        let c: usize = match color {
            Color::White => 0,
            Color::Black => 1,
        };
        self.0[c * 4096 + from as usize * 64 + to as usize]
    }

    /// Halves every score.
    pub fn age(&mut self)
        requires
            old(self).wf(),
        ensures
            final(self).wf(),
            forall|i: int| 0 <= i < 8192 ==> #[trigger] final(self).0@[i] == old(self).0@[i] / 2,
    {
        let mut i: usize = 0;
        while i < 8192
            invariant
                i <= 8192,
                self.0@.len() == 8192,
                forall|k: int| 0 <= k < i ==> #[trigger] self.0@[k] == old(self).0@[k] / 2,
                forall|k: int| i <= k < 8192 ==> #[trigger] self.0@[k] == old(self).0@[k],
                forall|k: int| 0 <= k < 8192 ==> 0 <= #[trigger] old(self).0@[k] <= HISTORY_MAX,
            decreases 8192 - i,
        {
            let v = self.0[i];
            self.0.set(i, v / 2);
            i = i + 1;
        }
    }
}

// ── Saturating score arithmetic ───────────────────────────────────────────────

pub open spec fn sat(x: int) -> int {
    if x > i32::MAX {
        i32::MAX as int
    } else if x < i32::MIN {
        i32::MIN as int
    } else {
        x
    }
}

/// `-x`, saturated to the `i32` range.
pub fn sat_neg(x: i32) -> (r: i32)
    ensures
        r == sat(-x),
{
    if x == i32::MIN {
        i32::MAX
    } else {
        -x
    }
}

/// `x + y`, saturated to the `i32` range.
pub fn sat_add(x: i32, y: i32) -> (r: i32)
    ensures
        r == sat(x + y),
{
    let s = x as i64 + y as i64;
    if s > i32::MAX as i64 {
        i32::MAX
    } else if s < i32::MIN as i64 {
        i32::MIN
    } else {
        s as i32
    }
}

// ── Evaluator ─────────────────────────────────────────────────────────────────

pub enum Evaluator {
    Static,
    Nnue { weights: Arc<Nnue>, stack: AccumulatorStack },
}

impl Evaluator {
    /// Weights and stack have their sizes.
    pub open spec fn ok(&self) -> bool {
        match self {
            Evaluator::Static => true,
            Evaluator::Nnue { weights, stack } => weights.wf() && stack.wf(),
        }
    }

    /// Index of the current accumulator (0 for the static evaluator).
    pub open spec fn ply_of(&self) -> int {
        match self {
            Evaluator::Static => 0,
            Evaluator::Nnue { weights: _, stack } => stack.ply as int,
        }
    }

    /// The accumulator of ply `ply` is current and holds the squares `mb`.
    pub open spec fn at(&self, ply: int, mb: Seq<Option<Piece>>) -> bool {
        match self {
            Evaluator::Static => true,
            Evaluator::Nnue { weights, stack } => weights.wf() && stack.wf() && stack.ply == ply && stack.top().matches(
                **weights,
                mb,
            ),
        }
    }

    /// Same kind and weights as `other`, with the same accumulators at plies `0..=ply`.
    pub open spec fn agrees(&self, other: Evaluator, ply: int) -> bool {
        match (*self, other) {
            (Evaluator::Static, Evaluator::Static) => true,
            (Evaluator::Nnue { weights: w1, stack: s1 }, Evaluator::Nnue { weights: w2, stack: s2 }) => {
                &&& w1 == w2
                &&& s1.stack@.len() == s2.stack@.len()
                &&& forall|k: int| 0 <= k <= ply ==> #[trigger] s1.stack@[k] == s2.stack@[k]
            },
            _ => false,
        }
    }

    /// Score of `board` for the side to move under this evaluator.
    pub open spec fn stm_score(&self, board: Board) -> int {
        match self {
            Evaluator::Static => if board.side_to_move == Color::White {
                spec_static_eval(board)
            } else {
                -spec_static_eval(board)
            },
            Evaluator::Nnue { weights, stack } => spec_acc_eval(stack.top(), **weights, board.side_to_move),
        }
    }

    /// Score of the position for the side to move.
    pub fn eval_stm(&self, board: &Board) -> (r: i32)
        requires
            self.ok(),
            board.wf(),
        ensures
            r == self.stm_score(*board),
            *self is Static ==> r == (if board.side_to_move == Color::White {
                spec_static_eval(*board)
            } else {
                -spec_static_eval(*board)
            }),
            -8_000_000 <= r <= 8_000_000,
    {
        match self {
            Evaluator::Static => {
                let raw = static_eval(board);
                match board.side_to_move {
                    Color::White => raw,
                    Color::Black => -raw,
                }
            },
            Evaluator::Nnue { weights, stack } => {
                stack.evaluate(weights, board.side_to_move)
            },
        }
    }

    /// Refresh the accumulator at the root of a new search.
    pub fn init(&mut self, board: &Board)
        requires
            old(self).ok(),
        ensures
            final(self).ok(),
            final(self).at(0, board.mailbox@),
            (*old(self) is Static) == (*final(self) is Static),
    {
        match self {
            Evaluator::Static => {},
            Evaluator::Nnue { weights, stack } => {
                stack.init(weights, board);
            },
        }
    }

    /// Push + apply move delta (call BEFORE board.make_move).
    pub fn push_move(&mut self, board: &Board, mv: Move, Ghost(ply): Ghost<int>)
        requires
            old(self).at(ply, board.mailbox@),
            ply + 1 < STACK_DEPTH,
            board.valid(),
            spec_pseudo(*board, mv),
        ensures
            final(self).at(ply + 1, spec_make_mailbox(*board, mv)),
            final(self).agrees(*old(self), ply),
            final(self).ok(),
            *final(self) is Nnue ==> final(self).ply_of() == ply + 1,
    {
        match self {
            Evaluator::Static => {},
            Evaluator::Nnue { weights, stack } => {
                stack.push_move(weights, board, mv);
            },
        }
    }

    /// Push for null moves (no piece changes).
    pub fn push_null(&mut self, Ghost(ply): Ghost<int>, Ghost(mb): Ghost<Seq<Option<Piece>>>)
        requires
            old(self).at(ply, mb),
            ply + 1 < STACK_DEPTH,
        ensures
            final(self).at(ply + 1, mb),
            final(self).agrees(*old(self), ply),
            final(self).ok(),
            *final(self) is Nnue ==> final(self).ply_of() == ply + 1,
    {
        match self {
            Evaluator::Static => {},
            Evaluator::Nnue { weights: _, stack } => {
                stack.push_null();
            },
        }
    }

    /// Pop (call AFTER board.unmake_move): back to the accumulator of ply `ply`.
    pub fn pop(&mut self, Ghost(ply): Ghost<int>, Ghost(mb): Ghost<Seq<Option<Piece>>>, Ghost(before): Ghost<Evaluator>)
        requires
            before.at(ply, mb),
            old(self).agrees(before, ply),
            old(self).ok(),
            *old(self) is Nnue ==> old(self).ply_of() == ply + 1,
        ensures
            final(self).at(ply, mb),
            final(self).agrees(before, ply),
    {
        match self {
            Evaluator::Static => {},
            Evaluator::Nnue { weights: _, stack } => {
                stack.pop();
            },
        }
    }
}

// ── Search context (bundles mutable tables passed through the tree) ───────────

pub struct SearchContext {
    pub tt: TranspositionTable,
    pub killers: KillerTable,
    pub history: HistoryTable,
    pub nodes: u64,
    pub eval: Evaluator,
    /// Shared with the TimeManager — set true to stop the search immediately.
    pub abort: Arc<AtomicBool>,
    /// Nodes between each wall-clock check.
    pub check_interval: u64,
    /// Start of the clock the deadline is measured on.
    pub start: Instant,
    /// Milliseconds after `start` when the search must stop.
    pub hard_deadline: u64,
    /// Position hashes for threefold-repetition detection:
    /// [game history before search root] ++ [current search path ancestors].
    pub position_history: Vec<u64>,
    /// Number of entries that belong to the game history (before the search root).
    pub game_history_len: usize,
    /// Whether this search has seen the stop flag raised or its hard deadline pass.
    pub stop_seen: Ghost<bool>,
}

impl SearchContext {
    pub open spec fn wf(&self) -> bool {
        &&& self.tt.wf()
        &&& self.history.wf()
        &&& self.eval.ok()
        &&& self.check_interval > 0
        &&& self.game_history_len <= self.position_history@.len()
    }

    /// What a search below the root leaves as it found it.
    pub open spec fn kept(&self, before: SearchContext, ply: int, mb: Seq<Option<Piece>>) -> bool {
        &&& self.wf()
        &&& self.eval.at(ply, mb)
        &&& self.eval.agrees(before.eval, ply)
        &&& self.position_history@ == before.position_history@
        &&& self.game_history_len == before.game_history_len
    }

    pub fn aborted(&self) -> bool {
        is_set(&self.abort)
    }

    /// Reads the stop flag, and records in `stop_seen` that it was seen raised.
    fn observe_stop(&mut self) -> (r: bool)
        ensures
            final(self).stop_seen@ == (old(self).stop_seen@ || r),
            *final(self) == (SearchContext { stop_seen: final(self).stop_seen, ..*old(self) }),
    {
        let r = is_set(&self.abort);
        proof {
            self.stop_seen@ = self.stop_seen@ || r;
        }
        r
    }

    /// Wire this context to a new TimeManager before each search.
    pub fn prepare(&mut self, tm: &TimeManager)
        requires
            old(self).wf(),
        ensures
            final(self).wf(),
            final(self).nodes == 0,
            final(self).hard_deadline == tm.hard_deadline,
            final(self).check_interval == (if tm.panic_mode { PANIC_CHECK_INTERVAL } else { NORMAL_CHECK_INTERVAL }),
            final(self).eval == old(self).eval,
            final(self).position_history@ == old(self).position_history@,
            final(self).game_history_len == old(self).game_history_len,
            !final(self).stop_seen@,
    {
        self.stop_seen = Ghost(false);
        self.nodes = 0;
        self.abort = tm.abort.clone();
        self.start = tm.start;
        self.hard_deadline = tm.hard_deadline;
        self.check_interval = if tm.panic_mode { PANIC_CHECK_INTERVAL } else { NORMAL_CHECK_INTERVAL };
    }
}

// ── Piece values for move ordering ────────────────────────────────────────────

pub open spec fn spec_piece_value(pt: PieceType) -> int {
    match pt {
        PieceType::Pawn => 100,
        PieceType::Knight => 320,
        PieceType::Bishop => 330,
        PieceType::Rook => 500,
        PieceType::Queen => 900,
        PieceType::King => 10_000,
    }
}

fn piece_value(pt: PieceType) -> (v: i32)
    ensures
        v == spec_piece_value(pt),
{
    match pt {
        PieceType::Pawn => 100,
        PieceType::Knight => 320,
        PieceType::Bishop => 330,
        PieceType::Rook => 500,
        PieceType::Queen => 900,
        PieceType::King => 10_000,
    }
}

/// MVV-LVA score of a capture: victim value ×10 minus attacker value (a pawn when
/// the square is empty, as for en passant).
pub open spec fn spec_mvv_lva(b: Board, mv: Move) -> int {
    let vv = match b.mailbox[mv.spec_to().0 as int] {
        Some(p) => spec_piece_value(p.piece_type),
        None => 100,
    };
    let av = match b.mailbox[mv.spec_from().0 as int] {
        Some(p) => spec_piece_value(p.piece_type),
        None => 100,
    };
    SCORE_CAPTURE_BASE + vv * 10 - av
}

fn capture_mvv_lva(board: &Board, mv: Move) -> (s: i32)
    ensures
        s == spec_mvv_lva(*board, mv),
{
    let vv = match board.piece_at(mv.to_sq()) {
        Some(p) => piece_value(p.piece_type),
        None => 100,
    };
    let av = match board.piece_at(mv.from_sq()) {
        Some(p) => piece_value(p.piece_type),
        None => 100,
    };
    SCORE_CAPTURE_BASE + vv * 10 - av
}

/// Reduction of a late quiet move.
pub fn lmr_reduction(quiet_count: usize) -> (r: u32)
    ensures
        r == 1 + (quiet_count as u32) / 6,
{
    1 + (quiet_count as u32) / 6
}

/// Ordering score: hash move, then promotions, captures (MVV-LVA), killers, history.
pub open spec fn spec_score_move(b: Board, mv: Move, tt_move: Move, k: KillerTable, h: HistoryTable, ply: int) -> int {
    if mv == tt_move {
        SCORE_TT_MOVE as int
    } else if mv.spec_flag() == MoveFlag::Promo {
        SCORE_PROMO_BASE + spec_piece_value(spec_promo_piece(mv.spec_promo()))
    } else if b.mailbox[mv.spec_to().0 as int] is Some || mv.spec_flag() == MoveFlag::EnPassant {
        spec_mvv_lva(b, mv)
    } else if ply < 64 && (k.0[ply][0] == mv || k.0[ply][1] == mv) {
        SCORE_KILLER as int
    } else {
        h.0@[history_index(b.side_to_move, mv.spec_from().0 as int, mv.spec_to().0 as int)] as int
    }
}

fn score_move(board: &Board, mv: Move, tt_move: Move, killers: &KillerTable, history: &HistoryTable, ply: usize) -> (s: i32)
    requires
        history.wf(),
    ensures
        s == spec_score_move(*board, mv, tt_move, *killers, *history, ply as int),
{
    if mv == tt_move {
        return SCORE_TT_MOVE;
    }
    if mv.is_promo() {
        return SCORE_PROMO_BASE + piece_value(mv.promo_piece_type());
    }
    if board.piece_at(mv.to_sq()).is_some() || mv.is_en_passant() {
        return capture_mvv_lva(board, mv);
    }
    if killers.is_killer(mv, ply) {
        return SCORE_KILLER;
    }
    history.get(board.side_to_move, mv.from_sq().0, mv.to_sq().0)
}

/// The side to move has a piece other than pawns and its king.
pub open spec fn spec_non_pawn_material(b: Board) -> bool {
    let us = b.side_to_move.index();
    b.occupancy[us] & !b.pieces[us][0] & !b.pieces[us][5] != 0
}

fn has_non_pawn_material(board: &Board) -> (r: bool)
    ensures
        r == spec_non_pawn_material(*board),
{
    let us: usize = match board.side_to_move {
        Color::White => 0,
        Color::Black => 1,
    };
    board.occupancy[us] & !board.pieces[us][0] & !board.pieces[us][5] != EMPTY
}

// ── Move ordering ─────────────────────────────────────────────────────────────

/// The pseudo-legal moves of `board` as a vector.
fn move_vec(board: &Board) -> (v: Vec<Move>)
    requires
        board.wf(),
    ensures
        forall|k: int| 0 <= k < v@.len() ==> spec_pseudo(*board, #[trigger] v@[k]),
        forall|m: Move| #[trigger] spec_pseudo(*board, m) ==> v@.contains(m),
{
    let list = generate_pseudo_legal(board);
    let mut v: Vec<Move> = Vec::new();
    let mut i: usize = 0;
    while i < list.len()
        invariant
            i <= list@.len(),
            v@ == list@.subrange(0, i as int),
        decreases list@.len() - i,
    {
        v.push(list.get(i));
        i = i + 1;
        proof {
            assert(v@ =~= list@.subrange(0, i as int));
        }
    }
    proof {
        assert(v@ =~= list@);
    }
    v
}

/// Index of the first highest score among `s[i..j]` (`i` when the range has one element).
pub open spec fn first_best(s: Seq<i32>, i: int, j: int) -> int
    decreases j - i,
{
    if j <= i + 1 {
        i
    } else {
        let b = first_best(s, i, j - 1);
        if s[j - 1] > s[b] {
            j - 1
        } else {
            b
        }
    }
}

/// `first_best` lies in the range, scores nothing below it, and nothing before it as high.
proof fn lemma_first_best(s: Seq<i32>, i: int, j: int)
    requires
        i < j,
    ensures
        i <= first_best(s, i, j) < j,
        forall|k: int| i <= k < j ==> #[trigger] s[k] <= s[first_best(s, i, j)],
        forall|k: int| i <= k < first_best(s, i, j) ==> #[trigger] s[k] < s[first_best(s, i, j)],
    decreases j - i,
{
    if j > i + 1 {
        lemma_first_best(s, i, j - 1);
    }
}

/// Swaps the first best-scored move of `i..n` into position `i`, its score with it.
fn select_best(moves: &mut Vec<Move>, scores: &mut Vec<i32>, i: usize)
    requires
        i < old(moves)@.len(),
        old(moves)@.len() == old(scores)@.len(),
    ensures
        ({
            let bi = first_best(old(scores)@, i as int, old(scores)@.len() as int);
            &&& i <= bi < old(moves)@.len()
            &&& final(moves)@ == old(moves)@.update(i as int, old(moves)@[bi]).update(bi, old(moves)@[i as int])
            &&& final(scores)@ == old(scores)@.update(i as int, old(scores)@[bi]).update(bi, old(scores)@[i as int])
        }),
        forall|k: int| i <= k < old(scores)@.len() ==> #[trigger] old(scores)@[k] <= final(scores)@[i as int],
        final(moves)@.len() == old(moves)@.len(),
        final(scores)@.len() == old(scores)@.len(),
        forall|k: int| 0 <= k < final(moves)@.len() ==> old(moves)@.contains(#[trigger] final(moves)@[k]),
        forall|k: int| 0 <= k < i ==> final(moves)@[k] == old(moves)@[k] && final(scores)@[k] == old(scores)@[k],
{
    let n = moves.len();
    let ghost s0 = scores@;
    let mut bi = i;
    let mut j = i + 1;
    while j < n
        invariant
            i <= bi < n,
            i < j <= n,
            n == moves@.len(),
            n == scores@.len(),
            scores@ == s0,
            bi == first_best(s0, i as int, j as int),
        decreases n - j,
    {
        if scores[j] > scores[bi] {
            bi = j;
        }
        j = j + 1;
    }
    proof {
        lemma_first_best(s0, i as int, n as int);
    }
    let mi = moves[i];
    let mb = moves[bi];
    moves.set(i, mb);
    moves.set(bi, mi);
    let si = scores[i];
    let sb = scores[bi];
    scores.set(i, sb);
    scores.set(bi, si);
    proof {
        let m0 = old(moves)@;
        assert(moves@ =~= m0.update(i as int, mb).update(bi as int, mi));
        assert(scores@ =~= s0.update(i as int, sb).update(bi as int, si));
        assert forall|k: int| 0 <= k < moves@.len() implies m0.contains(#[trigger] moves@[k]) by {
            if k == bi as int {
                assert(m0[i as int] == mi);
            } else if k == i as int {
                assert(m0[bi as int] == mb);
            } else {
                assert(m0[k] == moves@[k]);
            }
        }
    }
}


// ── Evaluator bookkeeping ─────────────────────────────────────────────────────

proof fn lemma_agrees_trans(a: Evaluator, b: Evaluator, c: Evaluator, p: int)
    requires
        a.agrees(b, p),
        b.agrees(c, p),
    ensures
        a.agrees(c, p),
{
    match (a, b, c) {
        (Evaluator::Nnue { weights: _, stack: s1 }, Evaluator::Nnue { weights: _, stack: s2 }, Evaluator::Nnue { weights: _, stack: s3 }) => {
            assert forall|k: int| 0 <= k <= p implies #[trigger] s1.stack@[k] == s3.stack@[k] by {
                assert(s1.stack@[k] == s2.stack@[k]);
            }
        },
        _ => {},
    }
}

proof fn lemma_agrees_lower(a: Evaluator, b: Evaluator, p: int, q: int)
    requires
        a.agrees(b, p),
        q <= p,
    ensures
        a.agrees(b, q),
{
}

proof fn lemma_agrees_refl(a: Evaluator, p: int)
    ensures
        a.agrees(a, p),
{
}

/// A pseudo-legal move that leaves the mover's king safe on the board it produces is legal.
proof fn lemma_passes_is_legal(b: Board, mv: Move, after: Board)
    requires
        spec_pseudo(b, mv),
        made(b, mv, after),
        king_safe_after(after, b.side_to_move),
    ensures
        spec_legal(b, mv),
{
    assert forall|a2: Board| made(b, mv, a2) implies king_safe_after(a2, b.side_to_move) by {
        lemma_made_unique(b, mv, after, a2);
    }
}

// ── Quiescence search ─────────────────────────────────────────────────────────
// Extends the search with captures (and all moves when in check) to avoid
// evaluating positions at a tactical horizon.

/// The larger of `a` and `b`.
pub open spec fn max_int(a: int, b: int) -> int {
    if a >= b { a } else { b }
}

/// The highest of `a` and the scores of `s`.
pub open spec fn max_with(a: int, s: Seq<(Move, i32)>) -> int
    decreases s.len(),
{
    if s.len() == 0 {
        a
    } else {
        max_int(max_with(a, s.drop_last()), s.last().1 as int)
    }
}

/// What a quiescence node returns from the moves it searched, in order: the score
/// of the last one when it reaches `beta` (the search stops there), else the
/// highest of `a` and the scores.
pub open spec fn q_result(a: int, beta: int, s: Seq<(Move, i32)>) -> int {
    if s.len() > 0 && s.last().1 >= beta {
        s.last().1 as int
    } else {
        max_with(a, s)
    }
}

/// The largest magnitude a quiescence score takes with the window `(a, b)`:
/// the evaluation range, widened to the window's own bounds.
pub open spec fn window_bound(a: i32, b: i32) -> int {
    let m = 8_000_000int;
    let aa: int = if a < 0 { -a } else { a as int };
    let bb: int = if b < 0 { -b } else { b as int };
    if aa >= bb && aa >= m {
        aa
    } else if bb >= m {
        bb
    } else {
        m
    }
}

fn quiescence(board: &mut Board, ply: usize, alpha_in: i32, beta: i32, ctx: &mut SearchContext) -> (res: (i32, Ghost<Seq<(Move, i32)>>))
    requires
        old(board).valid(),
        1 <= ply <= SEARCH_PLY_LIMIT,
        counters_fit(*old(board), (SEARCH_PLY_LIMIT - ply) as int),
        old(ctx).wf(),
        old(ctx).eval.at(ply as int, old(board).mailbox@),
    ensures
        *final(board) == *old(board),
        final(ctx).kept(*old(ctx), ply as int, old(board).mailbox@),
        -window_bound(alpha_in, beta) <= res.0 <= window_bound(alpha_in, beta),
        old(ctx).stop_seen@ ==> final(ctx).stop_seen@,
        forall|k: int| 0 <= k < res.1@.len() ==> spec_legal(*old(board), (#[trigger] res.1@[k]).0),
        forall|k: int| 0 <= k < res.1@.len() - 1 ==> (#[trigger] res.1@[k]).1 < beta,
        !final(ctx).stop_seen@ && ply >= SEARCH_PLY_LIMIT ==> res.0 == old(ctx).eval.stm_score(*old(board)),
        !final(ctx).stop_seen@ && ply < SEARCH_PLY_LIMIT && spec_in_check(*old(board)) && !has_legal_move(*old(board))
            ==> res.0 == -CHECKMATE_SCORE + ply,
        !final(ctx).stop_seen@ && ply < SEARCH_PLY_LIMIT && spec_in_check(*old(board)) && res.1@.len() > 0
            ==> res.0 == q_result(alpha_in as int, beta as int, res.1@),
        !final(ctx).stop_seen@ && ply < SEARCH_PLY_LIMIT && !spec_in_check(*old(board))
            ==> res.0 == (if old(ctx).eval.stm_score(*old(board)) >= beta {
                old(ctx).eval.stm_score(*old(board))
            } else {
                q_result(max_int(alpha_in as int, old(ctx).eval.stm_score(*old(board))), beta as int, res.1@)
            }),
    decreases SEARCH_PLY_LIMIT - ply,
{
    let ghost b0 = *board;
    let ghost ctx0 = *ctx;
    proof {
        lemma_agrees_refl(ctx.eval, ply as int);
    }
    let mut alpha = alpha_in;
    let ghost mut searched: Seq<(Move, i32)> = Seq::empty();
    if ctx.observe_stop() {
        return (0, Ghost(searched));
    }
    ctx.nodes = ctx.nodes.wrapping_add(1);
    if ply >= SEARCH_PLY_LIMIT {
        return (ctx.eval.eval_stm(board), Ghost(searched));
    }
    let in_check = board.is_in_check();
    if !in_check {
        let stand_pat = ctx.eval.eval_stm(board);
        if stand_pat >= beta {
            return (stand_pat, Ghost(searched));
        }
        if stand_pat > alpha {
            alpha = stand_pat;
        }
    }
    let ghost alpha0: int = if in_check { alpha_in as int } else { max_int(alpha_in as int, ctx0.eval.stm_score(b0)) };
    let mut moves = move_vec(board);
    let n = moves.len();
    let mut scores: Vec<i32> = Vec::new();
    let mut i: usize = 0;
    // Score captures/promos by MVV-LVA; quiet moves get SCORE_QUIET_SKIP so
    // they sort to the back and are skipped by the break below (unless in check).
    while i < n
        invariant
            i <= n,
            n == moves@.len(),
            scores@.len() == i,
            ctx.wf(),
        decreases n - i,
    {
        let mv = moves[i];
        let sc = if mv.is_promo() {
            SCORE_PROMO_BASE + piece_value(mv.promo_piece_type())
        } else if board.piece_at(mv.to_sq()).is_some() || mv.is_en_passant() {
            capture_mvv_lva(board, mv)
        } else if in_check {
            ctx.history.get(board.side_to_move, mv.from_sq().0, mv.to_sq().0)
        } else {
            SCORE_QUIET_SKIP
        };
        scores.push(sc);
        i = i + 1;
    }
    let us = board.side_to_move;
    let mut has_legal = false;
    let mut i: usize = 0;
    while i < n
        invariant
            *board == b0,
            b0 == *old(board),
            ctx0 == *old(ctx),
            b0.valid(),
            us == b0.side_to_move,
            1 <= ply < SEARCH_PLY_LIMIT,
            counters_fit(b0, (SEARCH_PLY_LIMIT - ply) as int),
            i <= n,
            n == moves@.len(),
            n == scores@.len(),
            forall|k: int| 0 <= k < moves@.len() ==> spec_pseudo(b0, #[trigger] moves@[k]),
            ctx.kept(ctx0, ply as int, b0.mailbox@),
            alpha_in <= alpha <= window_bound(alpha_in, beta),
            has_legal ==> has_legal_move(b0),
            in_check == spec_in_check(b0),
            has_legal == (searched.len() > 0),
            forall|k: int| 0 <= k < searched.len() ==> spec_legal(b0, (#[trigger] searched[k]).0),
            forall|k: int| 0 <= k < searched.len() ==> (#[trigger] searched[k]).1 < beta,
            alpha == max_with(alpha0, searched),
            alpha0 == (if in_check { alpha_in as int } else { max_int(alpha_in as int, ctx0.eval.stm_score(b0)) }),
            ctx0.eval.stm_score(b0) < beta || in_check,
            old(ctx).stop_seen@ ==> ctx.stop_seen@,
        decreases n - i,
    {
        let ghost pre = moves@;
        select_best(&mut moves, &mut scores, i);
        proof {
            assert(pre.contains(moves@[i as int]));
            assert forall|k: int| 0 <= k < moves@.len() implies spec_pseudo(b0, #[trigger] moves@[k]) by {
                assert(pre.contains(moves@[k]));
            }
        }
        let mv = moves[i];
        // Once sorted, the first quiet move means all remaining are quiet too.
        if !in_check && board.piece_at(mv.to_sq()).is_none() && !mv.is_en_passant() && !mv.is_promo() {
            break;
        }
        let ghost ev0 = ctx.eval;
        ctx.eval.push_move(board, mv, Ghost(ply as int));
        let state = board.make_move(mv);
        let ghost after = *board;
        proof {
            lemma_legal_step(b0, mv, *board);
        }
        let king_bb = board.piece_bb(us, PieceType::King);
        if king_bb == EMPTY || board.is_attacked_by(lsb(king_bb), board.side_to_move) {
            board.unmake_move(mv, state);
            ctx.eval.pop(Ghost(ply as int), Ghost(b0.mailbox@), Ghost(ev0));
            proof {
                lemma_agrees_trans(ctx.eval, ev0, ctx0.eval, ply as int);
            }
            i = i + 1;
            continue;
        }
        proof {
            lemma_passes_is_legal(b0, mv, after);
        }
        has_legal = true;
        let ghost ev1 = ctx.eval;
        let (child, Ghost(child_searched)) = quiescence(board, ply + 1, sat_neg(beta), sat_neg(alpha), ctx);
        let score = sat_neg(child);
        assert(-window_bound(alpha_in, beta) <= score <= window_bound(alpha_in, beta));
        board.unmake_move(mv, state);
        proof {
            lemma_agrees_lower(ctx.eval, ev1, ply + 1, ply as int);
            lemma_agrees_trans(ctx.eval, ev1, ev0, ply as int);
        }
        ctx.eval.pop(Ghost(ply as int), Ghost(b0.mailbox@), Ghost(ev0));
        proof {
            lemma_agrees_trans(ctx.eval, ev0, ctx0.eval, ply as int);
        }
        let ghost prev = searched;
        proof {
            searched = searched.push((mv, score));
            assert(searched.drop_last() =~= prev);
        }
        if score >= beta {
            return (score, Ghost(searched));
        }
        if score > alpha {
            alpha = score;
        }
        i = i + 1;
    }
    if in_check && !has_legal {
        return (-CHECKMATE_SCORE + ply as i32, Ghost(searched));
    }
    (alpha, Ghost(searched))
}

// ── Negamax with alpha-beta ───────────────────────────────────────────────────

/// Termination measure of `negamax`: the depth, plus the plies left for check extensions.
pub open spec fn search_measure(depth: u32, ply: usize) -> int {
    depth as int + (if ply < MAX_PLY { MAX_PLY - ply } else { 0 })
}

/// How many of `s[lo..hi]` equal `h`.
pub open spec fn count_hash(s: Seq<u64>, h: u64, lo: int, hi: int) -> nat
    decreases hi - lo,
{
    if hi <= lo {
        0
    } else {
        count_hash(s, h, lo, hi - 1) + (if s[hi - 1] == h { 1nat } else { 0nat })
    }
}

/// Counts the earlier occurrences of `hash` in the game history and in the search path.
fn repetitions(ctx: &SearchContext, hash: u64) -> (r: (usize, usize))
    requires
        ctx.wf(),
    ensures
        r.0 == count_hash(ctx.position_history@, hash, 0, ctx.game_history_len as int),
        r.1 == count_hash(ctx.position_history@, hash, ctx.game_history_len as int, ctx.position_history@.len() as int),
{
    let gl = ctx.game_history_len;
    let ghost ph = ctx.position_history@;
    let mut game_reps: usize = 0;
    let mut search_reps: usize = 0;
    let mut k: usize = 0;
    while k < ctx.position_history.len()
        invariant
            ph == ctx.position_history@,
            gl == ctx.game_history_len,
            gl <= ph.len(),
            k <= ph.len(),
            game_reps + search_reps <= k,
            game_reps == count_hash(ph, hash, 0, if k < gl { k as int } else { gl as int }),
            search_reps == count_hash(ph, hash, gl as int, if k < gl { gl as int } else { k as int }),
        decreases ph.len() - k,
    {
        if ctx.position_history[k] == hash {
            if k < gl {
                game_reps = game_reps + 1;
            } else {
                search_reps = search_reps + 1;
            }
        }
        k = k + 1;
    }
    (game_reps, search_reps)
}

/// The position of `b` occurs twice in the game before the search root, or once
/// on the current search path.
pub open spec fn repeated(b: Board, ctx: SearchContext) -> bool {
    count_hash(ctx.position_history@, b.hash, 0, ctx.game_history_len as int) >= 2
        || count_hash(ctx.position_history@, b.hash, ctx.game_history_len as int, ctx.position_history@.len() as int) >= 1
}

/// The table holds an entry for `hash` searched at least `depth` deep.
pub open spec fn tt_hit(tt: TranspositionTable, hash: u64, depth: u32) -> bool {
    let e = tt.entries@[tt_slot(hash)];
    e.bound != Bound::Unset && e.hash == hash && e.depth >= depth
}

/// A node of `negamax` that is searched move by move: depth left, plies left,
/// no draw by the 50-move rule or by repetition, and no usable table entry.
pub open spec fn no_shortcut(b: Board, ctx: SearchContext, depth: u32, ply: usize) -> bool {
    &&& depth >= 1
    &&& ply < SEARCH_PLY_LIMIT
    &&& b.half_move_clock < 100
    &&& count_hash(ctx.position_history@, b.hash, 0, ctx.game_history_len as int) < 2
    &&& count_hash(ctx.position_history@, b.hash, ctx.game_history_len as int, ctx.position_history@.len() as int) < 1
    &&& !tt_hit(ctx.tt, b.hash, depth)
}

fn negamax(
    board: &mut Board,
    depth: u32,
    ply: usize,
    alpha_in: i32,
    beta_in: i32,
    ctx: &mut SearchContext,
    allow_null: bool,
) -> (res: (i32, Ghost<Seq<(Move, i32)>>))
    requires
        old(board).valid(),
        1 <= ply <= SEARCH_PLY_LIMIT,
        counters_fit(*old(board), (SEARCH_PLY_LIMIT - ply) as int),
        old(ctx).wf(),
        old(ctx).eval.at(ply as int, old(board).mailbox@),
    ensures
        *final(board) == *old(board),
        final(ctx).kept(*old(ctx), ply as int, old(board).mailbox@),
        old(ctx).stop_seen@ ==> final(ctx).stop_seen@,
        old(board).half_move_clock >= 100 ==> res.0 == 0,
        repeated(*old(board), *old(ctx)) ==> res.0 == 0,
        forall|k: int| 0 <= k < res.1@.len() ==> spec_legal(*old(board), (#[trigger] res.1@[k]).0),
        res.1@.len() > 0 ==> res.0 == max_with(NEG_INF as int, res.1@),
        no_shortcut(*old(board), *old(ctx), depth, ply) && !final(ctx).stop_seen@ && !has_legal_move(*old(board))
            && spec_in_check(*old(board)) ==> res.0 == -CHECKMATE_SCORE + ply,
        no_shortcut(*old(board), *old(ctx), depth, ply) && !final(ctx).stop_seen@ && !has_legal_move(*old(board))
            && !spec_in_check(*old(board)) && (depth < NULL_MIN_DEPTH || !allow_null) ==> res.0 == 0,
    decreases search_measure(depth, ply),
{
    let ghost b0 = *board;
    let ghost ctx0 = *ctx;
    proof {
        lemma_agrees_refl(ctx.eval, ply as int);
    }
    let mut alpha = alpha_in;
    let mut beta = beta_in;
    let ghost mut searched: Seq<(Move, i32)> = Seq::empty();
    // ── Abort check ──────────────────────────────────────────────────────────
    if ctx.observe_stop() {
        return (0, Ghost(searched));
    }
    ctx.nodes = ctx.nodes.wrapping_add(1);
    // ── Periodic hard-limit check ────────────────────────────────────────────
    if ctx.nodes % ctx.check_interval == 0 && clock::elapsed_ms(&ctx.start) >= ctx.hard_deadline {
        raise(&ctx.abort);
        proof {
            ctx.stop_seen@ = true;
        }
        return (0, Ghost(searched));
    }
    // ── Draw detection ────────────────────────────────────────────────────────
    // 50-move rule: 100 half-moves without a pawn move or capture.
    if board.half_move_clock >= 100 {
        return (0, Ghost(searched));
    }
    // Threefold repetition: twice before the root, or once on the current path.
    assert(ctx.position_history@ == ctx0.position_history@ && ctx.game_history_len == ctx0.game_history_len);
    let (game_reps, search_reps) = repetitions(ctx, board.hash);
    if game_reps >= 2 || search_reps >= 1 {
        return (0, Ghost(searched));
    }
    if depth == 0 || ply >= SEARCH_PLY_LIMIT {
        let (qs, Ghost(qs_searched)) = quiescence(board, ply, alpha, beta, ctx);
        return (qs, Ghost(searched));
    }
    // ── TT probe ─────────────────────────────────────────────────────────────
    let original_alpha = alpha;
    let tt_move = match ctx.tt.probe(board.hash, depth) {
        Some(e) => {
            match e.bound {
                Bound::Exact => {
                    return (e.score, Ghost(searched));
                },
                Bound::Lower => {
                    if e.score > alpha {
                        alpha = e.score;
                    }
                    if alpha >= beta {
                        return (e.score, Ghost(searched));
                    }
                },
                Bound::Upper => {
                    if e.score < beta {
                        beta = e.score;
                    }
                    if alpha >= beta {
                        return (e.score, Ghost(searched));
                    }
                },
                Bound::Unset => {},
            }
            e.best_move
        },
        None => ctx.tt.probe_move(board.hash),
    };
    let in_check = board.is_in_check();
    // ── Null move pruning ─────────────────────────────────────────────────────
    if allow_null && !in_check && depth >= NULL_MIN_DEPTH && has_non_pawn_material(board) {
        let r = if depth >= NULL_FULL_DEPTH { NULL_R_FULL } else { NULL_R_PARTIAL };
        let ghost ev0 = ctx.eval;
        ctx.eval.push_null(Ghost(ply as int), Ghost(b0.mailbox@));
        let ns = board.make_null_move();
        proof {
            lemma_null_valid(b0, *board);
        }
        let ghost ev1 = ctx.eval;
        let (child, Ghost(null_searched)) = negamax(board, depth - 1 - r, ply + 1, sat_neg(beta), sat_add(sat_neg(beta), 1), ctx, false);
        let null_score = sat_neg(child);
        board.unmake_null_move(ns);
        proof {
            lemma_agrees_lower(ctx.eval, ev1, ply + 1, ply as int);
            lemma_agrees_trans(ctx.eval, ev1, ev0, ply as int);
        }
        ctx.eval.pop(Ghost(ply as int), Ghost(b0.mailbox@), Ghost(ev0));
        proof {
            lemma_agrees_trans(ctx.eval, ev0, ctx0.eval, ply as int);
        }
        if null_score >= beta {
            return (beta, Ghost(searched));
        }
    }
    // ── Futility pruning ──────────────────────────────────────────────────────
    let futility_prunable = if !in_check && depth <= FUTILITY_MAX_DEPTH {
        let eval = ctx.eval.eval_stm(board);
        let margin = if depth == 1 { FUTILITY_MARGIN_1 } else { FUTILITY_MARGIN_2 };
        eval + margin < alpha
    } else {
        false
    };
    // ── Generate and score moves ──────────────────────────────────────────────
    let mut moves = move_vec(board);
    let n = moves.len();
    let mut scores: Vec<i32> = Vec::new();
    let mut i: usize = 0;
    while i < n
        invariant
            i <= n,
            n == moves@.len(),
            scores@.len() == i,
            ctx.wf(),
        decreases n - i,
    {
        scores.push(score_move(board, moves[i], tt_move, &ctx.killers, &ctx.history, ply));
        i = i + 1;
    }
    let us = board.side_to_move;
    let mut best = NEG_INF;
    let mut best_move = Move::null();
    let mut has_legal = false;
    let mut quiet_count: usize = 0;
    let mut i: usize = 0;
    while i < n
        invariant
            *board == b0,
            b0 == *old(board),
            ctx0 == *old(ctx),
            b0.valid(),
            b0.half_move_clock < 100,
            us == b0.side_to_move,
            1 <= ply < SEARCH_PLY_LIMIT,
            depth >= 1,
            counters_fit(b0, (SEARCH_PLY_LIMIT - ply) as int),
            i <= n,
            n == moves@.len(),
            n == scores@.len(),
            quiet_count <= i,
            forall|k: int| 0 <= k < moves@.len() ==> spec_pseudo(b0, #[trigger] moves@[k]),
            ctx.kept(ctx0, ply as int, b0.mailbox@),
            has_legal ==> has_legal_move(b0),
            in_check == spec_in_check(b0),
            has_legal == (searched.len() > 0),
            forall|k: int| 0 <= k < searched.len() ==> spec_legal(b0, (#[trigger] searched[k]).0),
            best == max_with(NEG_INF as int, searched),
            !repeated(b0, ctx0),
            old(ctx).stop_seen@ ==> ctx.stop_seen@,
        decreases n - i,
    {
        let ghost pre = moves@;
        select_best(&mut moves, &mut scores, i);
        proof {
            assert forall|k: int| 0 <= k < moves@.len() implies spec_pseudo(b0, #[trigger] moves@[k]) by {
                assert(pre.contains(moves@[k]));
            }
        }
        let mv = moves[i];
        let is_capture = board.piece_at(mv.to_sq()).is_some() || mv.is_en_passant();
        let is_quiet = !is_capture && !mv.is_promo();
        if futility_prunable && is_quiet {
            i = i + 1;
            continue;
        }
        ctx.position_history.push(board.hash);
        let ghost ev0 = ctx.eval;
        ctx.eval.push_move(board, mv, Ghost(ply as int));
        let state = board.make_move(mv);
        let ghost after = *board;
        proof {
            lemma_legal_step(b0, mv, *board);
        }
        let king_bb = board.piece_bb(us, PieceType::King);
        if king_bb == EMPTY || board.is_attacked_by(lsb(king_bb), board.side_to_move) {
            board.unmake_move(mv, state);
            ctx.eval.pop(Ghost(ply as int), Ghost(b0.mailbox@), Ghost(ev0));
            ctx.position_history.pop();
            proof {
                lemma_agrees_trans(ctx.eval, ev0, ctx0.eval, ply as int);
                assert(ctx.position_history@ =~= ctx0.position_history@);
            }
            i = i + 1;
            continue;
        }
        proof {
            lemma_passes_is_legal(b0, mv, after);
        }
        has_legal = true;
        let gives_check = board.is_in_check();
        // ── Check extension ───────────────────────────────────────────────────
        let extension: u32 = if gives_check && ply < MAX_PLY - 1 { 1 } else { 0 };
        let ghost ev1 = ctx.eval;
        // ── Late Move Reductions (LMR) ────────────────────────────────────────
        let score = if is_quiet && !gives_check && extension == 0 && quiet_count >= LMR_MIN_QUIET && depth
            >= LMR_MIN_DEPTH {
            let reduced = (depth + extension).saturating_sub(1 + lmr_reduction(quiet_count));
            let (c1, Ghost(st1)) = negamax(board, reduced, ply + 1, sat_add(sat_neg(alpha), -1), sat_neg(alpha), ctx, true);
            let s = sat_neg(c1);
            if s > alpha {
                let (c2, Ghost(st2)) = negamax(board, depth - 1 + extension, ply + 1, sat_neg(beta), sat_neg(alpha), ctx, true);
                sat_neg(c2)
            } else {
                s
            }
        } else {
            let (c3, Ghost(st3)) = negamax(board, depth - 1 + extension, ply + 1, sat_neg(beta), sat_neg(alpha), ctx, true);
            sat_neg(c3)
        };
        board.unmake_move(mv, state);
        proof {
            lemma_agrees_lower(ctx.eval, ev1, ply + 1, ply as int);
            lemma_agrees_trans(ctx.eval, ev1, ev0, ply as int);
        }
        ctx.eval.pop(Ghost(ply as int), Ghost(b0.mailbox@), Ghost(ev0));
        ctx.position_history.pop();
        proof {
            lemma_agrees_trans(ctx.eval, ev0, ctx0.eval, ply as int);
            assert(ctx.position_history@ =~= ctx0.position_history@);
        }
        if is_quiet {
            quiet_count = quiet_count + 1;
        }
        let ghost prev = searched;
        proof {
            searched = searched.push((mv, score));
            assert(searched.drop_last() =~= prev);
        }
        if score > best {
            best = score;
            best_move = mv;
        }
        if score > alpha {
            alpha = score;
        }
        if alpha >= beta {
            if is_quiet {
                ctx.killers.update(mv, ply);
                ctx.history.update(us, mv.from_sq().0, mv.to_sq().0, depth);
            }
            ctx.tt.store(board.hash, depth, best, Bound::Lower, best_move);
            return (best, Ghost(searched));
        }
        i = i + 1;
    }
    if !has_legal {
        // Distance-to-mate: prefer faster mates.
        return (if in_check { -CHECKMATE_SCORE + ply as i32 } else { 0 }, Ghost(searched));
    }
    let bound = if best > original_alpha { Bound::Exact } else { Bound::Upper };
    ctx.tt.store(board.hash, depth, best, bound, best_move);
    (best, Ghost(searched))
}

/// `m` was searched: it is the move of some entry of `searched`.
pub open spec fn recorded(searched: Seq<(Move, i32)>, m: Move) -> bool {
    exists|k: int| 0 <= k < searched.len() && (#[trigger] searched[k]).0 == m
}

/// `m` is still to be searched: it lies in `moves[i..n]`.
pub open spec fn pending(moves: Seq<Move>, i: int, n: int, m: Move) -> bool {
    exists|k: int| i <= k < n && #[trigger] moves[k] == m
}

/// Every legal move of `b` was searched.
pub open spec fn searched_all(b: Board, searched: Seq<(Move, i32)>) -> bool {
    forall|m: Move| #[trigger] spec_legal(b, m) ==> recorded(searched, m)
}

/// `(m, s)` is the first entry of `searched` with the highest score.
pub open spec fn first_best_of(searched: Seq<(Move, i32)>, m: Move, s: i32) -> bool {
    exists|k: int| {
        &&& 0 <= k < searched.len()
        &&& #[trigger] searched[k] == (m, s)
        &&& forall|j: int| 0 <= j < searched.len() ==> (#[trigger] searched[j]).1 <= s
        &&& forall|j: int| 0 <= j < k ==> (#[trigger] searched[j]).1 < s
    }
}

/// With a legal move on the board and no stop seen, the root search keeps a move.
proof fn lemma_root_keeps_move(b: Board, searched: Seq<(Move, i32)>, m: Move, s: i32, beta: i32)
    requires
        has_legal_move(b),
        searched_all(b, searched) || (searched.len() > 0 && searched.last().1 >= beta),
        forall|k: int| 0 <= k < searched.len() ==> spec_legal(b, (#[trigger] searched[k]).0),
        if searched.len() == 0 {
            m.0 == 0 && s == NEG_INF
        } else {
            first_best_of(searched, m, s)
        },
    ensures
        m.0 != 0,
{
    let l = choose|l: Move| #[trigger] spec_legal(b, l);
    if searched_all(b, searched) {
        assert(recorded(searched, l));
    }
    let k = choose|k: int| {
        &&& 0 <= k < searched.len()
        &&& #[trigger] searched[k] == (m, s)
        &&& forall|j: int| 0 <= j < searched.len() ==> (#[trigger] searched[j]).1 <= s
        &&& forall|j: int| 0 <= j < k ==> (#[trigger] searched[j]).1 < s
    };
    assert(spec_legal(b, searched[k].0));
    lemma_legal_nonnull(b, m);
}

/// A legal move is never the null move.
proof fn lemma_legal_nonnull(b: Board, m: Move)
    requires
        spec_legal(b, m),
    ensures
        m.0 != 0,
{
    if m.0 == 0 {
        let c = m.0;
        assert(c & 0x3Fu16 == 0 && (c >> 6u16) & 0x3Fu16 == 0) by (bit_vector)
            requires
                c == 0,
        ;
        assert(m.spec_from().0 == 0 && m.spec_to().0 == 0);
    }
}

// ── Root search ───────────────────────────────────────────────────────────────
//
// `alpha_in`/`beta` define the aspiration window. Returns None if there are no
// legal moves. The returned score is the actual best found (not clamped to
// `alpha_in`), so the caller can detect fail-low / fail-high and widen the window.
// The first legal move searched is kept whatever its score, and a later one
// replaces it only with a strictly higher score. The ghost results are the moves
// searched with their scores; a stop seen during the search is recorded in the context.

fn search_root(board: &mut Board, depth: u32, alpha_in: i32, beta: i32, ctx: &mut SearchContext) -> (res: (
    Option<(Move, i32)>,
    Ghost<Seq<(Move, i32)>>,
))
    requires
        old(board).valid(),
        depth >= 1,
        counters_fit(*old(board), SEARCH_PLY_LIMIT as int),
        old(ctx).wf(),
        old(ctx).eval.at(0, old(board).mailbox@),
    ensures
        *final(board) == *old(board),
        final(ctx).kept(*old(ctx), 0, old(board).mailbox@),
        res.0 is Some <==> has_legal_move(*old(board)),
        forall|k: int| 0 <= k < res.1@.len() ==> spec_legal(*old(board), (#[trigger] res.1@[k]).0),
        res.0 matches Some(p) ==> (p.0.0 == 0 || spec_legal(*old(board), p.0)),
        res.0 matches Some(p) ==> if res.1@.len() == 0 {
            p.0.0 == 0 && p.1 == NEG_INF
        } else {
            first_best_of(res.1@, p.0, p.1)
        },
        old(ctx).stop_seen@ ==> final(ctx).stop_seen@,
        !final(ctx).stop_seen@ ==> searched_all(*old(board), res.1@) || (res.1@.len() > 0 && res.1@.last().1 >= beta),
{
    let ghost b0 = *board;
    let ghost ctx0 = *ctx;
    proof {
        lemma_agrees_refl(ctx.eval, 0);
    }
    let ghost mut searched: Seq<(Move, i32)> = Seq::empty();
    let mut moves = move_vec(board);
    let n = moves.len();
    if n == 0 {
        proof {
            assert forall|m: Move| !#[trigger] spec_legal(b0, m) by {
                if spec_legal(b0, m) {
                    assert(moves@.contains(m));
                }
            }
        }
        return (None, Ghost(searched));
    }
    let tt_move = ctx.tt.probe_move(board.hash);
    let mut scores: Vec<i32> = Vec::new();
    let mut i: usize = 0;
    while i < n
        invariant
            i <= n,
            n == moves@.len(),
            scores@.len() == i,
            ctx.wf(),
        decreases n - i,
    {
        scores.push(score_move(board, moves[i], tt_move, &ctx.killers, &ctx.history, 0));
        i = i + 1;
    }
    let us = board.side_to_move;
    let mut alpha = alpha_in;
    let mut best_move = Move::null();
    let mut best_score = NEG_INF;
    let mut has_legal = false;
    let ghost mut bk: int = 0;
    let mut i: usize = 0;
    proof {
        assert forall|m: Move| #[trigger] spec_legal(b0, m) implies pending(moves@, i as int, n as int, m) by {
            assert(moves@.contains(m));
        }
    }
    while i < n
        invariant
            *board == b0,
            b0 == *old(board),
            ctx0 == *old(ctx),
            b0.valid(),
            us == b0.side_to_move,
            depth >= 1,
            counters_fit(b0, SEARCH_PLY_LIMIT as int),
            i <= n,
            n == moves@.len(),
            n == scores@.len(),
            forall|k: int| 0 <= k < moves@.len() ==> spec_pseudo(b0, #[trigger] moves@[k]),
            ctx.kept(ctx0, 0, b0.mailbox@),
            forall|k: int| 0 <= k < searched.len() ==> spec_legal(b0, (#[trigger] searched[k]).0),
            searched.len() == 0 ==> best_move.0 == 0 && best_score == NEG_INF,
            searched.len() > 0 ==> 0 <= bk < searched.len() && searched[bk] == (best_move, best_score)
                && (forall|j: int| 0 <= j < searched.len() ==> (#[trigger] searched[j]).1 <= best_score)
                && (forall|j: int| 0 <= j < bk ==> (#[trigger] searched[j]).1 < best_score),
            has_legal ==> has_legal_move(b0),
            !has_legal ==> searched.len() == 0,
            forall|m: Move| #[trigger] spec_legal(b0, m) ==> recorded(searched, m) || pending(moves@, i as int, n as int, m),
            old(ctx).stop_seen@ ==> ctx.stop_seen@,
        ensures
            *board == b0,
            ctx.kept(ctx0, 0, b0.mailbox@),
            forall|k: int| 0 <= k < searched.len() ==> spec_legal(b0, (#[trigger] searched[k]).0),
            searched.len() == 0 ==> best_move.0 == 0 && best_score == NEG_INF,
            searched.len() > 0 ==> 0 <= bk < searched.len() && searched[bk] == (best_move, best_score)
                && (forall|j: int| 0 <= j < searched.len() ==> (#[trigger] searched[j]).1 <= best_score)
                && (forall|j: int| 0 <= j < bk ==> (#[trigger] searched[j]).1 < best_score),
            has_legal ==> has_legal_move(b0),
            !has_legal ==> !has_legal_move(b0),
            old(ctx).stop_seen@ ==> ctx.stop_seen@,
            !ctx.stop_seen@ ==> searched_all(b0, searched) || (searched.len() > 0 && searched.last().1 >= beta),
        decreases n - i,
    {
        let ghost pre = moves@;
        select_best(&mut moves, &mut scores, i);
        proof {
            assert forall|k: int| 0 <= k < moves@.len() implies spec_pseudo(b0, #[trigger] moves@[k]) by {
                assert(pre.contains(moves@[k]));
            }
            assert forall|m: Move| #[trigger] spec_legal(b0, m) implies recorded(searched, m) || pending(moves@, i as int, n as int, m) by {
                if !recorded(searched, m) {
                    let k0 = choose|k: int| i <= k < n && pre[k] == m;
                    let bi = choose|b: int| i <= b < n && moves@ == pre.update(i as int, pre[b]).update(b, pre[i as int]);
                    if k0 == i as int {
                        assert(moves@[bi] == m);
                    } else if k0 == bi {
                        assert(moves@[i as int] == m);
                    } else {
                        assert(moves@[k0] == m);
                    }
                }
            }
        }
        let mv = moves[i];
        ctx.position_history.push(board.hash);
        let ghost ev0 = ctx.eval;
        ctx.eval.push_move(board, mv, Ghost(0));
        let state = board.make_move(mv);
        let ghost after = *board;
        proof {
            lemma_legal_step(b0, mv, *board);
        }
        let king_bb = board.piece_bb(us, PieceType::King);
        if king_bb == EMPTY || board.is_attacked_by(lsb(king_bb), board.side_to_move) {
            board.unmake_move(mv, state);
            ctx.eval.pop(Ghost(0), Ghost(b0.mailbox@), Ghost(ev0));
            ctx.position_history.pop();
            proof {
                lemma_agrees_trans(ctx.eval, ev0, ctx0.eval, 0);
                assert(ctx.position_history@ =~= ctx0.position_history@);
                assert(made(b0, mv, after));
                assert(!king_safe_after(after, us));
                assert(!spec_legal(b0, mv));
                assert forall|m: Move| #[trigger] spec_legal(b0, m) implies recorded(searched, m) || pending(moves@, i + 1, n as int, m) by {
                    if !recorded(searched, m) {
                        let k0 = choose|k: int| i <= k < n && moves@[k] == m;
                        assert(k0 != i as int);
                    }
                }
            }
            i = i + 1;
            continue;
        }
        proof {
            lemma_passes_is_legal(b0, mv, after);
            lemma_legal_nonnull(b0, mv);
        }
        has_legal = true;
        let ghost ev1 = ctx.eval;
        let (child, Ghost(child_searched)) = negamax(board, depth - 1, 1, sat_neg(beta), sat_neg(alpha), ctx, true);
        let score = sat_neg(child);
        board.unmake_move(mv, state);
        proof {
            lemma_agrees_lower(ctx.eval, ev1, 1, 0);
            lemma_agrees_trans(ctx.eval, ev1, ev0, 0);
        }
        ctx.eval.pop(Ghost(0), Ghost(b0.mailbox@), Ghost(ev0));
        ctx.position_history.pop();
        proof {
            lemma_agrees_trans(ctx.eval, ev0, ctx0.eval, 0);
            assert(ctx.position_history@ =~= ctx0.position_history@);
        }
        // Hard abort: don't update best with a partial result.
        if ctx.observe_stop() {
            break;
        }
        let ghost old_searched = searched;
        proof {
            if searched.len() > 0 {
                assert(spec_legal(b0, searched[bk].0));
                lemma_legal_nonnull(b0, best_move);
            }
        }
        if best_move.is_null() || score > best_score {
            best_score = score;
            best_move = mv;
            proof {
                bk = searched.len() as int;
            }
        }
        proof {
            searched = searched.push((mv, score));
            assert(searched[bk] == (best_move, best_score));
            assert forall|j: int| 0 <= j < searched.len() implies (#[trigger] searched[j]).1 <= best_score by {
                if j < old_searched.len() {
                    assert(searched[j] == old_searched[j]);
                }
            }
            assert forall|j: int| 0 <= j < bk implies (#[trigger] searched[j]).1 < best_score by {
                assert(searched[j] == old_searched[j]);
            }
            assert forall|m: Move| #[trigger] spec_legal(b0, m) implies recorded(searched, m) || pending(moves@, i + 1, n as int, m) by {
                if recorded(old_searched, m) {
                    let k = choose|k: int| 0 <= k < old_searched.len() && (#[trigger] old_searched[k]).0 == m;
                    assert(searched[k].0 == m);
                } else if m == mv {
                    assert(searched[old_searched.len() as int].0 == m);
                } else {
                    let k0 = choose|k: int| i <= k < n && moves@[k] == m;
                    assert(k0 != i as int);
                }
            }
        }
        if score > alpha {
            alpha = score;
            if alpha >= beta {
                break;
            }
        }
        i = i + 1;
    }
    if !has_legal {
        (None, Ghost(searched))
    } else {
        proof {
            if searched.len() > 0 {
                assert(first_best_of(searched, best_move, best_score));
            }
        }
        (Some((best_move, best_score)), Ghost(searched))
    }
}

// ── Engine ────────────────────────────────────────────────────────────────────

pub struct AlphaBetaEngine {
    pub depth: u32,
    pub name: String,
    pub ctx: SearchContext,
    pub last_score: Option<i32>,
    /// The moves of the root and their scores, as the last completed depth searched them.
    pub last_search: Ghost<Seq<(Move, i32)>>,
}

/// Name of an engine searching to `depth`.
pub open spec fn engine_name(nnue: bool, depth: u32) -> Seq<char> {
    (if nnue { "Alpha-Beta NNUE (d="@ } else { "Alpha-Beta (d="@ }) + crate::text::dec_chars(depth as nat) + ")"@
}

fn engine_name_string(nnue: bool, depth: u32) -> (s: String)
    ensures
        s@ == engine_name(nnue, depth),
{
    let mut v: Vec<char> = Vec::new();
    if nnue {
        push_str(&mut v, "Alpha-Beta NNUE (d=");
    } else {
        push_str(&mut v, "Alpha-Beta (d=");
    }
    push_dec(&mut v, depth);
    push_str(&mut v, ")");
    proof {
        assert(Seq::<char>::empty() + "Alpha-Beta NNUE (d="@ =~= "Alpha-Beta NNUE (d="@);
        assert(Seq::<char>::empty() + "Alpha-Beta (d="@ =~= "Alpha-Beta (d="@);
    }
    string_from_chars(v)
}

impl AlphaBetaEngine {
    pub fn new() -> (e: AlphaBetaEngine)
        ensures
            e.ready(),
            e.depth == 5,
            e.ctx.eval is Static,
            e.name@ == engine_name(false, 5),
            e.last_score is None,
            e.ctx.nodes == 0,
    {
        Self::with_depth(5)
    }

    pub fn with_depth(depth: u32) -> (e: AlphaBetaEngine)
        ensures
            e.ready(),
            e.depth == (if depth < 1 { 1 } else { depth }),
            e.ctx.eval is Static,
            e.name@ == engine_name(false, e.depth),
            e.last_score is None,
            e.ctx.nodes == 0,
    {
        Self::new_inner(depth, Evaluator::Static)
    }

    pub fn with_nnue(depth: u32, nnue: Arc<Nnue>) -> (e: AlphaBetaEngine)
        requires
            nnue.wf(),
        ensures
            e.ready(),
            e.depth == (if depth < 1 { 1 } else { depth }),
            e.ctx.eval is Nnue,
            e.name@ == engine_name(true, e.depth),
            e.last_score is None,
            e.ctx.nodes == 0,
    {
        Self::new_inner(depth, Evaluator::Nnue { weights: nnue, stack: AccumulatorStack::new() })
    }

    fn new_inner(depth: u32, eval: Evaluator) -> (e: AlphaBetaEngine)
        requires
            eval.ok(),
        ensures
            e.ready(),
            e.depth == (if depth < 1 { 1 } else { depth }),
            (e.ctx.eval is Static) == (eval is Static),
            e.name@ == engine_name(eval is Nnue, e.depth),
            e.last_score is None,
            e.ctx.nodes == 0,
    {
        let depth = if depth < 1 { 1 } else { depth };
        let is_nnue = match &eval {
            Evaluator::Static => false,
            Evaluator::Nnue { .. } => true,
        };
        let name = engine_name_string(is_nnue, depth);
        AlphaBetaEngine {
            depth,
            name,
            ctx: SearchContext {
                tt: TranspositionTable::new(),
                killers: KillerTable::new(),
                history: HistoryTable::new(),
                nodes: 0,
                eval,
                abort: new_flag(),
                check_interval: NORMAL_CHECK_INTERVAL,
                start: clock::now(),
                hard_deadline: 86_400_000,
                position_history: Vec::new(),
                game_history_len: 0,
                stop_seen: Ghost(false),
            },
            last_score: None,
            last_search: Ghost(Seq::empty()),
        }
    }

    pub fn set_depth(&mut self, depth: u32)
        requires
            old(self).ready(),
        ensures
            final(self).ready(),
            final(self).depth == (if depth < 1 { 1 } else { depth }),
            final(self).name@ == engine_name(final(self).ctx.eval is Nnue, final(self).depth),
            final(self).ctx == old(self).ctx,
            final(self).last_score == old(self).last_score,
    {
        self.depth = if depth < 1 { 1 } else { depth };
        let is_nnue = match &self.ctx.eval {
            Evaluator::Static => false,
            Evaluator::Nnue { .. } => true,
        };
        self.name = engine_name_string(is_nnue, self.depth);
    }

    pub fn nodes_searched(&self) -> (n: u64)
        ensures
            n == self.ctx.nodes,
    {
        self.ctx.nodes
    }

    /// Resets the search state for a new search of `board`.
    fn start_search(&mut self, board: &Board, tm: &TimeManager, game_history: &[u64])
        requires
            old(self).ready(),
        ensures
            final(self).ready(),
            final(self).ctx.eval.at(0, board.mailbox@),
            final(self).depth == old(self).depth,
            final(self).ctx.position_history@ == game_history@,
            final(self).ctx.game_history_len == game_history@.len(),
            !final(self).ctx.stop_seen@,
    {
        self.ctx.killers = KillerTable::new();
        self.ctx.history.age();
        self.ctx.eval.init(board);
        self.ctx.prepare(tm);
        let mut h: Vec<u64> = Vec::new();
        let mut i: usize = 0;
        while i < game_history.len()
            invariant
                i <= game_history@.len(),
                h@ == game_history@.subrange(0, i as int),
            decreases game_history@.len() - i,
        {
            h.push(game_history[i]);
            i = i + 1;
            proof {
                assert(h@ =~= game_history@.subrange(0, i as int));
            }
        }
        proof {
            assert(h@ =~= game_history@);
        }
        self.ctx.position_history = h;
        self.ctx.game_history_len = game_history.len();
    }

    /// Iterative deepening with dual soft/hard time limits.
    ///
    /// * **Soft limit** — checked between depths; if expired, no new depth starts.
    /// * **Hard limit** — checked every N nodes inside the tree; triggers abort flag.
    /// * **Aspiration windows** — used from depth 4+; time is extended on failure.
    /// * Returns the result from the **last fully completed depth** so a partial
    ///   search aborted mid-tree never corrupts the chosen move.
    pub fn choose_move_timed(&mut self, board: &Board, tm: TimeManager, game_history: &[u64]) -> (r: Option<Move>)
        requires
            old(self).ready(),
            board.valid(),
            counters_fit(*board, SEARCH_PLY_LIMIT as int),
        ensures
            final(self).ready(),
            r matches Some(m) ==> spec_legal(*board, m),
            !has_legal_move(*board) ==> r is None,
            r is Some <==> final(self).last_score is Some,
            r matches Some(m) ==> (final(self).last_score matches Some(s) && first_best_of(final(self).last_search@, m, s)),
            !has_legal_move(*board) ==> final(self).last_score is None,
            old(self).depth >= 1 && has_legal_move(*board) && !final(self).ctx.stop_seen@ ==> r is Some,
    {
        let mut tm = tm;
        let mut b = *board;
        self.start_search(&b, &tm, game_history);
        let mut best = Move::null();
        let mut prev_score: Option<i32> = None;
        self.last_score = None;
        let mut d: u64 = 1;
        let mut stop = false;
        let max_depth: u64 = self.depth as u64;
        while d <= max_depth && !stop
            invariant
                d <= max_depth + 1,
                max_depth <= u32::MAX,
                b == *board,
                board.valid(),
                counters_fit(*board, SEARCH_PLY_LIMIT as int),
                self.ready(),
                self.ctx.eval.at(0, board.mailbox@),
                d >= 1,
                best.0 == 0 || spec_legal(*board, best),
                !has_legal_move(*board) ==> best.0 == 0,
                (best.0 == 0) <==> self.last_score is None,
                best.0 != 0 ==> (self.last_score matches Some(s) && first_best_of(self.last_search@, best, s)),
                !has_legal_move(*board) ==> self.last_score is None,
                has_legal_move(*board) && (d > 1 || stop) ==> best.0 != 0 || self.ctx.stop_seen@,
                d == 1 ==> prev_score is None,
            decreases max_depth + 1 - d, if stop { 0int } else { 1int },
        {
            // ── Soft limit: don't start a new depth if time is running low ────
            if d > 1 && tm.soft_expired() {
                stop = true;
            } else {
                // ── Aspiration window setup ───────────────────────────────────
                let (mut lo, mut hi, mut delta) = match prev_score {
                    Some(prev) => if d >= ASPIRATION_MIN_DEPTH as u64 {
                        (sat_add(prev, -ASPIRATION_DELTA), sat_add(prev, ASPIRATION_DELTA), ASPIRATION_DELTA)
                    } else {
                        (NEG_INF, POS_INF, ASPIRATION_DELTA)
                    },
                    None => (NEG_INF, POS_INF, ASPIRATION_DELTA),
                };
                // ── Aspiration retry loop ─────────────────────────────────────
                let mut aborted = false;
                let mut retry = true;
                while retry
                    invariant
                        b == *board,
                        board.valid(),
                        counters_fit(*board, SEARCH_PLY_LIMIT as int),
                        self.ready(),
                        self.ctx.eval.at(0, board.mailbox@),
                        d >= 1,
                        d <= max_depth,
                        max_depth <= u32::MAX,
                        ASPIRATION_DELTA <= delta <= ASPIRATION_MAX_DELTA,
                        best.0 == 0 || spec_legal(*board, best),
                        !has_legal_move(*board) ==> best.0 == 0,
                        (best.0 == 0) <==> self.last_score is None,
                        best.0 != 0 ==> (self.last_score matches Some(s) && first_best_of(self.last_search@, best, s)),
                        !has_legal_move(*board) ==> self.last_score is None,
                        has_legal_move(*board) && (d > 1 || !retry) ==> best.0 != 0 || self.ctx.stop_seen@,
                        d == 1 && retry ==> lo == NEG_INF && hi == POS_INF,
                        aborted ==> !retry,
                        !retry && !aborted && d == 1 ==> prev_score is Some || !has_legal_move(*board),
                        d == 1 && (retry || aborted) ==> prev_score is None,
                    decreases (if lo > NEG_INF { lo - NEG_INF } else { 0 }) + (if hi < POS_INF { POS_INF - hi } else { 0 }),
                        if retry { 1int } else { 0int },
                {
                    let (result, Ghost(searched)) = search_root(&mut b, d as u32, lo, hi, &mut self.ctx);
                    proof {
                        if has_legal_move(*board) && !self.ctx.stop_seen@ {
                            if let Some((mv, score)) = result {
                                lemma_root_keeps_move(*board, searched, mv, score, hi);
                            }
                        }
                    }
                    // Hard limit abort (set inside search every N nodes); a root search
                    // that kept no move was cut short by it too.
                    let cut_short = match result {
                        Some((mv, _)) => mv.is_null(),
                        None => false,
                    };
                    if self.ctx.observe_stop() || cut_short {
                        aborted = true;
                        retry = false;
                    } else {
                        match result {
                            // No legal moves at root (checkmate / stalemate)
                            None => {
                                retry = false;
                            },
                            Some((mv, score)) => {
                                if score <= lo && lo > NEG_INF {
                                    // ── Fail-low: widen window downward, take more time ──
                                    delta = if delta * 2 < ASPIRATION_MAX_DELTA { delta * 2 } else { ASPIRATION_MAX_DELTA };
                                    let l = sat_add(lo, -delta);
                                    lo = if l > NEG_INF { l } else { NEG_INF };
                                    tm.extend(20);
                                    self.ctx.hard_deadline = tm.hard_deadline;
                                } else if score >= hi && hi < POS_INF {
                                    // ── Fail-high: widen window upward ──
                                    delta = if delta * 2 < ASPIRATION_MAX_DELTA { delta * 2 } else { ASPIRATION_MAX_DELTA };
                                    let h = sat_add(hi, delta);
                                    hi = if h < POS_INF { h } else { POS_INF };
                                } else {
                                    // ── Score within window: accept this depth ──
                                    best = mv;
                                    prev_score = Some(score);
                                    self.last_score = Some(score);
                                    self.last_search = Ghost(searched);
                                    retry = false;
                                }
                            },
                        }
                    }
                }
                // Abort detected: discard partial depth, keep last completed result
                if aborted {
                    stop = true;
                } else {
                    d = d + 1;
                }
            }
        }
        if best.is_null() {
            None
        } else {
            Some(best)
        }
    }
}

impl Engine for AlphaBetaEngine {
    /// The engine's tables are consistent.
    open spec fn ready(&self) -> bool {
        self.ctx.wf()
    }

    /// Iterative deepening to the engine's depth with no time limit.
    fn choose_move(&mut self, board: &Board) -> (r: Option<Move>)
        ensures
            r is Some <==> final(self).last_score is Some,
            r matches Some(m) ==> (final(self).last_score matches Some(s) && first_best_of(final(self).last_search@, m, s)),
            !has_legal_move(*board) ==> final(self).last_score is None,
            old(self).depth >= 1 && has_legal_move(*board) && !final(self).ctx.stop_seen@ ==> r is Some,
    {
        let tm = TimeManager::infinite();
        let mut b = *board;
        let no_history: Vec<u64> = Vec::new();
        self.start_search(&b, &tm, no_history.as_slice());
        let mut best = Move::null();
        self.last_score = None;
        let max_depth: u32 = self.depth;
        let mut d: u32 = 1;
        let ghost mut done = false;
        if max_depth < 1 {
            return None;
        }
        while d <= max_depth
            invariant
                b == *board,
                board.valid(),
                counters_fit(*board, SEARCH_PLY_LIMIT as int),
                self.ready(),
                self.ctx.eval.at(0, board.mailbox@),
                d >= 1,
                best.0 == 0 || spec_legal(*board, best),
                (best.0 == 0) <==> self.last_score is None,
                best.0 != 0 ==> (self.last_score matches Some(s) && first_best_of(self.last_search@, best, s)),
                !has_legal_move(*board) ==> self.last_score is None,
                d <= max_depth,
                d > 1 ==> done,
                has_legal_move(*board) && done ==> best.0 != 0 || self.ctx.stop_seen@,
            ensures
                has_legal_move(*board) ==> best.0 != 0 || self.ctx.stop_seen@,
            decreases max_depth as int + 1 - d,
        {
            let (result, Ghost(searched)) = search_root(&mut b, d, NEG_INF, POS_INF, &mut self.ctx);
            proof {
                if has_legal_move(*board) && !self.ctx.stop_seen@ {
                    if let Some((mv, score)) = result {
                        lemma_root_keeps_move(*board, searched, mv, score, POS_INF);
                    }
                }
            }
            let aborted = self.ctx.observe_stop();
            match result {
                Some((mv, score)) => {
                    // A root search that kept no move was cut short by the stop flag.
                    if !aborted && !mv.is_null() {
                        best = mv;
                        self.last_score = Some(score);
                        self.last_search = Ghost(searched);
                    }
                },
                None => {},
            }
            proof {
                done = true;
            }
            if aborted || d == max_depth {
                break;
            }
            d = d + 1;
        }
        if best.is_null() {
            None
        } else {
            Some(best)
        }
    }

    fn name(&self) -> (s: &str)
        ensures
            s@ == self.name@,
    {
        self.name.as_str()
    }

    fn last_score(&self) -> (s: Option<i32>)
        ensures
            s == self.last_score,
    {
        self.last_score
    }
}

} // verus!
