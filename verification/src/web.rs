//! The game played in the browser: the position, the moves played and the
//! engine answering them, and the state shown after each request. Serving the
//! requests is left to the caller.
use vstd::prelude::*;
use std::sync::Arc;
use crate::chess::board::{Board, made, lemma_made_unique, spec_in_check};
use crate::chess::fen::{board_of, start_position, fen_text, spec_fen, lemma_board_of};
use crate::chess::movegen::{generate_legal, spec_legal, has_legal_move, lemma_pseudo_unique};
use crate::chess::moves::{Move, MoveFlag, PromoKind, spec_uci_chars, lemma_move_decode};
use crate::chess::perft::{counters_fit, lemma_legal_step};
use crate::chess::san::{move_to_san, spec_san, board_after};
use crate::chess::types::{Color, PieceType, Square, Piece};
use crate::engine::alpha_beta::{AlphaBetaEngine, SEARCH_PLY_LIMIT, first_best_of};
use crate::engine::eval::{static_eval, spec_static_eval, spec_evaluate, side_sign, CHECKMATE_SCORE};
use crate::engine::nnue::Nnue;
use crate::engine::random::RandomEngine;
use crate::engine::Engine;
use crate::text::{str_chars, string_of, chars_eq_str, texts};

verus! {

// ── Game state ────────────────────────────────────────────────────────────────

#[derive(Clone, Copy, Debug, PartialEq, Eq, Structural)]
pub enum Status {
    Playing,
    Checkmate { winner: Color },
    Stalemate,
    Resigned { loser: Color },
}

/// One move of the game as shown: its UCI and SAN text, and whether it came
/// from an opening book.
pub struct MoveEntry {
    pub uci: String,
    pub san: String,
    pub from_book: bool,
}

/// The engines a game can play against.
pub enum GameEngine {
    Random(RandomEngine),
    AlphaBeta(AlphaBetaEngine),
}

impl Engine for GameEngine {
    open spec fn ready(&self) -> bool {
        match self {
            GameEngine::Random(e) => e.ready(),
            GameEngine::AlphaBeta(e) => e.ready(),
        }
    }

    fn choose_move(&mut self, board: &Board) -> (r: Option<Move>)
        ensures
            (*final(self) is Random) == (*old(self) is Random),
            *old(self) is Random ==> (r is Some <==> has_legal_move(*board)),
            *final(self) matches GameEngine::AlphaBeta(e) ==> (r is Some <==> e.last_score is Some),
            *old(self) matches GameEngine::AlphaBeta(e0) ==> (e0.depth >= 1 && has_legal_move(*board) && (
            *final(self) matches GameEngine::AlphaBeta(e) && !e.ctx.stop_seen@) ==> r is Some),
            *final(self) matches GameEngine::AlphaBeta(e) ==> (r matches Some(m) ==> (e.last_score matches Some(s)
                && first_best_of(e.last_search@, m, s))),
    {
        match self {
            GameEngine::Random(e) => e.choose_move(board),
            GameEngine::AlphaBeta(e) => e.choose_move(board),
        }
    }

    fn name(&self) -> (s: &str)
        ensures
            self is Random ==> s@ == "RandomEngine"@,
            self matches GameEngine::AlphaBeta(e) ==> s@ == e.name@,
    {
        match self {
            GameEngine::Random(e) => e.name(),
            GameEngine::AlphaBeta(e) => e.name(),
        }
    }

    fn last_score(&self) -> (s: Option<i32>)
        ensures
            self is Random ==> s is None,
            self matches GameEngine::AlphaBeta(e) ==> s == e.last_score,
    {
        match self {
            GameEngine::Random(e) => e.last_score(),
            GameEngine::AlphaBeta(e) => e.last_score(),
        }
    }
}

/// The engine for a game: the random mover for `"random"`, else alpha-beta
/// search to `depth`, with the network when one is given.
pub fn make_engine(engine_type: &str, depth: u32, use_book: bool, randomness: u8, nnue: Option<Arc<Nnue>>) -> (e:
    GameEngine)
    requires
        nnue matches Some(n) ==> n.wf(),
    ensures
        e.ready(),
        (e is Random) == (engine_type@ == "random"@),
        e matches GameEngine::AlphaBeta(a) ==> a.depth == (if depth < 1 { 1 } else { depth }) && (a.ctx.eval is Nnue)
            == (nnue is Some) && a.last_score is None,
{
    let chars = str_chars(engine_type);
    if chars_eq_str(&chars, "random") {
        GameEngine::Random(RandomEngine::new())
    } else {
        match nnue {
            Some(n) => GameEngine::AlphaBeta(AlphaBetaEngine::with_nnue(depth, n)),
            None => GameEngine::AlphaBeta(AlphaBetaEngine::with_depth(depth)),
        }
    }
}

pub struct Game {
    pub board: Board,
    pub history: Vec<MoveEntry>,
    pub board_history: Vec<Board>,
    pub last_move: Option<(u8, u8)>,
    pub status: Status,
    pub human_color: Color,
    pub engine: GameEngine,
    pub engine_type: String,
    pub depth: u32,
    pub use_book: bool,
    pub randomness: u8,
    pub use_nnue: bool,
    /// Last score from the engine's search, in centipawns from White's perspective.
    pub engine_eval: Option<i32>,
}

/// The status after checking for mate: a game still being played ends in
/// checkmate (won by the side not to move) or stalemate when no move is legal.
pub open spec fn refreshed(status: Status, b: Board) -> Status {
    if status is Playing && !has_legal_move(b) {
        if spec_in_check(b) {
            Status::Checkmate { winner: b.side_to_move.opposite() }
        } else {
            Status::Stalemate
        }
    } else {
        status
    }
}

/// A valid board whose move counters can still grow.
pub open spec fn playable(b: Board) -> bool {
    &&& b.valid()
    &&& b.half_move_clock < u32::MAX
    &&& b.full_move_number < u32::MAX
}

/// `s` is the UCI text of some move.
pub open spec fn is_uci_text(s: Seq<char>) -> bool {
    exists|m: Move| #[trigger] spec_uci_chars(m) == s
}

/// The from and to squares written in a UCI move text.
pub open spec fn uci_squares(s: Seq<char>) -> (u8, u8) {
    (
        ((s[1] as int - '1' as int) * 8 + (s[0] as int - 'a' as int)) as u8,
        ((s[3] as int - '1' as int) * 8 + (s[2] as int - 'a' as int)) as u8,
    )
}

/// The evaluation shown, in centipawns from White's side: mate scores for a
/// finished game, else the engine's last score, else the static evaluation.
pub open spec fn spec_game_eval(status: Status, engine_eval: Option<i32>, b: Board) -> int {
    match status {
        Status::Checkmate { winner } => if winner == Color::White {
            CHECKMATE_SCORE as int
        } else {
            -CHECKMATE_SCORE
        },
        Status::Stalemate => 0,
        Status::Resigned { loser } => if loser == Color::White {
            -CHECKMATE_SCORE
        } else {
            CHECKMATE_SCORE as int
        },
        Status::Playing => match engine_eval {
            Some(e) => e as int,
            None => spec_static_eval(b),
        },
    }
}

/// A finished game shows its result from White's side: the winner's full mate
/// score (positive exactly when White won), the resigner's loss, or 0 for a draw.
pub proof fn lemma_shown_eval_follows_result(status: Status, engine_eval: Option<i32>, b: Board)
    ensures
        status matches Status::Checkmate { winner } ==> spec_game_eval(status, engine_eval, b) == side_sign(winner)
            * CHECKMATE_SCORE,
        status matches Status::Resigned { loser } ==> spec_game_eval(status, engine_eval, b) == -side_sign(loser)
            * CHECKMATE_SCORE,
        status is Stalemate ==> spec_game_eval(status, engine_eval, b) == 0,
        status matches Status::Checkmate { winner } ==> (spec_game_eval(status, engine_eval, b) > 0 <==> winner
            == Color::White),
{
}

/// When a game ends on the board, the score it shows is the position's own
/// evaluation.
pub proof fn lemma_shown_eval_is_position_eval(b: Board, engine_eval: Option<i32>)
    requires
        !has_legal_move(b),
    ensures
        spec_game_eval(refreshed(Status::Playing, b), engine_eval, b) == spec_evaluate(b),
{
}

impl Game {
    /// The boards are valid, each move shown is a move's UCI text, and each move
    /// shown has the board before it kept.
    pub open spec fn wf(&self) -> bool {
        &&& playable(self.board)
        &&& self.engine.ready()
        &&& self.history@.len() == self.board_history@.len()
        &&& forall|i: int| 0 <= i < self.board_history@.len() ==> playable(#[trigger] self.board_history@[i])
        &&& forall|i: int| 0 <= i < self.history@.len() ==> is_uci_text((#[trigger] self.history@[i]).uci@)
    }

    pub fn new(human_color: Color) -> (g: Game)
        ensures
            g.wf(),
            g.board == board_of(start_position()),
            g.human_color == human_color,
            g.status == refreshed(Status::Playing, g.board),
            g.engine is AlphaBeta,
            g.depth == 9,
            g.history@.len() == 0,
    {
        proof {
            reveal_strlit("alpha-beta");
            reveal_strlit("random");
            assert("alpha-beta"@.len() != "random"@.len());
        }
        Self::from_board(human_color, "alpha-beta", 9, true, 30, false, None, Board::starting_position())
    }

    pub fn from_board(
        human_color: Color,
        engine_type: &str,
        depth: u32,
        use_book: bool,
        randomness: u8,
        use_nnue: bool,
        nnue: Option<Arc<Nnue>>,
        board: Board,
    ) -> (g: Game)
        requires
            board.valid(),
            board.half_move_clock < u32::MAX,
            board.full_move_number < u32::MAX,
            nnue matches Some(n) ==> n.wf(),
        ensures
            g.wf(),
            g.board == board,
            g.history@.len() == 0,
            g.last_move is None,
            g.status == refreshed(Status::Playing, board),
            g.human_color == human_color,
            (g.engine is Random) == (engine_type@ == "random"@),
            g.engine matches GameEngine::AlphaBeta(a) ==> a.depth == (if depth < 1 { 1 } else { depth }) && (
            a.ctx.eval is Nnue) == (use_nnue && nnue is Some),
            g.engine_type@ == engine_type@,
            g.depth == depth,
            g.use_book == use_book,
            g.randomness == randomness,
            g.use_nnue == use_nnue,
            g.engine_eval is None,
    {
        let active_nnue = if use_nnue {
            nnue
        } else {
            None
        };
        let mut game = Game {
            board,
            history: Vec::new(),
            board_history: Vec::new(),
            last_move: None,
            status: Status::Playing,
            human_color,
            engine: make_engine(engine_type, depth, use_book, randomness, active_nnue),
            engine_type: string_of(engine_type),
            depth,
            use_book,
            randomness,
            use_nnue,
            engine_eval: None,
        };
        game.refresh_status();
        game
    }

    pub fn refresh_status(&mut self)
        requires
            old(self).board.valid(),
            old(self).board.half_move_clock < u32::MAX,
            old(self).board.full_move_number < u32::MAX,
        ensures
            final(self).status == refreshed(old(self).status, old(self).board),
            final(self).board == old(self).board,
            final(self).history == old(self).history,
            final(self).board_history == old(self).board_history,
            final(self).last_move == old(self).last_move,
            final(self).engine == old(self).engine,
            final(self).engine_eval == old(self).engine_eval,
            final(self).human_color == old(self).human_color,
            final(self).engine_type == old(self).engine_type,
            final(self).depth == old(self).depth,
            final(self).use_book == old(self).use_book,
            final(self).randomness == old(self).randomness,
            final(self).use_nnue == old(self).use_nnue,
    {
        match self.status {
            Status::Playing => {},
            _ => {
                return;
            },
        }
        let legal = generate_legal(&self.board);
        if legal.is_empty() {
            proof {
                assert forall|m: Move| !spec_legal(self.board, m) by {
                    if spec_legal(self.board, m) {
                        assert(legal@.contains(m));
                    }
                }
            }
            self.status = if self.board.is_in_check() {
                Status::Checkmate { winner: self.board.side_to_move.flip() }
            } else {
                Status::Stalemate
            };
        } else {
            proof {
                assert(spec_legal(self.board, legal@[0]));
            }
        }
    }

    /// The evaluation shown, in centipawns from White's side.
    pub fn eval(&self) -> (r: i32)
        requires
            self.board.wf(),
        ensures
            r == spec_game_eval(self.status, self.engine_eval, self.board),
    {
        match self.status {
            Status::Checkmate { winner } => match winner {
                Color::White => CHECKMATE_SCORE,
                Color::Black => -CHECKMATE_SCORE,
            },
            Status::Stalemate => 0,
            Status::Resigned { loser } => match loser {
                Color::White => -CHECKMATE_SCORE,
                Color::Black => CHECKMATE_SCORE,
            },
            // Prefer the engine's own search score (deep eval); fall back to
            // static eval before the engine has searched (e.g. at game start,
            // after undo, or when the engine played a book move).
            Status::Playing => match self.engine_eval {
                Some(e) => e,
                None => static_eval(&self.board),
            },
        }
    }
}

/// `g1` is `g0` after `mv` is played and shown: the board before it kept, its
/// texts appended, its squares highlighted, and the status checked for mate.
pub open spec fn applied(g0: Game, g1: Game, mv: Move, from_book: bool) -> bool {
    let n = g0.history@.len();
    &&& g1.board == board_after(g0.board, mv)
    &&& g1.board_history@ == g0.board_history@.push(g0.board)
    &&& g1.history@.len() == n + 1
    &&& g1.history@.subrange(0, n as int) == g0.history@
    &&& g1.history@[n as int].uci@ == spec_uci_chars(mv)
    &&& g1.history@[n as int].san@ == spec_san(g0.board, mv)
    &&& g1.history@[n as int].from_book == from_book
    &&& g1.last_move == Some((mv.spec_from().0, mv.spec_to().0))
    &&& g1.status == refreshed(g0.status, g1.board)
    &&& same_settings(g0, g1)
}

/// `g1` is `g0` with its last two moves (the engine's and the human's) taken
/// back, or its only one; a game without moves is kept.
pub open spec fn undone(g0: Game, g1: Game) -> bool {
    let n = g0.board_history@.len();
    let k: int = if n >= 2 { n - 2 } else { 0 };
    if n == 0 {
        g1 == g0
    } else {
        &&& g1.board == g0.board_history@[k]
        &&& g1.board_history@ == g0.board_history@.subrange(0, k)
        &&& g1.history@ == g0.history@.subrange(0, k)
        &&& g1.last_move == (if k == 0 {
            None
        } else {
            Some(uci_squares(g0.history@[k - 1].uci@))
        })
        &&& g1.status == Status::Playing
        &&& g1.engine_eval is None
        &&& g1.engine == g0.engine
        &&& same_settings(g0, g1)
    }
}

/// Taking back after a human move and the engine's answer restores the board,
/// the moves shown and the kept boards of the game before them.
pub proof fn lemma_undo_two_plies(
    g0: Game,
    g1: Game,
    g2: Game,
    g3: Game,
    m1: Move,
    book1: bool,
    m2: Move,
    book2: bool,
)
    requires
        g0.wf(),
        applied(g0, g1, m1, book1),
        applied(g1, g2, m2, book2),
        undone(g2, g3),
    ensures
        g3.board == g0.board,
        g3.history@ == g0.history@,
        g3.board_history@ == g0.board_history@,
        g3.status is Playing,
{
    let n0 = g0.board_history@.len();
    assert(g2.board_history@ == g0.board_history@.push(g0.board).push(g1.board));
    assert(g2.board_history@[n0 as int] == g0.board);
    assert(g2.board_history@.subrange(0, n0 as int) =~= g0.board_history@);
    assert(g2.history@.subrange(0, n0 as int) =~= g0.history@) by {
        assert forall|i: int| 0 <= i < n0 implies g2.history@[i] == g0.history@[i] by {
            assert(g2.history@.subrange(0, g1.history@.len() as int)[i] == g1.history@[i]);
            assert(g1.history@.subrange(0, g0.history@.len() as int)[i] == g0.history@[i]);
        }
    }
}

/// The players, the engine settings and the engine's score are the same.
pub open spec fn same_settings(g0: Game, g1: Game) -> bool {
    &&& g1.human_color == g0.human_color
    &&& g1.engine_type == g0.engine_type
    &&& g1.depth == g0.depth
    &&& g1.use_book == g0.use_book
    &&& g1.randomness == g0.randomness
    &&& g1.use_nnue == g0.use_nnue
}

/// The promotion piece a request names: `q`, `r`, `b` or `n`.
pub open spec fn promo_request(p: Option<Seq<char>>) -> Option<PromoKind> {
    match p {
        Some(s) => if s == "q"@ {
            Some(PromoKind::Queen)
        } else if s == "r"@ {
            Some(PromoKind::Rook)
        } else if s == "b"@ {
            Some(PromoKind::Bishop)
        } else if s == "n"@ {
            Some(PromoKind::Knight)
        } else {
            None
        },
        None => None,
    }
}

/// `m` goes from `from` to `to`, and promotes to `pk` when one is asked, else
/// is no promotion.
pub open spec fn request_matches(m: Move, from: u8, to: u8, pk: Option<PromoKind>) -> bool {
    &&& m.spec_from().0 == from
    &&& m.spec_to().0 == to
    &&& match pk {
        Some(k) => m.spec_flag() == MoveFlag::Promo && m.spec_promo() == k,
        None => m.spec_flag() != MoveFlag::Promo,
    }
}

/// The legal move of `b` a request names, if any.
pub open spec fn requested_move(b: Board, from: u8, to: u8, pk: Option<PromoKind>) -> Option<Move> {
    if exists|m: Move| #[trigger] spec_legal(b, m) && request_matches(m, from, to, pk) {
        Some(choose|m: Move| #[trigger] spec_legal(b, m) && request_matches(m, from, to, pk))
    } else {
        None
    }
}

/// An engine score from the mover's side, seen from White's side.
pub open spec fn white_view(score: Option<i32>, mover: Color) -> Option<i32> {
    match score {
        Some(sc) => Some(
            if mover == Color::White {
                sc
            } else if sc == i32::MIN {
                i32::MAX
            } else {
                (-sc) as i32
            },
        ),
        None => None,
    }
}

/// The human may move: the game is on and it is the human's turn.
pub open spec fn human_to_move(g: Game) -> bool {
    g.status is Playing && g.board.side_to_move == g.human_color
}

/// The engine may move: the game is on and it is the engine's turn.
pub open spec fn engine_to_move(g: Game) -> bool {
    g.status is Playing && g.board.side_to_move != g.human_color
}

impl Game {
    /// Plays `mv` and records it.
    pub fn apply(&mut self, mv: Move, from_book: bool)
        requires
            old(self).wf(),
            spec_legal(old(self).board, mv),
            counters_fit(old(self).board, 2),
        ensures
            final(self).wf(),
            applied(*old(self), *final(self), mv, from_book),
            final(self).engine == old(self).engine,
            final(self).engine_eval == old(self).engine_eval,
    {
        let ghost g0 = *self;
        self.board_history.push(self.board);
        let san = move_to_san(&self.board, mv);
        self.last_move = Some((mv.from_sq().0, mv.to_sq().0));
        self.history.push(MoveEntry { uci: mv.to_uci(), san, from_book });
        let ghost before = self.board;
        self.board.make_move(mv);
        proof {
            lemma_legal_step(before, mv, self.board);
            lemma_made_unique(before, mv, self.board, board_after(before, mv));
            assert(self.history@.subrange(0, g0.history@.len() as int) =~= g0.history@);
            assert forall|i: int| 0 <= i < self.board_history@.len() implies playable(
                #[trigger] self.board_history@[i],
            ) by {
                if i < g0.board_history@.len() {
                    assert(self.board_history@[i] == g0.board_history@[i]);
                }
            }
            assert forall|i: int| 0 <= i < self.history@.len() implies is_uci_text(
                (#[trigger] self.history@[i]).uci@,
            ) by {
                if i < g0.history@.len() {
                    assert(self.history@[i] == g0.history@[i]);
                } else {
                    assert(spec_uci_chars(mv) == self.history@[i].uci@);
                }
            }
        }
        self.refresh_status();
    }

    /// Takes back the last two moves (the engine's and the human's), or the only one.
    pub fn undo(&mut self)
        requires
            old(self).wf(),
        ensures
            final(self).wf(),
            undone(*old(self), *final(self)),
    {
        if self.board_history.len() == 0 {
            return;
        }
        let ghost g0 = *self;
        // Undo 2 plies (engine + human); 1 ply if only 1 available.
        let plies: usize = if self.board_history.len() >= 2 { 2 } else { 1 };
        let b1 = self.board_history.pop().unwrap();
        self.history.pop();
        self.board = b1;
        if plies == 2 {
            let b2 = self.board_history.pop().unwrap();
            self.history.pop();
            self.board = b2;
        }
        proof {
            let n = g0.board_history@.len();
            let k: int = if n >= 2 { n - 2 } else { 0 };
            assert(self.board_history@ =~= g0.board_history@.subrange(0, k));
            assert(self.history@ =~= g0.history@.subrange(0, k));
            assert(self.board == g0.board_history@[k]);
            assert forall|i: int| 0 <= i < self.board_history@.len() implies playable(
                #[trigger] self.board_history@[i],
            ) by {
                assert(self.board_history@[i] == g0.board_history@[i]);
            }
            assert forall|i: int| 0 <= i < self.history@.len() implies is_uci_text(
                (#[trigger] self.history@[i]).uci@,
            ) by {
                assert(self.history@[i] == g0.history@[i]);
            }
        }
        let len = self.history.len();
        self.last_move = if len > 0 {
            Some(entry_squares(&self.history[len - 1]))
        } else {
            None
        };
        self.status = Status::Playing;
        self.engine_eval = None;
    }

    /// The human's move from `from` to `to`, promoting to the piece `promo`
    /// names: played when it is the human's turn and the move is legal.
    pub fn human_move(&mut self, from: u8, to: u8, promo: Option<String>)
        requires
            old(self).wf(),
        ensures
            final(self).wf(),
            ({
                let pk = promo_request(match promo {
                    Some(p) => Some(p@),
                    None => None,
                });
                if human_to_move(*old(self)) && counters_fit(old(self).board, 2) && requested_move(
                    old(self).board,
                    from,
                    to,
                    pk,
                ) is Some {
                    &&& applied(*old(self), *final(self), requested_move(old(self).board, from, to, pk)->0, false)
                    &&& final(self).engine == old(self).engine
                    &&& final(self).engine_eval == old(self).engine_eval
                } else {
                    *final(self) == *old(self)
                }
            }),
    {
        match self.status {
            Status::Playing => {},
            _ => {
                return;
            },
        }
        if self.board.side_to_move != self.human_color {
            return;
        }
        if !(self.board.half_move_clock <= u32::MAX - 2 && self.board.full_move_number <= u32::MAX - 2) {
            return;
        }
        let pk = promo_kind_of(&promo);
        let legal = generate_legal(&self.board);
        let n = legal.len();
        let ghost g0 = *self;
        let mut i: usize = 0;
        while i < n
            invariant
                n == legal@.len(),
                i <= n,
                self.wf(),
                *self == g0,
                g0 == *old(self),
                counters_fit(self.board, 2),
                human_to_move(*self),
                pk == promo_request(match promo {
                    Some(p) => Some(p@),
                    None => None,
                }),
                forall|m: Move| #[trigger] legal@.contains(m) <==> spec_legal(self.board, m),
                forall|j: int| 0 <= j < legal@.len() ==> spec_legal(self.board, #[trigger] legal@[j]),
                forall|j: int| 0 <= j < i ==> !request_matches(#[trigger] legal@[j], from, to, pk),
            decreases n - i,
        {
            let mv = legal.get(i);
            let sq_ok = mv.from_sq().0 == from && mv.to_sq().0 == to;
            let promo_ok = match pk {
                Some(k) => mv.is_promo() && same_promo(mv.promo_kind(), k),
                None => !mv.is_promo(),
            };
            if sq_ok && promo_ok {
                proof {
                    assert(spec_legal(self.board, mv));
                    assert(exists|m: Move| #[trigger] spec_legal(self.board, m) && request_matches(m, from, to, pk));
                    let c = choose|m: Move| #[trigger] spec_legal(self.board, m) && request_matches(m, from, to, pk);
                    lemma_pseudo_unique(self.board, mv, c);
                    assert(requested_move(self.board, from, to, pk) == Some(c));
                }
                self.apply(mv, false);
                return;
            }
            i = i + 1;
        }
        proof {
            assert forall|m: Move| !(spec_legal(self.board, m) && request_matches(m, from, to, pk)) by {
                if spec_legal(self.board, m) && request_matches(m, from, to, pk) {
                    assert(legal@.contains(m));
                    let j = choose|j: int| 0 <= j < legal@.len() && legal@[j] == m;
                    assert(!request_matches(legal@[j], from, to, pk));
                }
            }
        }
    }

    /// The engine's move, when it is the engine's turn; its score is kept from
    /// White's side.
    pub fn engine_move(&mut self)
        requires
            old(self).wf(),
        ensures
            final(self).wf(),
            (final(self).engine is Random) == (old(self).engine is Random),
            !(engine_to_move(*old(self)) && counters_fit(old(self).board, SEARCH_PLY_LIMIT as int))
                ==> *final(self) == *old(self),
            engine_to_move(*old(self)) && counters_fit(old(self).board, SEARCH_PLY_LIMIT as int) ==> ({
                ||| {
                    &&& exists|m: Move| #[trigger] spec_legal(old(self).board, m) && applied(*old(self), *final(self), m, false)
                    &&& final(self).engine_eval == white_view(
                        match final(self).engine {
                            GameEngine::Random(_) => None,
                            GameEngine::AlphaBeta(a) => a.last_score,
                        },
                        old(self).board.side_to_move,
                    )
                }
                ||| {
                    &&& final(self).board == old(self).board
                    &&& final(self).history == old(self).history
                    &&& final(self).board_history == old(self).board_history
                    &&& final(self).last_move == old(self).last_move
                    &&& final(self).status == old(self).status
                    &&& final(self).engine_eval == old(self).engine_eval
                    &&& same_settings(*old(self), *final(self))
                }
            }),
            engine_to_move(*old(self)) && counters_fit(old(self).board, SEARCH_PLY_LIMIT as int) && !has_legal_move(
                old(self).board,
            ) ==> final(self).board == old(self).board && final(self).engine_eval == old(self).engine_eval,
            engine_to_move(*old(self)) && counters_fit(old(self).board, SEARCH_PLY_LIMIT as int) ==> (
            (final(self).board_history@.len() == old(self).board_history@.len() + 1) <==> match final(self).engine {
                GameEngine::Random(_) => has_legal_move(old(self).board),
                GameEngine::AlphaBeta(a) => a.last_score is Some,
            }),
            engine_to_move(*old(self)) && counters_fit(old(self).board, SEARCH_PLY_LIMIT as int)
                && final(self).board_history@.len() == old(self).board_history@.len() + 1 ==> (
            final(self).engine matches GameEngine::AlphaBeta(a) ==> exists|m: Move| #[trigger] applied(*old(self), *final(self), m, false)
                && (a.last_score matches Some(s) && first_best_of(a.last_search@, m, s))),
    {
        match self.status {
            Status::Playing => {},
            _ => {
                return;
            },
        }
        if self.board.side_to_move == self.human_color {
            return;
        }
        if !(self.board.half_move_clock <= u32::MAX - 126 && self.board.full_move_number <= u32::MAX - 126) {
            return;
        }
        let board = self.board;
        let engine_color = board.side_to_move;
        match self.engine.choose_move(&board) {
            Some(mv) => {
                let from_book = self.engine.last_was_book();
                self.engine_eval = match self.engine.last_score() {
                    Some(sc) => Some(
                        match engine_color {
                            Color::White => sc,
                            Color::Black => if sc == i32::MIN {
                                i32::MAX
                            } else {
                                -sc
                            },
                        },
                    ),
                    None => None,
                };
                self.apply(mv, from_book);
                proof {
                    assert(applied(*old(self), *self, mv, from_book));
                }
            },
            None => {},
        }
    }

    /// The human resigns a game still being played.
    pub fn resign(&mut self)
        requires
            old(self).wf(),
        ensures
            final(self).wf(),
            final(self).status == (if old(self).status is Playing {
                Status::Resigned { loser: old(self).human_color }
            } else {
                old(self).status
            }),
            final(self).board == old(self).board,
            final(self).history == old(self).history,
            final(self).board_history == old(self).board_history,
            final(self).last_move == old(self).last_move,
            final(self).engine == old(self).engine,
            final(self).engine_eval == old(self).engine_eval,
            same_settings(*old(self), *final(self)),
    {
        match self.status {
            Status::Playing => {
                self.status = Status::Resigned { loser: self.human_color };
            },
            _ => {},
        }
    }
}

fn same_promo(a: PromoKind, b: PromoKind) -> (r: bool)
    ensures
        r == (a == b),
{
    match (a, b) {
        (PromoKind::Knight, PromoKind::Knight) => true,
        (PromoKind::Bishop, PromoKind::Bishop) => true,
        (PromoKind::Rook, PromoKind::Rook) => true,
        (PromoKind::Queen, PromoKind::Queen) => true,
        _ => false,
    }
}

fn promo_kind_of(p: &Option<String>) -> (r: Option<PromoKind>)
    ensures
        r == promo_request(match p {
            Some(s) => Some(s@),
            None => None,
        }),
{
    match p {
        Some(s) => {
            let c = str_chars(s.as_str());
            if chars_eq_str(&c, "q") {
                Some(PromoKind::Queen)
            } else if chars_eq_str(&c, "r") {
                Some(PromoKind::Rook)
            } else if chars_eq_str(&c, "b") {
                Some(PromoKind::Bishop)
            } else if chars_eq_str(&c, "n") {
                Some(PromoKind::Knight)
            } else {
                None
            }
        },
        None => None,
    }
}

/// The squares of a move entry, read back from its UCI text.
fn entry_squares(e: &MoveEntry) -> (r: (u8, u8))
    requires
        is_uci_text(e.uci@),
    ensures
        r == uci_squares(e.uci@),
{
    let ghost m = choose|m: Move| #[trigger] spec_uci_chars(m) == e.uci@;
    proof {
        lemma_move_decode(m);
    }
    let b = str_chars(e.uci.as_str());
    let c0 = b[0] as u32;
    let c1 = b[1] as u32;
    let c2 = b[2] as u32;
    let c3 = b[3] as u32;
    let from = ((c1 - '1' as u32) * 8 + (c0 - 'a' as u32)) as u8;
    let to = ((c3 - '1' as u32) * 8 + (c2 - 'a' as u32)) as u8;
    (from, to)
}

// ── Requests ──────────────────────────────────────────────────────────────────

pub fn parse_color(s: Option<&str>) -> (c: Color)
    ensures
        c == (if s matches Some(t) && t@ == "black"@ {
            Color::Black
        } else {
            Color::White
        }),
{
    match s {
        Some(t) => {
            let v = str_chars(t);
            if chars_eq_str(&v, "black") {
                Color::Black
            } else {
                Color::White
            }
        },
        None => Color::White,
    }
}

pub fn parse_engine_type(s: Option<&str>) -> (t: &'static str)
    ensures
        t@ == (if s matches Some(x) && x@ == "random"@ {
            "random"@
        } else {
            "alpha-beta"@
        }),
{
    match s {
        Some(x) => {
            let v = str_chars(x);
            if chars_eq_str(&v, "random") {
                "random"
            } else {
                "alpha-beta"
            }
        },
        None => "alpha-beta",
    }
}

/// The search depth asked for, 9 by default, kept within 1..=15.
pub fn parse_depth(d: Option<u32>) -> (r: u32)
    ensures
        r == (match d {
            Some(x) => if x < 1 {
                1
            } else if x > 15 {
                15
            } else {
                x
            },
            None => 9,
        }),
{
    let x = match d {
        Some(x) => x,
        None => 9,
    };
    if x < 1 {
        1
    } else if x > 15 {
        15
    } else {
        x
    }
}

/// The book randomness asked for, 30 by default, at most 100.
pub fn parse_randomness(r: Option<u32>) -> (v: u8)
    ensures
        v == (match r {
            Some(x) => if x > 100 {
                100
            } else {
                x
            },
            None => 30,
        }),
{
    let x = match r {
        Some(x) => x,
        None => 30,
    };
    if x > 100 {
        100
    } else {
        x as u8
    }
}

impl Game {
    /// A new game from the initial position with the given settings.
    pub fn restart(
        &mut self,
        human_color: Color,
        engine_type: &str,
        depth: u32,
        use_book: bool,
        randomness: u8,
        use_nnue: bool,
        nnue: Option<Arc<Nnue>>,
    )
        requires
            nnue matches Some(n) ==> n.wf(),
        ensures
            final(self).wf(),
            final(self).board == board_of(start_position()),
            final(self).history@.len() == 0,
            final(self).board_history@.len() == 0,
            final(self).last_move is None,
            final(self).status == refreshed(Status::Playing, final(self).board),
            final(self).human_color == human_color,
            (final(self).engine is Random) == (engine_type@ == "random"@),
            final(self).engine_type@ == engine_type@,
            final(self).depth == depth,
            final(self).use_book == use_book,
            final(self).randomness == randomness,
            final(self).use_nnue == use_nnue,
            final(self).engine_eval is None,
    {
        *self = Game::from_board(
            human_color,
            engine_type,
            depth,
            use_book,
            randomness,
            use_nnue,
            nnue,
            Board::starting_position(),
        );
    }

    /// A new game from the position `fen` with the given settings; the game is
    /// kept when the text is no FEN, or names a position whose en-passant target or
    /// castling rights do not fit its pieces, or whose move counters are full.
    pub fn load_fen(
        &mut self,
        fen: &str,
        human_color: Color,
        engine_type: &str,
        depth: u32,
        use_book: bool,
        randomness: u8,
        use_nnue: bool,
        nnue: Option<Arc<Nnue>>,
    )
        requires
            old(self).wf(),
            nnue matches Some(n) ==> n.wf(),
        ensures
            final(self).wf(),
            ({
                let ok = spec_fen(fen@) matches Ok(p) && board_of(p).valid() && p.4 < u32::MAX && p.5 < u32::MAX;
                &&& !ok ==> *final(self) == *old(self)
                &&& ok ==> {
                    &&& final(self).board == board_of(spec_fen(fen@)->Ok_0)
                    &&& final(self).history@.len() == 0
                    &&& final(self).board_history@.len() == 0
                    &&& final(self).last_move is None
                    &&& final(self).status == refreshed(Status::Playing, final(self).board)
                    &&& final(self).human_color == human_color
                    &&& (final(self).engine is Random) == (engine_type@ == "random"@)
                    &&& final(self).engine_type@ == engine_type@
                    &&& final(self).depth == depth
                    &&& final(self).use_book == use_book
                    &&& final(self).randomness == randomness
                    &&& final(self).use_nnue == use_nnue
                    &&& final(self).engine_eval is None
                }
            }),
    {
        match Board::from_fen(fen) {
            Ok(board) => {
                proof {
                    lemma_board_of(board);
                }
                if board.is_valid() && board.half_move_clock < u32::MAX && board.full_move_number < u32::MAX {
                    *self = Game::from_board(
                        human_color,
                        engine_type,
                        depth,
                        use_book,
                        randomness,
                        use_nnue,
                        nnue,
                        board,
                    );
                }
            },
            Err(_) => {},
        }
    }
}

// ── The state shown ───────────────────────────────────────────────────────────

pub struct PieceInfo {
    pub color: String,
    pub piece_type: String,
}

pub struct GameState {
    pub board: Vec<Option<PieceInfo>>,
    pub legal_moves: Vec<String>,
    pub history: Vec<MoveEntry>,
    pub status: String,
    pub winner: Option<String>,
    pub in_check: bool,
    pub side_to_move: String,
    pub human_color: String,
    pub last_move: Option<(u8, u8)>,
    pub engine_name: String,
    pub engine_type: String,
    pub depth: u32,
    pub use_book: bool,
    pub randomness: u8,
    pub use_nnue: bool,
    pub nnue_available: bool,
    pub eval: i32,
    pub fen: String,
}

pub open spec fn color_text(c: Color) -> Seq<char> {
    match c {
        Color::White => "white"@,
        Color::Black => "black"@,
    }
}

pub open spec fn piece_type_text(pt: PieceType) -> Seq<char> {
    match pt {
        PieceType::Pawn => "pawn"@,
        PieceType::Knight => "knight"@,
        PieceType::Bishop => "bishop"@,
        PieceType::Rook => "rook"@,
        PieceType::Queen => "queen"@,
        PieceType::King => "king"@,
    }
}

pub fn color_str(c: Color) -> (s: String)
    ensures
        s@ == color_text(c),
{
    match c {
        Color::White => string_of("white"),
        Color::Black => string_of("black"),
    }
}

pub fn pt_str(pt: PieceType) -> (s: String)
    ensures
        s@ == piece_type_text(pt),
{
    match pt {
        PieceType::Pawn => string_of("pawn"),
        PieceType::Knight => string_of("knight"),
        PieceType::Bishop => string_of("bishop"),
        PieceType::Rook => string_of("rook"),
        PieceType::Queen => string_of("queen"),
        PieceType::King => string_of("king"),
    }
}

/// `info` shows the contents `p` of a square.
pub open spec fn shows_square(info: Option<PieceInfo>, p: Option<Piece>) -> bool {
    match p {
        None => info is None,
        Some(piece) => info matches Some(i) && i.color@ == color_text(piece.color) && i.piece_type@
            == piece_type_text(piece.piece_type),
    }
}

/// The status word and the winner's colour of a game.
pub open spec fn status_text(s: Status) -> (Seq<char>, Option<Seq<char>>) {
    match s {
        Status::Playing => ("playing"@, None),
        Status::Checkmate { winner } => ("checkmate"@, Some(color_text(winner))),
        Status::Stalemate => ("stalemate"@, None),
        Status::Resigned { loser } => ("resigned"@, Some(color_text(loser.opposite()))),
    }
}

/// `e` shows the same move as `f`.
pub open spec fn same_entry(e: MoveEntry, f: MoveEntry) -> bool {
    e.uci@ == f.uci@ && e.san@ == f.san@ && e.from_book == f.from_book
}

/// `s` is the UCI text of a legal move of `b`.
pub open spec fn is_legal_text(b: Board, s: Seq<char>) -> bool {
    exists|m: Move| #[trigger] spec_legal(b, m) && s == spec_uci_chars(m)
}

/// The texts are exactly the UCI texts of the legal moves of `b`.
pub open spec fn lists_legal_moves(t: Seq<Seq<char>>, b: Board) -> bool {
    &&& forall|i: int| 0 <= i < t.len() ==> is_legal_text(b, #[trigger] t[i])
    &&& forall|m: Move| #[trigger] spec_legal(b, m) ==> t.contains(spec_uci_chars(m))
}

/// The name an engine goes by.
pub open spec fn engine_name_text(e: GameEngine) -> Seq<char> {
    match e {
        GameEngine::Random(_) => "RandomEngine"@,
        GameEngine::AlphaBeta(a) => a.name@,
    }
}

fn copy_entry(e: &MoveEntry) -> (r: MoveEntry)
    ensures
        same_entry(r, *e),
{
    MoveEntry { uci: e.uci.clone(), san: e.san.clone(), from_book: e.from_book }
}

fn square_info(p: Option<Piece>) -> (r: Option<PieceInfo>)
    ensures
        shows_square(r, p),
{
    match p {
        Some(piece) => Some(PieceInfo { color: color_str(piece.color), piece_type: pt_str(piece.piece_type) }),
        None => None,
    }
}

impl Game {
    /// The state shown after a request.
    pub fn to_response(&self, nnue_available: bool) -> (r: GameState)
        requires
            self.wf(),
        ensures
            r.board@.len() == 64,
            forall|s: int| 0 <= s < 64 ==> shows_square(#[trigger] r.board@[s], self.board.mailbox@[s]),
            self.status is Playing ==> lists_legal_moves(texts(r.legal_moves@), self.board),
            !(self.status is Playing) ==> r.legal_moves@.len() == 0,
            r.history@.len() == self.history@.len(),
            forall|i: int| 0 <= i < self.history@.len() ==> same_entry(#[trigger] r.history@[i], self.history@[i]),
            r.status@ == status_text(self.status).0,
            match status_text(self.status).1 {
                Some(w) => r.winner matches Some(x) && x@ == w,
                None => r.winner is None,
            },
            r.in_check == spec_in_check(self.board),
            r.side_to_move@ == color_text(self.board.side_to_move),
            r.human_color@ == color_text(self.human_color),
            r.last_move == self.last_move,
            r.engine_name@ == engine_name_text(self.engine),
            r.engine_type@ == self.engine_type@,
            r.depth == self.depth,
            r.use_book == self.use_book,
            r.randomness == self.randomness,
            r.use_nnue == self.use_nnue,
            r.nnue_available == nnue_available,
            r.eval == spec_game_eval(self.status, self.engine_eval, self.board),
            r.fen@ == fen_text(self.board),
    {
        let mut board: Vec<Option<PieceInfo>> = Vec::new();
        let mut sq: u8 = 0;
        while sq < 64
            invariant
                sq <= 64,
                board@.len() == sq,
                self.board.valid(),
                forall|s: int| 0 <= s < sq ==> shows_square(#[trigger] board@[s], self.board.mailbox@[s]),
            decreases 64 - sq,
        {
            board.push(square_info(self.board.piece_at(Square(sq))));
            sq = sq + 1;
        }
        let mut legal_moves: Vec<String> = Vec::new();
        let playing = match self.status {
            Status::Playing => true,
            _ => false,
        };
        if playing {
            let legal = generate_legal(&self.board);
            let n = legal.len();
            let mut i: usize = 0;
            while i < n
                invariant
                    n == legal@.len(),
                    i <= n,
                    legal_moves@.len() == i,
                    forall|j: int| 0 <= j < legal@.len() ==> spec_legal(self.board, #[trigger] legal@[j]),
                    forall|j: int| 0 <= j < i ==> (#[trigger] legal_moves@[j])@ == spec_uci_chars(legal@[j]),
                decreases n - i,
            {
                legal_moves.push(legal.get(i).to_uci());
                i = i + 1;
            }
            proof {
                let t = texts(legal_moves@);
                assert forall|k: int| 0 <= k < t.len() implies is_legal_text(self.board, #[trigger] t[k]) by {
                    assert(spec_legal(self.board, legal@[k]));
                    assert(t[k] == legal_moves@[k]@);
                }
                assert forall|m: Move| #[trigger] spec_legal(self.board, m) implies t.contains(spec_uci_chars(m)) by {
                    assert(legal@.contains(m));
                    let j = choose|j: int| 0 <= j < legal@.len() && legal@[j] == m;
                    assert(t[j] == legal_moves@[j]@);
                }
            }
        }
        let mut history: Vec<MoveEntry> = Vec::new();
        let mut i: usize = 0;
        while i < self.history.len()
            invariant
                i <= self.history@.len(),
                history@.len() == i,
                forall|j: int| 0 <= j < i ==> same_entry(#[trigger] history@[j], self.history@[j]),
            decreases self.history@.len() - i,
        {
            history.push(copy_entry(&self.history[i]));
            i = i + 1;
        }
        let (status, winner) = match self.status {
            Status::Playing => (string_of("playing"), None),
            Status::Checkmate { winner } => (string_of("checkmate"), Some(color_str(winner))),
            Status::Stalemate => (string_of("stalemate"), None),
            Status::Resigned { loser } => (string_of("resigned"), Some(color_str(loser.flip()))),
        };
        GameState {
            board,
            legal_moves,
            history,
            status,
            winner,
            in_check: self.board.is_in_check(),
            side_to_move: color_str(self.board.side_to_move),
            human_color: color_str(self.human_color),
            last_move: self.last_move,
            engine_name: string_of(self.engine.name()),
            engine_type: self.engine_type.clone(),
            depth: self.depth,
            use_book: self.use_book,
            randomness: self.randomness,
            use_nnue: self.use_nnue,
            nnue_available,
            eval: self.eval(),
            fen: self.board.to_fen(),
        }
    }
}

} // verus!
