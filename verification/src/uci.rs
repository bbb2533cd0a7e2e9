//! The Universal Chess Interface: reading `position` and `go` commands and
//! answering each line of the protocol. Reading and writing the lines is left
//! to the caller.
use vstd::prelude::*;
use crate::chess::board::{Board, made, lemma_made_unique};
use crate::chess::fen::{board_of, start_position, spec_fen, position_of, lemma_board_of};
use crate::chess::movegen::{generate_legal, spec_legal, spec_pseudo, lemma_pseudo_unique};
use crate::chess::moves::{Move, MoveFlag, PromoKind, spec_promo_piece, lemma_move_decode};
use crate::chess::perft::{lemma_legal_step, counters_fit, generate_count, lemma_moves_counted};
use crate::chess::san::board_after;
use crate::chess::types::{Color, PieceType, Square};
use crate::text::{str_chars, strip, strip_prefix, trim, trim_start, trim_chars, trim_start_chars, find, find_chars,
    sub_chars, words, split_words, views, chars_eq_str, parse_u32, parse_u64, spec_parse_u32, spec_parse_u64,
    starts_with, string_of, texts, push_str};
use crate::chess::movegen::has_legal_move;
use crate::chess::moves::spec_uci_chars;
use crate::engine::alpha_beta::{AlphaBetaEngine, SEARCH_PLY_LIMIT, first_best_of};
use crate::engine::time_manager::TimeManager;
use crate::engine::Engine;
use crate::utils::string_from_chars;

verus! {

pub const MAX_SEARCH_DEPTH: u32 = 20u32;

// ── Move parsing ──────────────────────────────────────────────────────────────

/// The square named by the first two characters of `s` (file letter, rank digit).
pub open spec fn spec_uci_square(s: Seq<char>) -> Option<Square> {
    if s.len() >= 2 && 'a' <= s[0] <= 'h' && '1' <= s[1] <= '8' {
        Some(Square(((s[1] as int - '1' as int) * 8 + (s[0] as int - 'a' as int)) as u8))
    } else {
        None
    }
}

/// The piece a UCI move asks to promote to: its fifth character, the queen by default.
pub open spec fn wanted_promo(s: Seq<char>) -> PieceType {
    if s.len() > 4 && s[4] == 'r' {
        PieceType::Rook
    } else if s.len() > 4 && s[4] == 'b' {
        PieceType::Bishop
    } else if s.len() > 4 && s[4] == 'n' {
        PieceType::Knight
    } else {
        PieceType::Queen
    }
}

/// `m` is the move that the UCI text `s` names: same squares, and for a promotion
/// the piece asked for.
pub open spec fn uci_matches(s: Seq<char>, m: Move) -> bool {
    &&& s.len() >= 4
    &&& spec_uci_square(s) == Some(m.spec_from())
    &&& spec_uci_square(s.subrange(2, 4)) == Some(m.spec_to())
    &&& (m.spec_flag() == MoveFlag::Promo ==> spec_promo_piece(m.spec_promo()) == wanted_promo(s))
}

/// The legal move of `b` that `s` names, if there is one.
pub open spec fn spec_parse_move(b: Board, s: Seq<char>) -> Option<Move> {
    if exists|m: Move| #[trigger] spec_legal(b, m) && uci_matches(s, m) {
        Some(choose|m: Move| #[trigger] spec_legal(b, m) && uci_matches(s, m))
    } else {
        None
    }
}

/// The square named by the first two characters of `b`.
fn parse_square(b: &[char]) -> (r: Option<Square>)
    ensures
        r == spec_uci_square(b@),
{
    if b.len() < 2 {
        return None;
    }
    let f = b[0];
    let rk = b[1];
    if 'a' <= f && f <= 'h' && '1' <= rk && rk <= '8' {
        let file = (f as u32 - 'a' as u32) as u8;
        let rank = (rk as u32 - '1' as u32) as u8;
        Some(Square::new(file, rank))
    } else {
        None
    }
}

/// Only one legal move of a valid board answers a UCI text.
proof fn lemma_uci_match_unique(b: Board, s: Seq<char>, m1: Move, m2: Move)
    requires
        b.valid(),
        spec_legal(b, m1),
        spec_legal(b, m2),
        uci_matches(s, m1),
        uci_matches(s, m2),
    ensures
        m1 == m2,
{
    lemma_pseudo_unique(b, m1, m2);
    if m1.spec_flag() == MoveFlag::Promo {
        let p1 = m1.spec_promo();
        let p2 = m2.spec_promo();
        assert(spec_promo_piece(p1) == spec_promo_piece(p2));
        assert(p1 == p2);
    }
}

/// The UCI text of a legal move names that move, so `parse_move` reads back
/// what `Move::to_uci` writes.
pub proof fn lemma_uci_roundtrip(b: Board, m: Move)
    requires
        b.valid(),
        spec_legal(b, m),
    ensures
        spec_parse_move(b, spec_uci_chars(m)) == Some(m),
{
    lemma_move_decode(m);
    let s = spec_uci_chars(m);
    let from = m.spec_from();
    let to = m.spec_to();
    assert(s[0] as int == 'a' as int + from.spec_file());
    assert(s[1] as int == '1' as int + from.spec_rank());
    assert(s[2] as int == 'a' as int + to.spec_file());
    assert(s[3] as int == '1' as int + to.spec_rank());
    assert(from.spec_rank() * 8 + from.spec_file() == from.0);
    assert(to.spec_rank() * 8 + to.spec_file() == to.0);
    assert(spec_uci_square(s) == Some(from));
    let t = s.subrange(2, 4);
    assert(t[0] == s[2] && t[1] == s[3]);
    assert(spec_uci_square(t) == Some(to));
    if m.spec_flag() == MoveFlag::Promo {
        assert(s[4] == crate::chess::moves::spec_promo_letter(m.spec_promo()));
    }
    assert(uci_matches(s, m));
    assert(exists|x: Move| #[trigger] spec_legal(b, x) && uci_matches(s, x));
    let c = choose|x: Move| #[trigger] spec_legal(b, x) && uci_matches(s, x);
    lemma_uci_match_unique(b, s, m, c);
}

/// Match a UCI move string (e.g. "e2e4", "a7a8q") against the legal moves in
/// the current position and return the matching `Move`.
pub fn parse_move(board: &Board, s: &Vec<char>) -> (r: Option<Move>)
    requires
        board.valid(),
        board.half_move_clock < u32::MAX,
        board.full_move_number < u32::MAX,
    ensures
        r == spec_parse_move(*board, s@),
{
    if s.len() < 4 {
        return None;
    }
    let from = match parse_square(s.as_slice()) {
        Some(x) => x,
        None => {
            return None;
        },
    };
    let tail = sub_chars(s, 2, 4);
    let to = match parse_square(tail.as_slice()) {
        Some(x) => x,
        None => {
            return None;
        },
    };
    let want = if s.len() > 4 {
        let c = s[4];
        if c == 'r' {
            PieceType::Rook
        } else if c == 'b' {
            PieceType::Bishop
        } else if c == 'n' {
            PieceType::Knight
        } else {
            PieceType::Queen
        }
    } else {
        PieceType::Queen
    };
    let legal = generate_legal(board);
    let n = legal.len();
    let mut i: usize = 0;
    while i < n
        invariant
            n == legal@.len(),
            i <= n,
            board.valid(),
            forall|j: int| 0 <= j < legal@.len() ==> spec_legal(*board, #[trigger] legal@[j]),
            forall|j: int| 0 <= j < i ==> !uci_matches(s@, #[trigger] legal@[j]),
            spec_uci_square(s@) == Some(from),
            spec_uci_square(s@.subrange(2, 4)) == Some(to),
            want == wanted_promo(s@),
            s@.len() >= 4,
        decreases n - i,
    {
        let mv = legal.get(i);
        if mv.from_sq() == from && mv.to_sq() == to {
            let hit = if mv.is_promo() {
                mv.promo_piece_type() == want
            } else {
                true
            };
            if hit {
                proof {
                    assert(spec_legal(*board, mv));
                    assert(uci_matches(s@, mv));
                    assert(exists|m: Move| #[trigger] spec_legal(*board, m) && uci_matches(s@, m));
                    let c = choose|m: Move| #[trigger] spec_legal(*board, m) && uci_matches(s@, m);
                    lemma_uci_match_unique(*board, s@, mv, c);
                    assert(spec_parse_move(*board, s@) == Some(c));
                }
                return Some(mv);
            }
        }
        i = i + 1;
    }
    proof {
        assert forall|m: Move| !(spec_legal(*board, m) && uci_matches(s@, m)) by {
            if spec_legal(*board, m) && uci_matches(s@, m) {
                assert(legal@.contains(m));
                let j = choose|j: int| 0 <= j < legal@.len() && legal@[j] == m;
                assert(!uci_matches(s@, legal@[j]));
            }
        }
    }
    None
}

// ── Position command ──────────────────────────────────────────────────────────

/// The starting point and the move text of a `position` command: `None` for
/// `startpos`, or the FEN text.
pub open spec fn position_parts(line: Seq<char>) -> Option<(Option<Seq<char>>, Seq<char>)> {
    match strip(line, "position "@) {
        None => None,
        Some(rest) => match strip(rest, "startpos"@) {
            Some(r) => Some(
                (
                    None,
                    match strip(trim_start(r), "moves"@) {
                        Some(m) => m,
                        None => Seq::empty(),
                    },
                ),
            ),
            None => match strip(rest, "fen "@) {
                None => None,
                Some(r) => match find(r, " moves "@) {
                    Some(i) => Some((Some(r.subrange(0, i)), r.subrange(i + 7, r.len() as int))),
                    None => Some((Some(r), Seq::empty())),
                },
            },
        },
    }
}

/// The board reached from `b` by the UCI moves `ws[i..]`, if each names a legal
/// move in turn and the move counters have room for it.
pub open spec fn play_from(b: Board, ws: Seq<Seq<char>>, i: int) -> Option<Board>
    decreases ws.len() - i,
{
    if i >= ws.len() {
        Some(b)
    } else if !(b.half_move_clock < u32::MAX && b.full_move_number < u32::MAX) {
        None
    } else {
        match spec_parse_move(b, ws[i]) {
            None => None,
            Some(m) => play_from(board_after(b, m), ws, i + 1),
        }
    }
}

/// The board a `position` command sets up; a FEN position is taken only when its
/// en-passant target and castling rights fit its pieces.
pub open spec fn spec_parse_position(line: Seq<char>) -> Option<Board> {
    match position_parts(line) {
        None => None,
        Some((start, moves)) => match start {
            None => play_from(board_of(start_position()), words(moves), 0),
            Some(fen) => match spec_fen(trim(fen)) {
                Err(_) => None,
                Ok(p) => if board_of(p).valid() {
                    play_from(board_of(p), words(moves), 0)
                } else {
                    None
                },
            },
        },
    }
}

/// Plays the UCI moves `ws` from `board`.
fn play_moves(board: Board, ws: &Vec<Vec<char>>) -> (r: Option<Board>)
    requires
        board.valid(),
    ensures
        r == play_from(board, views(ws@), 0),
        r matches Some(b) ==> b.valid(),
{
    let ghost target = play_from(board, views(ws@), 0);
    let mut b = board;
    let mut i: usize = 0;
    while i < ws.len()
        invariant
            i <= ws@.len(),
            b.valid(),
            play_from(b, views(ws@), i as int) == target,
            target == play_from(board, views(ws@), 0),
        decreases ws@.len() - i,
    {
        if !(b.half_move_clock < u32::MAX && b.full_move_number < u32::MAX) {
            return None;
        }
        proof {
            assert(views(ws@)[i as int] == ws@[i as int]@);
        }
        match parse_move(&b, &ws[i]) {
            None => {
                return None;
            },
            Some(mv) => {
                let ghost before = b;
                b.make_move(mv);
                proof {
                    lemma_legal_step(before, mv, b);
                    lemma_made_unique(before, mv, b, board_after(before, mv));
                }
            },
        }
        i = i + 1;
    }
    Some(b)
}

pub fn parse_position(line: &str) -> (r: Option<Board>)
    ensures
        r == spec_parse_position(line@),
        r matches Some(b) ==> b.valid(),
{
    let chars = str_chars(line);
    let rest = match strip_prefix(&chars, "position ") {
        Some(r) => r,
        None => {
            return None;
        },
    };
    match strip_prefix(&rest, "startpos") {
        Some(r) => {
            let t = trim_start_chars(&r);
            let moves = match strip_prefix(&t, "moves") {
                Some(m) => m,
                None => Vec::new(),
            };
            let ws = split_words(&moves);
            play_moves(Board::starting_position(), &ws)
        },
        None => match strip_prefix(&rest, "fen ") {
            None => None,
            Some(r) => {
                proof {
                    reveal_strlit(" moves ");
                }
                let rl = r.len();
                let (fen_part, moves_part) = match find_chars(&r, " moves ") {
                    Some(i) => {
                        assert(i + 7 <= rl);
                        (sub_chars(&r, 0, i), sub_chars(&r, i + 7, rl))
                    },
                    None => (r, Vec::new()),
                };
                let fen_t = string_from_chars(trim_chars(&fen_part));
                let b = match Board::from_fen(fen_t.as_str()) {
                    Ok(b) => b,
                    Err(_) => {
                        return None;
                    },
                };
                proof {
                    lemma_board_of(b);
                }
                if !b.is_valid() {
                    return None;
                }
                let ws = split_words(&moves_part);
                play_moves(b, &ws)
            },
        },
    }
}

// ── Go command: time budget ───────────────────────────────────────────────────

/// The parameters of a `go` command.
#[derive(Clone, Copy, Debug, PartialEq, Eq, Structural)]
pub struct GoParams {
    pub wtime: Option<u64>,
    pub btime: Option<u64>,
    pub winc: u64,
    pub binc: u64,
    pub movetime: Option<u64>,
    pub depth: Option<u32>,
    pub infinite: bool,
}

/// The number in word `j` of `t`, if there is such a word and it is one.
pub open spec fn word_u64(t: Seq<Seq<char>>, j: int) -> Option<u64> {
    if 0 <= j < t.len() {
        spec_parse_u64(t[j])
    } else {
        None
    }
}

pub open spec fn word_u32(t: Seq<Seq<char>>, j: int) -> Option<u32> {
    if 0 <= j < t.len() {
        spec_parse_u32(t[j])
    } else {
        None
    }
}

pub open spec fn or_zero(v: Option<u64>) -> u64 {
    match v {
        Some(x) => x,
        None => 0,
    }
}

/// The parameters read from the words `t[i..]`, starting from `p`: each keyword
/// takes the number in the word after it, `infinite` stands alone, and any other
/// word is skipped.
pub open spec fn go_from(t: Seq<Seq<char>>, i: int, p: GoParams) -> GoParams
    decreases t.len() + 1 - i,
{
    if i < 0 || i >= t.len() {
        p
    } else if t[i] == "wtime"@ {
        go_from(t, i + 2, GoParams { wtime: word_u64(t, i + 1), ..p })
    } else if t[i] == "btime"@ {
        go_from(t, i + 2, GoParams { btime: word_u64(t, i + 1), ..p })
    } else if t[i] == "winc"@ {
        go_from(t, i + 2, GoParams { winc: or_zero(word_u64(t, i + 1)), ..p })
    } else if t[i] == "binc"@ {
        go_from(t, i + 2, GoParams { binc: or_zero(word_u64(t, i + 1)), ..p })
    } else if t[i] == "movetime"@ {
        go_from(t, i + 2, GoParams { movetime: word_u64(t, i + 1), ..p })
    } else if t[i] == "depth"@ {
        go_from(t, i + 2, GoParams { depth: word_u32(t, i + 1), ..p })
    } else if t[i] == "infinite"@ {
        go_from(t, i + 1, GoParams { infinite: true, ..p })
    } else {
        go_from(t, i + 1, p)
    }
}

/// No limit given.
pub open spec fn no_go_params() -> GoParams {
    GoParams { wtime: None, btime: None, winc: 0, binc: 0, movetime: None, depth: None, infinite: false }
}

/// The parameters of the `go` line `line` (its first word is the command itself).
pub open spec fn spec_parse_go(line: Seq<char>) -> GoParams {
    go_from(words(line), 1, no_go_params())
}

fn word_u64_at(t: &Vec<Vec<char>>, j: usize) -> (r: Option<u64>)
    ensures
        r == word_u64(views(t@), j as int),
{
    if j < t.len() {
        proof {
            assert(views(t@)[j as int] == t@[j as int]@);
        }
        parse_u64(&t[j])
    } else {
        None
    }
}

fn word_u32_at(t: &Vec<Vec<char>>, j: usize) -> (r: Option<u32>)
    ensures
        r == word_u32(views(t@), j as int),
{
    if j < t.len() {
        proof {
            assert(views(t@)[j as int] == t@[j as int]@);
        }
        parse_u32(&t[j])
    } else {
        None
    }
}

/// The index two words on, stopping at the end `n`.
fn skip_two(i: usize, n: usize) -> (j: usize)
    requires
        i < n,
    ensures
        j == (if i + 2 <= n { i + 2 } else { n as int }),
{
    if n - i < 2 {
        n
    } else {
        i + 2
    }
}

pub fn parse_go(line: &str) -> (p: GoParams)
    ensures
        p == spec_parse_go(line@),
{
    let chars = str_chars(line);
    let tokens = split_words(&chars);
    let ghost t = views(tokens@);
    let mut p = GoParams { wtime: None, btime: None, winc: 0, binc: 0, movetime: None, depth: None, infinite: false };
    let mut i: usize = 1;
    while i < tokens.len()
        invariant
            t == views(tokens@),
            t == words(line@),
            1 <= i,
            go_from(t, i as int, p) == spec_parse_go(line@),
        decreases tokens@.len() - i,
    {
        let w = &tokens[i];
        let ghost i0 = i as int;
        proof {
            assert(t[i as int] == w@);
        }
        if chars_eq_str(w, "wtime") {
            p.wtime = word_u64_at(&tokens, i + 1);
            i = skip_two(i, tokens.len());
        } else if chars_eq_str(w, "btime") {
            p.btime = word_u64_at(&tokens, i + 1);
            i = skip_two(i, tokens.len());
        } else if chars_eq_str(w, "winc") {
            p.winc = match word_u64_at(&tokens, i + 1) {
                Some(x) => x,
                None => 0,
            };
            i = skip_two(i, tokens.len());
        } else if chars_eq_str(w, "binc") {
            p.binc = match word_u64_at(&tokens, i + 1) {
                Some(x) => x,
                None => 0,
            };
            i = skip_two(i, tokens.len());
        } else if chars_eq_str(w, "movetime") {
            p.movetime = word_u64_at(&tokens, i + 1);
            i = skip_two(i, tokens.len());
        } else if chars_eq_str(w, "depth") {
            p.depth = word_u32_at(&tokens, i + 1);
            i = skip_two(i, tokens.len());
        } else if chars_eq_str(w, "infinite") {
            p.infinite = true;
            i = i + 1;
        } else {
            i = i + 1;
        }
        proof {
            if i as int >= t.len() {
                lemma_go_past(t, i0 + 2, p);
                if i0 + 1 >= t.len() {
                    lemma_go_past(t, i0 + 1, p);
                }
                lemma_go_past(t, i as int, p);
            }
        }
    }
    p
}

proof fn lemma_go_past(t: Seq<Seq<char>>, j: int, p: GoParams)
    requires
        j >= t.len(),
    ensures
        go_from(t, j, p) == p,
{
}

/// `a - b`, or 0 when `b` is larger.
pub open spec fn sat_sub(a: int, b: int) -> int {
    if a >= b {
        a - b
    } else {
        0
    }
}

/// Milliseconds to search and the depth limit for a `go` command, for the side
/// `side` with `overhead` milliseconds lost per move: an hour at the given depth
/// for `infinite` or `depth`; the move time less the overhead (at least 1 ms);
/// else a thirtieth of the clock plus half the increment, less the overhead, at
/// least 1 ms and at most the clock less the overhead and 10 ms more.
pub open spec fn spec_budget(go: GoParams, white: bool, overhead: u64) -> (u64, u32) {
    if go.infinite {
        (3_600_000u64, MAX_SEARCH_DEPTH)
    } else if go.depth is Some {
        (3_600_000u64, go.depth->0)
    } else if go.movetime is Some {
        let b = sat_sub(go.movetime->0 as int, overhead as int);
        ((if b < 1 { 1 } else { b }) as u64, MAX_SEARCH_DEPTH)
    } else {
        let time: int = if white {
            match go.wtime {
                Some(t) => t as int,
                None => 30_000,
            }
        } else {
            match go.btime {
                Some(t) => t as int,
                None => 30_000,
            }
        };
        let inc: int = if white { go.winc as int } else { go.binc as int };
        let a = sat_sub(time / 30 + inc / 2, overhead as int);
        let a1 = if a < 1 { 1 } else { a };
        let margin = if overhead as int + 10 > u64::MAX { u64::MAX as int } else { overhead as int + 10 };
        let cap = sat_sub(time, margin);
        ((if a1 < cap { a1 } else { cap }) as u64, MAX_SEARCH_DEPTH)
    }
}

/// Returns (milliseconds to search, max_depth).
pub fn compute_deadline(go: &GoParams, side: Color, overhead_ms: u64) -> (r: (u64, u32))
    ensures
        r == spec_budget(*go, side == Color::White, overhead_ms),
{
    if go.infinite {
        return (3_600_000, MAX_SEARCH_DEPTH);
    }
    if let Some(d) = go.depth {
        return (3_600_000, d);
    }
    if let Some(ms) = go.movetime {
        let b = ms.saturating_sub(overhead_ms);
        return (if b < 1 { 1 } else { b }, MAX_SEARCH_DEPTH);
    }
    // Incremental time control.
    let (time_ms, inc_ms) = match side {
        Color::White => (
            match go.wtime {
                Some(t) => t,
                None => 30_000,
            },
            go.winc,
        ),
        Color::Black => (
            match go.btime {
                Some(t) => t,
                None => 30_000,
            },
            go.binc,
        ),
    };
    // Use ~1/30th of remaining time plus half the increment, minus overhead.
    let a = (time_ms / 30 + inc_ms / 2).saturating_sub(overhead_ms);
    let a1 = if a < 1 { 1 } else { a };
    let cap = time_ms.saturating_sub(overhead_ms.saturating_add(10));
    (if a1 < cap { a1 } else { cap }, MAX_SEARCH_DEPTH)
}

// ── Answering the protocol ────────────────────────────────────────────────────

/// The commands the engine understands.
#[derive(Clone, Copy, Debug, PartialEq, Eq, Structural)]
pub enum UciCommand {
    Uci,
    IsReady,
    NewGame,
    Quit,
    Stop,
    SetOption,
    Position,
    Go,
    Other,
}

/// The command of a trimmed line: one of the exact words, or a line starting
/// with `setoption`, `position` or `go`.
pub open spec fn command_of(t: Seq<char>) -> UciCommand {
    if t == "uci"@ {
        UciCommand::Uci
    } else if t == "isready"@ {
        UciCommand::IsReady
    } else if t == "ucinewgame"@ {
        UciCommand::NewGame
    } else if t == "quit"@ {
        UciCommand::Quit
    } else if t == "stop"@ {
        UciCommand::Stop
    } else if strip(t, "setoption"@) is Some {
        UciCommand::SetOption
    } else if strip(t, "position"@) is Some {
        UciCommand::Position
    } else if strip(t, "go"@) is Some {
        UciCommand::Go
    } else {
        UciCommand::Other
    }
}

pub fn classify(t: &Vec<char>) -> (c: UciCommand)
    ensures
        c == command_of(t@),
{
    if chars_eq_str(t, "uci") {
        UciCommand::Uci
    } else if chars_eq_str(t, "isready") {
        UciCommand::IsReady
    } else if chars_eq_str(t, "ucinewgame") {
        UciCommand::NewGame
    } else if chars_eq_str(t, "quit") {
        UciCommand::Quit
    } else if chars_eq_str(t, "stop") {
        UciCommand::Stop
    } else if starts_with(t, "setoption") {
        UciCommand::SetOption
    } else if starts_with(t, "position") {
        UciCommand::Position
    } else if starts_with(t, "go") {
        UciCommand::Go
    } else {
        UciCommand::Other
    }
}

/// The lines answering `uci`.
pub open spec fn uci_banner() -> Seq<Seq<char>> {
    seq![
        "id name rchess"@,
        "id author augustin101"@,
        "option name Move Overhead type spin default 30 min 0 max 5000"@,
        "option name Hash type spin default 16 min 1 max 1024"@,
        "option name Threads type spin default 1 min 1 max 512"@,
        "option name MultiPV type spin default 1 min 1 max 500"@,
        "option name SyzygyPath type string default <empty>"@,
        "option name UCI_ShowWDL type check default false"@,
        "option name UCI_Chess960 type check default false"@,
        "uciok"@,
    ]
}

/// The move overhead a `setoption` line sets, if it names `Move Overhead` with a number.
pub open spec fn overhead_option(t: Seq<char>) -> Option<u64> {
    match strip(t, "setoption name "@) {
        None => None,
        Some(rest) => match strip(rest, "Move Overhead value "@) {
            None => None,
            Some(v) => spec_parse_u64(trim(v)),
        },
    }
}

/// The `bestmove` line for a chosen move, `0000` for none.
pub open spec fn bestmove_text(m: Option<Move>) -> Seq<char> {
    "bestmove "@ + match m {
        Some(m) => spec_uci_chars(m),
        None => "0000"@,
    }
}

/// `text` answers `go` on board `b`: a legal move, or `0000`, which is the only
/// answer when no move is legal.
pub open spec fn answers_go(b: Board, text: Seq<char>) -> bool {
    &&& (text == bestmove_text(None) || exists|m: Move| #[trigger] spec_legal(b, m) && text == bestmove_text(Some(m)))
    &&& (!has_legal_move(b) ==> text == bestmove_text(None))
}

/// What the engine answers to one line: the lines to print, and whether to stop.
pub struct UciReply {
    pub lines: Vec<String>,
    pub quit: bool,
}

/// The state kept between the lines of a UCI conversation.
pub struct UciSession {
    pub engine: AlphaBetaEngine,
    pub board: Board,
    pub move_overhead_ms: u64,
}

fn no_lines() -> (r: UciReply)
    ensures
        r.lines@.len() == 0,
        !r.quit,
{
    UciReply { lines: Vec::new(), quit: false }
}

fn one_line(s: String) -> (r: UciReply)
    ensures
        r.lines@.len() == 1,
        texts(r.lines@) == seq![s@],
        !r.quit,
{
    let mut lines: Vec<String> = Vec::new();
    lines.push(s);
    proof {
        assert(texts(lines@) =~= seq![s@]);
    }
    UciReply { lines, quit: false }
}

impl UciSession {
    pub open spec fn wf(&self) -> bool {
        &&& self.engine.ready()
        &&& self.board.valid()
    }

    pub fn new() -> (s: UciSession)
        ensures
            s.wf(),
            s.board == board_of(start_position()),
            s.move_overhead_ms == 30,
            s.engine.depth == MAX_SEARCH_DEPTH,
            s.engine.ctx.eval is Static,
    {
        UciSession {
            engine: AlphaBetaEngine::with_depth(MAX_SEARCH_DEPTH),
            board: Board::starting_position(),
            move_overhead_ms: 30,
        }
    }

    /// Answers one line of the protocol.
    pub fn respond(&mut self, line: &str) -> (r: UciReply)
        requires
            old(self).wf(),
        ensures
            final(self).wf(),
            r.quit == (command_of(trim(line@)) == UciCommand::Quit),
            match command_of(trim(line@)) {
                UciCommand::Uci => texts(r.lines@) == uci_banner() && *final(self) == *old(self),
                UciCommand::IsReady => texts(r.lines@) == seq!["readyok"@] && *final(self) == *old(self),
                UciCommand::NewGame => {
                    &&& r.lines@.len() == 0
                    &&& final(self).board == board_of(start_position())
                    &&& final(self).engine.depth == MAX_SEARCH_DEPTH
                    &&& final(self).engine.ctx.eval is Static
                    &&& final(self).move_overhead_ms == old(self).move_overhead_ms
                },
                UciCommand::SetOption => {
                    &&& r.lines@.len() == 0
                    &&& final(self).board == old(self).board
                    &&& final(self).engine == old(self).engine
                    &&& final(self).move_overhead_ms == (match overhead_option(trim(line@)) {
                        Some(v) => v,
                        None => old(self).move_overhead_ms,
                    })
                },
                UciCommand::Position => {
                    &&& r.lines@.len() == 0
                    &&& final(self).board == (match spec_parse_position(trim(line@)) {
                        Some(b) => b,
                        None => old(self).board,
                    })
                    &&& final(self).engine == old(self).engine
                    &&& final(self).move_overhead_ms == old(self).move_overhead_ms
                },
                UciCommand::Go => {
                    &&& r.lines@.len() == 1
                    &&& answers_go(old(self).board, texts(r.lines@)[0])
                    &&& (counters_fit(old(self).board, SEARCH_PLY_LIMIT as int) && generate_count(old(self).board) == 1
                        ==> texts(r.lines@)[0] != bestmove_text(None))
                    &&& (counters_fit(old(self).board, SEARCH_PLY_LIMIT as int) && generate_count(old(self).board) != 1
                        ==> ((texts(r.lines@)[0] == bestmove_text(None)) <==> final(self).engine.last_score is None))
                    &&& (counters_fit(old(self).board, SEARCH_PLY_LIMIT as int) && has_legal_move(old(self).board)
                        && !final(self).engine.ctx.stop_seen@ ==> texts(r.lines@)[0] != bestmove_text(None))
                    &&& (counters_fit(old(self).board, SEARCH_PLY_LIMIT as int) && generate_count(old(self).board) != 1
                        && texts(r.lines@)[0] != bestmove_text(None) ==> exists|m: Move| #[trigger] bestmove_text(Some(m))
                        == texts(r.lines@)[0] && (final(self).engine.last_score matches Some(s) && first_best_of(
                        final(self).engine.last_search@, m, s)))
                    &&& final(self).board == old(self).board
                    &&& final(self).move_overhead_ms == old(self).move_overhead_ms
                },
                _ => r.lines@.len() == 0 && *final(self) == *old(self),
            },
    {
        let chars = str_chars(line);
        let t = trim_chars(&chars);
        match classify(&t) {
            UciCommand::Uci => {
                let mut lines: Vec<String> = Vec::new();
                lines.push(string_of("id name rchess"));
                lines.push(string_of("id author augustin101"));
                lines.push(string_of("option name Move Overhead type spin default 30 min 0 max 5000"));
                lines.push(string_of("option name Hash type spin default 16 min 1 max 1024"));
                lines.push(string_of("option name Threads type spin default 1 min 1 max 512"));
                lines.push(string_of("option name MultiPV type spin default 1 min 1 max 500"));
                lines.push(string_of("option name SyzygyPath type string default <empty>"));
                lines.push(string_of("option name UCI_ShowWDL type check default false"));
                lines.push(string_of("option name UCI_Chess960 type check default false"));
                lines.push(string_of("uciok"));
                proof {
                    assert(texts(lines@) =~= uci_banner());
                }
                UciReply { lines, quit: false }
            },
            UciCommand::IsReady => one_line(string_of("readyok")),
            UciCommand::NewGame => {
                self.engine = AlphaBetaEngine::with_depth(MAX_SEARCH_DEPTH);
                self.board = Board::starting_position();
                no_lines()
            },
            UciCommand::Quit => UciReply { lines: Vec::new(), quit: true },
            UciCommand::Stop => no_lines(),
            UciCommand::SetOption => {
                // setoption name <Name> value <Value>
                match strip_prefix(&t, "setoption name ") {
                    Some(rest) => match strip_prefix(&rest, "Move Overhead value ") {
                        Some(v) => match parse_u64(&trim_chars(&v)) {
                            Some(x) => {
                                self.move_overhead_ms = x;
                            },
                            None => {},
                        },
                        None => {},
                    },
                    None => {},
                }
                // Hash option: ignored for now (TT size is fixed)
                no_lines()
            },
            UciCommand::Position => {
                let ts = string_from_chars(t);
                match parse_position(ts.as_str()) {
                    Some(b) => {
                        self.board = b;
                    },
                    None => {},
                }
                no_lines()
            },
            UciCommand::Go => {
                let ts = string_from_chars(t);
                let mv = self.go(ts.as_str());
                let mut v: Vec<char> = Vec::new();
                push_str(&mut v, "bestmove ");
                match mv {
                    Some(m) => {
                        let u = m.to_uci_chars();
                        let mut k: usize = 0;
                        while k < u.len()
                            invariant
                                k <= u@.len(),
                                v@ == "bestmove "@ + u@.subrange(0, k as int),
                            decreases u@.len() - k,
                        {
                            v.push(u[k]);
                            k = k + 1;
                            proof {
                                assert(v@ =~= "bestmove "@ + u@.subrange(0, k as int));
                            }
                        }
                        proof {
                            assert(u@.subrange(0, u@.len() as int) =~= u@);
                        }
                    },
                    None => {
                        push_str(&mut v, "0000");
                    },
                }
                proof {
                    assert(Seq::<char>::empty() + "bestmove "@ =~= "bestmove "@);
                    assert(v@ == bestmove_text(mv));
                    if let Some(m) = mv {
                        reveal_strlit("bestmove ");
                        reveal_strlit("0000");
                        lemma_move_decode(m);
                        assert(bestmove_text(mv)[9] == spec_uci_chars(m)[0]);
                        assert(bestmove_text(None)[9] == '0');
                        assert(bestmove_text(mv) != bestmove_text(None));
                    }
                }
                one_line(string_from_chars(v))
            },
            UciCommand::Other => no_lines(),
        }
    }

    /// Chooses the answer to a `go` line on the current board.
    fn go(&mut self, line: &str) -> (r: Option<Move>)
        requires
            old(self).wf(),
        ensures
            final(self).wf(),
            final(self).board == old(self).board,
            final(self).move_overhead_ms == old(self).move_overhead_ms,
            r matches Some(m) ==> spec_legal(old(self).board, m),
            !has_legal_move(old(self).board) ==> r is None,
            counters_fit(old(self).board, SEARCH_PLY_LIMIT as int) && generate_count(old(self).board) == 1 ==> r is Some,
            counters_fit(old(self).board, SEARCH_PLY_LIMIT as int) && generate_count(old(self).board) != 1 ==> (r is Some
                <==> final(self).engine.last_score is Some),
            counters_fit(old(self).board, SEARCH_PLY_LIMIT as int) && has_legal_move(old(self).board)
                && !final(self).engine.ctx.stop_seen@ ==> r is Some,
            counters_fit(old(self).board, SEARCH_PLY_LIMIT as int) && generate_count(old(self).board) != 1 ==> (r matches Some(
                m) ==> (final(self).engine.last_score matches Some(s) && first_best_of(final(self).engine.last_search@, m, s))),
    {
        if !(self.board.half_move_clock <= u32::MAX - 126 && self.board.full_move_number <= u32::MAX - 126) {
            return None;
        }
        let legal = generate_legal(&self.board);
        proof {
            lemma_moves_counted(self.board, legal@);
        }
        if legal.len() == 1 {
            let m = legal.get(0);
            assert(legal@.contains(m));
            return Some(m);
        }
        let go = parse_go(line);
        let (budget, max_depth) = compute_deadline(&go, self.board.side_to_move, self.move_overhead_ms);
        self.engine.set_depth(max_depth);
        let no_history: Vec<u64> = Vec::new();
        let board = self.board;
        self.engine.choose_move_timed(&board, TimeManager::from_movetime(budget), no_history.as_slice())
    }
}

} // verus!
