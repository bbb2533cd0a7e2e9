//! Standard Algebraic Notation of moves.
use vstd::prelude::*;
use super::board::{Board, made, spec_in_check};
use super::movegen::{generate_legal, spec_legal, has_legal_move};
use super::moves::{Move, MoveFlag, PromoKind};
use super::perft::{counters_fit, lemma_legal_step};
use super::types::{PieceType, Square, file_char, rank_char, spec_file_char, spec_rank_char, spec_upper_char};
use crate::text::push_str;
use crate::utils::string_from_chars;

verus! {

/// Suffix of a move that leads to `after`: `#` for mate, `+` for check, else nothing.
pub open spec fn spec_check_suffix(after: Board) -> Seq<char> {
    if !spec_in_check(after) {
        seq![]
    } else if !has_legal_move(after) {
        seq!['#']
    } else {
        seq!['+']
    }
}

/// The board that `mv` produces from `b`.
pub open spec fn board_after(b: Board, mv: Move) -> Board {
    choose|a: Board| made(b, mv, a)
}

/// Name and rank letters of a square.
pub open spec fn square_text(s: Square) -> Seq<char> {
    seq![spec_file_char(s.spec_file()), spec_rank_char(s.spec_rank())]
}

pub open spec fn spec_promo_char(p: PromoKind) -> char {
    match p {
        PromoKind::Knight => 'N',
        PromoKind::Bishop => 'B',
        PromoKind::Rook => 'R',
        PromoKind::Queen => 'Q',
    }
}

/// Another legal move of a piece of the same type to the same square.
pub open spec fn rival(b: Board, mv: Move, m: Move) -> bool {
    &&& spec_legal(b, m)
    &&& m != mv
    &&& m.spec_flag() != MoveFlag::Castling
    &&& m.spec_to() == mv.spec_to()
    &&& b.mailbox[m.spec_from().0 as int] is Some
    &&& b.mailbox[m.spec_from().0 as int].unwrap().piece_type == b.mailbox[mv.spec_from().0 as int].unwrap().piece_type
}

/// Disambiguation: nothing without a rival; the file if no rival shares it; else
/// the rank if no rival shares that; else both.
pub open spec fn disambiguation(b: Board, mv: Move) -> Seq<char> {
    let from = mv.spec_from();
    let any = exists|m: Move| #[trigger] rival(b, mv, m);
    let same_file = exists|m: Move| #[trigger] rival(b, mv, m) && m.spec_from().spec_file() == from.spec_file();
    let same_rank = exists|m: Move| #[trigger] rival(b, mv, m) && m.spec_from().spec_rank() == from.spec_rank();
    if !any {
        seq![]
    } else if !same_file {
        seq![spec_file_char(from.spec_file())]
    } else if !same_rank {
        seq![spec_rank_char(from.spec_rank())]
    } else {
        square_text(from)
    }
}

/// SAN of a legal move `mv` of `b`.
pub open spec fn spec_san(b: Board, mv: Move) -> Seq<char> {
    let from = mv.spec_from();
    let to = mv.spec_to();
    let suffix = spec_check_suffix(board_after(b, mv));
    if mv.spec_flag() == MoveFlag::Castling {
        (if to.spec_file() > from.spec_file() { "O-O"@ } else { "O-O-O"@ }) + suffix
    } else {
        let piece = b.mailbox[from.0 as int].unwrap();
        let capture = b.mailbox[to.0 as int] is Some || mv.spec_flag() == MoveFlag::EnPassant;
        let body = if piece.piece_type == PieceType::Pawn {
            (if capture { seq![spec_file_char(from.spec_file()), 'x'] } else { seq![] }) + square_text(to) + (
            if mv.spec_flag() == MoveFlag::Promo {
                seq!['=', spec_promo_char(mv.spec_promo())]
            } else {
                seq![]
            })
        } else {
            seq![spec_upper_char(piece.piece_type)] + disambiguation(b, mv) + (if capture {
                seq!['x']
            } else {
                seq![]
            }) + square_text(to)
        };
        body + suffix
    }
}

/// A capture is marked: when `mv` takes a piece (its destination is occupied, or
/// it takes en passant), its SAN has `x` immediately before the destination
/// square's file letter and rank digit.
pub proof fn lemma_capture_marked(b: Board, mv: Move)
    requires
        spec_legal(b, mv),
        mv.spec_flag() != MoveFlag::Castling,
        b.mailbox[mv.spec_to().0 as int] is Some || mv.spec_flag() == MoveFlag::EnPassant,
    ensures
        exists|i: int| {
            &&& 0 <= i
            &&& i + 2 < spec_san(b, mv).len()
            &&& #[trigger] spec_san(b, mv)[i] == 'x'
            &&& spec_san(b, mv)[i + 1] == spec_file_char(mv.spec_to().spec_file())
            &&& spec_san(b, mv)[i + 2] == spec_rank_char(mv.spec_to().spec_rank())
        },
{
    let from = mv.spec_from();
    let to = mv.spec_to();
    let suffix = spec_check_suffix(board_after(b, mv));
    let piece = b.mailbox[from.0 as int].unwrap();
    let san = spec_san(b, mv);
    if piece.piece_type == PieceType::Pawn {
        let promo = if mv.spec_flag() == MoveFlag::Promo {
            seq!['=', spec_promo_char(mv.spec_promo())]
        } else {
            seq![]
        };
        assert(san == seq![spec_file_char(from.spec_file()), 'x'] + square_text(to) + promo + suffix);
        assert(san[1] == 'x');
        assert(san[2] == spec_file_char(to.spec_file()));
        assert(san[3] == spec_rank_char(to.spec_rank()));
    } else {
        let d = disambiguation(b, mv);
        assert(san == seq![spec_upper_char(piece.piece_type)] + d + seq!['x'] + square_text(to) + suffix);
        let i: int = d.len() as int + 1;
        assert(san[i] == 'x');
        assert(san[i + 1] == spec_file_char(to.spec_file()));
        assert(san[i + 2] == spec_rank_char(to.spec_rank()));
    }
}

/// `t` has no capture mark.
pub open spec fn unmarked(t: Seq<char>) -> bool {
    forall|k: int| 0 <= k < t.len() ==> #[trigger] t[k] != 'x'
}

proof fn lemma_unmarked_concat(a: Seq<char>, b: Seq<char>)
    requires
        unmarked(a),
        unmarked(b),
    ensures
        unmarked(a + b),
{
    assert forall|k: int| 0 <= k < (a + b).len() implies #[trigger] (a + b)[k] != 'x' by {
        if k < a.len() {
            assert((a + b)[k] == a[k]);
        } else {
            assert((a + b)[k] == b[k - a.len()]);
        }
    }
}

proof fn lemma_square_unmarked(s: Square)
    ensures
        unmarked(square_text(s)),
        unmarked(seq![spec_file_char(s.spec_file())]),
        unmarked(seq![spec_rank_char(s.spec_rank())]),
{
    assert(0 <= s.spec_file() < 8);
    assert(0 <= s.spec_rank() < 32);
}

/// Only a capture is marked: the SAN of a legal move that takes nothing has no `x`.
pub proof fn lemma_quiet_unmarked(b: Board, mv: Move)
    requires
        spec_legal(b, mv),
        b.mailbox[mv.spec_to().0 as int] is None,
        mv.spec_flag() != MoveFlag::EnPassant,
    ensures
        unmarked(spec_san(b, mv)),
{
    let from = mv.spec_from();
    let to = mv.spec_to();
    let suffix = spec_check_suffix(board_after(b, mv));
    assert(unmarked(suffix));
    if mv.spec_flag() == MoveFlag::Castling {
        reveal_strlit("O-O");
        reveal_strlit("O-O-O");
        let head = if to.spec_file() > from.spec_file() { "O-O"@ } else { "O-O-O"@ };
        assert(unmarked(head));
        lemma_unmarked_concat(head, suffix);
    } else {
        let piece = b.mailbox[from.0 as int].unwrap();
        lemma_square_unmarked(to);
        lemma_square_unmarked(from);
        if piece.piece_type == PieceType::Pawn {
            let promo = if mv.spec_flag() == MoveFlag::Promo {
                seq!['=', spec_promo_char(mv.spec_promo())]
            } else {
                seq![]
            };
            assert(unmarked(promo));
            assert(seq![] + square_text(to) =~= square_text(to));
            lemma_unmarked_concat(square_text(to), promo);
            lemma_unmarked_concat(square_text(to) + promo, suffix);
            assert(spec_san(b, mv) =~= square_text(to) + promo + suffix);
        } else {
            let d = disambiguation(b, mv);
            assert(unmarked(d));
            let head = seq![spec_upper_char(piece.piece_type)];
            assert(unmarked(head));
            lemma_unmarked_concat(head, d);
            lemma_unmarked_concat(head + d, square_text(to));
            lemma_unmarked_concat(head + d + square_text(to), suffix);
            assert(spec_san(b, mv) =~= head + d + square_text(to) + suffix);
        }
    }
}

fn check_suffix(board: &Board) -> (s: &'static str)
    requires
        board.valid(),
        board.half_move_clock < u32::MAX,
        board.full_move_number < u32::MAX,
    ensures
        s@ == spec_check_suffix(*board),
{
    proof {
        reveal_strlit("");
        reveal_strlit("#");
        reveal_strlit("+");
    }
    if !board.is_in_check() {
        return "";
    }
    let legal = generate_legal(board);
    if legal.is_empty() {
        proof {
            assert forall|m: Move| !spec_legal(*board, m) by {
                if spec_legal(*board, m) {
                    assert(legal@.contains(m));
                }
            }
        }
        "#"
    } else {
        proof {
            assert(legal@.contains(legal@[0]));
        }
        "+"
    }
}

fn piece_char(pt: PieceType) -> (c: char)
    requires
        pt != PieceType::Pawn,
    ensures
        c == spec_upper_char(pt),
{
    match pt {
        PieceType::Knight => 'N',
        PieceType::Bishop => 'B',
        PieceType::Rook => 'R',
        PieceType::Queen => 'Q',
        _ => 'K',
    }
}

fn promo_char(pk: PromoKind) -> (c: char)
    ensures
        c == spec_promo_char(pk),
{
    match pk {
        PromoKind::Knight => 'N',
        PromoKind::Bishop => 'B',
        PromoKind::Rook => 'R',
        PromoKind::Queen => 'Q',
    }
}

/// Convert a move to Standard Algebraic Notation.
/// `board` must be the position **before** the move is applied.
pub fn move_to_san(board: &Board, mv: Move) -> (s: String)
    requires
        board.valid(),
        spec_legal(*board, mv),
        counters_fit(*board, 2),
    ensures
        s@ == spec_san(*board, mv),
{
    let from = mv.from_sq();
    let to = mv.to_sq();
    let mut b2 = *board;
    b2.make_move(mv);
    proof {
        lemma_legal_step(*board, mv, b2);
        assert(made(*board, mv, board_after(*board, mv)));
        super::board::lemma_made_unique(*board, mv, b2, board_after(*board, mv));
    }
    let suffix = check_suffix(&b2);
    let mut v: Vec<char> = Vec::new();
    // ── Castling ──────────────────────────────────────────────────────────────
    if mv.is_castling() {
        if to.file() > from.file() {
            push_str(&mut v, "O-O");
        } else {
            push_str(&mut v, "O-O-O");
        }
        push_str(&mut v, suffix);
        proof {
            assert(v@ =~= spec_san(*board, mv));
        }
        return string_from_chars(v);
    }
    let piece = board.piece_at(from).unwrap();
    let is_capture = board.piece_at(to).is_some() || mv.is_en_passant();
    match piece.piece_type {
        // ── Pawn ──────────────────────────────────────────────────────────────
        PieceType::Pawn => {
            if is_capture {
                v.push(file_char(from.file()));
                v.push('x');
            }
            v.push(file_char(to.file()));
            v.push(rank_char(to.rank()));
            if mv.is_promo() {
                v.push('=');
                v.push(promo_char(mv.promo_kind()));
            }
        },
        // ── Pieces ────────────────────────────────────────────────────────────
        pt => {
            v.push(piece_char(pt));
            // Disambiguation: other pieces of the same type that can also
            // reach `to` legally.
            let legal = generate_legal(board);
            let mut any = false;
            let mut same_file = false;
            let mut same_rank = false;
            let mut i: usize = 0;
            while i < legal.len()
                invariant
                    i <= legal@.len(),
                    board.valid(),
                    pt == board.mailbox[mv.spec_from().0 as int].unwrap().piece_type,
                    from == mv.spec_from(),
                    to == mv.spec_to(),
                    forall|m: Move| #[trigger] legal@.contains(m) <==> spec_legal(*board, m),
                    any == (exists|k: int| 0 <= k < i && #[trigger] rival(*board, mv, legal@[k])),
                    same_file == (exists|k: int| 0 <= k < i && #[trigger] rival(*board, mv, legal@[k])
                        && legal@[k].spec_from().spec_file() == from.spec_file()),
                    same_rank == (exists|k: int| 0 <= k < i && #[trigger] rival(*board, mv, legal@[k])
                        && legal@[k].spec_from().spec_rank() == from.spec_rank()),
                decreases legal@.len() - i,
            {
                let m = legal.get(i);
                let mf = m.from_sq();
                let same_type = match board.piece_at(mf) {
                    Some(p) => p.piece_type == pt,
                    None => false,
                };
                proof {
                    assert(legal@.contains(m));
                }
                if m != mv && !m.is_castling() && m.to_sq() == to && same_type {
                    proof {
                        assert(rival(*board, mv, m));
                    }
                    any = true;
                    if mf.file() == from.file() {
                        same_file = true;
                    }
                    if mf.rank() == from.rank() {
                        same_rank = true;
                    }
                } else {
                    proof {
                        assert(!rival(*board, mv, m));
                    }
                }
                i = i + 1;
            }
            proof {
                let any_s = exists|m: Move| #[trigger] rival(*board, mv, m);
                assert(any == any_s) by {
                    if any_s {
                        let m = choose|m: Move| #[trigger] rival(*board, mv, m);
                        assert(legal@.contains(m));
                        let k = choose|k: int| 0 <= k < legal@.len() && legal@[k] == m;
                        assert(rival(*board, mv, legal@[k]));
                    }
                }
                let sf = exists|m: Move| #[trigger] rival(*board, mv, m) && m.spec_from().spec_file() == from.spec_file();
                assert(same_file == sf) by {
                    if sf {
                        let m = choose|m: Move| #[trigger] rival(*board, mv, m) && m.spec_from().spec_file() == from.spec_file();
                        assert(legal@.contains(m));
                        let k = choose|k: int| 0 <= k < legal@.len() && legal@[k] == m;
                        assert(rival(*board, mv, legal@[k]));
                    }
                }
                let sr = exists|m: Move| #[trigger] rival(*board, mv, m) && m.spec_from().spec_rank() == from.spec_rank();
                assert(same_rank == sr) by {
                    if sr {
                        let m = choose|m: Move| #[trigger] rival(*board, mv, m) && m.spec_from().spec_rank() == from.spec_rank();
                        assert(legal@.contains(m));
                        let k = choose|k: int| 0 <= k < legal@.len() && legal@[k] == m;
                        assert(rival(*board, mv, legal@[k]));
                    }
                }
            }
            if any {
                if !same_file {
                    v.push(file_char(from.file()));
                } else if !same_rank {
                    v.push(rank_char(from.rank()));
                } else {
                    v.push(file_char(from.file()));
                    v.push(rank_char(from.rank()));
                }
            }
            if is_capture {
                v.push('x');
            }
            v.push(file_char(to.file()));
            v.push(rank_char(to.rank()));
        },
    }
    // ── Check / checkmate suffix ──────────────────────────────────────────────
    push_str(&mut v, suffix);
    proof {
        assert(v@ =~= spec_san(*board, mv));
    }
    string_from_chars(v)
}

} // verus!
