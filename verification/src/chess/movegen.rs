use vstd::prelude::*;
use super::attacks::{bishop_attacks, king_attacks, knight_attacks, pawn_attacks, queen_attacks, rook_attacks,
    spec_pawn_attack, spec_knight_attack, spec_king_attack, spec_bishop_attack, spec_rook_attack, sq_file, sq_rank};
use super::bitboard::{bb_has, lsb, pop_lsb, north, south, north_east, north_west, south_east, south_west,
    lemma_bits_all, lemma_rank_masks, lemma_and_nonzero, spec_lsb, lemma_zero_all, RANK_1, RANK_3, RANK_6, RANK_8};
use super::board::{Board, holds, holds_color, spec_attacked, make_pre, reversible, made, castling_mask, spec_lsb_king,
    spec_make_mailbox, spec_make_ep, ep_capture_square, lemma_made_unique, spec_castling_rook, valid_castle_dest};
use super::moves::{Move, MoveFlag, MoveList, PromoKind, lemma_move_decode, lemma_move_roundtrip};
use super::types::{Color, Piece, PieceType, Square};

verus! {

// ── Pseudo-legal moves ────────────────────────────────────────────────────────

pub open spec fn pawn_step(us: Color) -> int {
    if us == Color::White {
        8
    } else {
        -8
    }
}

pub open spec fn promo_rank(us: Color) -> int {
    if us == Color::White {
        7
    } else {
        0
    }
}

pub open spec fn start_rank(us: Color) -> int {
    if us == Color::White {
        1
    } else {
        6
    }
}

/// Single pawn push onto an empty square.
pub open spec fn spec_pawn_push(b: Board, from: int, to: int) -> bool {
    let us = b.side_to_move;
    &&& 0 <= from < 64
    &&& 0 <= to < 64
    &&& holds(b.mailbox@, from, us, PieceType::Pawn)
    &&& to == from + pawn_step(us)
    &&& b.mailbox[to] is None
}

/// Double pawn push from the starting rank across an empty square.
pub open spec fn spec_pawn_double(b: Board, from: int, to: int) -> bool {
    let us = b.side_to_move;
    &&& 0 <= from < 64
    &&& 0 <= to < 64
    &&& holds(b.mailbox@, from, us, PieceType::Pawn)
    &&& sq_rank(from) == start_rank(us)
    &&& to == from + 2 * pawn_step(us)
    &&& b.mailbox[from + pawn_step(us)] is None
    &&& b.mailbox[to] is None
}

/// Diagonal pawn capture of an enemy piece.
pub open spec fn spec_pawn_capture(b: Board, from: int, to: int) -> bool {
    let us = b.side_to_move;
    &&& 0 <= from < 64
    &&& 0 <= to < 64
    &&& holds(b.mailbox@, from, us, PieceType::Pawn)
    &&& spec_pawn_attack(us, from, to)
    &&& holds_color(b.mailbox@, to, us.opposite())
}

/// Squares a non-pawn piece on `from` reaches (sliders stop at the first piece).
pub open spec fn spec_reach(pt: PieceType, from: int, to: int, occ: u64) -> bool {
    match pt {
        PieceType::Pawn => false,
        PieceType::Knight => spec_knight_attack(from, to),
        PieceType::Bishop => spec_bishop_attack(from, occ, to),
        PieceType::Rook => spec_rook_attack(from, occ, to),
        PieceType::Queen => spec_bishop_attack(from, occ, to) || spec_rook_attack(from, occ, to),
        PieceType::King => spec_king_attack(from, to),
    }
}

/// A knight, bishop, rook, queen or king move to a square not held by its own side.
pub open spec fn spec_piece_move(b: Board, from: int, to: int) -> bool {
    let us = b.side_to_move;
    &&& 0 <= from < 64
    &&& 0 <= to < 64
    &&& b.mailbox[from] is Some
    &&& b.mailbox[from].unwrap().color == us
    &&& b.mailbox[from].unwrap().piece_type != PieceType::Pawn
    &&& (b.mailbox[from].unwrap().piece_type == PieceType::King ==> from == spec_lsb_king(b, us))
    &&& spec_reach(b.mailbox[from].unwrap().piece_type, from, to, b.all_occupancy)
    &&& !holds_color(b.mailbox@, to, us)
}

/// Castling: right held, squares between king and rook empty, king's path not attacked.
pub open spec fn spec_castle(b: Board, from: int, to: int) -> bool {
    let us = b.side_to_move;
    let them = us.opposite();
    let mb = b.mailbox@;
    let cr = b.castling_rights;
    ||| (us == Color::White && from == 4 && to == 6 && cr.spec_has(1) && mb[5] is None && mb[6] is None
        && !spec_attacked(b, 4, them) && !spec_attacked(b, 5, them) && !spec_attacked(b, 6, them))
    ||| (us == Color::White && from == 4 && to == 2 && cr.spec_has(2) && mb[1] is None && mb[2] is None && mb[3] is None
        && !spec_attacked(b, 4, them) && !spec_attacked(b, 3, them) && !spec_attacked(b, 2, them))
    ||| (us == Color::Black && from == 60 && to == 62 && cr.spec_has(4) && mb[61] is None && mb[62] is None
        && !spec_attacked(b, 60, them) && !spec_attacked(b, 61, them) && !spec_attacked(b, 62, them))
    ||| (us == Color::Black && from == 60 && to == 58 && cr.spec_has(8) && mb[57] is None && mb[58] is None && mb[59] is None
        && !spec_attacked(b, 60, them) && !spec_attacked(b, 59, them) && !spec_attacked(b, 58, them))
}

/// `m` is a pseudo-legal move of `b`: geometrically correct, but it may leave the
/// mover's king in check.
pub open spec fn spec_pseudo(b: Board, m: Move) -> bool {
    let us = b.side_to_move;
    let from = m.spec_from().0 as int;
    let to = m.spec_to().0 as int;
    match m.spec_flag() {
        MoveFlag::Normal => m.spec_promo() == PromoKind::Knight && (
            ((spec_pawn_push(b, from, to) || spec_pawn_capture(b, from, to)) && sq_rank(to) != promo_rank(us))
            || spec_pawn_double(b, from, to) || spec_piece_move(b, from, to)),
        MoveFlag::Promo => (spec_pawn_push(b, from, to) || spec_pawn_capture(b, from, to)) && sq_rank(to) == promo_rank(us),
        MoveFlag::EnPassant => m.spec_promo() == PromoKind::Knight && b.en_passant == Some(m.spec_to())
            && holds(b.mailbox@, from, us, PieceType::Pawn) && spec_pawn_attack(us, from, to),
        MoveFlag::Castling => m.spec_promo() == PromoKind::Knight && spec_castle(b, from, to),
    }
}

/// `new` is `old` followed by pseudo-legal moves of `b`.
pub open spec fn extends_pseudo(b: Board, old: Seq<Move>, new: Seq<Move>) -> bool {
    &&& new.len() >= old.len()
    &&& forall|i: int| 0 <= i < old.len() ==> new[i] == old[i]
    &&& forall|i: int| old.len() <= i < new.len() ==> spec_pseudo(b, #[trigger] new[i])
}

proof fn lemma_extends_trans(b: Board, s1: Seq<Move>, s2: Seq<Move>, s3: Seq<Move>)
    requires
        extends_pseudo(b, s1, s2),
        extends_pseudo(b, s2, s3),
    ensures
        extends_pseudo(b, s1, s3),
{
    assert forall|i: int| s1.len() <= i < s3.len() implies spec_pseudo(b, #[trigger] s3[i]) by {
        if i < s2.len() {
            assert(s3[i] == s2[i]);
        }
    }
}

/// What `extends_pseudo` keeps: every move already listed stays listed.
proof fn lemma_extends_contains(b: Board, l1: Seq<Move>, l2: Seq<Move>, m: Move)
    requires
        extends_pseudo(b, l1, l2),
        l1.contains(m),
    ensures
        l2.contains(m),
{
    let i = choose|i: int| 0 <= i < l1.len() && l1[i] == m;
    assert(l2[i] == m);
}

proof fn lemma_push_contains(l: Seq<Move>, x: Move, y: Move)
    ensures
        l.contains(y) ==> l.push(x).contains(y),
        l.push(x).contains(x),
{
    assert(l.push(x)[l.len() as int] == x);
    if l.contains(y) {
        let i = choose|i: int| 0 <= i < l.len() && l[i] == y;
        assert(l.push(x)[i] == y);
    }
}

/// The moves of `l` from index `lo` on are pairwise distinct.
pub open spec fn distinct_from(l: Seq<Move>, lo: int) -> bool {
    forall|i: int, j: int| lo <= i < j < l.len() ==> l[i] != l[j]
}

/// The moves `l[lo..hi]` are pairwise distinct.
pub open spec fn distinct_range(l: Seq<Move>, lo: int, hi: int) -> bool {
    forall|i: int, j: int| lo <= i < j < hi ==> l[i] != l[j]
}

/// A move of a pawn of the side to move, other than castling.
pub open spec fn pawn_seg_move(b: Board, m: Move) -> bool {
    &&& holds(b.mailbox@, m.spec_from().0 as int, b.side_to_move, PieceType::Pawn)
    &&& m.spec_flag() != MoveFlag::Castling
}

/// Distinctness of a range survives appending to the list.
proof fn lemma_distinct_keep(l1: Seq<Move>, l2: Seq<Move>, lo: int, hi: int)
    requires
        0 <= lo,
        hi <= l1.len() <= l2.len(),
        forall|i: int| 0 <= i < l1.len() ==> l2[i] == l1[i],
        distinct_range(l1, lo, hi),
    ensures
        distinct_range(l2, lo, hi),
{
    assert forall|i: int, j: int| lo <= i < j < hi implies l2[i] != l2[j] by {
        assert(l2[i] == l1[i]);
        assert(l2[j] == l1[j]);
    }
}

/// A pawn move of the pass whose targets are `targets`, each reached from `d`
/// squares back.
pub open spec fn pawn_pass_move(m: Move, d: int, targets: u64) -> bool {
    &&& m.spec_from().0 == m.spec_to().0 - d
    &&& bb_has(targets, m.spec_to().0 as u64)
    &&& (m.spec_flag() == MoveFlag::Normal || m.spec_flag() == MoveFlag::Promo)
}

/// The normal (non-special) move from square `f` to square `t`.
pub open spec fn normal_move(f: int, t: int) -> Move {
    Move::spec_new(Square(f as u8), Square(t as u8), MoveFlag::Normal, PromoKind::Knight)
}

/// A knight, bishop, rook, queen or king move of type `pt` from `f` to `t`.
pub open spec fn piece_move_of(b: Board, pt: PieceType, f: int, t: int) -> bool {
    &&& spec_piece_move(b, f, t)
    &&& b.mailbox[f].unwrap().piece_type == pt
}

/// The pawn move(s) from `f` to `t` are listed: the four promotions on the last
/// rank, the plain move elsewhere.
pub open spec fn pawn_moves_listed(l: Seq<Move>, f: int, t: int, us: Color) -> bool {
    if sq_rank(t) == promo_rank(us) {
        forall|k: PromoKind| l.contains(#[trigger] Move::spec_new(Square(f as u8), Square(t as u8), MoveFlag::Promo, k))
    } else {
        l.contains(normal_move(f, t))
    }
}

proof fn lemma_pawn_listed_extends(b: Board, l1: Seq<Move>, l2: Seq<Move>, f: int, t: int, us: Color)
    requires
        extends_pseudo(b, l1, l2),
        pawn_moves_listed(l1, f, t, us),
    ensures
        pawn_moves_listed(l2, f, t, us),
{
    if sq_rank(t) == promo_rank(us) {
        assert forall|k: PromoKind| l2.contains(#[trigger] Move::spec_new(Square(f as u8), Square(t as u8), MoveFlag::Promo, k)) by {
            lemma_extends_contains(b, l1, l2, Move::spec_new(Square(f as u8), Square(t as u8), MoveFlag::Promo, k));
        }
    } else {
        lemma_extends_contains(b, l1, l2, normal_move(f, t));
    }
}

// ── Public API ────────────────────────────────────────────────────────────────

/// All pseudo-legal moves for the side to move.
/// Pseudo-legal = geometrically correct but may leave own king in check.
pub fn generate_pseudo_legal(board: &Board) -> (list: MoveList)
    requires
        board.wf(),
    ensures
        forall|i: int| 0 <= i < list@.len() ==> spec_pseudo(*board, #[trigger] list@[i]),
        forall|m: Move| #[trigger] spec_pseudo(*board, m) ==> list@.contains(m),
        list@.no_duplicates(),
{
    let us = board.side_to_move;
    let mut list = MoveList::new();
    gen_pawn_moves(board, us, &mut list);
    let ghost l1 = list@;
    gen_piece_moves(board, us, &mut list, 1);
    let ghost l2 = list@;
    gen_piece_moves(board, us, &mut list, 2);
    let ghost l3 = list@;
    gen_piece_moves(board, us, &mut list, 3);
    let ghost l4 = list@;
    gen_piece_moves(board, us, &mut list, 4);
    let ghost l5 = list@;
    gen_king_moves(board, us, &mut list);
    let ghost l6 = list@;
    gen_castling(board, us, &mut list);
    proof {
        lemma_extends_trans(*board, Seq::empty(), l1, l2);
        lemma_extends_trans(*board, Seq::empty(), l2, l3);
        lemma_extends_trans(*board, Seq::empty(), l3, l4);
        lemma_extends_trans(*board, Seq::empty(), l4, l5);
        lemma_extends_trans(*board, Seq::empty(), l5, l6);
        lemma_extends_trans(*board, Seq::empty(), l6, list@);
        lemma_extends_trans(*board, l5, l6, list@);
        lemma_extends_trans(*board, l4, l5, list@);
        lemma_extends_trans(*board, l3, l4, list@);
        lemma_extends_trans(*board, l2, l3, list@);
        lemma_extends_trans(*board, l1, l2, list@);
        let fin = list@;
        assert forall|m: Move| #[trigger] spec_pseudo(*board, m) implies fin.contains(m) by {
            lemma_move_decode(m);
            let f = m.spec_from().0 as int;
            let t = m.spec_to().0 as int;
            assert(Square(f as u8) == m.spec_from());
            assert(Square(t as u8) == m.spec_to());
            match m.spec_flag() {
                MoveFlag::Normal => {
                    assert(m == normal_move(f, t));
                    if pawn_target_ok(*board, f, t) && !spec_piece_move(*board, f, t) {
                        assert(sq_rank(t) != promo_rank(us));
                        lemma_pawn_listed_extends(*board, l1, fin, f, t, us);
                    } else {
                        assert(spec_piece_move(*board, f, t));
                        let pt = board.mailbox[f].unwrap().piece_type;
                        assert(piece_move_of(*board, pt, f, t));
                        if pt == PieceType::Knight {
                            assert(piece_type_of(1) == pt);
                            lemma_extends_contains(*board, l2, fin, m);
                        } else if pt == PieceType::Bishop {
                            assert(piece_type_of(2) == pt);
                            lemma_extends_contains(*board, l3, fin, m);
                        } else if pt == PieceType::Rook {
                            assert(piece_type_of(3) == pt);
                            lemma_extends_contains(*board, l4, fin, m);
                        } else if pt == PieceType::Queen {
                            assert(piece_type_of(4) == pt);
                            lemma_extends_contains(*board, l5, fin, m);
                        } else {
                            lemma_extends_contains(*board, l6, fin, m);
                        }
                    }
                },
                MoveFlag::Promo => {
                    assert(pawn_target_ok(*board, f, t));
                    lemma_pawn_listed_extends(*board, l1, fin, f, t, us);
                    assert(fin.contains(Move::spec_new(Square(f as u8), Square(t as u8), MoveFlag::Promo, m.spec_promo())));
                },
                MoveFlag::EnPassant => {
                    assert(ep_move_of(*board, f));
                    lemma_extends_contains(*board, l1, fin, m);
                },
                MoveFlag::Castling => {
                    assert(spec_castle(*board, f, t));
                    assert(m == castle_move(f, t));
                },
            }
        }
        // No move is listed twice: each generator lists distinct moves, and the
        // generators list moves of different pieces (or, for castling, flags).
        let mb = board.mailbox@;
        lemma_distinct_keep(l1, fin, 0, l1.len() as int);
        lemma_distinct_keep(l2, fin, l1.len() as int, l2.len() as int);
        lemma_distinct_keep(l3, fin, l2.len() as int, l3.len() as int);
        lemma_distinct_keep(l4, fin, l3.len() as int, l4.len() as int);
        lemma_distinct_keep(l5, fin, l4.len() as int, l5.len() as int);
        lemma_distinct_keep(l6, fin, l5.len() as int, l6.len() as int);
        assert(distinct_range(fin, l6.len() as int, fin.len() as int));
        assert forall|i: int| 0 <= i < fin.len() implies (#[trigger] seg_kind(*board, fin[i])) == seg_of(
            i,
            l1.len() as int,
            l2.len() as int,
            l3.len() as int,
            l4.len() as int,
            l5.len() as int,
            l6.len() as int,
        ) by {
            if i < l1.len() {
                assert(fin[i] == l1[i]);
                assert(pawn_seg_move(*board, fin[i]));
            } else if i < l2.len() {
                assert(fin[i] == l2[i]);
                assert(piece_type_of(1) == PieceType::Knight);
            } else if i < l3.len() {
                assert(fin[i] == l3[i]);
                assert(piece_type_of(2) == PieceType::Bishop);
            } else if i < l4.len() {
                assert(fin[i] == l4[i]);
                assert(piece_type_of(3) == PieceType::Rook);
            } else if i < l5.len() {
                assert(fin[i] == l5[i]);
                assert(piece_type_of(4) == PieceType::Queen);
            } else if i < l6.len() {
                assert(fin[i] == l6[i]);
            }
        }
        assert forall|i: int, j: int| 0 <= i < fin.len() && 0 <= j < fin.len() && i != j implies fin[i] != fin[j] by {
            let si = seg_of(i, l1.len() as int, l2.len() as int, l3.len() as int, l4.len() as int, l5.len() as int, l6.len() as int);
            let sj = seg_of(j, l1.len() as int, l2.len() as int, l3.len() as int, l4.len() as int, l5.len() as int, l6.len() as int);
            assert(seg_kind(*board, fin[i]) == si);
            assert(seg_kind(*board, fin[j]) == sj);
            if i > j {
                assert(fin[j] != fin[i]);
            }
        }
    }
    list
}

/// Which generator lists a pseudo-legal move: 0 pawns, 1–4 knights to queens,
/// 5 the king's steps, 6 castling.
pub open spec fn seg_kind(b: Board, m: Move) -> int {
    if m.spec_flag() == MoveFlag::Castling {
        6
    } else {
        match b.mailbox[m.spec_from().0 as int] {
            Some(p) => match p.piece_type {
                PieceType::Pawn => 0,
                PieceType::Knight => 1,
                PieceType::Bishop => 2,
                PieceType::Rook => 3,
                PieceType::Queen => 4,
                PieceType::King => 5,
            },
            None => 7,
        }
    }
}

/// The generator whose part of the list holds index `i`, given where the parts end.
pub open spec fn seg_of(i: int, e0: int, e1: int, e2: int, e3: int, e4: int, e5: int) -> int {
    if i < e0 {
        0
    } else if i < e1 {
        1
    } else if i < e2 {
        2
    } else if i < e3 {
        3
    } else if i < e4 {
        4
    } else if i < e5 {
        5
    } else {
        6
    }
}

// ── Pawn moves ────────────────────────────────────────────────────────────────

/// A pawn on `from` may go to `to` by a push, a double push or a capture.
pub open spec fn pawn_target_ok(b: Board, from: int, to: int) -> bool {
    spec_pawn_push(b, from, to) || spec_pawn_double(b, from, to) || spec_pawn_capture(b, from, to)
}

/// Pushes the pawn moves to the squares of `targets`, each coming from `to - d`;
/// targets on the promotion rank give the four promotions.
fn push_pawn_targets(board: &Board, us: Color, targets: u64, d: i32, promo_bb: u64, list: &mut MoveList)
    requires
        board.wf(),
        us == board.side_to_move,
        -16 <= d <= 16,
        forall|i: u64| i < 64 ==> (#[trigger] bb_has(promo_bb, i) <==> i / 8 == promo_rank(us)),
        forall|i: u64| i < 64 && #[trigger] bb_has(targets, i) ==> pawn_target_ok(*board, i - d, i as int),
    ensures
        extends_pseudo(*board, old(list)@, final(list)@),
        forall|i: u64| i < 64 && #[trigger] bb_has(targets, i) ==> pawn_moves_listed(final(list)@, i - d, i as int, us),
        distinct_from(final(list)@, old(list)@.len() as int),
        forall|i: int| old(list)@.len() <= i < final(list)@.len() ==> pawn_pass_move(#[trigger] final(list)@[i], d as int, targets),
        forall|i: int| old(list)@.len() <= i < final(list)@.len() ==> pawn_seg_move(*board, #[trigger] final(list)@[i]),
{
    let ghost l0 = list@;
    let mut rest = targets;
    while rest != 0
        invariant
            board.wf(),
            us == board.side_to_move,
            -16 <= d <= 16,
            forall|i: u64| i < 64 ==> (#[trigger] bb_has(promo_bb, i) <==> i / 8 == promo_rank(us)),
            forall|i: u64| i < 64 && #[trigger] bb_has(rest, i) ==> bb_has(targets, i),
            forall|i: u64| i < 64 && #[trigger] bb_has(targets, i) ==> pawn_target_ok(*board, i - d, i as int),
            extends_pseudo(*board, l0, list@),
            forall|i: u64| i < 64 && #[trigger] bb_has(targets, i) && !bb_has(rest, i) ==> pawn_moves_listed(list@, i - d, i as int, us),
            distinct_from(list@, l0.len() as int),
            forall|i: int| l0.len() <= i < list@.len() ==> pawn_pass_move(#[trigger] list@[i], d as int, targets) && !bb_has(
                rest,
                list@[i].spec_to().0 as u64,
            ) && pawn_seg_move(*board, list@[i]),
        decreases rest,
    {
        let ghost lb = list@;
        let ghost rb = rest;
        let to = pop_lsb(&mut rest);
        let ghost t = to.0 as u64;
        proof {
            assert(bb_has(targets, t));
            assert(pawn_target_ok(*board, t - d, t as int));
        }
        let from = Square((to.0 as i32 - d) as u8);
        let pm = promo_bb & (1u64 << to.0);
        proof {
            lemma_single_and(promo_bb, t);
        }
        if pm != 0 {
            push_all_promos(*board, from, to, list);
            proof {
                lemma_move_roundtrip(from, to, MoveFlag::Promo, PromoKind::Queen);
                lemma_move_roundtrip(from, to, MoveFlag::Promo, PromoKind::Rook);
                lemma_move_roundtrip(from, to, MoveFlag::Promo, PromoKind::Bishop);
                lemma_move_roundtrip(from, to, MoveFlag::Promo, PromoKind::Knight);
            }
        } else {
            let m = Move::normal(from, to);
            list.push(m);
            proof {
                assert(spec_pseudo(*board, m));
                assert(extends_pseudo(*board, lb, list@));
                lemma_push_contains(lb, m, m);
            }
        }
        proof {
            assert forall|i: int| l0.len() <= i < list@.len() implies pawn_pass_move(#[trigger] list@[i], d as int, targets)
                && !bb_has(rest, list@[i].spec_to().0 as u64) && pawn_seg_move(*board, list@[i]) by {
                if i < lb.len() {
                    assert(list@[i] == lb[i]);
                    assert(!bb_has(rb, lb[i].spec_to().0 as u64));
                } else {
                    assert(list@[i].spec_to() == to);
                    assert(list@[i].spec_from() == from);
                    assert(holds(board.mailbox@, from.0 as int, us, PieceType::Pawn));
                }
            }
            assert forall|i: int, j: int| l0.len() <= i < j < list@.len() implies list@[i] != list@[j] by {
                if j >= lb.len() && i < lb.len() {
                    assert(list@[i] == lb[i]);
                    assert(!bb_has(rb, lb[i].spec_to().0 as u64));
                    assert(list@[j].spec_to() == to);
                } else if i < lb.len() {
                    assert(list@[i] == lb[i]);
                    assert(list@[j] == lb[j]);
                }
            }
            lemma_extends_trans(*board, l0, lb, list@);
            assert(from.0 as int == t - d);
            assert(pawn_moves_listed(list@, t - d, t as int, us));
            assert forall|i: u64| i < 64 && #[trigger] bb_has(targets, i) && !bb_has(rest, i) implies pawn_moves_listed(list@, i - d, i as int, us) by {
                if i != t {
                    lemma_pawn_listed_extends(*board, lb, list@, i - d, i as int, us);
                }
            }
        }
    }
    proof {
        lemma_zero_all();
    }
}

proof fn lemma_single_and(a: u64, t: u64)
    by (bit_vector)
    requires
        t < 64,
    ensures
        (a & (1u64 << t) != 0) <==> bb_has(a, t),
{
}

fn push_all_promos(ghost_board: Board, from: Square, to: Square, list: &mut MoveList)
    requires
        from.valid(),
        to.valid(),
        (spec_pawn_push(ghost_board, from.0 as int, to.0 as int) || spec_pawn_capture(ghost_board, from.0 as int, to.0 as int))
            && sq_rank(to.0 as int) == promo_rank(ghost_board.side_to_move),
    ensures
        extends_pseudo(ghost_board, old(list)@, final(list)@),
        pawn_moves_listed(final(list)@, from.0 as int, to.0 as int, ghost_board.side_to_move),
        final(list)@ == old(list)@ + seq![
            Move::spec_new(from, to, MoveFlag::Promo, PromoKind::Queen),
            Move::spec_new(from, to, MoveFlag::Promo, PromoKind::Rook),
            Move::spec_new(from, to, MoveFlag::Promo, PromoKind::Bishop),
            Move::spec_new(from, to, MoveFlag::Promo, PromoKind::Knight),
        ],
{
    let ghost l0 = list@;
    list.push(Move::promo(from, to, PromoKind::Queen));
    list.push(Move::promo(from, to, PromoKind::Rook));
    list.push(Move::promo(from, to, PromoKind::Bishop));
    list.push(Move::promo(from, to, PromoKind::Knight));
    proof {
        let l = list@;
        assert(l =~= l0 + seq![
            Move::spec_new(from, to, MoveFlag::Promo, PromoKind::Queen),
            Move::spec_new(from, to, MoveFlag::Promo, PromoKind::Rook),
            Move::spec_new(from, to, MoveFlag::Promo, PromoKind::Bishop),
            Move::spec_new(from, to, MoveFlag::Promo, PromoKind::Knight),
        ]);
        assert(l[l0.len() as int] == Move::spec_new(from, to, MoveFlag::Promo, PromoKind::Queen));
        assert(l[l0.len() as int + 1] == Move::spec_new(from, to, MoveFlag::Promo, PromoKind::Rook));
        assert(l[l0.len() as int + 2] == Move::spec_new(from, to, MoveFlag::Promo, PromoKind::Bishop));
        assert(l[l0.len() as int + 3] == Move::spec_new(from, to, MoveFlag::Promo, PromoKind::Knight));
        assert(Square(from.0 as int as u8) == from);
        assert(Square(to.0 as int as u8) == to);
        assert forall|k: PromoKind| l.contains(#[trigger] Move::spec_new(Square(from.0 as int as u8), Square(to.0 as int as u8), MoveFlag::Promo, k)) by {
            match k {
                PromoKind::Queen => assert(l[l0.len() as int] == Move::spec_new(from, to, MoveFlag::Promo, k)),
                PromoKind::Rook => assert(l[l0.len() as int + 1] == Move::spec_new(from, to, MoveFlag::Promo, k)),
                PromoKind::Bishop => assert(l[l0.len() as int + 2] == Move::spec_new(from, to, MoveFlag::Promo, k)),
                PromoKind::Knight => assert(l[l0.len() as int + 3] == Move::spec_new(from, to, MoveFlag::Promo, k)),
            }
        }
    }
}

/// An en-passant capture of the pawn on `f` (to the en-passant target).
pub open spec fn ep_move_of(b: Board, f: int) -> bool {
    &&& 0 <= f < 64
    &&& b.en_passant is Some
    &&& holds(b.mailbox@, f, b.side_to_move, PieceType::Pawn)
    &&& spec_pawn_attack(b.side_to_move, f, b.en_passant.unwrap().0 as int)
}

fn gen_pawn_moves(board: &Board, us: Color, list: &mut MoveList)
    requires
        board.wf(),
        us == board.side_to_move,
    ensures
        extends_pseudo(*board, old(list)@, final(list)@),
        forall|f: int, t: int| #[trigger] pawn_target_ok(*board, f, t) ==> pawn_moves_listed(final(list)@, f, t, us),
        forall|f: int| #[trigger] ep_move_of(*board, f) ==> final(list)@.contains(
            Move::spec_new(Square(f as u8), board.en_passant.unwrap(), MoveFlag::EnPassant, PromoKind::Knight),
        ),
        distinct_from(final(list)@, old(list)@.len() as int),
        forall|i: int| old(list)@.len() <= i < final(list)@.len() ==> pawn_seg_move(*board, #[trigger] final(list)@[i]),
{
    let ghost l0 = list@;
    let white = match us {
        Color::White => true,
        Color::Black => false,
    };
    let them = us.flip();
    let pawns = board.piece_bb(us, PieceType::Pawn);
    let their_occ = board.occupancy[if white { 1usize } else { 0usize }];
    let empty = !board.all_occupancy;
    let promo_bb = if white { RANK_8 } else { RANK_1 };
    proof {
        lemma_rank_masks();
        lemma_bits_all(board.all_occupancy, board.all_occupancy);
        assert(them.index() == (if white { 1int } else { 0int }));
    }

    // ── Single pushes ─────────────────────────────────────────────────────────
    let fwd = if white { north(pawns) } else { south(pawns) };
    let step1 = fwd & empty;
    let d1: i32 = if white { 8 } else { -8 };
    proof {
        lemma_bits_all(fwd, empty);
        lemma_bits_all(step1, promo_bb);
        lemma_bits_all(step1, !promo_bb);
        lemma_bits_all(promo_bb, promo_bb);
        assert forall|i: u64| i < 64 && #[trigger] bb_has(step1, i) implies pawn_target_ok(*board, i - d1, i as int) by {
            assert(spec_pawn_push(*board, i - d1, i as int));
        }
    }
    push_pawn_targets(board, us, step1 & !promo_bb, d1, promo_bb, list);
    let ghost l1 = list@;
    push_pawn_targets(board, us, step1 & promo_bb, d1, promo_bb, list);
    let ghost l2 = list@;

    // ── Double pushes ─────────────────────────────────────────────────────────
    // Only from pawns whose single-push target landed on the third rank,
    // meaning they started on the second rank (the starting rank).
    let mid = if white { step1 & RANK_3 } else { step1 & RANK_6 };
    let fwd2 = if white { north(mid) } else { south(mid) };
    let step2 = fwd2 & empty;
    let d2: i32 = if white { 16 } else { -16 };
    proof {
        lemma_bits_all(step1, RANK_3);
        lemma_bits_all(step1, RANK_6);
        lemma_bits_all(fwd2, empty);
        assert forall|i: u64| i < 64 && #[trigger] bb_has(step2, i) implies pawn_target_ok(*board, i - d2, i as int) by {
            let j = (i - d1) as u64;
            assert(bb_has(mid, j));
            assert(bb_has(step1, j));
            assert(spec_pawn_double(*board, i - d2, i as int));
        }
    }
    push_pawn_targets(board, us, step2, d2, promo_bb, list);
    let ghost l3 = list@;

    // ── Captures ──────────────────────────────────────────────────────────────
    let ea = if white { north_east(pawns) } else { south_east(pawns) };
    let east_cap = ea & their_occ;
    let de: i32 = if white { 9 } else { -7 };
    proof {
        lemma_bits_all(ea, their_occ);
        assert forall|i: u64| i < 64 && #[trigger] bb_has(east_cap, i) implies pawn_target_ok(*board, i - de, i as int) by {
            assert(holds_color(board.mailbox@, i as int, them));
            assert(spec_pawn_capture(*board, i - de, i as int));
        }
    }
    push_pawn_targets(board, us, east_cap, de, promo_bb, list);
    let ghost l4 = list@;
    let wa = if white { north_west(pawns) } else { south_west(pawns) };
    let west_cap = wa & their_occ;
    let dw: i32 = if white { 7 } else { -9 };
    proof {
        lemma_bits_all(wa, their_occ);
        assert forall|i: u64| i < 64 && #[trigger] bb_has(west_cap, i) implies pawn_target_ok(*board, i - dw, i as int) by {
            assert(holds_color(board.mailbox@, i as int, them));
            assert(spec_pawn_capture(*board, i - dw, i as int));
        }
    }
    push_pawn_targets(board, us, west_cap, dw, promo_bb, list);
    let ghost l5 = list@;

    // ── En passant ────────────────────────────────────────────────────────────
    match board.en_passant {
        Some(ep_sq) => {
            // Reverse-attack: which of our pawns can reach ep_sq?
            let pa = pawn_attacks(them, ep_sq);
            let mut attackers = pa & pawns;
            proof {
                lemma_bits_all(pa, pawns);
            }
            let ghost all_att = attackers;
            while attackers != 0
                invariant
                    board.wf(),
                    us == board.side_to_move,
                    board.en_passant == Some(ep_sq),
                    ep_sq.valid(),
                    them == us.opposite(),
                    forall|i: u64| i < 64 && #[trigger] bb_has(attackers, i) ==> bb_has(all_att, i),
                    forall|i: u64| i < 64 ==> (#[trigger] bb_has(all_att, i) <==> (bb_has(pa, i) && bb_has(pawns, i))),
                    forall|i: u64| i < 64 ==> (#[trigger] bb_has(pa, i) <==> spec_pawn_attack(them, ep_sq.0 as int, i as int)),
                    pawns == board.pieces[us.index()][PieceType::Pawn.index()],
                    extends_pseudo(*board, l5, list@),
                    forall|i: u64| i < 64 && #[trigger] bb_has(all_att, i) && !bb_has(attackers, i) ==> list@.contains(
                        Move::spec_new(Square(i as int as u8), ep_sq, MoveFlag::EnPassant, PromoKind::Knight),
                    ),
                    distinct_from(list@, l5.len() as int),
                    forall|i: int| l5.len() <= i < list@.len() ==> (#[trigger] list@[i]).spec_flag() == MoveFlag::EnPassant
                        && !bb_has(attackers, list@[i].spec_from().0 as u64) && pawn_seg_move(*board, list@[i]),
                decreases attackers,
            {
                let ghost lb = list@;
                let ghost ab = attackers;
                let from = pop_lsb(&mut attackers);
                let m = Move::en_passant(from, ep_sq);
                list.push(m);
                proof {
                    let f = from.0 as u64;
                    assert(bb_has(all_att, f));
                    assert(holds(board.mailbox@, f as int, us, PieceType::Pawn));
                    assert(spec_pseudo(*board, m));
                    lemma_extends_trans(*board, l5, lb, list@);
                    assert(Square(f as int as u8) == from);
                    assert forall|i: u64| i < 64 && #[trigger] bb_has(all_att, i) && !bb_has(attackers, i) implies list@.contains(
                        Move::spec_new(Square(i as int as u8), ep_sq, MoveFlag::EnPassant, PromoKind::Knight),
                    ) by {
                        lemma_push_contains(lb, m, Move::spec_new(Square(i as int as u8), ep_sq, MoveFlag::EnPassant, PromoKind::Knight));
                    }
                    assert forall|i: int| l5.len() <= i < list@.len() implies (#[trigger] list@[i]).spec_flag()
                        == MoveFlag::EnPassant && !bb_has(attackers, list@[i].spec_from().0 as u64) && pawn_seg_move(
                        *board,
                        list@[i],
                    ) by {
                        if i < lb.len() {
                            assert(list@[i] == lb[i]);
                            assert(!bb_has(ab, lb[i].spec_from().0 as u64));
                        }
                    }
                    assert forall|i: int, j: int| l5.len() <= i < j < list@.len() implies list@[i] != list@[j] by {
                        if j >= lb.len() {
                            if i < lb.len() {
                                assert(list@[i] == lb[i]);
                                assert(!bb_has(ab, lb[i].spec_from().0 as u64));
                            }
                        } else {
                            assert(list@[i] == lb[i]);
                            assert(list@[j] == lb[j]);
                        }
                    }
                }
            }
            proof {
                lemma_zero_all();
                assert forall|f: int| #[trigger] ep_move_of(*board, f) implies list@.contains(
                    Move::spec_new(Square(f as u8), board.en_passant.unwrap(), MoveFlag::EnPassant, PromoKind::Knight),
                ) by {
                    assert(bb_has(pawns, f as u64));
                    assert(spec_pawn_attack(them, ep_sq.0 as int, f));
                    assert(bb_has(pa, f as u64));
                    assert(bb_has(all_att, f as u64));
                    assert(Square(f as u64 as int as u8) == Square(f as u8));
                }
            }
        },
        None => {},
    }
    proof {
        lemma_extends_trans(*board, l0, l1, l2);
        lemma_extends_trans(*board, l0, l2, l3);
        lemma_extends_trans(*board, l0, l3, l4);
        lemma_extends_trans(*board, l0, l4, l5);
        lemma_extends_trans(*board, l0, l5, list@);
        lemma_extends_trans(*board, l4, l5, list@);
        lemma_extends_trans(*board, l3, l4, list@);
        lemma_extends_trans(*board, l2, l3, list@);
        lemma_extends_trans(*board, l1, l2, list@);
        let fin = list@;
        let mb = board.mailbox@;
        assert forall|f: int, t: int| #[trigger] pawn_target_ok(*board, f, t) implies pawn_moves_listed(fin, f, t, us) by {
            let tt = t as u64;
            let ff = f as u64;
            assert(bb_has(pawns, ff));
            if spec_pawn_push(*board, f, t) {
                assert(bb_has(fwd, tt));
                assert(!bb_has(board.all_occupancy, tt));
                assert(bb_has(step1, tt));
                if sq_rank(t) == promo_rank(us) {
                    assert(bb_has(step1 & promo_bb, tt));
                    assert(t - d1 == f);
                    lemma_pawn_listed_extends(*board, l2, fin, f, t, us);
                } else {
                    assert(bb_has(step1 & !promo_bb, tt));
                    assert(t - d1 == f);
                    lemma_pawn_listed_extends(*board, l1, fin, f, t, us);
                }
            } else if spec_pawn_double(*board, f, t) {
                let m1 = (f + pawn_step(us)) as u64;
                assert(bb_has(fwd, m1));
                assert(!bb_has(board.all_occupancy, m1));
                assert(bb_has(step1, m1));
                assert(bb_has(mid, m1));
                assert(bb_has(fwd2, tt));
                assert(!bb_has(board.all_occupancy, tt));
                assert(bb_has(step2, tt));
                assert(t - d2 == f);
                lemma_pawn_listed_extends(*board, l3, fin, f, t, us);
            } else {
                assert(spec_pawn_capture(*board, f, t));
                assert(holds_color(mb, t, them));
                assert(bb_has(their_occ, tt));
                if sq_file(t) == sq_file(f) + 1 {
                    assert(t - de == f);
                    assert(bb_has(ea, tt));
                    assert(bb_has(east_cap, tt));
                    lemma_pawn_listed_extends(*board, l4, fin, f, t, us);
                } else {
                    assert(t - dw == f);
                    assert(bb_has(wa, tt));
                    assert(bb_has(west_cap, tt));
                    lemma_pawn_listed_extends(*board, l5, fin, f, t, us);
                }
            }
        }
        // Every move of the pawn segments is a pawn's, and no two are equal:
        // moves of one pass differ by their target, moves of different passes by
        // the distance they travel (the two single-push passes by the rank of
        // their targets), and en-passant captures by their flag.
        assert forall|i: int| l0.len() <= i < fin.len() implies pawn_seg_move(*board, #[trigger] fin[i]) by {
            if i < l1.len() {
                assert(fin[i] == l1[i]);
            } else if i < l2.len() {
                assert(fin[i] == l2[i]);
            } else if i < l3.len() {
                assert(fin[i] == l3[i]);
            } else if i < l4.len() {
                assert(fin[i] == l4[i]);
            } else if i < l5.len() {
                assert(fin[i] == l5[i]);
            }
        }
        lemma_distinct_keep(l1, fin, l0.len() as int, l1.len() as int);
        lemma_distinct_keep(l2, fin, l1.len() as int, l2.len() as int);
        lemma_distinct_keep(l3, fin, l2.len() as int, l3.len() as int);
        lemma_distinct_keep(l4, fin, l3.len() as int, l4.len() as int);
        lemma_distinct_keep(l5, fin, l4.len() as int, l5.len() as int);
        assert(distinct_range(fin, l5.len() as int, fin.len() as int));
        assert forall|i: int, j: int| l0.len() <= i < j < fin.len() implies fin[i] != fin[j] by {
            let di: int = if i < l1.len() { d1 as int } else if i < l2.len() { d1 as int } else if i < l3.len() {
                d2 as int
            } else if i < l4.len() { de as int } else { dw as int };
            let dj: int = if j < l1.len() { d1 as int } else if j < l2.len() { d1 as int } else if j < l3.len() {
                d2 as int
            } else if j < l4.len() { de as int } else { dw as int };
            if i < l1.len() {
                assert(fin[i] == l1[i]);
                assert(pawn_pass_move(fin[i], d1 as int, step1 & !promo_bb));
            } else if i < l2.len() {
                assert(fin[i] == l2[i]);
                assert(pawn_pass_move(fin[i], d1 as int, step1 & promo_bb));
            } else if i < l3.len() {
                assert(fin[i] == l3[i]);
            } else if i < l4.len() {
                assert(fin[i] == l4[i]);
            } else if i < l5.len() {
                assert(fin[i] == l5[i]);
            }
            if j < l1.len() {
                assert(fin[j] == l1[j]);
            } else if j < l2.len() {
                assert(fin[j] == l2[j]);
                assert(pawn_pass_move(fin[j], d1 as int, step1 & promo_bb));
            } else if j < l3.len() {
                assert(fin[j] == l3[j]);
            } else if j < l4.len() {
                assert(fin[j] == l4[j]);
            } else if j < l5.len() {
                assert(fin[j] == l5[j]);
            }
            if fin[i] == fin[j] && j < l5.len() {
                let t = fin[i].spec_to().0 as u64;
                if i < l1.len() && l1.len() <= j < l2.len() {
                    assert(bb_has(step1 & !promo_bb, t));
                    assert(bb_has(step1 & promo_bb, t));
                }
                assert(di == dj);
            }
        }
    }
}

// ── Sliding and leaping pieces ────────────────────────────────────────────────

/// Attack set of a knight (1), bishop (2), rook (3) or queen (4) on `sq`.
pub fn piece_attacks(pt: usize, sq: Square, occ: u64) -> (b: u64)
    requires
        sq.valid(),
        1 <= pt <= 4,
    ensures
        forall|i: u64| i < 64 ==> (#[trigger] bb_has(b, i) <==> spec_reach(piece_type_of(pt as int), sq.0 as int, i as int, occ)),
{
    if pt == 1 {
        knight_attacks(sq)
    } else if pt == 2 {
        bishop_attacks(sq, occ)
    } else if pt == 3 {
        rook_attacks(sq, occ)
    } else {
        queen_attacks(sq, occ)
    }
}

pub open spec fn piece_type_of(i: int) -> PieceType {
    if i == 0 {
        PieceType::Pawn
    } else if i == 1 {
        PieceType::Knight
    } else if i == 2 {
        PieceType::Bishop
    } else if i == 3 {
        PieceType::Rook
    } else if i == 4 {
        PieceType::Queen
    } else {
        PieceType::King
    }
}

/// Pushes the moves from `from` to each square of `targets`.
fn push_targets(board: &Board, from: Square, targets: u64, list: &mut MoveList)
    requires
        board.wf(),
        from.valid(),
        forall|i: u64| i < 64 && #[trigger] bb_has(targets, i) ==> spec_piece_move(*board, from.0 as int, i as int),
    ensures
        extends_pseudo(*board, old(list)@, final(list)@),
        forall|i: u64| i < 64 && #[trigger] bb_has(targets, i) ==> final(list)@.contains(normal_move(from.0 as int, i as int)),
        distinct_from(final(list)@, old(list)@.len() as int),
        forall|i: int| old(list)@.len() <= i < final(list)@.len() ==> (#[trigger] final(list)@[i]).spec_from() == from
            && final(list)@[i].spec_flag() == MoveFlag::Normal,
{
    let ghost l0 = list@;
    let mut rest = targets;
    while rest != 0
        invariant
            board.wf(),
            from.valid(),
            forall|i: u64| i < 64 && #[trigger] bb_has(rest, i) ==> bb_has(targets, i),
            forall|i: u64| i < 64 && #[trigger] bb_has(targets, i) ==> spec_piece_move(*board, from.0 as int, i as int),
            extends_pseudo(*board, l0, list@),
            forall|i: u64| i < 64 && #[trigger] bb_has(targets, i) && !bb_has(rest, i) ==> list@.contains(normal_move(from.0 as int, i as int)),
            distinct_from(list@, l0.len() as int),
            forall|i: int| l0.len() <= i < list@.len() ==> (#[trigger] list@[i]).spec_from() == from && list@[i].spec_flag()
                == MoveFlag::Normal && !bb_has(rest, list@[i].spec_to().0 as u64),
        decreases rest,
    {
        let ghost lb = list@;
        let ghost rb = rest;
        let to = pop_lsb(&mut rest);
        let m = Move::normal(from, to);
        list.push(m);
        proof {
            assert forall|i: int| l0.len() <= i < list@.len() implies (#[trigger] list@[i]).spec_from() == from
                && list@[i].spec_flag() == MoveFlag::Normal && !bb_has(rest, list@[i].spec_to().0 as u64) by {
                if i < lb.len() {
                    assert(list@[i] == lb[i]);
                    assert(!bb_has(rb, lb[i].spec_to().0 as u64));
                }
            }
            assert forall|i: int, j: int| l0.len() <= i < j < list@.len() implies list@[i] != list@[j] by {
                if j >= lb.len() {
                    assert(list@[i] == lb[i]);
                    assert(!bb_has(rb, lb[i].spec_to().0 as u64));
                } else {
                    assert(list@[i] == lb[i]);
                    assert(list@[j] == lb[j]);
                }
            }
            assert(bb_has(targets, to.0 as u64));
            assert(spec_pseudo(*board, m));
            lemma_extends_trans(*board, l0, lb, list@);
            assert(m == normal_move(from.0 as int, to.0 as int));
            assert forall|i: u64| i < 64 && #[trigger] bb_has(targets, i) && !bb_has(rest, i) implies list@.contains(normal_move(from.0 as int, i as int)) by {
                lemma_push_contains(lb, m, normal_move(from.0 as int, i as int));
            }
        }
    }
    proof {
        lemma_zero_all();
    }
}

fn gen_piece_moves(board: &Board, us: Color, list: &mut MoveList, pt: usize)
    requires
        board.wf(),
        us == board.side_to_move,
        1 <= pt <= 4,
    ensures
        extends_pseudo(*board, old(list)@, final(list)@),
        forall|f: int, t: int| #[trigger] piece_move_of(*board, piece_type_of(pt as int), f, t) ==> final(list)@.contains(normal_move(f, t)),
        distinct_from(final(list)@, old(list)@.len() as int),
        forall|i: int| old(list)@.len() <= i < final(list)@.len() ==> holds(
            board.mailbox@,
            (#[trigger] final(list)@[i]).spec_from().0 as int,
            us,
            piece_type_of(pt as int),
        ) && final(list)@[i].spec_flag() == MoveFlag::Normal,
{
    let ghost l0 = list@;
    let c: usize = match us {
        Color::White => 0,
        Color::Black => 1,
    };
    let own_occ = board.occupancy[c];
    let occ = board.all_occupancy;
    let mut pieces = board.pieces[c][pt];
    let ghost all_pieces = pieces;
    let ghost ptype = piece_type_of(pt as int);
    proof {
        assert(ptype.index() == pt);
        assert(us.index() == c);
    }
    while pieces != 0
        invariant
            board.wf(),
            us == board.side_to_move,
            us.index() == c,
            1 <= pt <= 4,
            ptype == piece_type_of(pt as int),
            ptype.index() == pt,
            own_occ == board.occupancy[c as int],
            occ == board.all_occupancy,
            all_pieces == board.pieces[c as int][pt as int],
            forall|i: u64| i < 64 && #[trigger] bb_has(pieces, i) ==> bb_has(all_pieces, i),
            extends_pseudo(*board, l0, list@),
            forall|f: int, t: int| #[trigger] piece_move_of(*board, ptype, f, t) && !bb_has(pieces, f as u64) ==> list@.contains(normal_move(f, t)),
            distinct_from(list@, l0.len() as int),
            forall|i: int| l0.len() <= i < list@.len() ==> holds(board.mailbox@, (#[trigger] list@[i]).spec_from().0 as int, us, ptype)
                && list@[i].spec_flag() == MoveFlag::Normal && !bb_has(pieces, list@[i].spec_from().0 as u64),
        decreases pieces,
    {
        let ghost lb = list@;
        let ghost pb = pieces;
        let from = pop_lsb(&mut pieces);
        let att = piece_attacks(pt, from, occ);
        let targets = att & !own_occ;
        proof {
            lemma_bits_all(att, !own_occ);
            lemma_bits_all(own_occ, own_occ);
            assert(bb_has(all_pieces, from.0 as u64));
            assert(holds(board.mailbox@, from.0 as int, us, ptype));
            assert forall|i: u64| i < 64 && #[trigger] bb_has(targets, i) implies spec_piece_move(*board, from.0 as int, i as int) by {
                assert(!bb_has(own_occ, i));
                assert(bb_has(board.occupancy[us.index()], i) <==> holds_color(board.mailbox@, i as int, us));
            }
        }
        push_targets(board, from, targets, list);
        proof {
            lemma_extends_trans(*board, l0, lb, list@);
            assert forall|i: int| l0.len() <= i < list@.len() implies holds(
                board.mailbox@,
                (#[trigger] list@[i]).spec_from().0 as int,
                us,
                ptype,
            ) && list@[i].spec_flag() == MoveFlag::Normal && !bb_has(pieces, list@[i].spec_from().0 as u64) by {
                if i < lb.len() {
                    assert(list@[i] == lb[i]);
                    assert(!bb_has(pb, lb[i].spec_from().0 as u64));
                }
            }
            assert forall|i: int, j: int| l0.len() <= i < j < list@.len() implies list@[i] != list@[j] by {
                if i < lb.len() {
                    assert(list@[i] == lb[i]);
                    if j < lb.len() {
                        assert(list@[j] == lb[j]);
                    } else {
                        assert(!bb_has(pb, lb[i].spec_from().0 as u64));
                        assert(list@[j].spec_from() == from);
                    }
                }
            }
            assert forall|f: int, t: int| #[trigger] piece_move_of(*board, ptype, f, t) && !bb_has(pieces, f as u64) implies list@.contains(normal_move(f, t)) by {
                if f == from.0 as int {
                    assert(bb_has(att, t as u64));
                    assert(bb_has(board.occupancy[us.index()], t as u64) <==> holds_color(board.mailbox@, t, us));
                    assert(bb_has(targets, t as u64));
                } else {
                    assert(!bb_has(pb, f as u64));
                    lemma_extends_contains(*board, lb, list@, normal_move(f, t));
                }
            }
        }
    }
    proof {
        lemma_zero_all();
        assert forall|f: int, t: int| #[trigger] piece_move_of(*board, ptype, f, t) implies list@.contains(normal_move(f, t)) by {
            assert(!bb_has(pieces, f as u64));
        }
    }
}

fn gen_king_moves(board: &Board, us: Color, list: &mut MoveList)
    requires
        board.wf(),
        us == board.side_to_move,
    ensures
        extends_pseudo(*board, old(list)@, final(list)@),
        forall|f: int, t: int| #[trigger] piece_move_of(*board, PieceType::King, f, t) ==> final(list)@.contains(normal_move(f, t)),
        distinct_from(final(list)@, old(list)@.len() as int),
        forall|i: int| old(list)@.len() <= i < final(list)@.len() ==> holds(
            board.mailbox@,
            (#[trigger] final(list)@[i]).spec_from().0 as int,
            us,
            PieceType::King,
        ) && final(list)@[i].spec_flag() == MoveFlag::Normal,
{
    let c: usize = match us {
        Color::White => 0,
        Color::Black => 1,
    };
    let own_occ = board.occupancy[c];
    let king_bb = board.piece_bb(us, PieceType::King);
    if king_bb == 0 {
        proof {
            assert forall|f: int, t: int| #[trigger] piece_move_of(*board, PieceType::King, f, t) implies list@.contains(normal_move(f, t)) by {
                assert(bb_has(board.pieces[us.index()][PieceType::King.index()], f as u64));
                lemma_zero_all();
            }
        }
        return;
    }
    let from = lsb(king_bb);
    let att = king_attacks(from);
    proof {
        assert(from.0 as int == spec_lsb_king(*board, us));
    }
    let targets = att & !own_occ;
    proof {
        assert(us.index() == c);
        lemma_bits_all(att, !own_occ);
        lemma_bits_all(own_occ, own_occ);
        assert(holds(board.mailbox@, from.0 as int, us, PieceType::King));
        assert forall|i: u64| i < 64 && #[trigger] bb_has(targets, i) implies spec_piece_move(*board, from.0 as int, i as int) by {
            assert(!bb_has(own_occ, i));
            assert(bb_has(board.occupancy[us.index()], i) <==> holds_color(board.mailbox@, i as int, us));
        }
    }
    push_targets(board, from, targets, list);
    proof {
        assert forall|f: int, t: int| #[trigger] piece_move_of(*board, PieceType::King, f, t) implies list@.contains(normal_move(f, t)) by {
            assert(bb_has(att, t as u64));
            assert(bb_has(board.occupancy[us.index()], t as u64) <==> holds_color(board.mailbox@, t, us));
            assert(bb_has(targets, t as u64));
        }
    }
}

// ── Castling ──────────────────────────────────────────────────────────────────
// We pre-verify that the king is not in check on any transit square, so these
// moves are already fully legal (the generate_legal filter still runs them, but
// they will always pass).

proof fn lemma_castle_masks(occ: u64)
    by (bit_vector)
    ensures
        (occ & 0x0000_0000_0000_0060u64 == 0) <==> (!bb_has(occ, 5) && !bb_has(occ, 6)),
        (occ & 0x0000_0000_0000_000Eu64 == 0) <==> (!bb_has(occ, 1) && !bb_has(occ, 2) && !bb_has(occ, 3)),
        (occ & 0x6000_0000_0000_0000u64 == 0) <==> (!bb_has(occ, 61) && !bb_has(occ, 62)),
        (occ & 0x0E00_0000_0000_0000u64 == 0) <==> (!bb_has(occ, 57) && !bb_has(occ, 58) && !bb_has(occ, 59)),
{
}

/// The castling move from `f` to `t`.
pub open spec fn castle_move(f: int, t: int) -> Move {
    Move::spec_new(Square(f as u8), Square(t as u8), MoveFlag::Castling, PromoKind::Knight)
}

/// Pushes the castling move `from → to` when `ok`.
fn push_castle_if(ghost_board: Board, ok: bool, from: u8, to: u8, list: &mut MoveList)
    requires
        from < 64,
        to < 64,
        ok ==> spec_castle(ghost_board, from as int, to as int),
    ensures
        extends_pseudo(ghost_board, old(list)@, final(list)@),
        ok ==> final(list)@.contains(castle_move(from as int, to as int)),
        final(list)@ == (if ok {
            old(list)@.push(castle_move(from as int, to as int))
        } else {
            old(list)@
        }),
{
    if ok {
        let ghost l0 = list@;
        let m = Move::castling(Square(from), Square(to));
        list.push(m);
        proof {
            assert(spec_pseudo(ghost_board, m));
            lemma_push_contains(l0, m, m);
        }
    }
}

fn gen_castling(board: &Board, us: Color, list: &mut MoveList)
    requires
        board.wf(),
        us == board.side_to_move,
    ensures
        extends_pseudo(*board, old(list)@, final(list)@),
        forall|f: int, t: int| #[trigger] spec_castle(*board, f, t) ==> final(list)@.contains(castle_move(f, t)),
        distinct_from(final(list)@, old(list)@.len() as int),
        forall|i: int| old(list)@.len() <= i < final(list)@.len() ==> (#[trigger] final(list)@[i]).spec_flag()
            == MoveFlag::Castling,
{
    let ghost l0 = list@;
    let cr = board.castling_rights;
    let occ = board.all_occupancy;
    let them = us.flip();
    proof {
        lemma_castle_masks(occ);
    }
    let white = match us {
        Color::White => true,
        Color::Black => false,
    };
    // King on e1/e8; kingside to g1/g8 over f1/f8, queenside to c1/c8 with b, c, d empty.
    let (home, ks_mask, qs_mask, ks_right, qs_right): (u8, u64, u64, u8, u8) = if white {
        (4, 0x0000_0000_0000_0060, 0x0000_0000_0000_000E, 1, 2)
    } else {
        (60, 0x6000_0000_0000_0000, 0x0E00_0000_0000_0000, 4, 8)
    };
    let ks_ok = cr.has(ks_right) && occ & ks_mask == 0 && !board.is_attacked_by(Square(home), them)
        && !board.is_attacked_by(Square(home + 1), them) && !board.is_attacked_by(Square(home + 2), them);
    push_castle_if(*board, ks_ok, home, home + 2, list);
    let ghost l1 = list@;
    let qs_ok = cr.has(qs_right) && occ & qs_mask == 0 && !board.is_attacked_by(Square(home), them)
        && !board.is_attacked_by(Square(home - 1), them) && !board.is_attacked_by(Square(home - 2), them);
    push_castle_if(*board, qs_ok, home, home - 2, list);
    proof {
        lemma_move_roundtrip(Square(home), Square((home + 2) as u8), MoveFlag::Castling, PromoKind::Knight);
        lemma_move_roundtrip(Square(home), Square((home - 2) as u8), MoveFlag::Castling, PromoKind::Knight);
        lemma_extends_trans(*board, l0, l1, list@);
        assert forall|f: int, t: int| #[trigger] spec_castle(*board, f, t) implies list@.contains(castle_move(f, t)) by {
            if t == home + 2 {
                assert(ks_ok);
                lemma_extends_contains(*board, l1, list@, castle_move(f, t));
            } else {
                assert(qs_ok);
            }
        }
    }
}


// ── Legality ──────────────────────────────────────────────────────────────────

/// After the move, the mover still has a king and it is not attacked.
pub open spec fn king_safe_after(after: Board, us: Color) -> bool {
    let kings = after.pieces[us.index()][PieceType::King.index()];
    kings != 0 && !spec_attacked(after, spec_lsb(kings) as int, after.side_to_move)
}

/// `b` has at least one legal move.
pub open spec fn has_legal_move(b: Board) -> bool {
    exists|m: Move| #[trigger] spec_legal(b, m)
}

/// `m` is a legal move of `b`: pseudo-legal, and the board it produces leaves the
/// mover's king safe.
pub open spec fn spec_legal(b: Board, m: Move) -> bool {
    &&& spec_pseudo(b, m)
    &&& forall|after: Board| made(b, m, after) ==> king_safe_after(after, b.side_to_move)
}

/// On a valid board a pseudo-legal move is determined by its from square, its
/// to square and, for a promotion, the piece promoted to: two pseudo-legal moves
/// with the same squares are both promotions or neither, and are equal unless
/// they promote to different pieces.
pub proof fn lemma_pseudo_unique(b: Board, m1: Move, m2: Move)
    requires
        b.valid(),
        spec_pseudo(b, m1),
        spec_pseudo(b, m2),
        m1.spec_from() == m2.spec_from(),
        m1.spec_to() == m2.spec_to(),
    ensures
        (m1.spec_flag() == MoveFlag::Promo) == (m2.spec_flag() == MoveFlag::Promo),
        m1.spec_flag() != MoveFlag::Promo || m1.spec_promo() == m2.spec_promo() ==> m1 == m2,
{
    lemma_pseudo_flag_fixed(b, m1, m2);
    lemma_pseudo_flag_fixed(b, m2, m1);
    lemma_move_decode(m1);
    lemma_move_decode(m2);
}

/// Two pseudo-legal moves with the same squares carry the same flag.
proof fn lemma_pseudo_flag_fixed(b: Board, m1: Move, m2: Move)
    requires
        b.valid(),
        spec_pseudo(b, m1),
        spec_pseudo(b, m2),
        m1.spec_from() == m2.spec_from(),
        m1.spec_to() == m2.spec_to(),
    ensures
        m1.spec_flag() == m2.spec_flag(),
{
    let us = b.side_to_move;
    let from = m1.spec_from().0 as int;
    let to = m1.spec_to().0 as int;
    lemma_move_decode(m1);
    let mb = b.mailbox@;
    let wk = Some(Piece { color: Color::White, piece_type: PieceType::King });
    let bk = Some(Piece { color: Color::Black, piece_type: PieceType::King });
    // Which piece stands on `from` for each kind of move.
    if m1.spec_flag() == MoveFlag::Castling || m2.spec_flag() == MoveFlag::Castling {
        assert(spec_castle(b, from, to));
        assert(us == Color::White ==> mb[from] == wk);
        assert(us == Color::Black ==> mb[from] == bk);
        assert(!spec_king_attack(from, to));
    }
    if m1.spec_flag() == MoveFlag::EnPassant || m2.spec_flag() == MoveFlag::EnPassant {
        assert(b.en_passant == Some(m1.spec_to()));
        assert(mb[to] is None);
        assert(sq_rank(to) == 5 || sq_rank(to) == 2);
        assert(spec_pawn_attack(us, from, to));
        assert(to != from + pawn_step(us));
        assert(to != from + 2 * pawn_step(us));
    }
    if m1.spec_flag() == MoveFlag::Promo || m2.spec_flag() == MoveFlag::Promo {
        assert(sq_rank(to) == promo_rank(us));
        assert(holds(mb, from, us, PieceType::Pawn));
        assert(spec_pawn_double(b, from, to) ==> sq_rank(to) != promo_rank(us));
    }
}

proof fn lemma_mask_flags(cr: u8, m1: u8, m2: u8, f: u8)
    by (bit_vector)
    requires
        f == 1 || f == 2 || f == 4 || f == 8,
    ensures
        (cr & m1 & m2) & f != 0 ==> (cr & f != 0 && m1 & f != 0 && m2 & f != 0),
{
}

proof fn lemma_mask_values()
    by (bit_vector)
    ensures
        0xFDu8 & 1 != 0, 0xFDu8 & 2 == 0, 0xFDu8 & 4 != 0, 0xFDu8 & 8 != 0,
        0xFCu8 & 1 == 0, 0xFCu8 & 2 == 0, 0xFCu8 & 4 != 0, 0xFCu8 & 8 != 0,
        0xFEu8 & 1 == 0, 0xFEu8 & 2 != 0, 0xFEu8 & 4 != 0, 0xFEu8 & 8 != 0,
        0xF7u8 & 1 != 0, 0xF7u8 & 2 != 0, 0xF7u8 & 4 != 0, 0xF7u8 & 8 == 0,
        0xF3u8 & 1 != 0, 0xF3u8 & 2 != 0, 0xF3u8 & 4 == 0, 0xF3u8 & 8 == 0,
        0xFBu8 & 1 != 0, 0xFBu8 & 2 != 0, 0xFBu8 & 4 == 0, 0xFBu8 & 8 != 0,
        0xFFu8 & 1 != 0, 0xFFu8 & 2 != 0, 0xFFu8 & 4 != 0, 0xFFu8 & 8 != 0,
{
}

/// A pseudo-legal move of a valid board meets what `make_move` and `unmake_move` need.
pub proof fn lemma_pseudo_make_pre(b: Board, m: Move)
    requires
        b.valid(),
        spec_pseudo(b, m),
        b.half_move_clock < u32::MAX,
        b.full_move_number < u32::MAX,
    ensures
        make_pre(b, m),
        reversible(b, m),
{
}

/// What a pseudo-legal move of a valid board finds on the squares it touches.
pub proof fn lemma_pseudo_make_pre_rev(b: Board, m: Move)
    requires
        b.valid(),
        spec_pseudo(b, m),
    ensures
        reversible(b, m),
        m.spec_from() != m.spec_to(),
        m.spec_from().valid(),
        m.spec_to().valid(),
        b.mailbox@[m.spec_from().0 as int] is Some,
        b.mailbox@[m.spec_from().0 as int].unwrap().color == b.side_to_move,
        b.mailbox@[m.spec_to().0 as int] is Some ==> b.mailbox@[m.spec_to().0 as int].unwrap().color != b.side_to_move,
        m.spec_flag() == MoveFlag::EnPassant ==> {
            let cap = ep_capture_square(m.spec_from(), m.spec_to());
            &&& 0 <= cap < 64
            &&& cap != m.spec_to().0
            &&& cap != m.spec_from().0
            &&& b.mailbox@[m.spec_to().0 as int] is None
        },
        m.spec_flag() == MoveFlag::Castling ==> {
            let (rf, rt) = spec_castling_rook(m.spec_to().0 as int);
            &&& valid_castle_dest(m.spec_to().0 as int)
            &&& (m.spec_from().0 == 4 && (m.spec_to().0 == 6 || m.spec_to().0 == 2)
                || m.spec_from().0 == 60 && (m.spec_to().0 == 62 || m.spec_to().0 == 58))
            &&& b.mailbox@[m.spec_to().0 as int] is None
            &&& b.mailbox@[rt] is None
        },
{
    lemma_move_decode(m);
}

/// Playing a pseudo-legal move on a valid board gives a valid board.
pub proof fn lemma_make_valid(b: Board, m: Move, after: Board)
    requires
        b.valid(),
        spec_pseudo(b, m),
        made(b, m, after),
    ensures
        after.valid(),
{
    let from = m.spec_from().0 as int;
    let to = m.spec_to().0 as int;
    let cr = b.castling_rights.0;
    let m1 = castling_mask(from);
    let m2 = castling_mask(to);
    lemma_mask_values();
    lemma_mask_flags(cr, m1, m2, 1);
    lemma_mask_flags(cr, m1, m2, 2);
    lemma_mask_flags(cr, m1, m2, 4);
    lemma_mask_flags(cr, m1, m2, 8);
    let mb = spec_make_mailbox(b, m);
    assert(after.mailbox@ == mb);
    if m.spec_flag() == MoveFlag::EnPassant {
        let cap = ep_capture_square(m.spec_from(), m.spec_to());
        assert(cap == to - pawn_step(b.side_to_move));
    }
    if after.castling_rights.spec_has(1) {
        assert(from != 4 && from != 7 && to != 4 && to != 7);
        assert(mb[4] == b.mailbox@[4] && mb[7] == b.mailbox@[7]);
    }
    if after.castling_rights.spec_has(2) {
        assert(from != 4 && from != 0 && to != 4 && to != 0);
        assert(mb[4] == b.mailbox@[4] && mb[0] == b.mailbox@[0]);
    }
    if after.castling_rights.spec_has(4) {
        assert(from != 60 && from != 63 && to != 60 && to != 63);
        assert(mb[60] == b.mailbox@[60] && mb[63] == b.mailbox@[63]);
    }
    if after.castling_rights.spec_has(8) {
        assert(from != 60 && from != 56 && to != 60 && to != 56);
        assert(mb[60] == b.mailbox@[60] && mb[56] == b.mailbox@[56]);
    }
    match spec_make_ep(b, m) {
        Some(ep) => {
            assert(spec_pawn_double(b, from, to));
            assert(ep.0 as int == from + pawn_step(b.side_to_move));
        },
        None => {},
    }
}

/// All strictly legal moves: pseudo-legal filtered by make/unmake + check test.
pub fn generate_legal(board: &Board) -> (legal: MoveList)
    requires
        board.valid(),
        board.half_move_clock < u32::MAX,
        board.full_move_number < u32::MAX,
    ensures
        forall|i: int| 0 <= i < legal@.len() ==> spec_legal(*board, #[trigger] legal@[i]),
        forall|m: Move| #[trigger] legal@.contains(m) <==> spec_legal(*board, m),
        legal@.no_duplicates(),
{
    let pseudo = generate_pseudo_legal(board);
    let us = board.side_to_move;
    let mut legal = MoveList::new();
    let mut b = *board;
    let n = pseudo.len();
    let mut i: usize = 0;
    while i < n
        invariant
            board.valid(),
            board.half_move_clock < u32::MAX,
            board.full_move_number < u32::MAX,
            b == *board,
            us == board.side_to_move,
            n == pseudo@.len(),
            i <= n,
            forall|k: int| 0 <= k < pseudo@.len() ==> spec_pseudo(*board, #[trigger] pseudo@[k]),
            forall|k: int| 0 <= k < legal@.len() ==> spec_legal(*board, #[trigger] legal@[k]),
            forall|k: int| 0 <= k < i && spec_legal(*board, #[trigger] pseudo@[k]) ==> legal@.contains(pseudo@[k]),
            pseudo@.no_duplicates(),
            legal@.no_duplicates(),
            forall|k: int| 0 <= k < legal@.len() ==> exists|j: int| 0 <= j < i && pseudo@[j] == #[trigger] legal@[k],
        decreases n - i,
    {
        let ghost lprev = legal@;
        let mv = pseudo.get(i);
        proof {
            lemma_pseudo_make_pre(b, mv);
        }
        let ghost prev = b;
        let state = b.make_move(mv);
        let ghost after = b;
        // After make_move, side_to_move is flipped; the king we check is `us`.
        let king_bb = b.piece_bb(us, PieceType::King);
        let legal_move = king_bb != 0 && !b.is_attacked_by(lsb(king_bb), b.side_to_move);
        b.unmake_move(mv, state);
        proof {
            if legal_move {
                assert forall|a2: Board| made(*board, mv, a2) implies king_safe_after(a2, board.side_to_move) by {
                    lemma_made_unique(*board, mv, after, a2);
                }
            }
        }
        if legal_move {
            legal.push(mv);
            proof {
                assert forall|k: int| 0 <= k < lprev.len() implies legal@[k] != mv by {
                    let j = choose|j: int| 0 <= j < i && pseudo@[j] == lprev[k];
                    assert(pseudo@[j] != pseudo@[i as int]);
                }
                assert forall|x: int, y: int| 0 <= x < legal@.len() && 0 <= y < legal@.len() && x != y implies legal@[x]
                    != legal@[y] by {
                    if x < lprev.len() && y < lprev.len() {
                        assert(legal@[x] == lprev[x] && legal@[y] == lprev[y]);
                    }
                }
            }
        }
        proof {
            assert forall|k: int| 0 <= k < legal@.len() implies exists|j: int| 0 <= j < i + 1 && pseudo@[j]
                == #[trigger] legal@[k] by {
                if k < lprev.len() {
                    assert(legal@[k] == lprev[k]);
                    let j = choose|j: int| 0 <= j < i && pseudo@[j] == lprev[k];
                    assert(pseudo@[j] == legal@[k]);
                } else {
                    assert(pseudo@[i as int] == legal@[k]);
                }
            }
            if !legal_move {
                assert(made(*board, mv, after));
                assert(!king_safe_after(after, board.side_to_move));
                assert(!spec_legal(*board, mv));
            }
            assert forall|k: int| 0 <= k < i + 1 && spec_legal(*board, #[trigger] pseudo@[k]) implies legal@.contains(pseudo@[k]) by {
                lemma_push_contains(lprev, mv, pseudo@[k]);
            }
        }
        i = i + 1;
    }
    proof {
        assert forall|m: Move| #[trigger] legal@.contains(m) <==> spec_legal(*board, m) by {
            if spec_legal(*board, m) {
                assert(pseudo@.contains(m));
                let k = choose|k: int| 0 <= k < pseudo@.len() && pseudo@[k] == m;
                assert(spec_legal(*board, pseudo@[k]));
            }
            if legal@.contains(m) {
                let k = choose|k: int| 0 <= k < legal@.len() && legal@[k] == m;
                assert(spec_legal(*board, legal@[k]));
            }
        }
    }
    legal
}

} // verus!
