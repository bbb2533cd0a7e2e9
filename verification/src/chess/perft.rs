//! Move-path enumeration, the standard correctness benchmark of a move generator.
use vstd::prelude::*;
use super::board::{Board, made, make_pre, reversible, spec_state};
use super::movegen::{generate_legal, spec_legal, spec_pseudo, lemma_pseudo_make_pre, lemma_make_valid};
use super::moves::Move;
use super::san::board_after;
use super::board::lemma_made_unique;

verus! {

/// The move counters leave room for `depth` more plies.
pub open spec fn counters_fit(b: Board, depth: int) -> bool {
    &&& b.half_move_clock + depth <= u32::MAX
    &&& b.full_move_number + depth <= u32::MAX
}

/// Playing a legal move of a valid board: `make_move` may be called, its result
/// is valid, each counter grows by at most one, and `unmake_move` restores `b`.
pub proof fn lemma_legal_step(b: Board, m: Move, after: Board)
    requires
        b.valid(),
        spec_pseudo(b, m),
        b.half_move_clock < u32::MAX,
        b.full_move_number < u32::MAX,
        made(b, m, after),
    ensures
        after.valid(),
        after.half_move_clock <= b.half_move_clock + 1,
        after.full_move_number <= b.full_move_number + 1,
        make_pre(b, m),
        reversible(b, m),
{
    lemma_pseudo_make_pre(b, m);
    lemma_make_valid(b, m, after);
}

// ── Counting move paths ───────────────────────────────────────────────────────

/// The number of legal move sequences of `depth` plies from `b`.
pub open spec fn spec_perft(b: Board, depth: nat) -> nat
    decreases depth, 0x10001nat,
{
    if depth == 0 {
        1
    } else {
        perft_sum(b, depth, 0x10000)
    }
}

/// The move paths of `depth` plies from `b` whose first move has a code below `k`.
pub open spec fn perft_sum(b: Board, depth: nat, k: nat) -> nat
    decreases depth, k,
{
    if depth == 0 || k == 0 {
        0
    } else {
        let m = Move((k - 1) as u16);
        perft_sum(b, depth, (k - 1) as nat) + if spec_legal(b, m) {
            spec_perft(board_after(b, m), (depth - 1) as nat)
        } else {
            0
        }
    }
}

/// `x`, or `u64::MAX` when it is larger.
pub open spec fn saturate(x: nat) -> u64 {
    if x > u64::MAX {
        u64::MAX
    } else {
        x as u64
    }
}

/// The paths counted below each move of `l`, summed.
pub open spec fn paths_of(b: Board, depth: nat, l: Seq<Move>) -> nat
    decreases l.len(),
{
    if l.len() == 0 {
        0
    } else {
        paths_of(b, depth, l.drop_last()) + spec_perft(board_after(b, l.last()), depth)
    }
}

/// `paths_of` restricted to the moves of `l` whose code is below `k`.
pub open spec fn paths_below(b: Board, depth: nat, l: Seq<Move>, k: nat) -> nat
    decreases l.len(),
{
    if l.len() == 0 {
        0
    } else {
        paths_below(b, depth, l.drop_last(), k) + if l.last().0 < k {
            spec_perft(board_after(b, l.last()), depth)
        } else {
            0
        }
    }
}

/// One more code admits exactly the move with that code, if `l` lists it.
proof fn lemma_paths_below_step(b: Board, depth: nat, l: Seq<Move>, k: nat)
    requires
        l.no_duplicates(),
        k < 0x10000,
    ensures
        paths_below(b, depth, l, k + 1) == paths_below(b, depth, l, k) + if l.contains(Move(k as u16)) {
            spec_perft(board_after(b, Move(k as u16)), depth)
        } else {
            0
        },
    decreases l.len(),
{
    if l.len() > 0 {
        let rest = l.drop_last();
        assert(rest.no_duplicates()) by {
            assert forall|i: int, j: int| 0 <= i < rest.len() && 0 <= j < rest.len() && i != j implies rest[i] != rest[j] by {
                assert(rest[i] == l[i] && rest[j] == l[j]);
            }
        }
        lemma_paths_below_step(b, depth, rest, k);
        let x = l.last();
        if x.0 == k {
            assert(x == Move(k as u16));
            assert(!rest.contains(x)) by {
                if rest.contains(x) {
                    let i = choose|i: int| 0 <= i < rest.len() && rest[i] == x;
                    assert(l[i] == l[l.len() - 1]);
                }
            }
            assert(l.contains(x)) by {
                assert(l[l.len() - 1] == x);
            }
        } else {
            assert(l.contains(Move(k as u16)) == rest.contains(Move(k as u16))) by {
                if l.contains(Move(k as u16)) {
                    let i = choose|i: int| 0 <= i < l.len() && l[i] == Move(k as u16);
                    assert(i < l.len() - 1);
                    assert(rest[i] == l[i]);
                }
                if rest.contains(Move(k as u16)) {
                    let i = choose|i: int| 0 <= i < rest.len() && rest[i] == Move(k as u16);
                    assert(l[i] == rest[i]);
                }
            }
        }
    }
}

/// Below code 0 nothing is counted.
proof fn lemma_paths_below_zero(b: Board, depth: nat, l: Seq<Move>)
    ensures
        paths_below(b, depth, l, 0) == 0,
    decreases l.len(),
{
    if l.len() > 0 {
        lemma_paths_below_zero(b, depth, l.drop_last());
    }
}

/// Every code is below `0x10000`.
proof fn lemma_paths_below_all(b: Board, depth: nat, l: Seq<Move>)
    ensures
        paths_below(b, depth, l, 0x10000) == paths_of(b, depth, l),
    decreases l.len(),
{
    if l.len() > 0 {
        lemma_paths_below_all(b, depth, l.drop_last());
    }
}

/// The moves of `l` with code below `k` count the paths through the legal moves
/// with such codes.
proof fn lemma_paths_below_codes(b: Board, depth: nat, l: Seq<Move>, k: nat)
    requires
        k <= 0x10000,
        l.no_duplicates(),
        forall|m: Move| #[trigger] l.contains(m) <==> spec_legal(b, m),
    ensures
        paths_below(b, depth, l, k) == perft_sum(b, depth + 1, k),
    decreases k,
{
    if k == 0 {
        lemma_paths_below_zero(b, depth, l);
    } else {
        let c = (k - 1) as nat;
        lemma_paths_below_codes(b, depth, l, c);
        lemma_paths_below_step(b, depth, l, c);
        assert(l.contains(Move(c as u16)) == spec_legal(b, Move(c as u16)));
    }
}

/// Summing over a list of exactly the legal moves, each once, counts the paths.
pub proof fn lemma_paths_of_legal(b: Board, depth: nat, l: Seq<Move>)
    requires
        l.no_duplicates(),
        forall|m: Move| #[trigger] l.contains(m) <==> spec_legal(b, m),
    ensures
        paths_of(b, depth, l) == spec_perft(b, depth + 1),
{
    lemma_paths_below_codes(b, depth, l, 0x10000);
    lemma_paths_below_all(b, depth, l);
}

/// With no plies left each move counts once.
proof fn lemma_paths_of_leaves(b: Board, l: Seq<Move>)
    ensures
        paths_of(b, 0, l) == l.len(),
    decreases l.len(),
{
    if l.len() > 0 {
        lemma_paths_of_leaves(b, l.drop_last());
    }
}

/// Count leaf nodes at `depth` from `board`.
///
/// Depth 0 returns 1 (the position itself). Depth 1 counts the legal moves.
/// The board is left as it was. Sums saturate at `u64::MAX`.
pub fn perft(board: &mut Board, depth: u32) -> (r: u64)
    requires
        old(board).valid(),
        counters_fit(*old(board), depth as int),
    ensures
        *final(board) == *old(board),
        r == saturate(spec_perft(*old(board), depth as nat)),
    decreases depth,
{
    if depth == 0 {
        return 1;
    }
    let moves = generate_legal(board);
    proof {
        lemma_paths_of_legal(*board, (depth - 1) as nat, moves@);
    }
    if depth == 1 {
        proof {
            lemma_paths_of_leaves(*board, moves@);
        }
        return moves.len() as u64;
    }
    let ghost b0 = *board;
    let mut total: u64 = 0;
    let mut i: usize = 0;
    while i < moves.len()
        invariant
            *board == b0,
            b0.valid(),
            counters_fit(b0, depth as int),
            depth >= 2,
            i <= moves@.len(),
            forall|k: int| 0 <= k < moves@.len() ==> spec_legal(b0, #[trigger] moves@[k]),
            total == saturate(paths_of(b0, (depth - 1) as nat, moves@.subrange(0, i as int))),
        decreases moves@.len() - i,
    {
        let mv = moves.get(i);
        assert(spec_legal(b0, moves@[i as int]));
        let state = board.make_move(mv);
        proof {
            lemma_legal_step(b0, mv, *board);
            lemma_made_unique(b0, mv, *board, board_after(b0, mv));
        }
        let n = perft(board, depth - 1);
        board.unmake_move(mv, state);
        total = total.saturating_add(n);
        proof {
            let pre = moves@.subrange(0, i as int);
            let next = moves@.subrange(0, i + 1);
            assert(next.drop_last() =~= pre);
            assert(next.last() == mv);
        }
        i = i + 1;
    }
    proof {
        assert(moves@.subrange(0, moves@.len() as int) =~= moves@);
    }
    total
}

/// Perft split by first move: each legal move with the number of paths below
/// it (one ply less, at least none), and their total.
pub fn perft_divide(board: &mut Board, depth: u32) -> (r: (Vec<(Move, u64)>, u64))
    requires
        old(board).valid(),
        counters_fit(*old(board), if depth == 0 { 1 } else { depth as int }),
    ensures
        *final(board) == *old(board),
        r.0@.len() == generate_count(*old(board)),
        forall|i: int| 0 <= i < r.0@.len() ==> spec_legal(*old(board), (#[trigger] r.0@[i]).0) && r.0@[i].1
            == saturate(spec_perft(board_after(*old(board), r.0@[i].0), (if depth == 0 { 0 } else { depth - 1 }) as nat)),
        forall|m: Move| spec_legal(*old(board), m) ==> exists|i: int| 0 <= i < r.0@.len() && (#[trigger] r.0@[i]).0 == m,
        forall|i: int, j: int| 0 <= i < j < r.0@.len() ==> r.0@[i].0 != r.0@[j].0,
        r.1 == saturate(spec_perft(*old(board), (if depth == 0 { 1 } else { depth }) as nat)),
{
    let moves = generate_legal(board);
    let sub: u32 = if depth == 0 { 0 } else { depth - 1 };
    let ghost b0 = *board;
    proof {
        lemma_paths_of_legal(b0, sub as nat, moves@);
        lemma_moves_counted(b0, moves@);
    }
    let mut out: Vec<(Move, u64)> = Vec::new();
    let mut total: u64 = 0;
    let mut i: usize = 0;
    while i < moves.len()
        invariant
            *board == b0,
            b0.valid(),
            counters_fit(b0, sub as int + 1),
            i <= moves@.len(),
            forall|k: int| 0 <= k < moves@.len() ==> spec_legal(b0, #[trigger] moves@[k]),
            out@.len() == i,
            forall|k: int| 0 <= k < i ==> (#[trigger] out@[k]).0 == moves@[k] && out@[k].1 == saturate(
                spec_perft(board_after(b0, moves@[k]), sub as nat),
            ),
            total == saturate(paths_of(b0, sub as nat, moves@.subrange(0, i as int))),
        decreases moves@.len() - i,
    {
        let mv = moves.get(i);
        assert(spec_legal(b0, moves@[i as int]));
        let state = board.make_move(mv);
        proof {
            lemma_legal_step(b0, mv, *board);
            lemma_made_unique(b0, mv, *board, board_after(b0, mv));
        }
        let nodes = perft(board, sub);
        board.unmake_move(mv, state);
        out.push((mv, nodes));
        total = total.saturating_add(nodes);
        proof {
            let pre = moves@.subrange(0, i as int);
            let next = moves@.subrange(0, i + 1);
            assert(next.drop_last() =~= pre);
            assert(next.last() == mv);
        }
        i = i + 1;
    }
    proof {
        assert(moves@.subrange(0, moves@.len() as int) =~= moves@);
        assert forall|m: Move| spec_legal(b0, m) implies exists|k: int| 0 <= k < out@.len() && (#[trigger] out@[k]).0
            == m by {
            assert(moves@.contains(m));
            let k = choose|k: int| 0 <= k < moves@.len() && moves@[k] == m;
            assert(out@[k].0 == m);
        }
        assert forall|x: int, y: int| 0 <= x < y < out@.len() implies out@[x].0 != out@[y].0 by {
            assert(out@[x].0 == moves@[x] && out@[y].0 == moves@[y]);
        }
    }
    (out, total)
}

/// The number of legal moves of `b`.
pub open spec fn generate_count(b: Board) -> nat {
    perft_sum(b, 1, 0x10000)
}

/// A list of exactly the legal moves, each once, is as long as `generate_count`.
pub proof fn lemma_moves_counted(b: Board, l: Seq<Move>)
    requires
        l.no_duplicates(),
        forall|m: Move| #[trigger] l.contains(m) <==> spec_legal(b, m),
    ensures
        l.len() == generate_count(b),
{
    lemma_paths_of_legal(b, 0, l);
    lemma_paths_of_leaves(b, l);
}

} // verus!
