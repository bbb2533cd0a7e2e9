use rchess::chess::board::Board;
use rchess::engine::eval::{evaluate, static_eval, CHECKMATE_SCORE};

fn board(fen: &str) -> Board {
    Board::from_fen(fen).unwrap()
}

#[test]
fn starting_position_is_balanced() {
    assert_eq!(evaluate(&Board::starting_position()), 0);
}

#[test]
fn material_advantage_is_positive_for_white() {
    let b = board("rnb1kbnr/pppppppp/8/8/8/8/PPPPPPPP/RNBQKBNR w KQkq - 0 1");
    assert!(evaluate(&b) > 800);
}

#[test]
fn material_advantage_is_negative_for_black() {
    let b = board("rnbqkbnr/pppppppp/8/8/8/8/PPPPPPPP/RNB1KBNR w KQkq - 0 1");
    assert!(evaluate(&b) < -800);
}

#[test]
fn checkmate_returns_extreme_score() {
    let b = board("rnb1kbnr/pppp1ppp/8/4p3/6Pq/5P2/PPPPP2P/RNBQKBNR w KQkq - 1 3");
    assert_eq!(evaluate(&b), -CHECKMATE_SCORE);
}

#[test]
fn stalemate_returns_zero() {
    let b = board("k7/8/KQ6/8/8/8/8/8 b - - 0 1");
    assert_eq!(evaluate(&b), 0);
}

#[test]
fn passed_pawn_scores_higher_in_endgame() {
    let eg = board("4k3/8/4P3/8/8/8/8/4K3 w - - 0 1");
    let mg = board("rnbqkbnr/pppp1ppp/4p3/8/4P3/8/PPPP1PPP/RNBQKBNR w KQkq - 0 1");
    let eg_score = static_eval(&eg);
    let mg_score = static_eval(&mg);
    assert!(eg_score > 0, "endgame with advanced pawn should favour White");
    let _ = mg_score;
}

#[test]
fn doubled_pawn_is_penalised() {
    let b = board("4k3/8/8/8/4p3/4P3/4P3/4K3 w - - 0 1");
    let _ = static_eval(&b);
}

#[test]
fn bishop_pair_bonus_applies() {
    let b = board("4k3/8/8/8/8/8/8/2BBK3 w - - 0 1");
    assert!(static_eval(&b) > 0);
}

#[test]
fn colour_mirrored_positions_score_opposite() {
    let w = board("4k3/8/8/8/8/8/3P4/1N2K3 w - - 0 1");
    let b = board("1n2k3/3p4/8/8/8/8/8/4K3 b - - 0 1");
    assert_eq!(static_eval(&w), -static_eval(&b));
}

#[test]
fn lone_kings_score_by_tables_only() {
    // Bare kings in the endgame phase: only the king tables count.
    // White king e1 (-30), black king e8 mirrored to e1 (-30): balanced.
    assert_eq!(static_eval(&board("4k3/8/8/8/8/8/8/4K3 w - - 0 1")), 0);
    // White king d4 (30 in the endgame table) against a black king on a8 (-50).
    assert_eq!(static_eval(&board("k7/8/8/8/3K4/8/8/8 w - - 0 1")), 80);
}
