use rchess::chess::board::Board;
use rchess::chess::movegen::{generate_legal, generate_pseudo_legal};

fn board(fen: &str) -> Board {
    Board::from_fen(fen).expect("valid FEN")
}

#[test]
fn start_has_20_legal_moves() {
    let b = board("rnbqkbnr/pppppppp/8/8/8/8/PPPPPPPP/RNBQKBNR w KQkq - 0 1");
    assert_eq!(generate_legal(&b).len(), 20);
}

#[test]
fn kiwipete_has_48_legal_moves() {
    let b = board("r3k2r/p1ppqpb1/bn2pnp1/3PN3/1p2P3/2N2Q1p/PPPBBPPP/R3K2R w KQkq - 0 1");
    assert_eq!(generate_legal(&b).len(), 48);
}

#[test]
fn pos3_d1_has_14_moves() {
    let b = board("8/2p5/3p4/KP5r/1R3p1k/8/4P1P1/8 w - - 0 1");
    assert_eq!(generate_legal(&b).len(), 14);
}

#[test]
fn make_unmake_restores_fen() {
    let fen = "r3k2r/p1ppqpb1/bn2pnp1/3PN3/1p2P3/2N2Q1p/PPPBBPPP/R3K2R w KQkq - 0 1";
    let mut b = board(fen);
    let moves = generate_legal(&b);
    for &mv in moves.as_slice() {
        let state = b.make_move(mv);
        b.unmake_move(mv, state);
        assert_eq!(b.to_fen(), fen, "make/unmake broke FEN for move {}", mv.to_uci());
    }
}

#[test]
fn no_legal_moves_in_stalemate() {
    let b = board("k7/2Q5/1K6/8/8/8/8/8 b - - 0 1");
    assert_eq!(generate_legal(&b).len(), 0);
}

#[test]
fn promotion_count() {
    let b = board("8/P7/8/8/8/8/8/7K w - - 0 1");
    let moves = generate_legal(&b);
    let promos = moves.as_slice().iter().filter(|m| m.is_promo()).count();
    assert_eq!(promos, 4);
}

#[test]
fn en_passant_move_generated() {
    let b = board("rnbqkbnr/ppp1pppp/8/3pP3/8/8/PPPP1PPP/RNBQKBNR w KQkq d6 0 2");
    let moves = generate_legal(&b);
    let ep = moves.as_slice().iter().filter(|m| m.is_en_passant()).count();
    assert_eq!(ep, 1);
}

#[test]
fn pseudo_legal_includes_moves_into_check() {
    // The pinned knight on e2 has pseudo-legal moves but no legal ones.
    let b = board("4r2k/8/8/8/8/8/4N3/4K3 w - - 0 1");
    let pseudo = generate_pseudo_legal(&b);
    let legal = generate_legal(&b);
    assert!(pseudo.as_slice().iter().any(|m| m.from_sq().0 == 12));
    assert!(!legal.as_slice().iter().any(|m| m.from_sq().0 == 12));
}

#[test]
fn castling_through_check_is_refused() {
    // A black rook on f8 covers f1: white may castle queenside only.
    let b = board("5r1k/8/8/8/8/8/8/R3K2R w KQ - 0 1");
    let legal = generate_legal(&b);
    let castles: Vec<String> = legal.as_slice().iter().filter(|m| m.is_castling()).map(|m| m.to_uci()).collect();
    assert_eq!(castles, vec!["e1c1".to_string()]);
}
