use rchess::chess::board::Board;
use rchess::chess::movegen::generate_legal;
use rchess::chess::san::move_to_san;

fn board(fen: &str) -> Board {
    Board::from_fen(fen).unwrap()
}

fn san(fen: &str, uci: &str) -> String {
    let b = board(fen);
    let mv = generate_legal(&b).as_slice().iter().find(|m| m.to_uci() == uci).copied().expect("move not found");
    move_to_san(&b, mv)
}

#[test]
fn pawn_push() {
    assert_eq!(san("rnbqkbnr/pppppppp/8/8/8/8/PPPPPPPP/RNBQKBNR w KQkq - 0 1", "e2e4"), "e4");
}

#[test]
fn knight_move() {
    assert_eq!(san("rnbqkbnr/pppppppp/8/8/8/8/PPPPPPPP/RNBQKBNR w KQkq - 0 1", "g1f3"), "Nf3");
}

#[test]
fn pawn_capture() {
    assert_eq!(san("rnbqkbnr/ppp1pppp/8/3p4/4P3/8/PPPP1PPP/RNBQKBNR w KQkq d6 0 2", "e4d5"), "exd5");
}

#[test]
fn castling_kingside() {
    assert_eq!(san("r3k2r/8/8/8/8/8/8/R3K2R w KQkq - 0 1", "e1g1"), "O-O");
}

#[test]
fn castling_queenside() {
    assert_eq!(san("r3k2r/8/8/8/8/8/8/R3K2R w KQkq - 0 1", "e1c1"), "O-O-O");
}

#[test]
fn promotion() {
    assert_eq!(san("8/P7/8/8/8/8/8/7K w - - 0 1", "a7a8q"), "a8=Q");
}

#[test]
fn disambiguation_file() {
    let b = board("8/8/8/8/8/8/3K4/R6R w - - 0 1");
    let mv = generate_legal(&b).as_slice().iter().find(|m| m.to_uci() == "a1d1").copied().unwrap();
    let s = move_to_san(&b, mv);
    assert_eq!(s, "Rad1");
}

#[test]
fn check_suffix() {
    let b = board("rnbqkb1r/pppp1ppp/8/4p2Q/2B1P3/8/PPPP1PPP/RNB1K1NR w KQkq - 2 3");
    let mv = generate_legal(&b).as_slice().iter().find(|m| m.to_uci() == "h5f7").copied().unwrap();
    assert!(move_to_san(&b, mv).ends_with('#'));
}

#[test]
fn disambiguation_rank_and_both() {
    // Rooks on a1 and a5 can both reach a3: the rank tells them apart.
    assert_eq!(san("7k/8/8/R7/8/8/8/R6K w - - 0 1", "a1a3"), "R1a3");
    // Queens on a1, c1 and a3 reach b2: file and rank are both shared.
    assert_eq!(san("6k1/8/8/8/8/Q7/8/Q1Q4K w - - 0 1", "a1b2"), "Qa1b2");
}

#[test]
fn en_passant_and_check() {
    assert_eq!(san("rnbqkbnr/ppp1pppp/8/3pP3/8/8/PPPP1PPP/RNBQKBNR w KQkq d6 0 2", "e5d6"), "exd6");
    assert_eq!(san("4k3/8/8/8/8/8/8/R3K3 w - - 0 1", "a1a8"), "Ra8+");
}
