use rchess::chess::board::Board;
use rchess::chess::perft::perft;

fn run(fen: &str, depth: u32, expected: u64) {
    let mut board = match Board::from_fen(fen) {
        Ok(b) => b,
        Err(e) => panic!("bad FEN \"{fen}\": {}", e.message()),
    };
    let before = board.to_fen();
    let got = perft(&mut board, depth);
    assert_eq!(got, expected, "perft({depth}) for \"{fen}\"\n  got {got}, expected {expected}");
    assert_eq!(board.to_fen(), before);
}

const START: &str = "rnbqkbnr/pppppppp/8/8/8/8/PPPPPPPP/RNBQKBNR w KQkq - 0 1";

#[test]
fn perft_start_d1() {
    run(START, 1, 20);
}
#[test]
fn perft_start_d2() {
    run(START, 2, 400);
}
#[test]
fn perft_start_d3() {
    run(START, 3, 8_902);
}
#[test]
fn perft_start_d4() {
    run(START, 4, 197_281);
}

const KIWIPETE: &str = "r3k2r/p1ppqpb1/bn2pnp1/3PN3/1p2P3/2N2Q1p/PPPBBPPP/R3K2R w KQkq - 0 1";

#[test]
fn perft_kiwipete_d1() {
    run(KIWIPETE, 1, 48);
}
#[test]
fn perft_kiwipete_d2() {
    run(KIWIPETE, 2, 2_039);
}
#[test]
fn perft_kiwipete_d3() {
    run(KIWIPETE, 3, 97_862);
}

const POS3: &str = "8/2p5/3p4/KP5r/1R3p1k/8/4P1P1/8 w - - 0 1";

#[test]
fn perft_pos3_d1() {
    run(POS3, 1, 14);
}
#[test]
fn perft_pos3_d2() {
    run(POS3, 2, 191);
}
#[test]
fn perft_pos3_d3() {
    run(POS3, 3, 2_812);
}
#[test]
fn perft_pos3_d4() {
    run(POS3, 4, 43_238);
}

#[test]
fn perft_depth_zero_is_one() {
    run(START, 0, 1);
}

#[test]
fn perft_divide_splits_by_first_move() {
    let mut board = Board::starting_position();
    let (per_move, total) = rchess::chess::perft::perft_divide(&mut board, 3);
    assert_eq!(total, 8902);
    assert_eq!(per_move.len(), 20);
    assert_eq!(per_move.iter().map(|(_, n)| n).sum::<u64>(), 8902);
    let e2e4 = per_move.iter().find(|(m, _)| m.to_uci() == "e2e4").expect("e2e4 listed");
    assert_eq!(e2e4.1, 600);
    assert_eq!(board.to_fen(), Board::starting_position().to_fen());
    // Depth 0 still lists each move once.
    let (zero, total0) = rchess::chess::perft::perft_divide(&mut board, 0);
    assert_eq!(zero.len(), 20);
    assert!(zero.iter().all(|(_, n)| *n == 1));
    assert_eq!(total0, 20);
}
