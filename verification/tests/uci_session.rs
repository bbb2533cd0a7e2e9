use rchess::chess::board::Board;
use rchess::chess::moves::Move;
use rchess::chess::types::{Color, Square};
use rchess::text::str_chars;
use rchess::uci::{
    classify, compute_deadline, parse_go, parse_move, parse_position, GoParams, UciCommand, UciSession,
    MAX_SEARCH_DEPTH,
};

fn chars(s: &str) -> Vec<char> {
    s.chars().collect()
}

#[test]
fn parse_move_matches_legal_moves() {
    let b = Board::starting_position();
    let m = parse_move(&b, &chars("e2e4")).expect("legal");
    assert_eq!(m.to_uci(), "e2e4");
    assert!(parse_move(&b, &chars("e2e5")).is_none());
    assert!(parse_move(&b, &chars("e2")).is_none());
    assert!(parse_move(&b, &chars("z2e4")).is_none());
    // A trailing letter is ignored for a move that is no promotion.
    assert_eq!(parse_move(&b, &chars("g1f3x")).unwrap(), Move::normal(Square(6), Square(21)));
}

#[test]
fn parse_move_promotions_default_to_queen() {
    let b = Board::from_fen("8/P7/8/8/8/8/8/K6k w - - 0 1").unwrap();
    assert_eq!(parse_move(&b, &chars("a7a8")).unwrap().to_uci(), "a7a8q");
    assert_eq!(parse_move(&b, &chars("a7a8q")).unwrap().to_uci(), "a7a8q");
    assert_eq!(parse_move(&b, &chars("a7a8n")).unwrap().to_uci(), "a7a8n");
    assert_eq!(parse_move(&b, &chars("a7a8r")).unwrap().to_uci(), "a7a8r");
    assert_eq!(parse_move(&b, &chars("a7a8b")).unwrap().to_uci(), "a7a8b");
    assert_eq!(parse_move(&b, &chars("a7a8x")).unwrap().to_uci(), "a7a8q");
}

#[test]
fn position_startpos_with_moves() {
    let b = parse_position("position startpos moves e2e4 e7e5 g1f3").expect("valid");
    assert_eq!(b.to_fen(), "rnbqkbnr/pppp1ppp/8/4p3/4P3/5N2/PPPP1PPP/RNBQKB1R b KQkq - 1 2");
    let s = parse_position("position startpos").unwrap();
    assert_eq!(s.to_fen(), Board::starting_position().to_fen());
}

#[test]
fn position_fen_with_moves() {
    let b = parse_position("position fen 8/P7/8/8/8/8/8/K6k w - - 0 1 moves a7a8n").unwrap();
    assert_eq!(b.to_fen(), "N7/8/8/8/8/8/8/K6k b - - 0 1");
    let c = parse_position("position fen  r3k2r/8/8/8/8/8/8/R3K2R w KQkq - 0 1  ").unwrap();
    assert_eq!(c.to_fen(), "r3k2r/8/8/8/8/8/8/R3K2R w KQkq - 0 1");
}

#[test]
fn position_rejects_bad_input() {
    assert!(parse_position("position startpos moves e2e5").is_none());
    assert!(parse_position("position fen not a fen").is_none());
    assert!(parse_position("position middle").is_none());
    assert!(parse_position("startpos").is_none());
    // Castling rights without the rook on its square are refused.
    assert!(parse_position("position fen 4k3/8/8/8/8/8/8/4K3 w K - 0 1").is_none());
}

#[test]
fn go_parameters() {
    let g = parse_go("go wtime 60000 btime 50000 winc 1000 binc 2000 depth 7 infinite");
    assert_eq!(
        g,
        GoParams {
            wtime: Some(60000),
            btime: Some(50000),
            winc: 1000,
            binc: 2000,
            movetime: None,
            depth: Some(7),
            infinite: true,
        }
    );
    let h = parse_go("go movetime abc winc");
    assert_eq!(h.movetime, None);
    assert_eq!(h.winc, 0);
    assert!(!h.infinite);
}

#[test]
fn time_budget() {
    let none = parse_go("go");
    // 30 s default clock: 30000/30 = 1000, less 30 ms overhead.
    assert_eq!(compute_deadline(&none, Color::White, 30), (970, MAX_SEARCH_DEPTH));
    let inc = parse_go("go wtime 60000 btime 3000 winc 2000 binc 0");
    assert_eq!(compute_deadline(&inc, Color::White, 30), (2000 + 1000 - 30, MAX_SEARCH_DEPTH));
    assert_eq!(compute_deadline(&inc, Color::Black, 30), (70, MAX_SEARCH_DEPTH));
    // Almost no time left: capped by the clock less overhead and 10 ms.
    let low = parse_go("go btime 35");
    assert_eq!(compute_deadline(&low, Color::Black, 30), (0, MAX_SEARCH_DEPTH));
    assert_eq!(compute_deadline(&parse_go("go movetime 20"), Color::White, 30), (1, MAX_SEARCH_DEPTH));
    assert_eq!(compute_deadline(&parse_go("go movetime 500"), Color::White, 30), (470, MAX_SEARCH_DEPTH));
    assert_eq!(compute_deadline(&parse_go("go depth 6"), Color::White, 30), (3_600_000, 6));
    assert_eq!(compute_deadline(&parse_go("go infinite depth 6"), Color::White, 30), (3_600_000, MAX_SEARCH_DEPTH));
}

#[test]
fn commands_are_classified() {
    assert_eq!(classify(&str_chars("uci")), UciCommand::Uci);
    assert_eq!(classify(&str_chars("ucinewgame")), UciCommand::NewGame);
    assert_eq!(classify(&str_chars("go depth 1")), UciCommand::Go);
    assert_eq!(classify(&str_chars("position startpos")), UciCommand::Position);
    assert_eq!(classify(&str_chars("setoption name Hash value 1")), UciCommand::SetOption);
    assert_eq!(classify(&str_chars("hello")), UciCommand::Other);
}

#[test]
fn uci_handshake_lines() {
    let mut s = UciSession::new();
    let r = s.respond("uci");
    assert_eq!(r.lines.first().map(String::as_str), Some("id name rchess"));
    assert_eq!(r.lines.last().map(String::as_str), Some("uciok"));
    assert_eq!(r.lines.len(), 10);
    assert!(!r.quit);
    let r = s.respond("  isready ");
    assert_eq!(r.lines, vec!["readyok".to_string()]);
    assert!(s.respond("quit").quit);
}

#[test]
fn session_plays_position_and_go() {
    let mut s = UciSession::new();
    s.respond("setoption name Move Overhead value 5");
    assert_eq!(s.move_overhead_ms, 5);
    s.respond("position startpos moves e2e4");
    assert_eq!(s.board.side_to_move, Color::Black);
    let r = s.respond("go depth 2");
    assert_eq!(r.lines.len(), 1);
    let line = &r.lines[0];
    assert!(line.starts_with("bestmove "));
    let mv = &line["bestmove ".len()..];
    assert!(parse_move(&s.board, &chars(mv)).is_some(), "{line}");
    s.respond("ucinewgame");
    assert_eq!(s.board.to_fen(), Board::starting_position().to_fen());
}

#[test]
fn go_on_mate_answers_null_move() {
    let mut s = UciSession::new();
    s.respond("position fen rnb1kbnr/pppp1ppp/8/4p3/6Pq/5P2/PPPPP2P/RNBQKBNR w KQkq - 1 3");
    let r = s.respond("go movetime 50");
    assert_eq!(r.lines, vec!["bestmove 0000".to_string()]);
}

#[test]
fn go_with_one_legal_move_answers_it() {
    let mut s = UciSession::new();
    s.respond("position fen k7/8/8/8/8/8/1q6/K7 w - - 0 1");
    let r = s.respond("go movetime 50");
    assert_eq!(r.lines, vec!["bestmove a1b2".to_string()]);
}

#[test]
fn every_legal_move_reads_back_from_its_text() {
    for fen in [
        "r3k2r/p1ppqpb1/bn2pnp1/3PN3/1p2P3/2N2Q1p/PPPBBPPP/R3K2R w KQkq - 0 1",
        "8/P7/8/8/8/8/7p/K6k b - - 0 1",
        "rnbqkbnr/ppp1p1pp/8/3pPp2/8/8/PPPP1PPP/RNBQKBNR w KQkq f6 0 3",
    ] {
        let b = Board::from_fen(fen).unwrap();
        for &m in rchess::chess::movegen::generate_legal(&b).as_slice() {
            assert_eq!(parse_move(&b, &chars(&m.to_uci())), Some(m), "{}", m.to_uci());
        }
    }
}

#[test]
fn uci_handshake() {
    let mut s = UciSession::new();
    let out = s.respond("uci").lines.join("\n");
    assert!(out.contains("uciok"), "expected uciok in: {out}");
    assert!(out.contains("id name"), "expected id name in: {out}");
    assert!(s.respond("quit").quit);
}

#[test]
fn isready_response() {
    let mut s = UciSession::new();
    let out = s.respond("isready").lines.join("\n");
    assert!(out.contains("readyok"), "expected readyok in: {out}");
    assert!(s.respond("quit").quit);
}

#[test]
fn bestmove_starting_position() {
    let mut s = UciSession::new();
    s.respond("position startpos");
    let out = s.respond("go movetime 100").lines.join("\n");
    assert!(out.contains("bestmove"), "expected bestmove in: {out}");
}

#[test]
fn time_budget_respected_in_losing_position() {
    let moves = "b1c3 d7d5 d2d4 g8f6 a2a3 c7c5 d4c5 d5d4 c3b1 e7e5 e2e3 f8c5 g1f3 b8c6 c2c3 e8g8 e3d4 e5d4 f1e2 d4d3 d1d3 d8d3 e2d3 f8e8 d3e2 c8f5 b2b4 c5b6 h2h3 f6d5 e1f1 f5b1 a1b1 e8e2 f1e2 d5c3 e2d3 c3b1 c1b2 a8d8 d3e2 d8e8 e2d1 b1a3 b2a3 b6f2 d1c2 e8e3 c2b2 a7a6 h1d1 f2g3 d1d2 h7h5 d2d5 f7f6 b2a2 e3e2 a2b3 e2g2 d5h5 g2f2 f3e1 c6d4 b3c4 d4f5 e1d3 f2c2 c4d5 g7g6 h5f5 g6f5 b4b5 c2c3 h3h4 c3d3 d5e6 d3a3 h4h5 f5f4 e6f5 f4f3";
    let mut s = UciSession::new();
    s.respond(&format!("position startpos moves {moves}"));
    assert_eq!(s.board.side_to_move, Color::White);
    let deadline = std::time::Duration::from_secs(6);
    let t0 = std::time::Instant::now();
    let out = s.respond("go wtime 10549 btime 20420 winc 1000 binc 1000").lines.join("\n");
    let elapsed = t0.elapsed();
    assert!(out.contains("bestmove"), "expected bestmove in output: {out}");
    assert!(elapsed < deadline, "engine took {:.1}s — exceeded {}s limit", elapsed.as_secs_f64(), deadline.as_secs());
}
