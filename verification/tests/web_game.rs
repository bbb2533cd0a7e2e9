use rchess::chess::board::Board;
use rchess::chess::types::Color;
use rchess::engine::eval::CHECKMATE_SCORE;
use rchess::web::{
    color_str, make_engine, parse_color, parse_depth, parse_engine_type, parse_randomness, pt_str, Game, GameEngine,
    Status,
};
use rchess::chess::types::PieceType;

fn game_from(fen: &str, human: Color, engine: &str) -> Game {
    Game::from_board(human, engine, 2, false, 30, false, None, Board::from_fen(fen).unwrap())
}

#[test]
fn new_game_shows_the_start() {
    let g = Game::new(Color::White);
    let s = g.to_response(false);
    assert_eq!(s.board.len(), 64);
    assert_eq!(s.board[4].as_ref().unwrap().piece_type, "king");
    assert_eq!(s.board[4].as_ref().unwrap().color, "white");
    assert!(s.board[20].is_none());
    assert_eq!(s.legal_moves.len(), 20);
    assert_eq!(s.status, "playing");
    assert_eq!(s.winner, None);
    assert_eq!(s.side_to_move, "white");
    assert_eq!(s.human_color, "white");
    assert_eq!(s.engine_name, "Alpha-Beta (d=9)");
    assert_eq!(s.engine_type, "alpha-beta");
    assert_eq!(s.depth, 9);
    assert!(s.use_book);
    assert_eq!(s.randomness, 30);
    assert!(!s.use_nnue);
    assert_eq!(s.eval, 0);
    assert_eq!(s.fen, "rnbqkbnr/pppppppp/8/8/8/8/PPPPPPPP/RNBQKBNR w KQkq - 0 1");
}

#[test]
fn human_move_is_played_and_recorded() {
    let mut g = Game::new(Color::White);
    g.human_move(12, 28, None); // e2e4
    assert_eq!(g.history.len(), 1);
    assert_eq!(g.history[0].uci, "e2e4");
    assert_eq!(g.history[0].san, "e4");
    assert!(!g.history[0].from_book);
    assert_eq!(g.last_move, Some((12, 28)));
    assert_eq!(g.board.side_to_move, Color::Black);
    // Not the human's turn now: refused.
    g.human_move(52, 36, None);
    assert_eq!(g.history.len(), 1);
    // An illegal request is refused.
    let mut h = Game::new(Color::White);
    h.human_move(12, 36, None);
    assert_eq!(h.history.len(), 0);
}

#[test]
fn promotion_requests() {
    let mut g = game_from("8/P7/8/8/8/8/8/K6k w - - 0 1", Color::White, "random");
    g.human_move(48, 56, None); // a promotion needs a piece
    assert_eq!(g.history.len(), 0);
    g.human_move(48, 56, Some("n".to_string()));
    assert_eq!(g.history[0].uci, "a7a8n");
    assert_eq!(g.history[0].san, "a8=N");
}

#[test]
fn engine_answers_and_keeps_score() {
    let mut g = Game::new(Color::Black);
    g.engine = make_engine("alpha-beta", 2, false, 0, None);
    g.engine_move();
    assert_eq!(g.history.len(), 1);
    assert_eq!(g.board.side_to_move, Color::Black);
    assert!(g.engine_eval.is_some());
    // Now it is the human's turn: the engine does not move.
    g.engine_move();
    assert_eq!(g.history.len(), 1);
}

#[test]
fn checkmate_and_undo() {
    // Fool's mate: after f3 e5 g4, Black mates with Qh4.
    let mut g = game_from("rnbqkbnr/pppp1ppp/8/4p3/6P1/5P2/PPPPP2P/RNBQKBNR b KQkq g3 0 2", Color::Black, "random");
    g.human_move(59, 31, None);
    assert_eq!(g.status, Status::Checkmate { winner: Color::Black });
    let s = g.to_response(true);
    assert_eq!(s.status, "checkmate");
    assert_eq!(s.winner.as_deref(), Some("black"));
    assert!(s.legal_moves.is_empty());
    assert!(s.in_check);
    assert_eq!(s.eval, -CHECKMATE_SCORE);
    assert!(s.nnue_available);
    g.undo();
    assert_eq!(g.status, Status::Playing);
    assert_eq!(g.history.len(), 0);
    assert_eq!(g.last_move, None);
    assert_eq!(g.board.to_fen(), "rnbqkbnr/pppp1ppp/8/4p3/6P1/5P2/PPPPP2P/RNBQKBNR b KQkq g3 0 2");
}

#[test]
fn undo_takes_back_two_plies() {
    let mut g = Game::new(Color::White);
    g.engine = GameEngine::Random(rchess::engine::random::RandomEngine::new());
    g.human_move(12, 28, None);
    g.engine_move();
    g.human_move(11, 27, None); // d2d4 unless blocked; either way at least two plies
    let n = g.history.len();
    assert!(n >= 2);
    g.undo();
    assert_eq!(g.history.len(), n - 2);
    let expected = if n - 2 == 0 { None } else { Some((12, 28)) };
    assert_eq!(g.last_move, expected);
    assert_eq!(g.engine_eval, None);
}

#[test]
fn resign_ends_the_game() {
    let mut g = Game::new(Color::White);
    g.resign();
    assert_eq!(g.status, Status::Resigned { loser: Color::White });
    let s = g.to_response(false);
    assert_eq!(s.status, "resigned");
    assert_eq!(s.winner.as_deref(), Some("black"));
    assert_eq!(s.eval, -CHECKMATE_SCORE);
}

#[test]
fn stalemate_is_detected() {
    let g = game_from("k7/2Q5/1K6/8/8/8/8/8 b - - 0 1", Color::White, "random");
    assert_eq!(g.status, Status::Stalemate);
    assert_eq!(g.eval(), 0);
}

#[test]
fn restart_and_load_fen() {
    let mut g = Game::new(Color::White);
    g.human_move(12, 28, None);
    g.restart(Color::Black, "random", 3, false, 10, false, None);
    assert_eq!(g.human_color, Color::Black);
    assert_eq!(g.history.len(), 0);
    assert_eq!(g.to_response(false).engine_name, "RandomEngine");
    g.load_fen("8/8/8/8/8/8/3K4/R6R w - - 0 1", Color::White, "alpha-beta", 4, true, 5, false, None);
    assert_eq!(g.board.to_fen(), "8/8/8/8/8/8/3K4/R6R w - - 0 1");
    assert_eq!(g.to_response(false).engine_name, "Alpha-Beta (d=4)");
    // A bad FEN keeps the game.
    g.load_fen("not a fen", Color::Black, "random", 1, false, 0, false, None);
    assert_eq!(g.board.to_fen(), "8/8/8/8/8/8/3K4/R6R w - - 0 1");
}

#[test]
fn request_parameters() {
    assert_eq!(parse_color(Some("black")), Color::Black);
    assert_eq!(parse_color(Some("blue")), Color::White);
    assert_eq!(parse_color(None), Color::White);
    assert_eq!(parse_engine_type(Some("random")), "random");
    assert_eq!(parse_engine_type(Some("x")), "alpha-beta");
    assert_eq!(parse_depth(None), 9);
    assert_eq!(parse_depth(Some(0)), 1);
    assert_eq!(parse_depth(Some(99)), 15);
    assert_eq!(parse_randomness(None), 30);
    assert_eq!(parse_randomness(Some(250)), 100);
    assert_eq!(color_str(Color::Black), "black");
    assert_eq!(pt_str(PieceType::Knight), "knight");
}
