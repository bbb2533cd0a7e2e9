use rchess::chess::board::Board;
use rchess::chess::movegen::generate_legal;
use rchess::engine::alpha_beta::{AlphaBetaEngine, NEG_INF};
use rchess::engine::random::RandomEngine;
use rchess::engine::time_manager::TimeManager;
use rchess::engine::Engine;

fn board(fen: &str) -> Board {
    Board::from_fen(fen).unwrap()
}

#[test]
fn returns_a_move_from_starting_position() {
    let b = Board::starting_position();
    let mut engine = AlphaBetaEngine::new();
    assert!(engine.choose_move(&b).is_some());
}

#[test]
fn returns_none_when_already_mated() {
    let b = board("rnb1kbnr/pppp1ppp/8/4p3/6Pq/5P2/PPPPP2P/RNBQKBNR w KQkq - 1 3");
    let mut engine = AlphaBetaEngine::new();
    assert!(engine.choose_move(&b).is_none());
}

#[test]
fn finds_checkmate_in_one() {
    let b = board("rnbqkbnr/pppp1ppp/8/4p3/6P1/5P2/PPPPP2P/RNBQKBNR b KQkq g3 0 2");
    let mut engine = AlphaBetaEngine::with_depth(2);
    let mv = engine.choose_move(&b).expect("engine must return a move");
    let mut b2 = b;
    b2.make_move(mv);
    assert!(b2.is_in_check(), "engine's move must give check");
    assert!(generate_legal(&b2).is_empty(), "engine's move must be checkmate");
}

#[test]
fn finds_checkmate_in_two() {
    let b = board("r1bqkb1r/pppp1ppp/2n2n2/4p2Q/2B1P3/8/PPPP1PPP/RNB1K1NR w KQkq - 4 4");
    let mut engine = AlphaBetaEngine::with_depth(4);
    let mv = engine.choose_move(&b).expect("engine must return a move");
    let mut b2 = b;
    b2.make_move(mv);
    assert!(b2.is_in_check() || !generate_legal(&b2).is_empty());
}

// ── Engine settings ───────────────────────────────────────────────────────────

#[test]
fn engine_names_its_depth() {
    let mut engine = AlphaBetaEngine::with_depth(7);
    assert_eq!(engine.name(), "Alpha-Beta (d=7)");
    engine.set_depth(0);
    assert_eq!(engine.depth, 1);
    assert_eq!(engine.name(), "Alpha-Beta (d=1)");
    assert_eq!(AlphaBetaEngine::new().depth, 5);
}

#[test]
fn search_reports_its_score_and_nodes() {
    let b = Board::starting_position();
    let mut engine = AlphaBetaEngine::with_depth(2);
    assert_eq!(engine.last_score(), None);
    assert!(!engine.last_was_book());
    engine.choose_move(&b).unwrap();
    let score = engine.last_score().expect("a completed search has a score");
    assert!(score.abs() < 1_000);
    assert!(engine.nodes_searched() > 20);
}

#[test]
fn timed_search_returns_a_legal_move() {
    let b = Board::starting_position();
    let mut engine = AlphaBetaEngine::with_depth(20);
    let mv = engine
        .choose_move_timed(&b, TimeManager::from_movetime(100), &[])
        .expect("a move within the time");
    let legal = generate_legal(&b);
    assert!(legal.as_slice().contains(&mv));
}

#[test]
fn timed_search_on_mate_is_none() {
    let b = board("rnb1kbnr/pppp1ppp/8/4p3/6Pq/5P2/PPPPP2P/RNBQKBNR w KQkq - 1 3");
    let mut engine = AlphaBetaEngine::with_depth(3);
    assert!(engine.choose_move_timed(&b, TimeManager::infinite(), &[]).is_none());
}

#[test]
fn random_engine_plays_legal_moves() {
    let mut b = Board::starting_position();
    let mut engine = RandomEngine::new();
    assert_eq!(engine.rng & 1, 1);
    assert_eq!(engine.name(), "RandomEngine");
    assert_eq!(engine.last_score(), None);
    for _ in 0..20 {
        let mv = engine.choose_move(&b).expect("a legal move");
        assert!(generate_legal(&b).as_slice().contains(&mv));
        b.make_move(mv);
        if generate_legal(&b).is_empty() {
            break;
        }
    }
}

#[test]
fn random_engine_steps_its_generator() {
    let b = Board::starting_position();
    let mut engine = RandomEngine { rng: 1 };
    engine.choose_move(&b).unwrap();
    // One xorshift64 step from 1: 1 ^ (1 << 13) = 0x2001; ^ (>> 7) = 0x2041; ^ (<< 17).
    assert_eq!(engine.rng, 0x2041 ^ (0x2041 << 17));
}

#[test]
fn random_engine_on_stalemate_is_none() {
    let b = board("k7/2Q5/1K6/8/8/8/8/8 b - - 0 1");
    let mut engine = RandomEngine::new();
    assert!(engine.choose_move(&b).is_none());
}

#[test]
fn a_move_comes_with_a_completed_score() {
    let b = Board::starting_position();
    let mut engine = AlphaBetaEngine::with_depth(2);
    assert!(engine.choose_move(&b).is_some());
    let s = engine.last_score().expect("a completed depth leaves a score");
    assert!(s != NEG_INF);
    let mut timed = AlphaBetaEngine::with_depth(2);
    assert!(timed.choose_move_timed(&b, TimeManager::infinite(), &[]).is_some());
    assert!(timed.last_score().is_some());
    let mated = board("rnb1kbnr/pppp1ppp/8/4p3/6Pq/5P2/PPPPP2P/RNBQKBNR w KQkq - 1 3");
    assert!(engine.choose_move(&mated).is_none());
    assert_eq!(engine.last_score(), None);
    assert!(timed.choose_move_timed(&mated, TimeManager::infinite(), &[]).is_none());
    assert_eq!(timed.last_score(), None);
}
