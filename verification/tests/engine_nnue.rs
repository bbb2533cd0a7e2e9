use rchess::chess::board::Board;
use rchess::chess::movegen::generate_legal;
use rchess::chess::types::{Color, PieceType, Square};
use rchess::engine::nnue::{
    evaluate, feat_b, feat_w, Accumulator, AccumulatorStack, Nnue, CONCAT, INPUT_SIZE, L1_SIZE, L2_SIZE, L3_SIZE,
    QA, QB,
};

/// Synthetic network with deterministic non-trivial weights.
fn synthetic_nnue() -> Nnue {
    let mut ft_weight = vec![0i16; INPUT_SIZE * L1_SIZE];
    for i in 0..INPUT_SIZE {
        for j in 0..L1_SIZE {
            ft_weight[i * L1_SIZE + j] = (((i * 7 + j * 13) % 9) as i16) - 4; // [-4, 4]
        }
    }
    let ft_bias = vec![30i16; L1_SIZE];
    let mut l1_weight = vec![0i8; L2_SIZE * CONCAT];
    for j in 0..L2_SIZE {
        for i in 0..CONCAT {
            l1_weight[j * CONCAT + i] = (((j * 5 + i * 3) % 5) as i8) - 2; // [-2, 2]
        }
    }
    let l1_bias = vec![QA * QB * 2; L2_SIZE];
    let mut l2_weight = vec![0i8; L3_SIZE * L2_SIZE];
    for j in 0..L3_SIZE {
        for i in 0..L2_SIZE {
            l2_weight[j * L2_SIZE + i] = (((j * 3 + i * 7) % 5) as i8) - 2;
        }
    }
    let l2_bias = vec![QB * QB; L3_SIZE];
    let mut out_weight = vec![0i8; L3_SIZE];
    for i in 0..L3_SIZE {
        out_weight[i] = (i % 3) as i8;
    }
    Nnue { ft_weight, ft_bias, l1_weight, l1_bias, l2_weight, l2_bias, out_weight, out_bias: 0 }
}

#[test]
fn feat_indices_in_range() {
    for pt in PieceType::ALL {
        for color in [Color::White, Color::Black] {
            for sq in 0u8..64 {
                let sq = Square(sq);
                assert!(feat_w(pt, color, sq) < INPUT_SIZE, "feat_w out of range: {pt:?} {color:?} sq={}", sq.0);
                assert!(feat_b(pt, color, sq) < INPUT_SIZE, "feat_b out of range: {pt:?} {color:?} sq={}", sq.0);
            }
        }
    }
}

#[test]
fn feat_w_and_feat_b_differ_for_same_piece() {
    let sq = Square(4);
    assert_ne!(feat_w(PieceType::King, Color::White, sq), feat_b(PieceType::King, Color::White, sq));
}

fn check_incremental_matches_refresh(board: &Board, nn: &Nnue) {
    let mut acc_root = Accumulator::zeroed();
    acc_root.refresh(nn, board);
    for &mv in generate_legal(board).as_slice() {
        let mut acc_incr = acc_root;
        acc_incr.apply_move(nn, board, mv);
        let mut post = *board;
        post.make_move(mv);
        let mut acc_refresh = Accumulator::zeroed();
        acc_refresh.refresh(nn, &post);
        assert_eq!(acc_incr.white, acc_refresh.white, "white accumulator mismatch after {}", mv.to_uci());
        assert_eq!(acc_incr.black, acc_refresh.black, "black accumulator mismatch after {}", mv.to_uci());
    }
}

#[test]
fn incremental_matches_refresh_starting_position() {
    let nn = synthetic_nnue();
    check_incremental_matches_refresh(&Board::starting_position(), &nn);
}

#[test]
fn incremental_matches_refresh_en_passant() {
    let nn = synthetic_nnue();
    let board = Board::from_fen("rnbqkbnr/ppp1p1pp/8/3pPp2/8/8/PPPP1PPP/RNBQKBNR w KQkq f6 0 3").unwrap();
    check_incremental_matches_refresh(&board, &nn);
}

#[test]
fn incremental_matches_refresh_castling() {
    let nn = synthetic_nnue();
    let board = Board::from_fen("r3k2r/pppppppp/8/8/8/8/PPPPPPPP/R3K2R w KQkq - 0 1").unwrap();
    check_incremental_matches_refresh(&board, &nn);
}

#[test]
fn incremental_matches_refresh_promotion() {
    let nn = synthetic_nnue();
    let board = Board::from_fen("8/P7/8/8/8/8/7p/8 w - - 0 1").unwrap();
    check_incremental_matches_refresh(&board, &nn);
}

#[test]
fn stack_pop_restores_previous_state() {
    let nn = synthetic_nnue();
    let board = Board::starting_position();
    let mut stack = AccumulatorStack::new();
    stack.init(&nn, &board);
    let before = *stack.current();
    let mv = generate_legal(&board).as_slice()[0];
    stack.push_move(&nn, &board, mv);
    stack.pop();
    assert_eq!(stack.current().white, before.white, "white not restored after pop");
    assert_eq!(stack.current().black, before.black, "black not restored after pop");
}

#[test]
fn stack_push_matches_apply_move() {
    let nn = synthetic_nnue();
    let board = Board::starting_position();
    let mut stack = AccumulatorStack::new();
    stack.init(&nn, &board);
    let mv = generate_legal(&board).as_slice()[0];
    stack.push_move(&nn, &board, mv);
    let via_stack = *stack.current();
    let mut acc = Accumulator::zeroed();
    acc.refresh(&nn, &board);
    acc.apply_move(&nn, &board, mv);
    assert_eq!(via_stack.white, acc.white);
    assert_eq!(via_stack.black, acc.black);
}

#[test]
fn evaluate_does_not_panic_and_is_finite() {
    let nn = synthetic_nnue();
    for fen in [
        "rnbqkbnr/pppppppp/8/8/8/8/PPPPPPPP/RNBQKBNR w KQkq - 0 1",
        "r3k2r/p1ppqpb1/bn2pnp1/3PN3/1p2P3/2N2Q1p/PPPBBPPP/R3K2R w KQkq - 0 1",
        "8/2p5/3p4/KP5r/1R3p1k/8/4P1P1/8 w - - 0 1",
    ] {
        let board = Board::from_fen(fen).unwrap();
        let score = evaluate(&nn, &board);
        assert!(score.abs() < 30_000, "score={score} looks like garbage for {fen}");
    }
}

#[test]
fn eval_is_negated_for_opposite_stm_symmetric_position() {
    let nn = synthetic_nnue();
    let board = Board::starting_position();
    let mut acc = Accumulator::zeroed();
    acc.refresh(&nn, &board);
    let white_score = acc.evaluate(&nn, Color::White);
    let black_score = acc.evaluate(&nn, Color::Black);
    assert!(white_score.abs() < 30_000, "white_score={white_score}");
    assert!(black_score.abs() < 30_000, "black_score={black_score}");
}

// ── Loading ───────────────────────────────────────────────────────────────────

#[test]
fn from_slice_rejects_bad_magic() {
    let buf = vec![0u8; 8];
    let err = Nnue::from_slice(&buf).err().expect("bad magic must be refused");
    assert_eq!(err.kind(), std::io::ErrorKind::InvalidData);
}

#[test]
fn from_slice_reads_a_full_file() {
    // Magic, then every weight zero except the first feature-transformer bias.
    let mut buf = vec![0u8; rchess::engine::nnue::NNUE_FILE_SIZE];
    buf[0..8].copy_from_slice(b"RNNUE2\0\0");
    let off = 32 + INPUT_SIZE * L1_SIZE * 2;
    buf[off] = 0x34;
    buf[off + 1] = 0x12;
    let nn = Nnue::from_slice(&buf).expect("well-formed file");
    assert_eq!(nn.ft_bias[0], 0x1234);
    assert_eq!(nn.ft_weight.len(), INPUT_SIZE * L1_SIZE);
    assert_eq!(nn.out_bias, 0);
}

#[test]
fn no_embedded_network() {
    assert!(Nnue::load_embedded().is_none());
}
