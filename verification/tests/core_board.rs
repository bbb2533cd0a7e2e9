use rchess::chess::bitboard::{popcount, test_bit, EMPTY};
use rchess::chess::attacks::{bishop_attacks, king_attacks, knight_attacks, pawn_attacks, queen_attacks, rook_attacks};
use rchess::chess::board::{Board, STARTING_FEN};
use rchess::chess::fen::FenError;
use rchess::chess::moves::Move;
use rchess::chess::types::{Color, Piece, PieceType, Square};

fn sq(name: &str) -> Square {
    let b = name.as_bytes();
    Square::new(b[0] - b'a', b[1] - b'1')
}

#[test]
fn starting_fen_round_trip() {
    let board = Board::starting_position();
    assert_eq!(board.to_fen(), STARTING_FEN);
}

#[test]
fn piece_counts_starting_position() {
    let b = Board::starting_position();
    assert_eq!(popcount(b.piece_bb(Color::White, PieceType::Pawn)), 8);
    assert_eq!(popcount(b.piece_bb(Color::Black, PieceType::Pawn)), 8);
    assert_eq!(popcount(b.piece_bb(Color::White, PieceType::King)), 1);
    assert_eq!(popcount(b.piece_bb(Color::Black, PieceType::Queen)), 1);
    assert_eq!(popcount(b.piece_bb(Color::White, PieceType::Rook)), 2);
    assert_eq!(popcount(b.piece_bb(Color::Black, PieceType::Knight)), 2);
    assert_eq!(popcount(b.all_occupancy), 32);
}

#[test]
fn mailbox_starting_position() {
    let b = Board::starting_position();
    assert_eq!(b.piece_at(Square::new(4, 0)), Some(Piece::new(Color::White, PieceType::King)));
    assert_eq!(b.piece_at(Square::new(3, 0)), Some(Piece::new(Color::White, PieceType::Queen)));
    assert_eq!(b.piece_at(Square::new(4, 7)), Some(Piece::new(Color::Black, PieceType::King)));
    assert_eq!(b.piece_at(Square::new(4, 3)), None);
}

#[test]
fn occupancy_consistency() {
    let b = Board::starting_position();
    for c in [Color::White, Color::Black] {
        let expected = PieceType::ALL.iter().fold(EMPTY, |acc, &pt| acc | b.piece_bb(c, pt));
        assert_eq!(b.occupancy[c as usize], expected, "occupancy mismatch for {:?}", c);
    }
    assert_eq!(b.all_occupancy, b.occupancy[0] | b.occupancy[1]);
}

#[test]
fn various_fen_round_trips() {
    let positions = [
        "rnbqkbnr/pppppppp/8/8/4P3/8/PPPP1PPP/RNBQKBNR b KQkq e3 0 1",
        "rnbqkbnr/pp1ppppp/8/2p5/4P3/8/PPPP1PPP/RNBQKBNR w KQkq c6 0 2",
        "r1bqkb1r/pp1ppppp/2n2n2/2p5/3PP3/2N2N2/PPP2PPP/R1BQKB1R b KQkq d3 0 4",
        "8/8/8/8/8/8/8/4K3 w - - 0 1",
        "r3k2r/8/8/8/8/8/8/R3K2R w KQkq - 0 1",
        "rnbqkbnr/pppppppp/8/8/8/8/PPPPPPPP/RNBQKBNR w KQkq - 0 1",
    ];
    for fen in &positions {
        let board = match Board::from_fen(fen) {
            Ok(b) => b,
            Err(e) => panic!("parse failed for {fen}: {}", e.message()),
        };
        assert_eq!(&board.to_fen(), fen, "round-trip failed for {fen}");
    }
}

#[test]
fn invalid_fen_errors() {
    assert!(Board::from_fen("").is_err());
    assert!(Board::from_fen("rnbqkbnr/pppppppp/8/8/8/8/PPPPPPPP/RNBQKBNR w KQkq -").is_err());
    assert!(Board::from_fen("rnbqkbnr/pppppppp/8/8/8/8/PPPPPPPP/RNBQKBNR x KQkq - 0 1").is_err());
}

#[test]
fn hash_matches_recomputed_from_fen() {
    for fen in &[
        STARTING_FEN,
        "rnbqkbnr/pppppppp/8/8/4P3/8/PPPP1PPP/RNBQKBNR b KQkq e3 0 1",
        "r3k2r/8/8/8/8/8/8/R3K2R w KQkq - 0 1",
        "8/8/8/8/8/8/3K4/R6R w - - 0 1",
    ] {
        let b = Board::from_fen(fen).unwrap();
        assert_eq!(b.hash, b.compute_hash(), "hash mismatch for {fen}");
    }
}

#[test]
fn hash_make_unmake_roundtrip() {
    let mut b = Board::starting_position();
    let h0 = b.hash;
    let mv = Move::normal(sq("e2"), sq("e4"));
    let state = b.make_move(mv);
    assert_ne!(b.hash, h0, "hash must change after make_move");
    assert_eq!(b.hash, b.compute_hash(), "incremental hash diverged after make_move");
    b.unmake_move(mv, state);
    assert_eq!(b.hash, h0, "hash not restored after unmake_move");
}

#[test]
fn hash_same_position_different_move_order() {
    let fen = "r1bqkb1r/pppp1ppp/2n2n2/4p3/4P3/2N2N2/PPPP1PPP/R1BQKB1R w KQkq - 4 4";

    let mut b1 = Board::from_fen(fen).unwrap();
    b1.make_move(Move::normal(sq("f3"), sq("h4")));
    b1.make_move(Move::normal(sq("c6"), sq("d4")));
    b1.make_move(Move::normal(sq("c3"), sq("d5")));
    b1.make_move(Move::normal(sq("f6"), sq("h5")));

    let mut b2 = Board::from_fen(fen).unwrap();
    b2.make_move(Move::normal(sq("c3"), sq("d5")));
    b2.make_move(Move::normal(sq("f6"), sq("h5")));
    b2.make_move(Move::normal(sq("f3"), sq("h4")));
    b2.make_move(Move::normal(sq("c6"), sq("d4")));

    assert_eq!(b1.to_fen(), b2.to_fen(), "positions must be identical");
    assert_eq!(b1.hash, b2.hash, "Zobrist hash must match for identical positions");
}

#[test]
fn hash_different_positions_differ() {
    let b1 = Board::from_fen(STARTING_FEN).unwrap();
    let b2 = Board::from_fen("rnbqkbnr/pppppppp/8/8/4P3/8/PPPP1PPP/RNBQKBNR b KQkq e3 0 1").unwrap();
    assert_ne!(b1.hash, b2.hash);
}

#[test]
fn put_remove_piece_sync() {
    let mut b = Board::empty();
    let sq = Square::new(4, 4);
    let piece = Piece::new(Color::White, PieceType::Rook);

    b.put_piece(piece, sq);
    assert_eq!(b.piece_at(sq), Some(piece));
    assert!(test_bit(b.piece_bb(Color::White, PieceType::Rook), sq));
    assert!(test_bit(b.occupancy[Color::White as usize], sq));
    assert!(test_bit(b.all_occupancy, sq));

    b.remove_piece(sq);
    assert_eq!(b.piece_at(sq), None);
    assert!(!test_bit(b.piece_bb(Color::White, PieceType::Rook), sq));
    assert!(!test_bit(b.all_occupancy, sq));
}

#[test]
fn fen_errors_name_the_field() {
    let base = ["rnbqkbnr/pppppppp/8/8/8/8/PPPPPPPP/RNBQKBNR", "w", "KQkq", "-", "0", "1"];
    let with = |i: usize, v: &str| {
        let mut f = base.to_vec();
        f[i] = v;
        f.join(" ")
    };
    assert_eq!(Board::from_fen("a b c").unwrap_err(), FenError::WrongFieldCount);
    assert_eq!(Board::from_fen(&with(1, "x")).unwrap_err(), FenError::InvalidSideToMove);
    assert_eq!(Board::from_fen(&with(2, "KX")).unwrap_err(), FenError::InvalidCastling);
    assert_eq!(Board::from_fen(&with(3, "e9")).unwrap_err(), FenError::InvalidEnPassant);
    assert_eq!(Board::from_fen(&with(4, "-1")).unwrap_err(), FenError::InvalidHalfMoveClock);
    assert_eq!(Board::from_fen(&with(5, "4294967296")).unwrap_err(), FenError::InvalidFullMoveNumber);
    assert_eq!(
        Board::from_fen(&with(0, "rnbqkbnr/pppppppp/8/8/8/8/PPPPPPPP")).unwrap_err(),
        FenError::InvalidPiecePlacement("expected 8 rank sections separated by '/'".to_string())
    );
    assert_eq!(
        Board::from_fen(&with(0, "rnbqkbnr/pppppppp/8/8/8/8/PPPPPPPP/RNBQKBNX")).unwrap_err(),
        FenError::InvalidPiecePlacement("unknown piece 'X'".to_string())
    );
    assert_eq!(
        Board::from_fen(&with(0, "rnbqkbnr/pppppppp/8/8/8/8/PPPPPPPP/RNBQKBN")).unwrap_err(),
        FenError::InvalidPiecePlacement("rank 1 has 7 files, expected 8".to_string())
    );
    assert_eq!(
        Board::from_fen(&with(0, "rnbqkbnr/pppppppp/8/8/8/8/PPPPPPPP/8R")).unwrap_err(),
        FenError::InvalidPiecePlacement("file overflow on rank 1".to_string())
    );
}

#[test]
fn fen_accepts_loose_spacing_and_plus_sign() {
    let b = Board::from_fen("  8/8/8/8/8/8/8/4K3\tw  -  -  +7 \u{3000}12 ").unwrap();
    assert_eq!(b.to_fen(), "8/8/8/8/8/8/8/4K3 w - - 7 12");
    assert_eq!(FenError::InvalidSideToMove.message(), "side to move must be 'w' or 'b'");
}

#[test]
fn board_prints_as_a_grid() {
    let b = Board::starting_position();
    let text = b.to_text();
    let lines: Vec<&str> = text.lines().collect();
    assert_eq!(lines[0], "  +---+---+---+---+---+---+---+---+");
    assert_eq!(lines[1], "8 | r | n | b | q | k | b | n | r |");
    assert_eq!(lines[9], "4 | . | . | . | . | . | . | . | . |");
    assert_eq!(lines[13], "2 | P | P | P | P | P | P | P | P |");
    assert_eq!(lines[15], "1 | R | N | B | Q | K | B | N | R |");
    assert_eq!(lines[16], "  +---+---+---+---+---+---+---+---+");
    assert_eq!(lines[17], "    a   b   c   d   e   f   g   h");
    assert_eq!(lines[18], "");
    assert_eq!(lines[19], "  Side to move : White");
    assert_eq!(lines[20], "  Castling     : KQkq");
    assert_eq!(lines[21], "  En passant   : -");
    assert_eq!(lines[22], "  Clocks       : half=0 full=1");
    let e = Board::from_fen("4k3/8/8/3pP3/8/8/8/4K3 w - d6 7 40").unwrap();
    let t = e.to_text();
    assert!(t.ends_with("  En passant   : d6\n  Clocks       : half=7 full=40"));
    assert!(t.contains("  Castling     : -\n"));
}

#[test]
fn attacked_exactly_when_some_piece_attacks() {
    let kinds = [PieceType::Pawn, PieceType::Knight, PieceType::Bishop, PieceType::Rook, PieceType::Queen, PieceType::King];
    for fen in [
        STARTING_FEN,
        "r3k2r/p1ppqpb1/bn2pnp1/3PN3/1p2P3/2N2Q1p/PPPBBPPP/R3K2R w KQkq - 0 1",
        "8/2p5/3p4/KP5r/1R3p1k/8/4P1P1/8 w - - 0 1",
    ] {
        let b = Board::from_fen(fen).unwrap();
        let occ = b.all_occupancy;
        for by in [Color::White, Color::Black] {
            for t in 0u8..64 {
                let mut expected = false;
                for pt in kinds {
                    let bb = b.piece_bb(by, pt);
                    for s in 0u8..64 {
                        if bb & (1u64 << s) != 0 {
                            let sq = Square(s);
                            let att = match pt {
                                PieceType::Pawn => pawn_attacks(by, sq),
                                PieceType::Knight => knight_attacks(sq),
                                PieceType::Bishop => bishop_attacks(sq, occ),
                                PieceType::Rook => rook_attacks(sq, occ),
                                PieceType::Queen => queen_attacks(sq, occ),
                                PieceType::King => king_attacks(sq),
                            };
                            if att & (1u64 << t) != 0 {
                                expected = true;
                            }
                        }
                    }
                }
                assert_eq!(b.is_attacked_by(Square(t), by), expected, "{fen} {t}");
            }
        }
    }
}
