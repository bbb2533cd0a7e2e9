pub mod types;
pub mod bitboard;
pub mod attacks;
pub mod magic;
pub mod moves;
pub mod zobrist;
pub mod board;
pub mod fen;
pub mod movegen;
pub mod perft;
pub mod san;
