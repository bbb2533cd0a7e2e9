# rchess

A chess engine whose rules, move generation, notation, evaluation, search and
protocol handling are written in Verus and proved against their specifications.

## Layout

```
src/
├── chess/      – squares, bitboards, attacks, moves, Zobrist keys, the board
│                 with make/unmake, FEN, legal move generation, perft, SAN
├── engine/     – piece-square tables, static evaluation, NNUE with incremental
│                 accumulators, time management, alpha-beta search, random mover
├── uci.rs      – the UCI protocol: one line in, the answer out
├── web.rs      – the browser game: moves, undo, engine replies, shown state
├── text.rs     – characters, words, numbers, trimming and searching
└── utils.rs    – xorshift64 generator
app/            – the program: the HTTP server (axum/tokio) and the UCI loop on
                  standard input and output
tests/          – tests of the library
```

## Main properties proved

* `generate_legal` lists exactly the legal moves, each once.
* `perft` counts the legal move paths of the given depth.
* Reading back the FEN text of a board gives its position.
* `make_move` / `unmake_move` restore the board; the incremental Zobrist hash
  and bitboards always agree with the squares.
* The incrementally updated NNUE accumulator equals a full refresh.
* Every move the search, the UCI answer or the web game plays is legal; the
  move is the first highest-scoring root move of the last completed depth, and
  a move is owed whenever one is legal and the search saw no stop (the stop
  flag read raised, or the hard deadline passed), which the context records.
  A node's score is the best of its children's negated scores; with no stop
  seen, a mated node scores `-CHECKMATE_SCORE + ply`, a stalemate 0, and a
  repetition or the 50-move rule 0.
* The magic-bitboard tables give exactly the slider attacks of the ray scan.
* A square is attacked exactly when some enemy piece has it among the squares
  its attack query returns (slider rays are symmetric).
* `parse_move` reads back the UCI text of every legal move.
