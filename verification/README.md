# tinyccrl_engine

A small NNUE chess engine written in Verus: the network's weight format, its
evaluation with an incrementally updated accumulator, an alpha-beta search
and a UCI front end, with their behaviour stated in contracts and proved.
The rules of chess (legal moves, making moves, FEN, Zobrist keys) come from
the `chess` crate, called through a few trusted wrappers in
`src/position.rs`. Positions travel through the library as FEN text, so
that every contract speaks of the position itself: the wrappers' results
are named functions of that text (`successors_of`, `checker_count`,
`null_move_of`, `fen_parses`), and the squares and side that the evaluation
reads are parsed from it by verified code, as the crate's FEN reader reads
them. Text is handed to the crate only when the side to move has a king
wherever that reader accepts it (`fen_safe`): without one, the crate's
board setup reads outside its tables. The Zobrist key of a board is not
named: the crate makes its tables with a random generator that differs
between build machines, so the search is stated for whatever key comes
back.

- `src/int32.rs` — `i32` arithmetic that wraps modulo 2^32.
- `src/position.rs` — pieces, moves, the 64-square position the evaluation
  reads (parsed from FEN), and the calls into `chess`.
- `src/nnue.rs` — weights and their binary format, the accumulator, the
  dense layers; laws: incremental update equals recomputation, evaluation
  through the accumulator, zero weights, colour symmetry.
- `src/search.rs` — stable move ordering, the transposition table,
  negamax with quiescence, iterative deepening, each stated step by step
  as a relation between the searcher before and after (`negamax_search`,
  `quiescence_value`, `deepening`); laws: the chosen move is
  one of the position's legal moves (and there is none exactly when it has
  none), the node budget holds, the table reads back what was stored.
- `src/uci.rs` — words of a command line, numbers, and the UCI commands;
  `go` searches the set-up position after its move words.
- `app/` — the program: reads the weights file and standard input, prints
  the answers (and the browser entry points for the WebAssembly build).
