//! A small NNUE chess engine: weight loading, the NNUE evaluation with its
//! incrementally updated accumulator, an alpha-beta searcher and a UCI
//! front end. The rules of chess (move generation, making moves, FEN) come
//! from the `chess` crate.
pub mod int32;
pub mod position;
pub mod nnue;
pub mod search;
pub mod uci;

pub use nnue::{default_weights, Nnue, NnueAccumulator, NnueWeights};
pub use search::Searcher;
pub use uci::Uci;
