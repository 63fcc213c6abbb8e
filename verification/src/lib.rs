//! A candidate-filtering engine for a five-letter word-guessing game.
//!
//! A `Word` is an immutable five-letter lowercase sequence with a cached
//! letter-presence bitmap.  A `Filter` accumulates one guess round's
//! per-position verdicts (correct / misplaced / incorrect) into per-letter
//! positional constraints and occurrence bounds.  A `Dictionary` is an
//! ordered word list that a completed `Filter` reduces to the candidates
//! consistent with every recorded verdict.

mod bits;
pub mod dictionary;
pub mod filter;
pub mod laws;
pub mod model;
pub mod word;

pub use dictionary::Dictionary;
pub use filter::Filter;
pub use model::SolverError;
pub use word::Word;
