//! A chess move-search engine: NegaMax game-tree search with alpha-beta
//! pruning, null-move pruning, a quiescence extension at the horizon, a
//! static material-and-piece-square evaluation, and a transposition table.
//!
//! The engine is generic over a [`position::Position`]: any game-rules
//! backend that can enumerate moves, apply them and evaluate a position can
//! be searched. Board representation, legality checking and terminal-state
//! detection are the backend's business; the search logic itself lives here.

pub mod bitboard;
pub mod engine;
pub mod engines;
pub mod position;
pub mod tree_game;
