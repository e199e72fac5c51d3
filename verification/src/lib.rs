//! The rules-and-search core of a checkers (draughts) engine: a packed
//! board, a legal-move and capture-chain generator enforcing the
//! mandatory longest-capture rule, and a fixed-depth minimax search with
//! pluggable static evaluation. Every function's behaviour is stated in
//! its contract and proved; the laws module states the rules that span
//! several functions.
pub mod board;
pub mod board_estimators;
pub mod checkers_utils;
pub mod laws;
pub mod moves;
pub mod pieces;
pub mod players;
pub mod statistics;
