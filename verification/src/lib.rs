//! A tic-tac-toe engine: a 9-cell board with parsing and rendering, win
//! detection over the 8 winning lines, legal-move enumeration, and a minimax
//! search that classifies any position under perfect play and picks the
//! engine's move for player O.

pub mod board;
pub mod engine;
