//! A generalized tic-tac-toe engine: a board model with legality and
//! terminal-state checks, and an exhaustive minimax search over it.
pub mod board;
pub mod evaluation;
pub mod prune;
pub mod size;
pub mod tile;
pub mod tilecollection;
pub mod trace;
pub mod tree;
pub mod turn;

pub use board::Board;
pub use evaluation::Evaluation;
pub use prune::Prune;
pub use size::Size;
pub use tile::Tile;
pub use tilecollection::Position;
pub use trace::Trace;
pub use turn::Turn;
