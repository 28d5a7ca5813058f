pub mod bitboard;
pub mod board;
pub mod simulate;
pub mod strategy;

pub use bitboard::Bitboard;
pub use bitboard::Move;
pub use board::Board;
pub use board::Win;
pub use strategy::Evaluator;
pub use strategy::Strategy;
