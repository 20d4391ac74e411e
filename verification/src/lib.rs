//! Legal-move generation for a checkers-like game on an 8x8 board:
//! simple diagonal steps for men and kings, and recursive enumeration of
//! all maximal capture sequences (chained jumps included).

pub mod board;
pub mod capture;
pub mod moves;
pub mod piece;
pub mod player;
pub mod position;
