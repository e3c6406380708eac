pub mod base128;
pub mod base128_decoder;
pub mod bitboard;
pub mod bits;
pub mod constants;
pub mod board;
pub mod book;
pub mod captured;
pub mod cli;
pub mod clock;
pub mod color;
pub mod error;
pub mod eval;
pub mod history;
pub mod linear_eval;
pub mod log;
pub mod mov;
pub mod movegen;
pub mod moves;
pub mod parser;
pub mod piece;
pub mod player;
pub mod position;
pub mod position_text;
pub mod pvtable;
pub mod score;
pub mod search;
pub mod setups;
pub mod smallvec;
pub mod square;
pub mod symmetry;
pub mod text;
pub mod ttable;
pub mod variation;
pub mod wps_diff;
pub mod wps_features;
pub mod zobrist;
