pub mod board;
pub mod fen;
pub mod generate;
pub mod movegen;
pub mod position;
pub mod render;
pub mod rules;
pub mod text;
pub mod types;
