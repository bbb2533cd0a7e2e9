pub mod chess;
pub mod engine;
pub mod text;
pub mod utils;
pub mod uci;
pub mod web;
