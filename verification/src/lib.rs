pub mod affine;
pub mod blocks;
pub mod cell;
pub mod config;
pub mod element;
pub mod error;
pub mod exact;
pub mod filter;
pub mod flatten;
pub mod grid;
pub mod library;
pub mod motion;
pub mod number;
pub mod order;
pub mod path;
pub mod point;
pub mod polygon;
pub mod reader;
pub mod round_trip;
pub mod scaling;
pub mod text;
pub mod traits;
pub mod unwind;
pub mod utils;
pub mod validation;
pub mod writer;
