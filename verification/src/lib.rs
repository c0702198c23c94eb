//! FurDB: a small database whose tables pack every entry into a fixed number
//! of bits, column by column, with no header and no delimiter.

pub mod column;
pub mod decimal;
pub mod engine;
pub mod keyed;
pub mod laws;
pub mod operations;
pub mod packing;
pub mod proto;
pub mod response;
pub mod server;
pub mod table;
pub mod text;
pub mod views;
