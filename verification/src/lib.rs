pub mod cursor;
pub mod error;
pub mod parser;
