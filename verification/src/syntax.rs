pub mod parser;
pub mod pretty;
