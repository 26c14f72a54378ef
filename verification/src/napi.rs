pub mod module;
pub mod ptr;
pub mod result;
