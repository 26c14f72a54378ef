pub mod corelib;
pub mod json;
pub mod utils;
