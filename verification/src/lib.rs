pub mod napi;
pub mod stdlib;
pub mod syntax;
pub mod text;
pub mod utils;
pub mod vm;
