pub mod bool;
pub mod exception;
pub mod f64;
pub mod i64;
pub mod map;
pub mod object;
pub mod string;
