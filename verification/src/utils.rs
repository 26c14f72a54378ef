pub mod map;
pub mod memory;
pub mod mutex;
pub mod socket;
