//! What Windows hands over, read without calling Windows.
pub mod control;
pub mod gpu;
pub mod process;
pub mod system;
