//! Pure decision-making: plain data in, plain data out, no system call.
pub mod identity;
pub mod registry;
pub mod classify;
pub mod url;
pub mod release;
pub mod cpu;
pub mod process;
pub mod ports;
pub mod service;
pub mod telemetry;
